//! The cross-tier call ABI: how a call from emitted code into the interpreter carries its arguments
//! and results through a scratch buffer.
//!
//! Every value takes one eight-byte slot, a `v128` two; the results overlay the arguments.

use vstd::prelude::*;

use crate::bytes::{
    bits_of_i32, bits_of_i64, get_u64_at, i32_bits, i32_of_low, i64_bits, i64_of_bits, le_bytes,
    le_value, lemma_le_bytes_len, lemma_le_round_trip, lemma_pow256_values, low_i32, low_i64,
    put_u64_at, splice,
};
use crate::status::{STATUS_EXIT, STATUS_OK, STATUS_TRAP};

verus! {

/// The type of a guest value.
#[derive(Clone, Copy, Debug, PartialEq, Eq, Structural)]
pub enum ValType {
    I32,
    I64,
    F32,
    F64,
    V128,
    /// A function reference or capability, which no slot can carry.
    Ref,
}

/// A guest value; floats are held by their bits.
#[derive(Clone, Copy, Debug, PartialEq, Eq)]
pub enum Value {
    I32(i32),
    I64(i64),
    F32(u32),
    F64(u64),
    V128([u8; 16]),
    Ref(u64),
}

impl Value {
    /// The type of this value.
    pub open spec fn ty(self) -> ValType {
        match self {
            Value::I32(_) => ValType::I32,
            Value::I64(_) => ValType::I64,
            Value::F32(_) => ValType::F32,
            Value::F64(_) => ValType::F64,
            Value::V128(_) => ValType::V128,
            Value::Ref(_) => ValType::Ref,
        }
    }
}

/// The host's marshalling code of a scalar type: `i32`, `i64`, `f32`, `f64` in this order.
pub open spec fn spec_scalar_type_code(t: ValType) -> Option<u8> {
    match t {
        ValType::I32 => Some(0u8),
        ValType::I64 => Some(1u8),
        ValType::F32 => Some(2u8),
        ValType::F64 => Some(3u8),
        _ => None,
    }
}

/// The marshalling code of `t`, or `None` for a type that is not a scalar.
pub fn scalar_type_code(t: ValType) -> (r: Option<u8>)
    ensures
        r == spec_scalar_type_code(t),
{
    match t {
        ValType::I32 => Some(0),
        ValType::I64 => Some(1),
        ValType::F32 => Some(2),
        ValType::F64 => Some(3),
        _ => None,
    }
}

/// Every type of `ts` is a scalar.
pub open spec fn all_scalar(ts: Seq<ValType>) -> bool {
    forall|i: int| 0 <= i < ts.len() ==> spec_scalar_type_code(#[trigger] ts[i]) is Some
}

/// The codes of `ts`; meaningful where every type is a scalar.
pub open spec fn type_codes(ts: Seq<ValType>) -> Seq<u8> {
    ts.map_values(|t: ValType| spec_scalar_type_code(t)->0)
}

/// The marshalling codes of a signature side, or `None` if some type is not a scalar.
pub fn scalar_type_codes(ts: &[ValType]) -> (r: Option<Vec<u8>>)
    ensures
        r is Some <==> all_scalar(ts@),
        r matches Some(v) ==> v@ == type_codes(ts@),
{
    let mut out: Vec<u8> = Vec::new();
    let mut i: usize = 0;
    while i < ts.len()
        invariant
            i <= ts.len(),
            out@ == type_codes(ts@.take(i as int)),
            all_scalar(ts@.take(i as int)),
        decreases ts.len() - i,
    {
        assert(ts@.take(i as int + 1) =~= ts@.take(i as int).push(ts@[i as int]));
        match scalar_type_code(ts[i]) {
            Some(c) => {
                out.push(c);
            },
            None => {
                return None;
            },
        }
        assert(out@ =~= type_codes(ts@.take(i as int + 1)));
        i = i + 1;
    }
    assert(ts@.take(ts@.len() as int) =~= ts@);
    Some(out)
}

/// The bytes that a value of type `t` takes.
pub open spec fn slot_width(t: ValType) -> nat {
    if t == ValType::V128 {
        16
    } else {
        8
    }
}

/// The offset past the first `n` values of a signature side.
pub open spec fn slot_off(types: Seq<ValType>, n: nat) -> nat
    decreases n,
{
    if n == 0 {
        0
    } else {
        slot_off(types, (n - 1) as nat) + slot_width(types[n - 1])
    }
}

/// The bytes that a signature side spans.
pub open spec fn slot_span(types: Seq<ValType>) -> nat {
    slot_off(types, types.len())
}

/// Later slots start past the end of earlier ones.
pub proof fn lemma_slot_off_mono(types: Seq<ValType>, i: nat, j: nat)
    requires
        i < j,
    ensures
        slot_off(types, i) + slot_width(types[i as int]) <= slot_off(types, j),
    decreases j,
{
    if i + 1 < j {
        lemma_slot_off_mono(types, i, (j - 1) as nat);
    }
}

/// `slot_off` at any position is at most sixteen bytes a value.
pub proof fn lemma_slot_off_bound(types: Seq<ValType>, n: nat)
    ensures
        slot_off(types, n) <= 16 * n,
    decreases n,
{
    if n > 0 {
        lemma_slot_off_bound(types, (n - 1) as nat);
    }
}

/// The running offsets of a signature side's values.
pub fn slot_offs(types: &[ValType]) -> (r: Vec<usize>)
    requires
        slot_span(types@) <= usize::MAX,
    ensures
        r@.len() == types@.len(),
        forall|i: int| 0 <= i < types@.len() ==> #[trigger] r@[i] == slot_off(types@, i as nat),
{
    let mut offs: Vec<usize> = Vec::with_capacity(types.len());
    let mut off: usize = 0;
    let mut i: usize = 0;
    while i < types.len()
        invariant
            i <= types.len(),
            offs@.len() == i,
            off == slot_off(types@, i as nat),
            slot_span(types@) <= usize::MAX,
            forall|j: int| 0 <= j < i ==> #[trigger] offs@[j] == slot_off(types@, j as nat),
        decreases types.len() - i,
    {
        offs.push(off);
        proof {
            lemma_slot_off_mono(types@, i as nat, types@.len());
        }
        off = off + if types[i] == ValType::V128 {
            16usize
        } else {
            8usize
        };
        i = i + 1;
    }
    offs
}

/// The value of type `ty` that the slot bytes `raw` hold.
///
/// A type that no slot carries is read as an `i64`.
pub open spec fn slot_value(ty: ValType, raw: Seq<u8>) -> Value {
    let word = le_value(raw.take(8));
    match ty {
        ValType::I32 => Value::I32(low_i32(word) as i32),
        ValType::I64 => Value::I64(low_i64(word) as i64),
        ValType::F32 => Value::F32((word % 0x1_0000_0000) as u32),
        ValType::F64 => Value::F64(word as u64),
        ValType::V128 => Value::V128(array_of(raw)),
        ValType::Ref => Value::I64(low_i64(word) as i64),
    }
}

/// The sixteen-byte array with contents `raw`.
pub open spec fn array_of(raw: Seq<u8>) -> [u8; 16] {
    choose|a: [u8; 16]| a@ == raw
}

/// The slot bytes of `v`; `None` for a reference.
pub open spec fn slot_bytes(v: Value) -> Option<Seq<u8>> {
    match v {
        Value::I32(x) => Some(le_bytes(bits_of_i32(x), 8)),
        Value::I64(x) => Some(le_bytes(bits_of_i64(x), 8)),
        Value::F32(b) => Some(le_bytes(b as nat, 8)),
        Value::F64(b) => Some(le_bytes(b as nat, 8)),
        Value::V128(b) => Some(b@),
        Value::Ref(_) => None,
    }
}

/// Reads the value of type `ty` at `off`.
pub fn read_slot_value(ty: ValType, scratch: &[u8], off: usize) -> (r: Value)
    requires
        off + slot_width(ty) <= scratch@.len(),
    ensures
        r == slot_value(ty, scratch@.subrange(off as int, off + slot_width(ty))),
{
    let ghost raw = scratch@.subrange(off as int, off + slot_width(ty));
    assert(raw.take(8) =~= scratch@.subrange(off as int, off + 8));
    match ty {
        ValType::I32 => Value::I32(i32_of_low(get_u64_at(scratch, off))),
        ValType::I64 => Value::I64(i64_of_bits(get_u64_at(scratch, off))),
        ValType::F32 => Value::F32((get_u64_at(scratch, off) % 0x1_0000_0000) as u32),
        ValType::F64 => Value::F64(get_u64_at(scratch, off)),
        ValType::V128 => {
            let mut b: [u8; 16] = [0;16];
            let mut k: usize = 0;
            while k < 16
                invariant
                    k <= 16,
                    off + 16 <= scratch.len(),
                    forall|j: int| 0 <= j < k ==> #[trigger] b@[j] == scratch@[off + j],
                decreases 16 - k,
            {
                b[k] = scratch[off + k];
                k = k + 1;
            }
            assert(b@ =~= raw);
            proof {
                let a = array_of(raw);
                assert(a@ == b@);
                assert(a =~= b);
            }
            Value::V128(b)
        },
        ValType::Ref => Value::I64(i64_of_bits(get_u64_at(scratch, off))),
    }
}

/// Writes `v` at `off`; `false`, and nothing written, for a reference.
pub fn write_slot_value(v: &Value, scratch: &mut [u8], off: usize) -> (r: bool)
    requires
        off + slot_width(v.ty()) <= old(scratch)@.len(),
    ensures
        r == (slot_bytes(*v) is Some),
        slot_bytes(*v) matches Some(raw) ==> final(scratch)@ == splice(
            old(scratch)@,
            off as int,
            raw,
        ),
        slot_bytes(*v) is None ==> final(scratch)@ == old(scratch)@,
{
    match v {
        Value::I32(x) => {
            put_u64_at(scratch, off, i32_bits(*x));
        },
        Value::I64(x) => {
            put_u64_at(scratch, off, i64_bits(*x));
        },
        Value::F32(b) => {
            put_u64_at(scratch, off, *b as u64);
        },
        Value::F64(b) => {
            put_u64_at(scratch, off, *b);
        },
        Value::V128(b) => {
            let ghost start = scratch@;
            let mut k: usize = 0;
            while k < 16
                invariant
                    k <= 16,
                    off + 16 <= scratch.len(),
                    scratch@.len() == start.len(),
                    forall|j: int|
                        0 <= j < start.len() ==> #[trigger] scratch@[j] == if off <= j < off + k {
                            b@[j - off]
                        } else {
                            start[j]
                        },
                decreases 16 - k,
            {
                scratch[off + k] = b[k];
                k = k + 1;
            }
            assert(scratch@ =~= splice(start, off as int, b@));
        },
        Value::Ref(_) => {
            return false;
        },
    }
    true
}

/// The arguments that the first `params.len()` slots of `scratch` hold.
pub open spec fn slot_args(params: Seq<ValType>, scratch: Seq<u8>) -> Seq<Value> {
    Seq::new(
        params.len(),
        |i: int|
            slot_value(
                params[i],
                scratch.subrange(
                    slot_off(params, i as nat) as int,
                    (slot_off(params, i as nat) + slot_width(params[i])) as int,
                ),
            ),
    )
}

/// Decodes the arguments of a cross-tier call from the scratch.
pub fn read_call_args(params: &[ValType], scratch: &[u8]) -> (r: Vec<Value>)
    requires
        slot_span(params@) <= scratch@.len(),
    ensures
        r@ == slot_args(params@, scratch@),
{
    assert(slot_span(params@) <= scratch.len());
    let offs: Vec<usize> = slot_offs(params);
    let mut out: Vec<Value> = Vec::with_capacity(params.len());
    let mut i: usize = 0;
    while i < params.len()
        invariant
            i <= params.len(),
            offs@.len() == params@.len(),
            slot_span(params@) <= scratch@.len(),
            forall|j: int|
                0 <= j < params@.len() ==> #[trigger] offs@[j] == slot_off(params@, j as nat),
            out@ == slot_args(params@, scratch@).take(i as int),
        decreases params.len() - i,
    {
        proof {
            lemma_slot_off_mono(params@, i as nat, params@.len());
        }
        let v: Value = read_slot_value(params[i], scratch, offs[i]);
        out.push(v);
        assert(out@ =~= slot_args(params@, scratch@).take(i as int + 1));
        i = i + 1;
    }
    assert(out@ =~= slot_args(params@, scratch@));
    out
}

/// `buf` after the first `n` of `vals` have been written to the slots of `types`.
pub open spec fn write_slots(buf: Seq<u8>, types: Seq<ValType>, vals: Seq<Value>, n: nat) -> Seq<
    u8,
>
    decreases n,
{
    if n == 0 {
        buf
    } else {
        splice(
            write_slots(buf, types, vals, (n - 1) as nat),
            slot_off(types, (n - 1) as nat) as int,
            slot_bytes(vals[n - 1])->0,
        )
    }
}

/// How many of the first `n` values come before the first that no slot carries.
pub open spec fn marshallable_lead(vals: Seq<Value>, n: nat) -> nat
    decreases n,
{
    if n == 0 {
        0
    } else {
        let k = marshallable_lead(vals, (n - 1) as nat);
        if k == n - 1 && slot_bytes(vals[n - 1]) is Some {
            n
        } else {
            k
        }
    }
}

/// Writing slots keeps the length of the buffer.
pub proof fn lemma_write_slots_len(buf: Seq<u8>, types: Seq<ValType>, vals: Seq<Value>, n: nat)
    ensures
        write_slots(buf, types, vals, n).len() == buf.len(),
    decreases n,
{
    if n > 0 {
        lemma_write_slots_len(buf, types, vals, (n - 1) as nat);
    }
}

/// The count never exceeds its bound, and a value that stops it stops it for good.
pub proof fn lemma_marshallable_lead(vals: Seq<Value>, i: nat, n: nat)
    requires
        i <= n,
    ensures
        marshallable_lead(vals, n) <= n,
        marshallable_lead(vals, i) < i ==> marshallable_lead(vals, n) == marshallable_lead(vals, i),
    decreases n,
{
    if n > 0 {
        lemma_marshallable_lead(vals, 0, (n - 1) as nat);
        if i < n {
            lemma_marshallable_lead(vals, i, (n - 1) as nat);
        }
    }
}

/// How many result values a call writes back: no more than its signature declares.
pub open spec fn written_count(vals: Seq<Value>, results: Seq<ValType>) -> nat {
    if vals.len() <= results.len() {
        vals.len()
    } else {
        results.len()
    }
}

/// The scratch has room for every value that a call writes back.
pub open spec fn results_fit(vals: Seq<Value>, results: Seq<ValType>, len: nat) -> bool {
    &&& slot_span(results) <= usize::MAX
    &&& forall|i: int|
        0 <= i < written_count(vals, results) ==> slot_off(results, i as nat) + slot_width(
            (#[trigger] vals[i]).ty(),
        ) <= len
}

/// Writes the results of a cross-tier call over the scratch, up to the first reference.
///
/// `true` iff every value was written.
pub fn write_call_results(vals: &[Value], results: &[ValType], scratch: &mut [u8]) -> (r: bool)
    requires
        results_fit(vals@, results@, old(scratch)@.len()),
    ensures
        ({
            let count = written_count(vals@, results@);
            let lead = marshallable_lead(vals@, count);
            &&& r == (lead == count)
            &&& final(scratch)@ == write_slots(old(scratch)@, results@, vals@, lead)
        }),
{
    let offs: Vec<usize> = slot_offs(results);
    let ghost start = scratch@;
    let ghost count = written_count(vals@, results@);
    let mut i: usize = 0;
    while i < vals.len() && i < results.len()
        invariant
            i <= count,
            start == old(scratch)@,
            count == written_count(vals@, results@),
            offs@.len() == results@.len(),
            results_fit(vals@, results@, start.len()),
            scratch@.len() == start.len(),
            forall|j: int|
                0 <= j < results@.len() ==> #[trigger] offs@[j] == slot_off(results@, j as nat),
            marshallable_lead(vals@, i as nat) == i,
            scratch@ == write_slots(start, results@, vals@, i as nat),
        decreases vals.len() - i,
    {
        proof {
            lemma_write_slots_len(start, results@, vals@, (i + 1) as nat);
            lemma_marshallable_lead(vals@, (i + 1) as nat, count);
        }
        let ok: bool = write_slot_value(&vals[i], scratch, offs[i]);
        if !ok {
            assert(marshallable_lead(vals@, (i + 1) as nat) == i);
            return false;
        }
        i = i + 1;
    }
    true
}

/// How the interpreter leaves a cross-tier call.
#[derive(Debug)]
pub enum CallOutcome {
    /// The callee returned these values.
    Returned(Vec<Value>),
    /// The guest exited with this code.
    Exited(i32),
    /// The callee trapped.
    Trapped,
}

/// The status that a finished cross-tier call reports to the emitted code.
pub open spec fn call_status(outcome: CallOutcome, results: Seq<ValType>) -> i32 {
    match outcome {
        CallOutcome::Returned(vals) => if marshallable_lead(
            vals@,
            written_count(vals@, results),
        ) == written_count(vals@, results) {
            STATUS_OK
        } else {
            STATUS_TRAP
        },
        CallOutcome::Exited(_) => STATUS_EXIT,
        CallOutcome::Trapped => STATUS_TRAP,
    }
}

/// Ends a cross-tier call: writes the results of a returned one, and reports a status that is zero
/// only if all of them arrived.
pub fn settle_call(outcome: &CallOutcome, results: &[ValType], scratch: &mut [u8]) -> (r: i32)
    requires
        outcome matches CallOutcome::Returned(vals) ==> results_fit(
            vals@,
            results@,
            old(scratch)@.len(),
        ),
    ensures
        r == call_status(*outcome, results@),
        outcome matches CallOutcome::Returned(vals) ==> final(scratch)@ == write_slots(
            old(scratch)@,
            results@,
            vals@,
            marshallable_lead(vals@, written_count(vals@, results@)),
        ),
        !(outcome is Returned) ==> final(scratch)@ == old(scratch)@,
{
    match outcome {
        CallOutcome::Returned(vals) => {
            if write_call_results(vals.as_slice(), results, scratch) {
                STATUS_OK
            } else {
                STATUS_TRAP
            }
        },
        CallOutcome::Exited(_) => STATUS_EXIT,
        CallOutcome::Trapped => STATUS_TRAP,
    }
}

/// Ends a call into a memory-free leaf: `0` only if exactly the declared results came back and all
/// were written, else `1`.
pub fn settle_leaf_call(outcome: &CallOutcome, results: &[ValType], scratch: &mut [u8]) -> (r:
    i32)
    requires
        outcome matches CallOutcome::Returned(vals) ==> vals@.len() == results@.len()
            ==> results_fit(vals@, results@, old(scratch)@.len()),
    ensures
        r == 0 || r == 1,
        r == 0 <==> (outcome matches CallOutcome::Returned(vals) && vals@.len() == results@.len()
            && marshallable_lead(vals@, vals@.len()) == vals@.len()),
        final(scratch)@ == (match *outcome {
            CallOutcome::Returned(vals) => if vals@.len() == results@.len() {
                write_slots(
                    old(scratch)@,
                    results@,
                    vals@,
                    marshallable_lead(vals@, vals@.len()),
                )
            } else {
                old(scratch)@
            },
            _ => old(scratch)@,
        }),
{
    match outcome {
        CallOutcome::Returned(vals) => {
            if vals.len() == results.len() && write_call_results(
                vals.as_slice(),
                results,
                scratch,
            ) {
                0
            } else {
                1
            }
        },
        _ => 1,
    }
}

/// The values are those that a signature side declares, and all of them fit in slots.
pub open spec fn typed_as(vals: Seq<Value>, types: Seq<ValType>) -> bool {
    &&& vals.len() == types.len()
    &&& forall|i: int|
        0 <= i < vals.len() ==> (#[trigger] vals[i]).ty() == types[i] && types[i] != ValType::Ref
}

/// A slot holds a value exactly: reading what was written gives the value back.
pub proof fn lemma_slot_round_trip(v: Value)
    requires
        v.ty() != ValType::Ref,
    ensures
        slot_bytes(v) is Some,
        slot_bytes(v)->0.len() == slot_width(v.ty()),
        slot_value(v.ty(), slot_bytes(v)->0) == v,
{
    let raw = slot_bytes(v)->0;
    lemma_pow256_values();
    match v {
        Value::I32(x) => {
            lemma_le_bytes_len(bits_of_i32(x), 8);
            lemma_le_round_trip(bits_of_i32(x), 8);
            assert(raw.take(8) =~= raw);
        },
        Value::I64(x) => {
            lemma_le_bytes_len(bits_of_i64(x), 8);
            lemma_le_round_trip(bits_of_i64(x), 8);
            assert(raw.take(8) =~= raw);
        },
        Value::F32(b) => {
            lemma_le_bytes_len(b as nat, 8);
            lemma_le_round_trip(b as nat, 8);
            assert(raw.take(8) =~= raw);
        },
        Value::F64(b) => {
            lemma_le_bytes_len(b as nat, 8);
            lemma_le_round_trip(b as nat, 8);
            assert(raw.take(8) =~= raw);
        },
        Value::V128(b) => {
            let a = array_of(raw);
            assert(a@ == b@);
            assert(a =~= b);
        },
        Value::Ref(_) => {},
    }
}

/// The bytes of slot `i` once `n > i` values have been written.
proof fn lemma_slot_kept(
    buf: Seq<u8>,
    types: Seq<ValType>,
    vals: Seq<Value>,
    i: nat,
    n: nat,
)
    requires
        typed_as(vals, types),
        slot_span(types) <= buf.len(),
        i < n <= vals.len(),
    ensures
        write_slots(buf, types, vals, n).subrange(
            slot_off(types, i) as int,
            (slot_off(types, i) + slot_width(types[i as int])) as int,
        ) == slot_bytes(vals[i as int])->0,
    decreases n,
{
    let off = slot_off(types, i) as int;
    let end = (slot_off(types, i) + slot_width(types[i as int])) as int;
    let last = (n - 1) as nat;
    let before = write_slots(buf, types, vals, last);
    let after = write_slots(buf, types, vals, n);
    lemma_write_slots_len(buf, types, vals, last);
    lemma_slot_round_trip(vals[last as int]);
    lemma_slot_round_trip(vals[i as int]);
    lemma_slot_off_mono(types, i, types.len());
    if i < last {
        lemma_slot_kept(buf, types, vals, i, last);
        lemma_slot_off_mono(types, i, last);
        assert(after.subrange(off, end) =~= before.subrange(off, end));
    } else {
        assert(after.subrange(off, end) =~= slot_bytes(vals[i as int])->0);
    }
}

/// Every typed value of a signature survives the scratch: what one side writes to the slots, the
/// other side reads back bit for bit.
pub proof fn law_slots_round_trip(buf: Seq<u8>, types: Seq<ValType>, vals: Seq<Value>)
    requires
        typed_as(vals, types),
        slot_span(types) <= buf.len(),
    ensures
        marshallable_lead(vals, vals.len()) == vals.len(),
        slot_args(types, write_slots(buf, types, vals, vals.len())) == vals,
{
    lemma_lead_typed(vals, types, vals.len());
    let read = slot_args(types, write_slots(buf, types, vals, vals.len()));
    assert forall|i: int| 0 <= i < vals.len() implies read[i] == vals[i] by {
        lemma_slot_kept(buf, types, vals, i as nat, vals.len());
        lemma_slot_round_trip(vals[i]);
    }
    assert(read =~= vals);
}

/// No typed value stops the count of marshallable values.
proof fn lemma_lead_typed(vals: Seq<Value>, types: Seq<ValType>, n: nat)
    requires
        typed_as(vals, types),
        n <= vals.len(),
    ensures
        marshallable_lead(vals, n) == n,
    decreases n,
{
    if n > 0 {
        lemma_lead_typed(vals, types, (n - 1) as nat);
        lemma_slot_round_trip(vals[n - 1]);
    }
}

/// Writing results touches no byte past the span of their signature.
pub proof fn law_slots_stay_in_span(
    buf: Seq<u8>,
    types: Seq<ValType>,
    vals: Seq<Value>,
    n: nat,
    j: int,
)
    requires
        typed_as(vals, types),
        n <= vals.len(),
        slot_span(types) <= j < buf.len(),
    ensures
        write_slots(buf, types, vals, n)[j] == buf[j],
    decreases n,
{
    if n > 0 {
        let last = (n - 1) as nat;
        law_slots_stay_in_span(buf, types, vals, last, j);
        lemma_slot_round_trip(vals[last as int]);
        lemma_slot_off_mono(types, last, types.len());
        lemma_write_slots_len(buf, types, vals, last);
    }
}

/// The marshalling codes are `0` to `3` for `i32`, `i64`, `f32`, `f64`: different scalars have
/// different codes, and nothing else has one.
pub proof fn law_type_codes_tell_scalars_apart(a: ValType, b: ValType)
    ensures
        spec_scalar_type_code(a) is Some <==> a != ValType::V128 && a != ValType::Ref,
        spec_scalar_type_code(a) is Some && spec_scalar_type_code(a) == spec_scalar_type_code(b)
            ==> a == b,
        spec_scalar_type_code(a) matches Some(c) ==> c <= 3,
        a == ValType::I32 || a == ValType::I64 ==> spec_scalar_type_code(a)->0 < 2,
        a == ValType::I32 || a == ValType::F32 ==> spec_scalar_type_code(a)->0 % 2 == 0,
{
}

/// The slots of a signature side lie back to back from the start of the scratch: eight bytes a
/// value, sixteen a `v128`.
pub proof fn law_slots_lie_back_to_back(types: Seq<ValType>, n: nat)
    ensures
        slot_off(types, 0) == 0,
        types[n as int] == ValType::V128 ==> slot_off(types, n + 1) == slot_off(types, n) + 16,
        types[n as int] != ValType::V128 ==> slot_off(types, n + 1) == slot_off(types, n) + 8,
{
}

/// A slot holds an integer as its little-endian word, a 32-bit one zero-extended, a float as its
/// bits, and a vector as its bytes.
pub proof fn law_slot_holds_the_word(x: i32, y: i64, f: u32, d: u64, v: [u8; 16])
    ensures
        slot_bytes(Value::I32(x)) matches Some(b) && b.len() == 8 && le_value(b) == (x as int)
            % 0x1_0000_0000,
        slot_bytes(Value::I64(y)) matches Some(b) && b.len() == 8 && le_value(b) == (y as int)
            % 0x1_0000_0000_0000_0000,
        slot_bytes(Value::F32(f)) matches Some(b) && b.len() == 8 && le_value(b) == f,
        slot_bytes(Value::F64(d)) matches Some(b) && b.len() == 8 && le_value(b) == d,
        slot_bytes(Value::V128(v)) == Some(v@),
{
    lemma_pow256_values();
    lemma_le_bytes_len(bits_of_i32(x), 8);
    lemma_le_round_trip(bits_of_i32(x), 8);
    lemma_le_bytes_len(bits_of_i64(y), 8);
    lemma_le_round_trip(bits_of_i64(y), 8);
    lemma_le_bytes_len(f as nat, 8);
    lemma_le_round_trip(f as nat, 8);
    lemma_le_bytes_len(d as nat, 8);
    lemma_le_round_trip(d as nat, 8);
}

/// Results are written up to the first reference and no further: nothing in front of it is one.
pub proof fn law_results_stop_at_the_first_reference(vals: Seq<Value>, n: nat)
    requires
        n <= vals.len(),
    ensures
        ({
            let k = marshallable_lead(vals, n);
            &&& k <= n
            &&& forall|j: int| 0 <= j < k ==> !((#[trigger] vals[j]) is Ref)
            &&& k < n ==> vals[k as int] is Ref
        }),
    decreases n,
{
    if n > 0 {
        law_results_stop_at_the_first_reference(vals, (n - 1) as nat);
    }
}

/// A cross-tier call reports success exactly where the callee returned and no value that goes back
/// is a reference; an exit is told apart from a trap.
pub proof fn law_call_status_is_the_callees_end(
    outcome: CallOutcome,
    results: Seq<ValType>,
)
    ensures
        call_status(outcome, results) == STATUS_OK <==> (outcome matches CallOutcome::Returned(vals)
            && forall|j: int|
            0 <= j < vals@.len() && j < results.len() ==> !((#[trigger] vals@[j]) is Ref)),
        call_status(outcome, results) == STATUS_EXIT <==> outcome is Exited,
        call_status(outcome, results) == STATUS_OK || call_status(outcome, results) == STATUS_EXIT
            || call_status(outcome, results) == STATUS_TRAP,
{
    if let CallOutcome::Returned(vals) = outcome {
        let n = written_count(vals@, results);
        law_results_stop_at_the_first_reference(vals@, n);
    }
}

} // verus!
