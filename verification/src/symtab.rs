//! The symbol table that a guest submits with a unit: names and what they are linked to, in LEB128
//! framing.

use vstd::prelude::*;
use vstd::slice::slice_subrange;
use vstd::utf8::{
    decode_utf8, encode_utf8, encode_utf8_decode_utf8, encode_utf8_valid_utf8, valid_utf8,
};

use crate::text::{from_utf8, same_text};

verus! {

/// A host capability operation.
#[derive(Clone, Copy, Debug, PartialEq, Eq, Structural)]
pub struct ResolvedCap {
    pub type_id: u32,
    pub op: u32,
}

/// What a name is linked to.
#[derive(Clone, Copy, Debug, PartialEq, Eq, Structural)]
pub enum Resolved {
    /// A dispatch-table slot.
    Slot(u32),
    /// A host capability.
    Cap(ResolvedCap),
    /// A function of the same program, which no table carries.
    Func(u32),
}

/// The kind byte of a slot entry.
pub const KIND_SLOT: u8 = 0;

/// The kind byte of a capability entry.
pub const KIND_CAP: u8 = 1;

/// The canonical LEB128 form of `v`: seven bits a byte, low bits first, the high bit set on all but
/// the last.
pub open spec fn uleb(v: nat) -> Seq<u8>
    decreases v,
{
    if v < 128 {
        seq![v as u8]
    } else {
        seq![(v % 128 + 128) as u8] + uleb(v / 128)
    }
}

/// How many values fit from byte `k` of a 64-bit LEB128 number on: seven bits a byte and one bit in
/// the tenth.
pub open spec fn uleb_room(k: nat) -> nat
    decreases 9 - k,
{
    if k >= 9 {
        2
    } else {
        128 * uleb_room((k + 1) as nat)
    }
}

/// The number that starts `s`, read as byte `k` on, and the bytes it takes.
///
/// `None` if `s` ends inside the number or the number does not fit in 64 bits.
pub open spec fn uleb_read(s: Seq<u8>, k: nat) -> Option<(nat, nat)>
    decreases s.len(),
{
    if s.len() == 0 || k > 9 || (k == 9 && s[0] % 128 > 1) {
        None
    } else if s[0] < 128 {
        Some((s[0] as nat, 1))
    } else {
        match uleb_read(s.drop_first(), k + 1) {
            None => None,
            Some((v, n)) => Some(((s[0] % 128) as nat + 128 * v, n + 1)),
        }
    }
}

/// How many bytes reading a number off `s` takes, `k` of its digits already read, whether or not it
/// comes to a number: up to its last digit, the digit that overflows, or the end.
pub open spec fn uleb_used(s: Seq<u8>, k: nat) -> nat
    decreases s.len(),
{
    if s.len() == 0 {
        0
    } else if k > 9 || (k == 9 && s[0] % 128 > 1) || s[0] < 128 {
        1
    } else {
        1 + uleb_used(s.drop_first(), k + 1)
    }
}

/// What a reader that has `low` below `scale` and used `used` bytes makes of the rest.
pub open spec fn uleb_carry(low: nat, scale: nat, used: nat, rest: Option<(nat, nat)>) -> Option<
    (nat, nat),
> {
    match rest {
        None => None,
        Some((v, n)) => Some((low + scale * v, used + n)),
    }
}

/// A number takes at least one byte and fits in the room it was read in.
pub proof fn lemma_uleb_read_bounds(s: Seq<u8>, k: nat)
    ensures
        uleb_read(s, k) matches Some((v, n)) ==> 1 <= n <= s.len() && v < uleb_room(k),
    decreases s.len(),
{
    if s.len() > 0 && k <= 9 && !(k == 9 && s[0] % 128 > 1) {
        lemma_uleb_read_bounds(s.drop_first(), k + 1);
        if k < 9 {
            lemma_uleb_room_positive(k + 1);
        }
    }
}

/// There is always room.
pub proof fn lemma_uleb_room_positive(k: nat)
    ensures
        uleb_room(k) >= 2,
    decreases 9 - k,
{
    if k < 9 {
        lemma_uleb_room_positive(k + 1);
    }
}

/// The room of a whole number is the 64-bit range.
pub proof fn lemma_uleb_room_start()
    ensures
        uleb_room(0) == 0x1_0000_0000_0000_0000,
{
    reveal_with_fuel(uleb_room, 10);
}

/// What was written as LEB128 is read back, whatever follows it.
pub proof fn lemma_uleb_round_trip(v: nat, rest: Seq<u8>, k: nat)
    requires
        v < uleb_room(k),
        k <= 9,
    ensures
        uleb_read(uleb(v) + rest, k) == Some((v, uleb(v).len())),
    decreases v,
{
    let s = uleb(v) + rest;
    if v < 128 {
        assert(s[0] == v as u8);
    } else {
        let b = (v % 128 + 128) as u8;
        assert(s[0] == b);
        assert(b % 128 == v % 128);
        assert(s.drop_first() =~= uleb(v / 128) + rest);
        assert(k < 9);
        assert(v / 128 < uleb_room(k + 1));
        lemma_uleb_round_trip(v / 128, rest, k + 1);
    }
}

/// The text that starts `s`: its length, then its bytes.
pub open spec fn read_text(s: Seq<u8>) -> Option<(Seq<char>, nat)> {
    match uleb_read(s, 0) {
        None => None,
        Some((n, k)) => if k + n <= s.len() && valid_utf8(s.subrange(k as int, (k + n) as int)) {
            Some((decode_utf8(s.subrange(k as int, (k + n) as int)), k + n))
        } else {
            None
        },
    }
}

/// The 32-bit number that starts `s`.
pub open spec fn read_u32(s: Seq<u8>) -> Option<(nat, nat)> {
    match uleb_read(s, 0) {
        None => None,
        Some((v, n)) => if v <= u32::MAX {
            Some((v, n))
        } else {
            None
        },
    }
}

/// What the kind byte and payload that start `s` link to.
pub open spec fn read_link(s: Seq<u8>) -> Option<(Resolved, nat)> {
    if s.len() == 0 {
        None
    } else if s[0] == KIND_SLOT {
        match read_u32(s.skip(1)) {
            None => None,
            Some((v, n)) => Some((Resolved::Slot(v as u32), 1 + n)),
        }
    } else if s[0] == KIND_CAP {
        match read_u32(s.skip(1)) {
            None => None,
            Some((t, n)) => match read_u32(s.skip(1 + n as int)) {
                None => None,
                Some((o, k)) => Some(
                    (Resolved::Cap(ResolvedCap { type_id: t as u32, op: o as u32 }), 1 + n + k),
                ),
            },
        }
    } else {
        None
    }
}

/// The entry that starts `s`.
pub open spec fn read_entry(s: Seq<u8>) -> Option<((Seq<char>, Resolved), nat)> {
    match read_text(s) {
        None => None,
        Some((name, n)) => match read_link(s.skip(n as int)) {
            None => None,
            Some((link, k)) => Some(((name, link), n + k)),
        },
    }
}

/// The `count` entries that start `s`.
pub open spec fn read_entries(s: Seq<u8>, count: nat) -> Option<(Seq<(Seq<char>, Resolved)>, nat)>
    decreases count,
{
    if count == 0 {
        Some((Seq::empty(), 0))
    } else {
        match read_entry(s) {
            None => None,
            Some((e, n)) => match read_entries(s.skip(n as int), (count - 1) as nat) {
                None => None,
                Some((rest, k)) => Some((seq![e] + rest, n + k)),
            },
        }
    }
}

/// The table that `s` holds: no bytes are the empty table; else exactly the counted entries, with
/// nothing left over.
pub open spec fn spec_decode_symtab(s: Seq<u8>) -> Option<Seq<(Seq<char>, Resolved)>> {
    if s.len() == 0 {
        Some(Seq::empty())
    } else {
        match uleb_read(s, 0) {
            None => None,
            Some((count, n)) => match read_entries(s.skip(n as int), count) {
                None => None,
                Some((es, k)) => if n + k == s.len() {
                    Some(es)
                } else {
                    None
                },
            },
        }
    }
}

/// The bytes of one link.
pub open spec fn link_bytes(r: Resolved) -> Seq<u8> {
    match r {
        Resolved::Slot(slot) => seq![KIND_SLOT] + uleb(slot as nat),
        Resolved::Cap(cap) => seq![KIND_CAP] + uleb(cap.type_id as nat) + uleb(cap.op as nat),
        Resolved::Func(_) => Seq::empty(),
    }
}

/// The bytes of one entry.
pub open spec fn entry_bytes(e: (Seq<char>, Resolved)) -> Seq<u8> {
    uleb(encode_utf8(e.0).len()) + encode_utf8(e.0) + link_bytes(e.1)
}

/// The bytes of a run of entries.
pub open spec fn entries_bytes(es: Seq<(Seq<char>, Resolved)>) -> Seq<u8>
    decreases es.len(),
{
    if es.len() == 0 {
        Seq::empty()
    } else {
        entry_bytes(es[0]) + entries_bytes(es.drop_first())
    }
}

/// The bytes of a table.
pub open spec fn spec_encode_symtab(es: Seq<(Seq<char>, Resolved)>) -> Seq<u8> {
    uleb(es.len()) + entries_bytes(es)
}

/// One entry of a table.
#[derive(Debug)]
pub struct SymEntry {
    pub name: String,
    pub link: Resolved,
}

/// The contents of a table.
pub open spec fn table_view(es: Seq<SymEntry>) -> Seq<(Seq<char>, Resolved)> {
    es.map_values(|e: SymEntry| (e.name@, e.link))
}

/// A reader over the bytes of a table.
#[derive(Debug)]
pub struct SymCursor<'a> {
    pub bytes: &'a [u8],
    pub pos: usize,
}

impl<'a> SymCursor<'a> {
    /// The cursor stands inside its bytes or at their end.
    pub open spec fn wf(self) -> bool {
        self.pos <= self.bytes@.len()
    }

    /// What is left to read.
    pub open spec fn rest(self) -> Seq<u8> {
        self.bytes@.skip(self.pos as int)
    }

    /// The next byte.
    pub fn byte(&mut self) -> (r: Option<u8>)
        requires
            old(self).wf(),
        ensures
            final(self).wf(),
            final(self).bytes == old(self).bytes,
            r is Some <==> old(self).rest().len() > 0,
            r matches Some(b) ==> b == old(self).rest()[0] && final(self).pos == old(self).pos + 1,
            r is None ==> final(self).pos == old(self).pos,
    {
        if self.pos < self.bytes.len() {
            let b: u8 = self.bytes[self.pos];
            self.pos = self.pos + 1;
            Some(b)
        } else {
            None
        }
    }

    /// The next number. Bytes that are no number are read as far as that shows.
    pub fn uleb(&mut self) -> (r: Option<u64>)
        requires
            old(self).wf(),
        ensures
            final(self).wf(),
            final(self).bytes == old(self).bytes,
            r is Some <==> uleb_read(old(self).rest(), 0) is Some,
            r matches Some(v) ==> (uleb_read(old(self).rest(), 0) matches Some((x, n)) && v == x
                && final(self).pos == old(self).pos + n),
            final(self).pos == old(self).pos + uleb_used(old(self).rest(), 0),
    {
        let ghost start = *self;
        let mut result: u64 = 0;
        let mut scale: u64 = 1;
        let mut k: u8 = 0;
        proof {
            lemma_uleb_room_start();
            let whole = uleb_read(start.rest(), 0);
            assert(whole == uleb_carry(0, 1, 0, whole));
        }
        loop
            invariant
                self.wf(),
                start.wf(),
                start == *old(self),
                self.bytes == start.bytes,
                k <= 10,
                self.pos == start.pos + k,
                k < 10 ==> scale * uleb_room(k as nat) == 0x1_0000_0000_0000_0000,
                k < 10 ==> result < scale,
                k < 10 ==> scale >= 1,
                uleb_used(start.rest(), 0) == k + uleb_used(self.rest(), k as nat),
                uleb_read(start.rest(), 0) == uleb_carry(
                    result as nat,
                    scale as nat,
                    k as nat,
                    uleb_read(self.rest(), k as nat),
                ),
            decreases 10 - k,
        {
            let ghost before = *self;
            let b: u8 = match self.byte() {
                None => {
                    return None;
                },
                Some(b) => b,
            };
            proof {
                assert(self.rest() =~= before.rest().drop_first());
            }
            if k >= 10 || (k == 9 && b % 128 > 1) {
                return None;
            }
            let low: u64 = (b % 128) as u64;
            proof {
                lemma_uleb_room_positive(k as nat);
                lemma_scale_step(scale as nat, k as nat, low as nat, result as nat);
            }
            let ghost result0 = result;
            let ghost scale0 = scale;
            result = result + low * scale;
            if b < 128 {
                proof {
                    assert(scale0 * (low as int) == low * scale0) by (nonlinear_arith);
                }
                return Some(result);
            }
            proof {
                let tail = uleb_read(self.rest(), (k + 1) as nat);
                lemma_carry_step(
                    result0 as nat,
                    scale0 as nat,
                    low as nat,
                    k as nat,
                    tail,
                );
            }
            if k < 9 {
                scale = scale * 128;
            }
            k = k + 1;
        }
    }

    /// The next 32-bit number.
    pub fn u32(&mut self) -> (r: Option<u32>)
        requires
            old(self).wf(),
        ensures
            final(self).wf(),
            final(self).bytes == old(self).bytes,
            r is Some <==> read_u32(old(self).rest()) is Some,
            r matches Some(v) ==> (read_u32(old(self).rest()) matches Some((x, n)) && v == x
                && final(self).pos == old(self).pos + n),
            final(self).pos == old(self).pos + uleb_used(old(self).rest(), 0),
    {
        match self.uleb() {
            None => None,
            Some(v) => if v <= u32::MAX as u64 {
                Some(v as u32)
            } else {
                None
            },
        }
    }

    /// The next text. Of one that does not come whole or is no text, only the length is read.
    pub fn string(&mut self) -> (r: Option<String>)
        requires
            old(self).wf(),
        ensures
            final(self).wf(),
            final(self).bytes == old(self).bytes,
            r is Some <==> read_text(old(self).rest()) is Some,
            r matches Some(t) ==> (read_text(old(self).rest()) matches Some((x, n)) && t@ == x
                && final(self).pos == old(self).pos + n),
            r is None ==> final(self).pos == old(self).pos + uleb_used(old(self).rest(), 0),
    {
        let ghost start = *self;
        let n: u64 = match self.uleb() {
            None => {
                return None;
            },
            Some(n) => n,
        };
        let left: usize = self.bytes.len() - self.pos;
        if n > left as u64 {
            return None;
        }
        let end: usize = self.pos + n as usize;
        proof {
            let k = self.pos - start.pos;
            assert(start.rest().subrange(k, k + n) =~= self.bytes@.subrange(
                self.pos as int,
                end as int,
            ));
        }
        match from_utf8(slice_subrange(self.bytes, self.pos, end)) {
            None => None,
            Some(t) => {
                self.pos = end;
                Some(t)
            },
        }
    }
}

/// One more digit fits: neither the value nor the next scale overflows.
proof fn lemma_scale_step(scale: nat, k: nat, low: nat, result: nat)
    requires
        k <= 9,
        scale >= 1,
        scale * uleb_room(k) == 0x1_0000_0000_0000_0000,
        low < 128,
        k == 9 ==> low <= 1,
        result < scale,
    ensures
        result + low * scale <= u64::MAX,
        low * scale <= u64::MAX,
        k < 9 ==> scale * 128 <= u64::MAX && (scale * 128) * uleb_room(k + 1)
            == 0x1_0000_0000_0000_0000 && result + low * scale < scale * 128,
{
    if k < 9 {
        let room = uleb_room(k + 1);
        lemma_uleb_room_positive(k + 1);
        assert(uleb_room(k) == 128 * room);
        assert((scale * 128) * room == scale * (128 * room)) by (nonlinear_arith);
        assert((scale * 128) * room == 0x1_0000_0000_0000_0000);
        assert(scale * 128 * 2 <= scale * 128 * room) by (nonlinear_arith)
            requires
                room >= 2,
        ;
        assert(low * scale <= 127 * scale) by (nonlinear_arith)
            requires
                low <= 127,
        ;
        assert(scale * 256 <= 0x1_0000_0000_0000_0000);
    } else {
        let room = uleb_room(k);
        assert(room == 2);
        assert(scale * 2 == 0x1_0000_0000_0000_0000) by (nonlinear_arith)
            requires
                room == 2,
                scale * room == 0x1_0000_0000_0000_0000,
        ;
        assert(low * scale <= scale) by (nonlinear_arith)
            requires
                low <= 1,
        ;
    }
}

/// Folding one more digit into a carried reader.
proof fn lemma_carry_step(result: nat, scale: nat, low: nat, k: nat, tail: Option<(nat, nat)>)
    ensures
        uleb_carry(
            result,
            scale,
            k,
            match tail {
                None => None,
                Some((v, n)) => Some((low + 128 * v, n + 1)),
            },
        ) == uleb_carry(result + low * scale, scale * 128, k + 1, tail),
{
    match tail {
        None => {},
        Some((v, n)) => {
            assert(result + scale * (low + 128 * v) == result + low * scale + (scale * 128) * v)
                by (nonlinear_arith);
        },
    }
}

/// What is left after `out` and `used` bytes, put behind them.
pub open spec fn entries_carry(
    out: Seq<(Seq<char>, Resolved)>,
    used: nat,
    rest: Option<(Seq<(Seq<char>, Resolved)>, nat)>,
) -> Option<(Seq<(Seq<char>, Resolved)>, nat)> {
    match rest {
        None => None,
        Some((es, k)) => Some((out + es, used + k)),
    }
}

/// Reads one link.
fn decode_link(c: &mut SymCursor<'_>) -> (r: Option<Resolved>)
    requires
        old(c).wf(),
    ensures
        final(c).wf(),
        final(c).bytes == old(c).bytes,
        r is Some <==> read_link(old(c).rest()) is Some,
        r matches Some(l) ==> (read_link(old(c).rest()) matches Some((x, n)) && l == x
            && final(c).pos == old(c).pos + n),
{
    let ghost start = *c;
    let kind: u8 = match c.byte() {
        None => {
            return None;
        },
        Some(b) => b,
    };
    assert(c.rest() =~= start.rest().skip(1));
    if kind == KIND_SLOT {
        match c.u32() {
            None => None,
            Some(slot) => Some(Resolved::Slot(slot)),
        }
    } else if kind == KIND_CAP {
        let type_id: u32 = match c.u32() {
            None => {
                return None;
            },
            Some(t) => t,
        };
        assert(c.rest() =~= start.rest().skip(c.pos - start.pos));
        match c.u32() {
            None => None,
            Some(op) => Some(Resolved::Cap(ResolvedCap { type_id, op })),
        }
    } else {
        None
    }
}

/// Reads one entry.
fn decode_entry(c: &mut SymCursor<'_>) -> (r: Option<SymEntry>)
    requires
        old(c).wf(),
    ensures
        final(c).wf(),
        final(c).bytes == old(c).bytes,
        r is Some <==> read_entry(old(c).rest()) is Some,
        r matches Some(e) ==> (read_entry(old(c).rest()) matches Some((x, n)) && (e.name@, e.link)
            == x && final(c).pos == old(c).pos + n),
{
    let ghost start = *c;
    let name: String = match c.string() {
        None => {
            return None;
        },
        Some(t) => t,
    };
    assert(c.rest() =~= start.rest().skip(c.pos - start.pos));
    match decode_link(c) {
        None => None,
        Some(link) => Some(SymEntry { name, link }),
    }
}

/// Reads a symbol table; `None` on any malformation.
pub fn decode_symtab(bytes: &[u8]) -> (r: Option<Vec<SymEntry>>)
    ensures
        r is Some <==> spec_decode_symtab(bytes@) is Some,
        r matches Some(es) ==> Some(table_view(es@)) == spec_decode_symtab(bytes@),
{
    if bytes.len() == 0 {
        let none: Vec<SymEntry> = Vec::new();
        assert(table_view(none@) =~= Seq::empty());
        return Some(none);
    }
    let mut c: SymCursor<'_> = SymCursor { bytes, pos: 0 };
    assert(c.rest() =~= bytes@);
    let count: u64 = match c.uleb() {
        None => {
            return None;
        },
        Some(n) => n,
    };
    let ghost body = c.rest();
    let ghost head = c.pos;
    let mut out: Vec<SymEntry> = Vec::new();
    let mut i: u64 = 0;
    assert(table_view(out@) =~= Seq::empty());
    proof {
        let whole = read_entries(body, count as nat);
        if whole is Some {
            assert(Seq::<(Seq<char>, Resolved)>::empty() + (whole->0).0 =~= (whole->0).0);
        }
        assert(whole == entries_carry(table_view(out@), 0, whole));
    }
    while i < count
        invariant
            i <= count,
            c.wf(),
            c.bytes@ == bytes@,
            bytes@.len() > 0,
            head <= c.pos,
            body == bytes@.skip(head as int),
            uleb_read(bytes@, 0) == Some((count as nat, head as nat)),
            read_entries(body, count as nat) == entries_carry(
                table_view(out@),
                (c.pos - head) as nat,
                read_entries(c.rest(), (count - i) as nat),
            ),
        decreases count - i,
    {
        let ghost before = c;
        match decode_entry(&mut c) {
            None => {
                return None;
            },
            Some(e) => {
                proof {
                    let x = (e.name@, e.link);
                    assert(c.rest() =~= before.rest().skip(c.pos - before.pos));
                    let tail = read_entries(c.rest(), (count - i - 1) as nat);
                    if tail is Some {
                        assert(table_view(out@) + (seq![x] + (tail->0).0) =~= table_view(out@).push(x)
                            + (tail->0).0);
                    }
                    assert(table_view(out@.push(e)) =~= table_view(out@).push(x));
                }
                out.push(e);
            },
        }
        i = i + 1;
    }
    assert(table_view(out@) + Seq::<(Seq<char>, Resolved)>::empty() =~= table_view(out@));
    if c.pos == bytes.len() {
        Some(out)
    } else {
        None
    }
}

/// Appends the LEB128 form of `v`.
fn push_uleb(out: &mut Vec<u8>, v: u64)
    ensures
        final(out)@ == old(out)@ + uleb(v as nat),
{
    let ghost start = out@;
    let mut rest: u64 = v;
    while rest >= 128
        invariant
            start + uleb(v as nat) == out@ + uleb(rest as nat),
        decreases rest,
    {
        let ghost before = out@;
        out.push((rest % 128 + 128) as u8);
        assert(before + uleb(rest as nat) =~= out@ + uleb((rest / 128) as nat));
        rest = rest / 128;
    }
    out.push(rest as u8);
    assert(out@ =~= start + uleb(v as nat));
}

/// Appends `part`.
fn push_bytes(out: &mut Vec<u8>, part: &[u8])
    ensures
        final(out)@ == old(out)@ + part@,
{
    let ghost start = out@;
    let mut i: usize = 0;
    while i < part.len()
        invariant
            i <= part.len(),
            out@ == start + part@.take(i as int),
        decreases part.len() - i,
    {
        out.push(part[i]);
        assert(out@ =~= start + part@.take(i as int + 1));
        i = i + 1;
    }
    assert(out@ =~= start + part@);
}

/// Adding an entry at the end adds its bytes at the end.
proof fn lemma_entries_bytes_push(es: Seq<(Seq<char>, Resolved)>, e: (Seq<char>, Resolved))
    ensures
        entries_bytes(es.push(e)) == entries_bytes(es) + entry_bytes(e),
    decreases es.len(),
{
    let all = es.push(e);
    if es.len() == 0 {
        assert(all.drop_first() =~= Seq::empty());
        assert(entries_bytes(all.drop_first()) =~= Seq::empty());
        assert(entries_bytes(es) =~= Seq::empty());
        assert(entries_bytes(all) =~= entries_bytes(es) + entry_bytes(e));
    } else {
        lemma_entries_bytes_push(es.drop_first(), e);
        assert(all.drop_first() =~= es.drop_first().push(e));
        assert(entries_bytes(all) =~= entries_bytes(es) + entry_bytes(e));
    }
}

/// Every entry can be carried by a table.
pub open spec fn carriable(es: Seq<(Seq<char>, Resolved)>) -> bool {
    forall|i: int| 0 <= i < es.len() ==> !((#[trigger] es[i]).1 is Func)
}

/// Writes a symbol table.
pub fn encode_symtab(entries: &[SymEntry]) -> (r: Vec<u8>)
    requires
        carriable(table_view(entries@)),
    ensures
        r@ == spec_encode_symtab(table_view(entries@)),
{
    let mut out: Vec<u8> = Vec::new();
    push_uleb(&mut out, entries.len() as u64);
    assert(out@ =~= uleb(entries@.len()));
    let ghost head = out@;
    let ghost all = table_view(entries@);
    let mut i: usize = 0;
    assert(all.take(0) =~= Seq::empty());
    assert(head + entries_bytes(all.take(0)) =~= head);
    while i < entries.len()
        invariant
            i <= entries.len(),
            all == table_view(entries@),
            carriable(all),
            head == uleb(entries@.len()),
            out@ == head + entries_bytes(all.take(i as int)),
        decreases entries.len() - i,
    {
        let e: &SymEntry = &entries[i];
        let ghost before = out@;
        let ghost x = all[i as int];
        let name: &[u8] = e.name.as_str().as_bytes();
        push_uleb(&mut out, name.len() as u64);
        push_bytes(&mut out, name);
        match e.link {
            Resolved::Slot(slot) => {
                out.push(KIND_SLOT);
                push_uleb(&mut out, slot as u64);
            },
            Resolved::Cap(cap) => {
                out.push(KIND_CAP);
                push_uleb(&mut out, cap.type_id as u64);
                push_uleb(&mut out, cap.op as u64);
            },
            Resolved::Func(_) => {},
        }
        proof {
            assert(out@ =~= before + entry_bytes(x));
            lemma_entries_bytes_push(all.take(i as int), x);
            assert(all.take(i as int + 1) =~= all.take(i as int).push(x));
            assert(out@ =~= head + entries_bytes(all.take(i as int + 1)));
        }
        i = i + 1;
    }
    assert(all.take(all.len() as int) =~= all);
    out
}

/// One written entry is read back, whatever follows it.
proof fn lemma_entry_round_trip(e: (Seq<char>, Resolved), rest: Seq<u8>)
    requires
        !(e.1 is Func),
        encode_utf8(e.0).len() <= u64::MAX,
    ensures
        read_entry(entry_bytes(e) + rest) == Some((e, entry_bytes(e).len())),
{
    let name = encode_utf8(e.0);
    let s = entry_bytes(e) + rest;
    let head = uleb(name.len());
    let tail = link_bytes(e.1) + rest;
    lemma_uleb_room_start();
    encode_utf8_valid_utf8(e.0);
    encode_utf8_decode_utf8(e.0);
    assert(s =~= head + (name + tail));
    lemma_uleb_round_trip(name.len(), name + tail, 0);
    let n = head.len();
    assert(s.subrange(n as int, (n + name.len()) as int) =~= name);
    assert(read_text(s) == Some((e.0, n + name.len())));
    let link = s.skip((n + name.len()) as int);
    assert(link =~= tail);
    match e.1 {
        Resolved::Slot(slot) => {
            assert(link.skip(1) =~= uleb(slot as nat) + rest);
            lemma_uleb_round_trip(slot as nat, rest, 0);
        },
        Resolved::Cap(cap) => {
            let t = uleb(cap.type_id as nat);
            assert(link.skip(1) =~= t + (uleb(cap.op as nat) + rest));
            lemma_uleb_round_trip(cap.type_id as nat, uleb(cap.op as nat) + rest, 0);
            assert(link.skip(1 + t.len() as int) =~= uleb(cap.op as nat) + rest);
            lemma_uleb_round_trip(cap.op as nat, rest, 0);
        },
        Resolved::Func(_) => {},
    }
}

/// A run of written entries is read back.
proof fn lemma_entries_round_trip(es: Seq<(Seq<char>, Resolved)>, rest: Seq<u8>)
    requires
        carriable(es),
        forall|i: int|
            0 <= i < es.len() ==> encode_utf8((#[trigger] es[i]).0).len() <= u64::MAX,
    ensures
        read_entries(entries_bytes(es) + rest, es.len()) == Some((es, entries_bytes(es).len())),
    decreases es.len(),
{
    if es.len() == 0 {
        assert(es =~= Seq::empty());
    } else {
        let e = es[0];
        let more = es.drop_first();
        let tail = entries_bytes(more) + rest;
        assert(forall|i: int| 0 <= i < more.len() ==> #[trigger] more[i] == es[i + 1]);
        lemma_entry_round_trip(e, tail);
        lemma_entries_round_trip(more, rest);
        assert(entries_bytes(es) + rest =~= entry_bytes(e) + tail);
        assert((entry_bytes(e) + tail).skip(entry_bytes(e).len() as int) =~= tail);
        assert(seq![e] + more =~= es);
    }
}

/// A decoded table is the table that was encoded: every name, link and order survives.
pub proof fn law_symtab_round_trip(es: Seq<(Seq<char>, Resolved)>)
    requires
        carriable(es),
        es.len() <= u64::MAX,
        forall|i: int|
            0 <= i < es.len() ==> encode_utf8((#[trigger] es[i]).0).len() <= u64::MAX,
    ensures
        spec_decode_symtab(spec_encode_symtab(es)) == Some(es),
{
    let s = spec_encode_symtab(es);
    lemma_uleb_room_start();
    lemma_uleb_round_trip(es.len(), entries_bytes(es), 0);
    let n = uleb(es.len()).len();
    assert(s.skip(n as int) =~= entries_bytes(es) + Seq::<u8>::empty());
    lemma_entries_round_trip(es, Seq::empty());
}

/// A byte after a well-formed table makes it malformed.
pub proof fn law_trailing_bytes_are_refused(es: Seq<(Seq<char>, Resolved)>, extra: Seq<u8>)
    requires
        carriable(es),
        es.len() <= u64::MAX,
        forall|i: int|
            0 <= i < es.len() ==> encode_utf8((#[trigger] es[i]).0).len() <= u64::MAX,
        extra.len() > 0,
    ensures
        spec_decode_symtab(spec_encode_symtab(es) + extra) is None,
{
    let s = spec_encode_symtab(es) + extra;
    lemma_uleb_room_start();
    assert(s =~= uleb(es.len()) + (entries_bytes(es) + extra));
    lemma_uleb_round_trip(es.len(), entries_bytes(es) + extra, 0);
    let n = uleb(es.len()).len();
    assert(s.skip(n as int) =~= entries_bytes(es) + extra);
    lemma_entries_round_trip(es, extra);
}

/// What a table links `name` to.
pub open spec fn spec_resolve(table: Seq<(Seq<char>, Resolved)>, name: Seq<char>) -> Option<Resolved>
    decreases table.len(),
{
    if table.len() == 0 {
        None
    } else if table[0].0 == name {
        Some(table[0].1)
    } else {
        spec_resolve(table.drop_first(), name)
    }
}

/// A name is linked to its first entry, and to nothing where no entry has it.
pub proof fn law_first_entry_resolves(table: Seq<(Seq<char>, Resolved)>, name: Seq<char>, i: int)
    ensures
        (0 <= i < table.len() && table[i].0 == name && forall|j: int|
            0 <= j < i ==> (#[trigger] table[j]).0 != name) ==> spec_resolve(table, name) == Some(
            table[i].1,
        ),
        (forall|j: int| 0 <= j < table.len() ==> (#[trigger] table[j]).0 != name) ==> spec_resolve(
            table,
            name,
        ) is None,
    decreases table.len(),
{
    if table.len() > 0 && table[0].0 != name {
        let rest = table.drop_first();
        law_first_entry_resolves(rest, name, i - 1);
        if 0 <= i < table.len() && table[i].0 == name && forall|j: int|
            0 <= j < i ==> (#[trigger] table[j]).0 != name {
            assert(rest[i - 1] == table[i]);
            assert forall|j: int| 0 <= j < i - 1 implies (#[trigger] rest[j]).0 != name by {
                assert(rest[j] == table[j + 1]);
            }
        }
        if forall|j: int| 0 <= j < table.len() ==> (#[trigger] table[j]).0 != name {
            assert forall|j: int| 0 <= j < rest.len() implies (#[trigger] rest[j]).0 != name by {
                assert(rest[j] == table[j + 1]);
            }
        }
    }
}

/// What the table links `name` to: its first entry for it.
pub fn resolve_symbol(table: &[SymEntry], name: &str) -> (r: Option<Resolved>)
    ensures
        r == spec_resolve(table_view(table@), name@),
        r is None <==> forall|i: int|
            0 <= i < table@.len() ==> (#[trigger] table@[i]).name@ != name@,
        r matches Some(link) ==> exists|i: int|
            0 <= i < table@.len() && (#[trigger] table@[i]).name@ == name@ && table@[i].link == link
                && forall|j: int| 0 <= j < i ==> (#[trigger] table@[j]).name@ != name@,
{
    let mut i: usize = 0;
    while i < table.len()
        invariant
            i <= table.len(),
            forall|j: int| 0 <= j < i ==> (#[trigger] table@[j]).name@ != name@,
        decreases table.len() - i,
    {
        if same_text(table[i].name.as_str(), name) {
            proof {
                let view = table_view(table@);
                assert forall|j: int| 0 <= j < i implies (#[trigger] view[j]).0 != name@ by {
                    assert(table@[j].name@ != name@);
                }
                law_first_entry_resolves(view, name@, i as int);
            }
            return Some(table[i].link);
        }
        i = i + 1;
    }
    proof {
        let view = table_view(table@);
        assert forall|j: int| 0 <= j < view.len() implies (#[trigger] view[j]).0 != name@ by {
            assert(table@[j].name@ != name@);
        }
        law_first_entry_resolves(view, name@, 0);
    }
    None
}

/// The reply that refuses a submitted unit.
pub const EINVAL: i64 = -22;

/// What is known of a submitted unit once its imports were resolved against its table.
#[derive(Clone, Copy, Debug, PartialEq, Eq, Structural)]
pub struct UnitFacts {
    /// Every import found a symbol.
    pub resolved: bool,
    /// The resolved unit verifies.
    pub verified: bool,
    /// The declared window.
    pub memory_log2: Option<u8>,
    /// It carries initialised data.
    pub has_data: bool,
    pub has_funcs: bool,
    /// Some function uses threads or futexes.
    pub concurrent: bool,
}

/// A unit may join a program with window `mem_log2`: it resolves and verifies, declares exactly
/// that window, and has code, no data and no concurrency.
pub open spec fn unit_admissible(unit: UnitFacts, mem_log2: Option<u8>) -> bool {
    &&& unit.resolved
    &&& unit.verified
    &&& unit.memory_log2 == mem_log2
    &&& !unit.has_data
    &&& unit.has_funcs
    &&& !unit.concurrent
}

/// `r` is the judgement on a submitted unit.
pub open spec fn validated(
    symtab: Seq<u8>,
    unit: Option<UnitFacts>,
    mem_log2: Option<u8>,
    r: Result<Vec<SymEntry>, i64>,
) -> bool {
    match r {
        Ok(es) => Some(table_view(es@)) == spec_decode_symtab(symtab) && (unit matches Some(u)
            && unit_admissible(u, mem_log2)),
        Err(e) => e == EINVAL && (spec_decode_symtab(symtab) is None || unit is None || (
        unit matches Some(u) && !unit_admissible(u, mem_log2))),
    }
}

/// Judges a submitted unit: its table must be well formed, it must decode, and it must be
/// admissible.
pub fn browser_jit_validator(symtab: &[u8], unit: Option<UnitFacts>, mem_log2: Option<u8>) -> (r:
    Result<Vec<SymEntry>, i64>)
    ensures
        r is Ok <==> spec_decode_symtab(symtab@) is Some && (unit matches Some(u)
            && unit_admissible(u, mem_log2)),
        r matches Ok(es) ==> Some(table_view(es@)) == spec_decode_symtab(symtab@),
        r matches Err(e) ==> e == EINVAL,
        validated(symtab@, unit, mem_log2, r),
{
    let table: Vec<SymEntry> = match decode_symtab(symtab) {
        None => {
            return Err(EINVAL);
        },
        Some(t) => t,
    };
    let u: UnitFacts = match unit {
        None => {
            return Err(EINVAL);
        },
        Some(u) => u,
    };
    if !u.resolved || !u.verified {
        return Err(EINVAL);
    }
    let same_window: bool = match (u.memory_log2, mem_log2) {
        (None, None) => true,
        (Some(a), Some(b)) => a == b,
        _ => false,
    };
    if !same_window || u.has_data || !u.has_funcs || u.concurrent {
        return Err(EINVAL);
    }
    Ok(table)
}

/// A unit that could not join a program is refused for each reason alone, and one without any joins.
pub proof fn law_unit_joins_unless_something_forbids_it(unit: UnitFacts, mem_log2: Option<u8>)
    ensures
        !unit.resolved ==> !unit_admissible(unit, mem_log2),
        !unit.verified ==> !unit_admissible(unit, mem_log2),
        unit.memory_log2 != mem_log2 ==> !unit_admissible(unit, mem_log2),
        unit.has_data ==> !unit_admissible(unit, mem_log2),
        !unit.has_funcs ==> !unit_admissible(unit, mem_log2),
        unit.concurrent ==> !unit_admissible(unit, mem_log2),
        unit.resolved && unit.verified && unit.memory_log2 == mem_log2 && !unit.has_data
            && unit.has_funcs && !unit.concurrent ==> unit_admissible(unit, mem_log2),
{
}

/// A number that is read does not depend on what follows it.
proof fn lemma_uleb_front(s: Seq<u8>, t: Seq<u8>, k: nat)
    requires
        uleb_read(s, k) is Some,
    ensures
        uleb_read(s + t, k) == uleb_read(s, k),
        uleb_used(s, k) == (uleb_read(s, k)->0).1,
    decreases s.len(),
{
    assert((s + t)[0] == s[0]);
    if s[0] >= 128 {
        assert((s + t).drop_first() =~= s.drop_first() + t);
        lemma_uleb_front(s.drop_first(), t, k + 1);
    }
}

/// An entry that is read does not depend on what follows it.
proof fn lemma_entry_front(s: Seq<u8>, t: Seq<u8>)
    requires
        read_entry(s) is Some,
    ensures
        read_entry(s + t) == read_entry(s),
        (read_entry(s)->0).1 <= s.len(),
{
    lemma_uleb_front(s, t, 0);
    lemma_uleb_read_bounds(s, 0);
    let (n, k) = uleb_read(s, 0)->0;
    assert((s + t).subrange(k as int, (k + n) as int) =~= s.subrange(k as int, (k + n) as int));
    let at = (k + n) as int;
    let link = s.skip(at);
    assert((s + t).skip(at) =~= link + t);
    assert((link + t)[0] == link[0]);
    let a = link.skip(1);
    assert((link + t).skip(1) =~= a + t);
    lemma_uleb_front(a, t, 0);
    lemma_uleb_read_bounds(a, 0);
    if link[0] == KIND_CAP {
        let m = (uleb_read(a, 0)->0).1;
        let b = link.skip(1 + m as int);
        assert((link + t).skip(1 + m as int) =~= b + t);
        lemma_uleb_front(b, t, 0);
        lemma_uleb_read_bounds(b, 0);
    }
}

/// Entries that are read do not depend on what follows them.
proof fn lemma_entries_front(s: Seq<u8>, t: Seq<u8>, count: nat)
    requires
        read_entries(s, count) is Some,
    ensures
        read_entries(s + t, count) == read_entries(s, count),
    decreases count,
{
    if count > 0 {
        lemma_entry_front(s, t);
        let n = (read_entry(s)->0).1 as int;
        assert((s + t).skip(n) =~= s.skip(n) + t);
        lemma_entries_front(s.skip(n), t, (count - 1) as nat);
    }
}

/// A table is read whole or not at all: no table is the front of another, so neither bytes that are
/// missing nor bytes that are left over go unnoticed.
pub proof fn law_no_table_is_the_front_of_another(s: Seq<u8>, t: Seq<u8>)
    requires
        s.len() > 0,
        t.len() > 0,
        spec_decode_symtab(s) is Some,
    ensures
        spec_decode_symtab(s + t) is None,
{
    lemma_uleb_front(s, t, 0);
    lemma_uleb_read_bounds(s, 0);
    let (count, n) = uleb_read(s, 0)->0;
    assert((s + t).skip(n as int) =~= s.skip(n as int) + t);
    lemma_entries_front(s.skip(n as int), t, count);
}

/// An entry is its name's length and bytes, then a zero and the slot, or a one and the capability's
/// interface and operation; a number below 128 is one byte.
pub proof fn law_entry_is_laid_out(name: Seq<char>, slot: u32, cap: ResolvedCap, small: u8)
    requires
        encode_utf8(name).len() < 128,
        small < 128,
    ensures
        ({
            let utf8 = encode_utf8(name);
            let head = seq![utf8.len() as u8] + utf8;
            &&& entry_bytes((name, Resolved::Slot(slot))) == head + seq![0u8] + uleb(slot as nat)
            &&& entry_bytes((name, Resolved::Cap(cap))) == head + seq![1u8] + uleb(
                cap.type_id as nat,
            ) + uleb(cap.op as nat)
            &&& uleb(small as nat) == seq![small]
        }),
{
    let utf8 = encode_utf8(name);
    let head = seq![utf8.len() as u8] + utf8;
    assert(entry_bytes((name, Resolved::Slot(slot))) =~= head + seq![0u8] + uleb(slot as nat));
    assert(entry_bytes((name, Resolved::Cap(cap))) =~= head + seq![1u8] + uleb(cap.type_id as nat)
        + uleb(cap.op as nat));
}

/// A guest's own table comes back from the judge: an admissible unit gets exactly the entries that it
/// was submitted with.
pub proof fn law_admitted_unit_keeps_its_table(
    es: Seq<(Seq<char>, Resolved)>,
    unit: UnitFacts,
    mem_log2: Option<u8>,
    r: Result<Vec<SymEntry>, i64>,
)
    requires
        carriable(es),
        es.len() <= u64::MAX,
        forall|i: int|
            0 <= i < es.len() ==> encode_utf8((#[trigger] es[i]).0).len() <= u64::MAX,
        validated(spec_encode_symtab(es), Some(unit), mem_log2, r),
    ensures
        unit_admissible(unit, mem_log2) ==> (r matches Ok(got) && table_view(got@) == es),
        !unit_admissible(unit, mem_log2) ==> (r matches Err(e) && e == -22),
{
    law_symtab_round_trip(es);
}

} // verus!
