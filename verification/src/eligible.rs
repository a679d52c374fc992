//! Which functions of a module may run on an emitted body.

use vstd::prelude::*;

use crate::slots::{all_scalar, scalar_type_code, spec_scalar_type_code, ValType};

verus! {

/// A function signature.
#[derive(Debug)]
pub struct Sig {
    pub params: Vec<ValType>,
    pub results: Vec<ValType>,
}

/// Every type of `ts` is `i64`.
pub open spec fn spec_all_i64(ts: Seq<ValType>) -> bool {
    forall|i: int| 0 <= i < ts.len() ==> #[trigger] ts[i] == ValType::I64
}

/// Whether every type of `ts` is `i64`.
pub fn all_i64(ts: &[ValType]) -> (r: bool)
    ensures
        r == spec_all_i64(ts@),
{
    let mut i: usize = 0;
    while i < ts.len()
        invariant
            i <= ts.len(),
            forall|j: int| 0 <= j < i ==> #[trigger] ts@[j] == ValType::I64,
        decreases ts.len() - i,
    {
        if ts[i] != ValType::I64 {
            return false;
        }
        i = i + 1;
    }
    true
}

/// Which functions tier up: those with an emitted body and an all-`i64` signature, since the host
/// passes every argument and result as a plain 64-bit slot.
pub open spec fn spec_tierup_eligible(emit: Seq<bool>, sigs: Seq<Sig>) -> Seq<bool> {
    Seq::new(
        sigs.len(),
        |i: int|
            emit[i] && spec_all_i64(sigs[i].params@) && spec_all_i64(sigs[i].results@),
    )
}

/// Which functions tier up, given which ones the emitter emitted.
pub fn tierup_eligible(emit: &[bool], sigs: &[Sig]) -> (r: Vec<bool>)
    requires
        sigs@.len() <= emit@.len(),
    ensures
        r@ == spec_tierup_eligible(emit@, sigs@),
{
    let mut out: Vec<bool> = Vec::with_capacity(sigs.len());
    let mut i: usize = 0;
    while i < sigs.len()
        invariant
            i <= sigs.len(),
            sigs@.len() <= emit@.len(),
            out@ == spec_tierup_eligible(emit@, sigs@).take(i as int),
        decreases sigs.len() - i,
    {
        let e: bool = emit[i] && all_i64(sigs[i].params.as_slice()) && all_i64(
            sigs[i].results.as_slice(),
        );
        out.push(e);
        assert(out@ =~= spec_tierup_eligible(emit@, sigs@).take(i as int + 1));
        i = i + 1;
    }
    assert(out@ =~= spec_tierup_eligible(emit@, sigs@));
    out
}

/// Some flag is set.
pub open spec fn spec_any(flags: Seq<bool>) -> bool {
    exists|i: int| 0 <= i < flags.len() && #[trigger] flags[i]
}

/// Whether some flag is set.
pub fn any(flags: &[bool]) -> (r: bool)
    ensures
        r == spec_any(flags@),
{
    let mut i: usize = 0;
    while i < flags.len()
        invariant
            i <= flags.len(),
            forall|j: int| 0 <= j < i ==> !#[trigger] flags@[j],
        decreases flags.len() - i,
    {
        if flags[i] {
            return true;
        }
        i = i + 1;
    }
    false
}

/// Whether every type of `ts` is a scalar.
pub fn all_scalar_types(ts: &[ValType]) -> (r: bool)
    ensures
        r == all_scalar(ts@),
{
    let mut i: usize = 0;
    while i < ts.len()
        invariant
            i <= ts.len(),
            forall|j: int| 0 <= j < i ==> spec_scalar_type_code(#[trigger] ts@[j]) is Some,
        decreases ts.len() - i,
    {
        if scalar_type_code(ts[i]).is_none() {
            return false;
        }
        i = i + 1;
    }
    true
}

/// A bounce shim can carry calls of this signature: scalars only, and no more of them on a side
/// than the scratch has slots.
pub open spec fn spec_shimmable(sig: Sig, max_slots: nat) -> bool {
    &&& all_scalar(sig.params@)
    &&& all_scalar(sig.results@)
    &&& sig.params@.len() <= max_slots
    &&& sig.results@.len() <= max_slots
}

/// Every function of the module can be reached through a bounce shim.
pub open spec fn spec_all_shimmable(sigs: Seq<Sig>, max_slots: nat) -> bool {
    forall|i: int| 0 <= i < sigs.len() ==> spec_shimmable(#[trigger] sigs[i], max_slots)
}

/// Whether every function can be reached through a bounce shim.
pub fn all_shimmable(sigs: &[Sig], max_slots: usize) -> (r: bool)
    ensures
        r == spec_all_shimmable(sigs@, max_slots as nat),
{
    let mut i: usize = 0;
    while i < sigs.len()
        invariant
            i <= sigs.len(),
            forall|j: int| 0 <= j < i ==> spec_shimmable(#[trigger] sigs@[j], max_slots as nat),
        decreases sigs.len() - i,
    {
        let s: &Sig = &sigs[i];
        if !(all_scalar_types(s.params.as_slice()) && all_scalar_types(s.results.as_slice())
            && s.params.len() <= max_slots && s.results.len() <= max_slots) {
            return false;
        }
        i = i + 1;
    }
    true
}

/// A function tiers up exactly if it was emitted and takes and returns nothing but 64-bit integers.
pub proof fn law_only_all_i64_functions_tier_up(emit: Seq<bool>, sigs: Seq<Sig>, i: int)
    requires
        0 <= i < sigs.len(),
    ensures
        spec_tierup_eligible(emit, sigs).len() == sigs.len(),
        spec_tierup_eligible(emit, sigs)[i] <==> {
            &&& emit[i]
            &&& forall|j: int|
                0 <= j < sigs[i].params@.len() ==> #[trigger] sigs[i].params@[j] == ValType::I64
            &&& forall|j: int|
                0 <= j < sigs[i].results@.len() ==> #[trigger] sigs[i].results@[j] == ValType::I64
        },
{
}

/// A shim carries a call exactly if nothing of its signature stands against it: every operand is a
/// scalar, and neither side has more of them than there are slots.
pub proof fn law_shim_carries_what_fits(sig: Sig, max_slots: nat, i: int)
    ensures
        spec_shimmable(sig, max_slots) <==> all_scalar(sig.params@) && all_scalar(sig.results@)
            && sig.params@.len() <= max_slots && sig.results@.len() <= max_slots,
        0 <= i < sig.params@.len() && sig.params@[i] == ValType::Ref ==> !spec_shimmable(
            sig,
            max_slots,
        ),
        0 <= i < sig.results@.len() && sig.results@[i] == ValType::Ref ==> !spec_shimmable(
            sig,
            max_slots,
        ),
        spec_shimmable(sig, max_slots) ==> spec_shimmable(sig, max_slots + 1),
{
}

/// A module is reached through shims exactly if each of its functions is, and a set of flags has one
/// exactly if some flag is set.
pub proof fn law_every_function_needs_a_shim(sigs: Seq<Sig>, max_slots: nat, flags: Seq<bool>, i: int)
    ensures
        0 <= i < sigs.len() && !spec_shimmable(sigs[i], max_slots) ==> !spec_all_shimmable(
            sigs,
            max_slots,
        ),
        (forall|j: int| 0 <= j < sigs.len() ==> spec_shimmable(#[trigger] sigs[j], max_slots))
            ==> spec_all_shimmable(sigs, max_slots),
        0 <= i < flags.len() && flags[i] ==> spec_any(flags),
        (forall|j: int| 0 <= j < flags.len() ==> !#[trigger] flags[j]) ==> !spec_any(flags),
{
}

} // verus!
