//! Power-of-two window sizes and the bytes of a guest window.

use vstd::arithmetic::power2::{
    lemma_pow2_adds, lemma_pow2_pos, lemma_pow2_strictly_increases, lemma_pow2_unfold, pow2,
};
use vstd::prelude::*;
use vstd::slice::slice_subrange;

use crate::bytes::splice;

verus! {

/// `n` is a power of two.
pub open spec fn is_pow2(n: nat) -> bool {
    exists|k: nat| n == #[trigger] pow2(k)
}

/// An odd multiple of a power of two is a power of two only if the factor is one.
proof fn lemma_odd_factor(w: nat, k: nat)
    requires
        w % 2 == 1,
        is_pow2(w * pow2(k)),
    ensures
        w == 1,
{
    let m: nat = choose|m: nat| w * pow2(k) == #[trigger] pow2(m);
    lemma_pow2_pos(k);
    if m < k {
        lemma_pow2_strictly_increases(m, k);
        assert(w * pow2(k) >= pow2(k)) by (nonlinear_arith)
            requires
                w >= 1,
        ;
    } else {
        let d = (m - k) as nat;
        lemma_pow2_adds(k, d);
        assert(w == pow2(d)) by (nonlinear_arith)
            requires
                w * pow2(k) == pow2(k) * pow2(d),
                pow2(k) > 0,
        ;
        if d > 0 {
            lemma_pow2_unfold(d);
        }
        lemma_pow2_zero();
    }
}

/// `2^0` is one.
proof fn lemma_pow2_zero()
    ensures
        pow2(0) == 1,
{
    vstd::arithmetic::power2::lemma2_to64();
}

/// The exponent of a power of two; `None` for any other number.
pub fn exact_log2(n: usize) -> (r: Option<u8>)
    ensures
        r is Some <==> is_pow2(n as nat),
        r matches Some(k) ==> n == pow2(k as nat),
{
    if n == 0 {
        proof {
            assert forall|k: nat| 0 != #[trigger] pow2(k) by {
                lemma_pow2_pos(k);
            }
        }
        return None;
    }
    let mut w: usize = n;
    let mut k: u8 = 0;
    proof {
        lemma_pow2_zero();
    }
    while w % 2 == 0
        invariant
            1 <= w <= n,
            n == w * pow2(k as nat),
            k < 64,
        decreases w,
    {
        proof {
            lemma_pow2_adds(1, k as nat);
            vstd::arithmetic::power2::lemma2_to64();
            assert(w * pow2(k as nat) == (w / 2) * pow2((k + 1) as nat)) by (nonlinear_arith)
                requires
                    w % 2 == 0,
                    pow2((k + 1) as nat) == 2 * pow2(k as nat),
            ;
            lemma_log_bound((w / 2) as nat, (k + 1) as nat, n as nat);
        }
        w = w / 2;
        k = k + 1;
    }
    if w == 1 {
        assert(is_pow2(n as nat));
        Some(k)
    } else {
        proof {
            if is_pow2(n as nat) {
                lemma_odd_factor(w as nat, k as nat);
            }
        }
        None
    }
}

/// A positive multiple of `2^k` below `2^64` has `k < 64`.
proof fn lemma_log_bound(w: nat, k: nat, n: nat)
    requires
        w >= 1,
        n == w * pow2(k),
        n <= u64::MAX,
    ensures
        k < 64,
{
    if k >= 64 {
        vstd::arithmetic::power2::lemma2_to64_rest();
        if k > 64 {
            lemma_pow2_strictly_increases(64, k);
        }
        assert(w * pow2(k) >= pow2(k)) by (nonlinear_arith)
            requires
                w >= 1,
        ;
    }
}

/// `2^k` bytes.
pub fn size_of_log2(k: u8) -> (r: u64)
    requires
        k < 64,
    ensures
        r == pow2(k as nat),
{
    let mut r: u64 = 1;
    let mut i: u8 = 0;
    proof {
        lemma_pow2_zero();
        vstd::arithmetic::power2::lemma2_to64_rest();
    }
    while i < k
        invariant
            i <= k < 64,
            r == pow2(i as nat),
            pow2(64) == 0x1_0000_0000_0000_0000,
        decreases k - i,
    {
        proof {
            lemma_pow2_unfold((i + 1) as nat);
            if i + 1 < 64 {
                lemma_pow2_strictly_increases((i + 1) as nat, 64);
            }
        }
        r = r * 2;
        i = i + 1;
    }
    r
}

/// An initialised part of a guest window.
#[derive(Debug)]
pub struct Segment {
    pub offset: u64,
    pub bytes: Vec<u8>,
}

/// `win` with `part` laid over it at `off`, if it fits whole; else as it is.
pub open spec fn laid_over(win: Seq<u8>, off: nat, part: Seq<u8>) -> Seq<u8> {
    if off + part.len() <= win.len() {
        splice(win, off as int, part)
    } else {
        win
    }
}

/// `win` with the first `n` segments laid over it in order.
pub open spec fn seeded(win: Seq<u8>, segs: Seq<Segment>, n: nat) -> Seq<u8>
    decreases n,
{
    if n == 0 {
        win
    } else {
        laid_over(
            seeded(win, segs, (n - 1) as nat),
            segs[n - 1].offset as nat,
            segs[n - 1].bytes@,
        )
    }
}

/// Seeding keeps the size of the window.
pub proof fn lemma_seeded_len(win: Seq<u8>, segs: Seq<Segment>, n: nat)
    ensures
        seeded(win, segs, n).len() == win.len(),
    decreases n,
{
    if n > 0 {
        lemma_seeded_len(win, segs, (n - 1) as nat);
    }
}

/// Copies `part` into the window at `off`.
pub fn copy_into(win: &mut [u8], off: usize, part: &[u8])
    requires
        off + part@.len() <= old(win)@.len(),
    ensures
        final(win)@ == splice(old(win)@, off as int, part@),
{
    let ghost start = win@;
    let mut k: usize = 0;
    while k < part.len()
        invariant
            k <= part.len(),
            off + part@.len() <= win.len(),
            win@.len() == start.len(),
            forall|j: int|
                0 <= j < start.len() ==> #[trigger] win@[j] == if off <= j < off + k {
                    part@[j - off]
                } else {
                    start[j]
                },
        decreases part.len() - k,
    {
        win[off + k] = part[k];
        k = k + 1;
    }
    assert(win@ =~= splice(start, off as int, part@));
}

/// Lays `part` over the window at `off` if it fits whole.
fn lay_over(win: &mut [u8], off: u64, part: &[u8])
    ensures
        final(win)@ == laid_over(old(win)@, off as nat, part@),
{
    let len: u64 = win.len() as u64;
    if off <= len && part.len() as u64 <= len - off {
        copy_into(win, off as usize, part);
    }
}

/// `win` with the prefix laid over it, then the data segments.
pub open spec fn spec_seed_window(win: Seq<u8>, prefix: Seq<u8>, segs: Seq<Segment>) -> Seq<u8> {
    seeded(laid_over(win, 0, prefix), segs, segs.len())
}

/// Seeds a window: the prefix first, then the data segments, each skipped if it does not fit.
pub fn seed_window(win: &mut [u8], prefix: &[u8], segs: &[Segment])
    ensures
        final(win)@ == spec_seed_window(old(win)@, prefix@, segs@),
        final(win)@ == seeded(laid_over(old(win)@, 0, prefix@), segs@, segs@.len()),
{
    lay_over(win, 0, prefix);
    let ghost start = win@;
    let mut i: usize = 0;
    while i < segs.len()
        invariant
            i <= segs.len(),
            win@ == seeded(start, segs@, i as nat),
        decreases segs.len() - i,
    {
        lay_over(win, segs[i].offset, segs[i].bytes.as_slice());
        i = i + 1;
    }
}

/// `win` with what reaches into it of `part`, laid at `off`.
pub open spec fn clamped_over(win: Seq<u8>, off: nat, part: Seq<u8>) -> Seq<u8> {
    if off >= win.len() {
        win
    } else if part.len() <= win.len() - off {
        splice(win, off as int, part)
    } else {
        splice(win, off as int, part.take(win.len() - off))
    }
}

/// `win` with the first `n` segments laid over it in order, each clamped to the window.
pub open spec fn initialised(win: Seq<u8>, segs: Seq<Segment>, n: nat) -> Seq<u8>
    decreases n,
{
    if n == 0 {
        win
    } else {
        clamped_over(
            initialised(win, segs, (n - 1) as nat),
            segs[n - 1].offset as nat,
            segs[n - 1].bytes@,
        )
    }
}

/// Lays the data segments of a module over a window, each clamped to the window.
pub fn svm_wasmjit_init_window(win: &mut [u8], segs: &[Segment])
    ensures
        final(win)@ == initialised(old(win)@, segs@, segs@.len()),
{
    let ghost start = win@;
    let mut i: usize = 0;
    while i < segs.len()
        invariant
            i <= segs.len(),
            win@ == initialised(start, segs@, i as nat),
        decreases segs.len() - i,
    {
        let len: u64 = win.len() as u64;
        let off: u64 = segs[i].offset;
        let part: &[u8] = segs[i].bytes.as_slice();
        if off < len {
            let room: usize = (len - off) as usize;
            let count: usize = if part.len() <= room {
                part.len()
            } else {
                room
            };
            let head: &[u8] = slice_subrange(part, 0, count);
            assert(head@ =~= part@.take(count as int));
            assert(part@.take(part@.len() as int) =~= part@);
            copy_into(win, off as usize, head);
        }
        i = i + 1;
    }
}

/// Initialising a window keeps its size.
pub proof fn lemma_initialised_len(win: Seq<u8>, segs: Seq<Segment>, n: nat)
    ensures
        initialised(win, segs, n).len() == win.len(),
    decreases n,
{
    if n > 0 {
        lemma_initialised_len(win, segs, (n - 1) as nat);
    }
}

/// A window shows every byte of a segment that lies in it, but for those that a later segment lies
/// over.
pub proof fn law_clamped_segment_is_visible(
    win: Seq<u8>,
    segs: Seq<Segment>,
    i: nat,
    n: nat,
    j: int,
)
    requires
        i < n <= segs.len(),
        segs[i as int].offset <= j < segs[i as int].offset + segs[i as int].bytes@.len(),
        j < win.len(),
        forall|k: int|
            i < k < n ==> !((#[trigger] segs[k]).offset <= j < segs[k].offset
                + segs[k].bytes@.len()),
    ensures
        initialised(win, segs, n)[j] == segs[i as int].bytes@[j - segs[i as int].offset],
    decreases n,
{
    lemma_initialised_len(win, segs, (n - 1) as nat);
    if i + 1 < n {
        law_clamped_segment_is_visible(win, segs, i, (n - 1) as nat, j);
        assert(!(segs[n - 1].offset <= j < segs[n - 1].offset + segs[n - 1].bytes@.len()));
    }
}

/// Where no later segment reaches, a window shows the bytes of the segment laid there.
pub proof fn law_segment_is_visible(win: Seq<u8>, segs: Seq<Segment>, i: nat, n: nat, j: int)
    requires
        i < n <= segs.len(),
        segs[i as int].offset <= j < segs[i as int].offset + segs[i as int].bytes@.len()
            <= win.len(),
        forall|k: int|
            i < k < n ==> !((#[trigger] segs[k]).offset <= j < segs[k].offset
                + segs[k].bytes@.len()),
    ensures
        seeded(win, segs, n)[j] == segs[i as int].bytes@[j - segs[i as int].offset],
    decreases n,
{
    lemma_seeded_len(win, segs, (n - 1) as nat);
    if i + 1 < n {
        law_segment_is_visible(win, segs, i, (n - 1) as nat, j);
        assert(!(segs[n - 1].offset <= j < segs[n - 1].offset + segs[n - 1].bytes@.len()));
    }
}

/// Seeding touches nothing but what the segments cover.
pub proof fn law_uncovered_bytes_stay(win: Seq<u8>, segs: Seq<Segment>, n: nat, j: int)
    requires
        n <= segs.len(),
        0 <= j < win.len(),
        forall|k: int|
            0 <= k < n ==> !((#[trigger] segs[k]).offset <= j < segs[k].offset
                + segs[k].bytes@.len()),
    ensures
        seeded(win, segs, n)[j] == win[j],
        initialised(win, segs, n)[j] == win[j],
        seeded(win, segs, n).len() == win.len(),
        initialised(win, segs, n).len() == win.len(),
    decreases n,
{
    lemma_seeded_len(win, segs, n);
    lemma_initialised_len(win, segs, n);
    if n > 0 {
        law_uncovered_bytes_stay(win, segs, (n - 1) as nat, j);
        assert(!(segs[n - 1].offset <= j < segs[n - 1].offset + segs[n - 1].bytes@.len()));
    }
}

/// A segment that does not fit whole is left out of a seeded window, and its front goes into an
/// initialised one.
pub proof fn law_overhanging_segment(win: Seq<u8>, off: nat, part: Seq<u8>, j: int)
    requires
        off + part.len() > win.len(),
        0 <= j < win.len(),
    ensures
        laid_over(win, off, part) == win,
        clamped_over(win, off, part).len() == win.len(),
        j < off ==> clamped_over(win, off, part)[j] == win[j],
        off <= j ==> clamped_over(win, off, part)[j] == part[j - off],
{
}

/// A seeded window shows its prefix, but for what a segment lies over.
pub proof fn law_prefix_is_visible(win: Seq<u8>, prefix: Seq<u8>, segs: Seq<Segment>, j: int)
    requires
        0 <= j < win.len(),
        prefix.len() <= win.len(),
        forall|k: int|
            0 <= k < segs.len() ==> !((#[trigger] segs[k]).offset <= j < segs[k].offset
                + segs[k].bytes@.len()),
    ensures
        j < prefix.len() ==> spec_seed_window(win, prefix, segs)[j] == prefix[j],
        prefix.len() <= j ==> spec_seed_window(win, prefix, segs)[j] == win[j],
        spec_seed_window(win, prefix, segs).len() == win.len(),
{
    let base = laid_over(win, 0, prefix);
    law_uncovered_bytes_stay(base, segs, segs.len(), j);
}

/// Where no later segment reaches, a seeded window shows the segment, over the prefix too.
pub proof fn law_segment_lies_over_the_prefix(
    win: Seq<u8>,
    prefix: Seq<u8>,
    segs: Seq<Segment>,
    i: nat,
    j: int,
)
    requires
        i < segs.len(),
        segs[i as int].offset <= j < segs[i as int].offset + segs[i as int].bytes@.len()
            <= win.len(),
        forall|k: int|
            i < k < segs.len() ==> !((#[trigger] segs[k]).offset <= j < segs[k].offset
                + segs[k].bytes@.len()),
    ensures
        spec_seed_window(win, prefix, segs)[j] == segs[i as int].bytes@[j
            - segs[i as int].offset],
{
    law_segment_is_visible(laid_over(win, 0, prefix), segs, i, segs.len(), j);
}

/// Seeding with a segment that does not fit whole is seeding without it.
pub proof fn law_unfit_segment_is_skipped(win: Seq<u8>, segs: Seq<Segment>, n: nat)
    requires
        0 < n <= segs.len(),
        segs[n - 1].offset + segs[n - 1].bytes@.len() > win.len(),
    ensures
        seeded(win, segs, n) == seeded(win, segs, (n - 1) as nat),
{
    lemma_seeded_len(win, segs, (n - 1) as nat);
}

} // verus!
