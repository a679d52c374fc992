//! Little-endian integers in byte sequences, and the two's-complement readings of their bits.

use vstd::prelude::*;

verus! {

/// The `n` low base-256 digits of `x`, least significant first.
pub open spec fn le_bytes(x: nat, n: nat) -> Seq<u8>
    decreases n,
{
    if n == 0 {
        Seq::empty()
    } else {
        seq![(x % 256) as u8] + le_bytes(x / 256, (n - 1) as nat)
    }
}

/// The number whose base-256 digits, least significant first, are `s`.
pub open spec fn le_value(s: Seq<u8>) -> nat
    decreases s.len(),
{
    if s.len() == 0 {
        0
    } else {
        s[0] as nat + 256 * le_value(s.drop_first())
    }
}

/// `256^n`.
pub open spec fn pow256(n: nat) -> nat
    decreases n,
{
    if n == 0 {
        1
    } else {
        256 * pow256((n - 1) as nat)
    }
}

/// `le_bytes(x, n)` has `n` bytes.
pub proof fn lemma_le_bytes_len(x: nat, n: nat)
    ensures
        le_bytes(x, n).len() == n,
    decreases n,
{
    if n > 0 {
        lemma_le_bytes_len(x / 256, (n - 1) as nat);
    }
}

/// Reading back a written number gives the number, as long as it fits in `n` bytes.
pub proof fn lemma_le_round_trip(x: nat, n: nat)
    requires
        x < pow256(n),
    ensures
        le_value(le_bytes(x, n)) == x,
    decreases n,
{
    if n > 0 {
        lemma_le_bytes_len(x, n);
        assert(x / 256 < pow256((n - 1) as nat)) by (nonlinear_arith)
            requires
                x < 256 * pow256((n - 1) as nat),
        ;
        lemma_le_round_trip(x / 256, (n - 1) as nat);
        assert(le_bytes(x, n).drop_first() =~= le_bytes(x / 256, (n - 1) as nat));
    }
}

/// A number read from `n` bytes fits in `n` bytes.
pub proof fn lemma_le_value_bound(s: Seq<u8>)
    ensures
        le_value(s) < pow256(s.len()),
    decreases s.len(),
{
    if s.len() > 0 {
        lemma_le_value_bound(s.drop_first());
    }
}

/// Writing back a number read from bytes gives those bytes.
pub proof fn lemma_le_value_round_trip(s: Seq<u8>)
    ensures
        le_bytes(le_value(s), s.len()) == s,
    decreases s.len(),
{
    if s.len() > 0 {
        let rest = s.drop_first();
        lemma_le_value_round_trip(rest);
        assert((s[0] as nat + 256 * le_value(rest)) / 256 == le_value(rest));
        assert((s[0] as nat + 256 * le_value(rest)) % 256 == s[0] as nat);
        assert(le_bytes(le_value(s), s.len()) =~= s);
    } else {
        assert(le_bytes(le_value(s), s.len()) =~= s);
    }
}

/// The values of `pow256` that the fixed widths use.
pub proof fn lemma_pow256_values()
    ensures
        pow256(4) == 0x1_0000_0000,
        pow256(8) == 0x1_0000_0000_0000_0000,
{
    reveal_with_fuel(pow256, 9);
}

/// `x` as the unsigned number with the same 32 bits.
pub open spec fn bits_of_i32(x: i32) -> nat {
    if x < 0 {
        (x + 0x1_0000_0000) as nat
    } else {
        x as nat
    }
}

/// `x` as the unsigned number with the same 64 bits.
pub open spec fn bits_of_i64(x: i64) -> nat {
    if x < 0 {
        (x + 0x1_0000_0000_0000_0000) as nat
    } else {
        x as nat
    }
}

/// The signed number whose 32 bits are the low 32 bits of `raw`.
pub open spec fn low_i32(raw: nat) -> int {
    let low = raw % 0x1_0000_0000;
    if low >= 0x8000_0000 {
        low - 0x1_0000_0000
    } else {
        low as int
    }
}

/// The signed number whose 64 bits are the low 64 bits of `raw`.
pub open spec fn low_i64(raw: nat) -> int {
    let low = raw % 0x1_0000_0000_0000_0000;
    if low >= 0x8000_0000_0000_0000 {
        low - 0x1_0000_0000_0000_0000
    } else {
        low as int
    }
}

/// The 32 bits of `x`, zero-extended to 64.
pub fn i32_bits(x: i32) -> (r: u64)
    ensures
        r == bits_of_i32(x),
{
    if x < 0 {
        (x as i64 + 0x1_0000_0000) as u64
    } else {
        x as u64
    }
}

/// The 64 bits of `x`.
pub fn i64_bits(x: i64) -> (r: u64)
    ensures
        r == bits_of_i64(x),
{
    if x < 0 {
        (x as i128 + 0x1_0000_0000_0000_0000) as u64
    } else {
        x as u64
    }
}

/// The low 32 bits of `raw`, read as a signed number.
pub fn i32_of_low(raw: u64) -> (r: i32)
    ensures
        r == low_i32(raw as nat),
{
    let low: u64 = raw % 0x1_0000_0000;
    if low >= 0x8000_0000 {
        (low as i64 - 0x1_0000_0000) as i32
    } else {
        low as i32
    }
}

/// `raw` read as a signed number.
pub fn i64_of_bits(raw: u64) -> (r: i64)
    ensures
        r == low_i64(raw as nat),
{
    if raw >= 0x8000_0000_0000_0000 {
        (raw as i128 - 0x1_0000_0000_0000_0000) as i64
    } else {
        raw as i64
    }
}

/// Overwrites the eight bytes at `off` with `x`.
pub fn put_u64_at(buf: &mut [u8], off: usize, x: u64)
    requires
        off + 8 <= old(buf)@.len(),
    ensures
        final(buf)@ == splice(old(buf)@, off as int, le_bytes(x as nat, 8)),
{
    let ghost start = buf@;
    let mut k: usize = 0;
    let mut rest: u64 = x;
    proof {
        lemma_le_bytes_len(x as nat, 8);
    }
    while k < 8
        invariant
            k <= 8,
            off + 8 <= buf.len(),
            buf@.len() == start.len(),
            le_bytes(x as nat, 8).len() == 8,
            le_bytes(x as nat, 8).skip(k as int) == le_bytes(rest as nat, (8 - k) as nat),
            forall|j: int|
                0 <= j < start.len() ==> #[trigger] buf@[j] == if off <= j < off + k {
                    le_bytes(x as nat, 8)[j - off]
                } else {
                    start[j]
                },
        decreases 8 - k,
    {
        let b: u8 = (rest % 256) as u8;
        proof {
            let tail = le_bytes(rest as nat, (8 - k) as nat);
            lemma_le_bytes_len(rest as nat, (8 - k) as nat);
            assert(tail[0] == b);
            assert(le_bytes(x as nat, 8).skip(k as int)[0] == le_bytes(x as nat, 8)[k as int]);
            assert(tail.drop_first() =~= le_bytes((rest / 256) as nat, (8 - k - 1) as nat));
            assert(le_bytes(x as nat, 8).skip(k as int + 1) =~= tail.drop_first());
        }
        buf[off + k] = b;
        rest = rest / 256;
        k = k + 1;
    }
    assert(buf@ =~= splice(start, off as int, le_bytes(x as nat, 8)));
}

/// The eight bytes at `off`, as a number.
pub fn get_u64_at(buf: &[u8], off: usize) -> (x: u64)
    requires
        off + 8 <= buf@.len(),
    ensures
        x == le_value(buf@.subrange(off as int, off + 8)),
{
    let mut k: usize = 8;
    let mut x: u64 = 0;
    proof {
        lemma_pow256_values();
        assert(buf@.subrange(off + 8, off + 8) =~= Seq::<u8>::empty());
    }
    while k > 0
        invariant
            k <= 8,
            off + 8 <= buf.len(),
            x == le_value(buf@.subrange(off + k, off + 8)),
            x < pow256((8 - k) as nat),
            pow256(8) == 0x1_0000_0000_0000_0000,
        decreases k,
    {
        k = k - 1;
        let b: u8 = buf[off + k];
        proof {
            let s = buf@.subrange(off + k, off + 8);
            assert(s.drop_first() =~= buf@.subrange(off + k + 1, off + 8));
            assert(s[0] == b);
            lemma_le_value_bound(s);
            lemma_pow256_mono((8 - k) as nat, 8);
        }
        x = b as u64 + 256 * x;
    }
    x
}

/// `pow256` does not decrease.
pub proof fn lemma_pow256_mono(a: nat, b: nat)
    requires
        a <= b,
    ensures
        pow256(a) <= pow256(b),
    decreases b - a,
{
    if a < b {
        lemma_pow256_mono(a, (b - 1) as nat);
        assert(pow256(b) == 256 * pow256((b - 1) as nat));
    }
}

/// `buf` with the bytes from `off` on replaced by `part`.
pub open spec fn splice(buf: Seq<u8>, off: int, part: Seq<u8>) -> Seq<u8> {
    Seq::new(
        buf.len(),
        |j: int| if off <= j < off + part.len() { part[j - off] } else { buf[j] },
    )
}

/// The bits of a signed number give it back, at both widths, and a number that is not negative is its
/// own bits.
pub proof fn law_bits_round_trip(x: i32, y: i64)
    ensures
        low_i32(bits_of_i32(x)) == x,
        low_i64(bits_of_i64(y)) == y,
        bits_of_i32(x) < 0x1_0000_0000,
        bits_of_i64(y) < 0x1_0000_0000_0000_0000,
        x >= 0 ==> bits_of_i32(x) == x,
        y >= 0 ==> bits_of_i64(y) == y,
        i32::MIN <= y <= i32::MAX ==> low_i32(bits_of_i64(y)) == y,
{
}

/// A number that was put into a buffer is read back from there, and nothing else of the buffer
/// changes.
pub proof fn law_put_number_is_read_back(buf: Seq<u8>, off: int, x: u64, j: int)
    requires
        0 <= off,
        off + 8 <= buf.len(),
    ensures
        ({
            let after = splice(buf, off, le_bytes(x as nat, 8));
            &&& after.len() == buf.len()
            &&& le_value(after.subrange(off, off + 8)) == x
            &&& 0 <= j < buf.len() && !(off <= j < off + 8) ==> after[j] == buf[j]
        }),
{
    lemma_pow256_values();
    lemma_le_bytes_len(x as nat, 8);
    lemma_le_round_trip(x as nat, 8);
    assert(splice(buf, off, le_bytes(x as nat, 8)).subrange(off, off + 8) =~= le_bytes(x as nat, 8));
}

/// The first byte of a number is its lowest.
pub proof fn law_low_byte_comes_first(x: nat, n: nat)
    requires
        n > 0,
    ensures
        le_bytes(x, n)[0] == x % 256,
        le_bytes(x, n).drop_first() == le_bytes(x / 256, (n - 1) as nat),
{
    lemma_le_bytes_len(x, n);
    assert(le_bytes(x, n).drop_first() =~= le_bytes(x / 256, (n - 1) as nat));
}

} // verus!
