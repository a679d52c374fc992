//! The argument block that a guest's entry finds in its window.

use vstd::prelude::*;

use crate::bytes::{le_bytes, le_value, lemma_le_bytes_len, lemma_le_round_trip, lemma_pow256_values};

verus! {

/// The contents of byte strings.
pub open spec fn byte_rows(rows: Seq<Vec<u8>>) -> Seq<Seq<u8>> {
    rows.map_values(|r: Vec<u8>| r@)
}

/// The strings one after the other, each with a NUL behind it.
pub open spec fn nul_terminated(rows: Seq<Seq<u8>>) -> Seq<u8>
    decreases rows.len(),
{
    if rows.len() == 0 {
        Seq::empty()
    } else {
        nul_terminated(rows.drop_last()) + rows.last().push(0u8)
    }
}

/// The argument block: how many arguments and environment strings there are, then all of them.
pub open spec fn spec_args_blob(argv: Seq<Seq<u8>>, env: Seq<Seq<u8>>) -> Seq<u8> {
    le_bytes(argv.len(), 4) + le_bytes(env.len(), 4) + nul_terminated(argv) + nul_terminated(env)
}

/// Appends the low 32 bits of `n`.
fn push_word(out: &mut Vec<u8>, n: usize)
    ensures
        final(out)@ == old(out)@ + le_bytes(n as nat, 4),
{
    let ghost start = out@;
    let mut rest: usize = n;
    let mut k: u8 = 0;
    assert(start + le_bytes(n as nat, 4) =~= out@ + le_bytes(rest as nat, 4));
    while k < 4
        invariant
            k <= 4,
            start + le_bytes(n as nat, 4) == out@ + le_bytes(rest as nat, (4 - k) as nat),
        decreases 4 - k,
    {
        let ghost before = out@;
        out.push((rest % 256) as u8);
        assert(before + le_bytes(rest as nat, (4 - k) as nat) =~= out@ + le_bytes(
            (rest / 256) as nat,
            (4 - k - 1) as nat,
        ));
        rest = rest / 256;
        k = k + 1;
    }
    assert(out@ =~= start + le_bytes(n as nat, 4));
}

/// Appends the strings, each with a NUL behind it.
fn push_terminated(out: &mut Vec<u8>, rows: &[Vec<u8>])
    ensures
        final(out)@ == old(out)@ + nul_terminated(byte_rows(rows@)),
{
    let ghost start = out@;
    let ghost all = byte_rows(rows@);
    let mut i: usize = 0;
    assert(start + nul_terminated(all.take(0)) =~= start);
    while i < rows.len()
        invariant
            i <= rows.len(),
            all == byte_rows(rows@),
            out@ == start + nul_terminated(all.take(i as int)),
        decreases rows.len() - i,
    {
        let row: &Vec<u8> = &rows[i];
        let ghost before = out@;
        let mut k: usize = 0;
        while k < row.len()
            invariant
                k <= row.len(),
                out@ == before + row@.take(k as int),
            decreases row.len() - k,
        {
            out.push(row[k]);
            assert(out@ =~= before + row@.take(k as int + 1));
            k = k + 1;
        }
        out.push(0);
        proof {
            let now = all.take(i as int + 1);
            assert(now.drop_last() =~= all.take(i as int));
            assert(now.last() == row@);
            assert(out@ =~= start + nul_terminated(now));
        }
        i = i + 1;
    }
    assert(all.take(all.len() as int) =~= all);
}

/// Builds the argument block.
pub fn write_args_blob(argv: &[Vec<u8>], env: &[Vec<u8>]) -> (r: Vec<u8>)
    ensures
        r@ == spec_args_blob(byte_rows(argv@), byte_rows(env@)),
{
    let mut out: Vec<u8> = Vec::new();
    push_word(&mut out, argv.len());
    push_word(&mut out, env.len());
    push_terminated(&mut out, argv);
    push_terminated(&mut out, env);
    assert(out@ =~= spec_args_blob(byte_rows(argv@), byte_rows(env@)));
    out
}

/// Builds the argument block of a guest without environment.
pub fn pg_args_blob(argv: &[Vec<u8>]) -> (r: Vec<u8>)
    ensures
        r@ == spec_args_blob(byte_rows(argv@), Seq::empty()),
{
    let env: Vec<Vec<u8>> = Vec::new();
    assert(byte_rows(env@) =~= Seq::empty());
    write_args_blob(argv, env.as_slice())
}

/// The window prefix that puts `blob` at `base`.
pub open spec fn spec_seeded_prefix(base: nat, blob: Seq<u8>) -> Seq<u8> {
    Seq::new(base, |i: int| 0u8) + blob
}

/// The window prefix that puts `blob` at `base`: zeros, then the block.
pub fn seeded_prefix(base: usize, blob: &[u8]) -> (r: Vec<u8>)
    requires
        base + blob@.len() <= usize::MAX,
    ensures
        r@ == spec_seeded_prefix(base as nat, blob@),
        r@ == Seq::new(base as nat, |i: int| 0u8) + blob@,
{
    let mut out: Vec<u8> = Vec::new();
    while out.len() < base
        invariant
            out@.len() <= base,
            out@ =~= Seq::new(out@.len(), |i: int| 0u8),
        decreases base - out.len(),
    {
        out.push(0);
    }
    let mut i: usize = 0;
    let ghost zeros = out@;
    while i < blob.len()
        invariant
            i <= blob.len(),
            out@ == zeros + blob@.take(i as int),
        decreases blob.len() - i,
    {
        out.push(blob[i]);
        assert(out@ =~= zeros + blob@.take(i as int + 1));
        i = i + 1;
    }
    assert(out@ =~= Seq::new(base as nat, |i: int| 0u8) + blob@);
    out
}

/// How many bytes come before the first NUL.
pub open spec fn nul_at(s: Seq<u8>) -> nat
    decreases s.len(),
{
    if s.len() == 0 || s[0] == 0 {
        0
    } else {
        1 + nul_at(s.drop_first())
    }
}

/// The first `count` NUL-terminated strings of `s`, as an entry reads them.
pub open spec fn strings_of(s: Seq<u8>, count: nat) -> Seq<Seq<u8>>
    decreases count,
{
    if count == 0 {
        Seq::empty()
    } else {
        seq![s.take(nul_at(s) as int)] + strings_of(s.skip(nul_at(s) as int + 1), (count - 1) as nat)
    }
}

/// No string holds a NUL.
pub open spec fn nul_free(rows: Seq<Seq<u8>>) -> bool {
    forall|i: int, j: int|
        0 <= i < rows.len() && 0 <= j < rows[i].len() ==> #[trigger] rows[i][j] != 0
}

/// The NUL that ends a string is the first one.
proof fn lemma_nul_at(row: Seq<u8>, rest: Seq<u8>)
    requires
        forall|j: int| 0 <= j < row.len() ==> #[trigger] row[j] != 0,
    ensures
        nul_at(row.push(0u8) + rest) == row.len(),
    decreases row.len(),
{
    let s = row.push(0u8) + rest;
    if row.len() > 0 {
        let t = row.drop_first();
        assert(forall|j: int| 0 <= j < t.len() ==> #[trigger] t[j] == row[j + 1]);
        lemma_nul_at(t, rest);
        assert(s[0] == row[0]);
        assert(s.drop_first() =~= t.push(0u8) + rest);
    } else {
        assert(s[0] == 0);
    }
}

/// The first string of a row list comes first in its bytes.
proof fn lemma_nul_terminated_front(rows: Seq<Seq<u8>>)
    requires
        rows.len() > 0,
    ensures
        nul_terminated(rows) == rows[0].push(0u8) + nul_terminated(rows.drop_first()),
    decreases rows.len(),
{
    if rows.len() == 1 {
        assert(rows.drop_last() =~= Seq::empty());
        assert(rows.drop_first() =~= Seq::empty());
        assert(nul_terminated(rows.drop_last()) =~= Seq::<u8>::empty());
        assert(nul_terminated(rows.drop_first()) =~= Seq::<u8>::empty());
        assert(nul_terminated(rows) =~= rows[0].push(0u8) + nul_terminated(rows.drop_first()));
    } else {
        lemma_nul_terminated_front(rows.drop_last());
        assert(rows.drop_last().drop_first() =~= rows.drop_first().drop_last());
        assert(nul_terminated(rows) =~= rows[0].push(0u8) + nul_terminated(rows.drop_first()));
    }
}

/// Terminated strings are read back, whatever follows them.
proof fn lemma_strings_round_trip(rows: Seq<Seq<u8>>, rest: Seq<u8>)
    requires
        nul_free(rows),
    ensures
        strings_of(nul_terminated(rows) + rest, rows.len()) == rows,
    decreases rows.len(),
{
    if rows.len() == 0 {
        assert(rows =~= Seq::empty());
    } else {
        let more = rows.drop_first();
        let tail = nul_terminated(more) + rest;
        let s = nul_terminated(rows) + rest;
        lemma_nul_terminated_front(rows);
        assert(s =~= rows[0].push(0u8) + tail);
        lemma_nul_at(rows[0], tail);
        assert(s.take(rows[0].len() as int) =~= rows[0]);
        assert(s.skip(rows[0].len() as int + 1) =~= tail);
        assert forall|i: int, j: int|
            0 <= i < more.len() && 0 <= j < more[i].len() implies #[trigger] more[i][j] != 0 by {
            assert(more[i] == rows[i + 1]);
            assert(rows[i + 1][j] != 0);
        }
        lemma_strings_round_trip(more, rest);
        assert(seq![rows[0]] + more =~= rows);
    }
}

/// An entry reads its arguments and its environment back exactly as they were given.
pub proof fn law_args_blob_round_trip(argv: Seq<Seq<u8>>, env: Seq<Seq<u8>>)
    requires
        nul_free(argv),
        nul_free(env),
        argv.len() <= u32::MAX,
        env.len() <= u32::MAX,
    ensures
        ({
            let b = spec_args_blob(argv, env);
            &&& le_value(b.subrange(0, 4)) == argv.len()
            &&& le_value(b.subrange(4, 8)) == env.len()
            &&& strings_of(b.skip(8), argv.len() + env.len()) == argv + env
        }),
{
    let b = spec_args_blob(argv, env);
    lemma_le_bytes_len(argv.len(), 4);
    lemma_le_bytes_len(env.len(), 4);
    lemma_pow256_values();
    lemma_le_round_trip(argv.len(), 4);
    lemma_le_round_trip(env.len(), 4);
    assert(b.subrange(0, 4) =~= le_bytes(argv.len(), 4));
    assert(b.subrange(4, 8) =~= le_bytes(env.len(), 4));
    lemma_nul_terminated_concat(argv, env);
    assert(b.skip(8) =~= nul_terminated(argv + env) + Seq::<u8>::empty());
    assert forall|i: int, j: int|
        0 <= i < (argv + env).len() && 0 <= j < (argv + env)[i].len() implies #[trigger] (argv
        + env)[i][j] != 0 by {
        if i < argv.len() {
            assert(argv[i][j] != 0);
        } else {
            assert(env[i - argv.len()][j] != 0);
        }
    }
    lemma_strings_round_trip(argv + env, Seq::empty());
}

/// Terminating two lists in turn terminates their concatenation.
proof fn lemma_nul_terminated_concat(a: Seq<Seq<u8>>, b: Seq<Seq<u8>>)
    ensures
        nul_terminated(a + b) == nul_terminated(a) + nul_terminated(b),
    decreases b.len(),
{
    if b.len() == 0 {
        assert(a + b =~= a);
        assert(nul_terminated(a) + nul_terminated(b) =~= nul_terminated(a));
    } else {
        lemma_nul_terminated_concat(a, b.drop_last());
        assert((a + b).drop_last() =~= a + b.drop_last());
        assert(nul_terminated(a + b) =~= nul_terminated(a) + nul_terminated(b));
    }
}

/// A block lies where its prefix puts it, behind nothing but zeros, and ends the prefix.
pub proof fn law_block_lies_at_its_base(base: nat, blob: Seq<u8>, j: int)
    ensures
        spec_seeded_prefix(base, blob).len() == base + blob.len(),
        spec_seeded_prefix(base, blob).skip(base as int) == blob,
        0 <= j < base ==> spec_seeded_prefix(base, blob)[j] == 0,
{
    assert(spec_seeded_prefix(base, blob).skip(base as int) =~= blob);
}

} // verus!
