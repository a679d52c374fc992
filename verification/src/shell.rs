//! The registry of external commands that a shell run is handed.

use vstd::prelude::*;
use vstd::slice::{slice_subrange, slice_to_vec};
use vstd::utf8::{
    decode_utf8, encode_utf8, encode_utf8_decode_utf8, encode_utf8_valid_utf8, valid_utf8,
};

use crate::bytes::{
    le_bytes, le_value, lemma_le_bytes_len, lemma_le_round_trip, lemma_le_value_bound,
    lemma_pow256_values,
};
use crate::status::{
    maybe_value_or_exit, spec_verdict, RunResult, Verdict, STATUS_OK,
};
use crate::text::from_utf8;
use crate::traps::{first_i64, spec_first_i64};

verus! {

/// A command: its name and its encoded module.
#[derive(Debug)]
pub struct ShellCmd {
    pub name: String,
    pub module: Vec<u8>,
}

/// The contents of a registry.
pub open spec fn cmds_view(cmds: Seq<ShellCmd>) -> Seq<(Seq<char>, Seq<u8>)> {
    cmds.map_values(|c: ShellCmd| (c.name@, c.module@))
}

/// The 32-bit number at `at`, if the bytes reach that far.
pub open spec fn word_at(b: Seq<u8>, at: nat) -> Option<nat> {
    if at + 4 <= b.len() {
        Some(le_value(b.subrange(at as int, (at + 4) as int)))
    } else {
        None
    }
}

/// The length-prefixed field at `at`, if the bytes reach that far.
pub open spec fn field_at(b: Seq<u8>, at: nat) -> Option<Seq<u8>> {
    match word_at(b, at) {
        None => None,
        Some(n) => if at + 4 + n <= b.len() {
            Some(b.subrange((at + 4) as int, (at + 4 + n) as int))
        } else {
            None
        },
    }
}

/// The command of an entry, if its name is text.
pub open spec fn named_cmd(name: Seq<u8>, module: Seq<u8>) -> Seq<(Seq<char>, Seq<u8>)> {
    if valid_utf8(name) {
        seq![(decode_utf8(name), module)]
    } else {
        Seq::empty()
    }
}

/// The commands from `at` on, at most `count` entries of them: an entry whose name is no text is
/// dropped, and the first one whose lengths overrun the bytes ends the registry.
pub open spec fn cmds_from(b: Seq<u8>, at: nat, count: nat) -> Seq<(Seq<char>, Seq<u8>)>
    decreases count,
{
    if count == 0 {
        Seq::empty()
    } else {
        match field_at(b, at) {
            None => Seq::empty(),
            Some(name) => match field_at(b, at + 4 + name.len()) {
                None => Seq::empty(),
                Some(module) => named_cmd(name, module) + cmds_from(
                    b,
                    at + 8 + name.len() + module.len(),
                    (count - 1) as nat,
                ),
            },
        }
    }
}

/// The commands of a registry: their count, then each name and module behind its length.
pub open spec fn spec_parse_shell_cmds(b: Seq<u8>) -> Seq<(Seq<char>, Seq<u8>)> {
    match word_at(b, 0) {
        None => Seq::empty(),
        Some(count) => cmds_from(b, 4, count),
    }
}

/// The 32-bit number at `at`.
fn read_word(b: &[u8], at: usize) -> (r: Option<usize>)
    ensures
        r is Some <==> word_at(b@, at as nat) is Some,
        r matches Some(n) ==> Some(n as nat) == word_at(b@, at as nat),
{
    if at > b.len() || b.len() - at < 4 {
        return None;
    }
    let ghost s = b@.subrange(at as int, at + 4);
    proof {
        lemma_le_value_bound(s);
        lemma_pow256_values();
        reveal_with_fuel(le_value, 5);
        assert(s.drop_first().drop_first().drop_first().drop_first() =~= Seq::<u8>::empty());
        assert(s[0] == b@[at as int]);
        assert(s.drop_first()[0] == b@[at + 1]);
        assert(s.drop_first().drop_first()[0] == b@[at + 2]);
        assert(s.drop_first().drop_first().drop_first()[0] == b@[at + 3]);
    }
    let n: u32 = b[at] as u32 + 256 * (b[at + 1] as u32 + 256 * (b[at + 2] as u32 + 256 * (b[at + 3]
        as u32)));
    Some(n as usize)
}

/// The length-prefixed field at `at`, as a range.
fn read_field(b: &[u8], at: usize) -> (r: Option<(usize, usize)>)
    ensures
        r is Some <==> field_at(b@, at as nat) is Some,
        r matches Some((from, to)) ==> from == at + 4 && from <= to <= b@.len() && field_at(
            b@,
            at as nat,
        ) == Some(b@.subrange(from as int, to as int)),
{
    match read_word(b, at) {
        None => None,
        Some(n) => {
            assert(at + 4 <= b.len());
            let from: usize = at + 4;
            if n > b.len() - from {
                return None;
            }
            Some((from, from + n))
        },
    }
}

/// Reads a registry of commands.
///
/// A damaged registry is no error: an entry whose name is no text is dropped, and so is everything
/// from the first length that overruns the bytes on.
pub fn parse_shell_cmds(bytes: &[u8]) -> (r: Vec<ShellCmd>)
    ensures
        cmds_view(r@) == spec_parse_shell_cmds(bytes@),
{
    let mut out: Vec<ShellCmd> = Vec::new();
    assert(cmds_view(out@) =~= Seq::empty());
    let count: usize = match read_word(bytes, 0) {
        None => {
            return out;
        },
        Some(n) => n,
    };
    let ghost whole = cmds_from(bytes@, 4, count as nat);
    let mut off: usize = 4;
    let mut i: usize = 0;
    assert(cmds_view(out@) + whole =~= whole);
    while i < count
        invariant_except_break
            i <= count,
            off <= bytes@.len(),
            whole == cmds_from(bytes@, 4, count as nat),
            whole == cmds_view(out@) + cmds_from(bytes@, off as nat, (count - i) as nat),
        ensures
            whole == cmds_view(out@),
        decreases count - i,
    {
        let (nfrom, nto) = match read_field(bytes, off) {
            None => {
                assert(cmds_view(out@) + Seq::empty() =~= cmds_view(out@));
                break;
            },
            Some(range) => range,
        };
        let (mfrom, mto) = match read_field(bytes, nto) {
            None => {
                assert(cmds_view(out@) + Seq::empty() =~= cmds_view(out@));
                break;
            },
            Some(range) => range,
        };
        let ghost tail = cmds_from(bytes@, mto as nat, (count - i - 1) as nat);
        match from_utf8(slice_subrange(bytes, nfrom, nto)) {
            None => {
                assert(Seq::<(Seq<char>, Seq<u8>)>::empty() + tail =~= tail);
            },
            Some(name) => {
                let module: Vec<u8> = slice_to_vec(slice_subrange(bytes, mfrom, mto));
                let c: ShellCmd = ShellCmd { name, module };
                proof {
                    let x = (c.name@, c.module@);
                    assert(cmds_view(out@) + (seq![x] + tail) =~= cmds_view(out@).push(x) + tail);
                    assert(cmds_view(out@.push(c)) =~= cmds_view(out@).push(x));
                }
                out.push(c);
            },
        }
        off = mto;
        i = i + 1;
        if i == count {
            assert(cmds_view(out@) + Seq::empty() =~= cmds_view(out@));
        }
    }
    out
}

/// The bytes of a registry's entries.
pub open spec fn cmds_bytes(cmds: Seq<(Seq<char>, Seq<u8>)>) -> Seq<u8>
    decreases cmds.len(),
{
    if cmds.len() == 0 {
        Seq::empty()
    } else {
        let name = encode_utf8(cmds[0].0);
        let module = cmds[0].1;
        le_bytes(name.len(), 4) + name + (le_bytes(module.len(), 4) + module) + cmds_bytes(
            cmds.drop_first(),
        )
    }
}

/// The bytes of a registry.
pub open spec fn registry_bytes(cmds: Seq<(Seq<char>, Seq<u8>)>) -> Seq<u8> {
    le_bytes(cmds.len(), 4) + cmds_bytes(cmds)
}

/// Every length of a registry fits in its 32-bit field.
pub open spec fn registry_fits(cmds: Seq<(Seq<char>, Seq<u8>)>) -> bool {
    &&& cmds.len() <= u32::MAX
    &&& forall|i: int|
        0 <= i < cmds.len() ==> encode_utf8((#[trigger] cmds[i]).0).len() <= u32::MAX
            && cmds[i].1.len() <= u32::MAX
}

/// A written field is read back.
proof fn lemma_field_round_trip(pre: Seq<u8>, part: Seq<u8>, rest: Seq<u8>)
    requires
        part.len() <= u32::MAX,
    ensures
        field_at(pre + (le_bytes(part.len(), 4) + part + rest), pre.len()) == Some(part),
        le_bytes(part.len(), 4).len() == 4,
{
    let b = pre + (le_bytes(part.len(), 4) + part + rest);
    lemma_le_bytes_len(part.len(), 4);
    lemma_pow256_values();
    lemma_le_round_trip(part.len(), 4);
    let at = pre.len();
    assert(b.subrange(at as int, (at + 4) as int) =~= le_bytes(part.len(), 4));
    assert(b.subrange((at + 4) as int, (at + 4 + part.len()) as int) =~= part);
}

/// Written entries are read back from any place.
proof fn lemma_cmds_round_trip(pre: Seq<u8>, cmds: Seq<(Seq<char>, Seq<u8>)>)
    requires
        registry_fits(cmds),
    ensures
        cmds_from(pre + cmds_bytes(cmds), pre.len(), cmds.len()) == cmds,
    decreases cmds.len(),
{
    if cmds.len() == 0 {
        assert(cmds =~= Seq::empty());
    } else {
        let name = encode_utf8(cmds[0].0);
        let module = cmds[0].1;
        let more = cmds.drop_first();
        let tail = cmds_bytes(more);
        let b = pre + cmds_bytes(cmds);
        let mod_field = le_bytes(module.len(), 4) + module + tail;
        encode_utf8_valid_utf8(cmds[0].0);
        encode_utf8_decode_utf8(cmds[0].0);
        assert(b =~= pre + (le_bytes(name.len(), 4) + name + mod_field));
        lemma_field_round_trip(pre, name, mod_field);
        let pre2 = pre + (le_bytes(name.len(), 4) + name);
        assert(b =~= pre2 + (le_bytes(module.len(), 4) + module + tail));
        lemma_field_round_trip(pre2, module, tail);
        let pre3 = pre2 + (le_bytes(module.len(), 4) + module);
        assert(b =~= pre3 + tail);
        assert(forall|i: int| 0 <= i < more.len() ==> #[trigger] more[i] == cmds[i + 1]);
        lemma_cmds_round_trip(pre3, more);
        assert(pre2.len() == pre.len() + 4 + name.len());
        assert(pre3.len() == pre.len() + 8 + name.len() + module.len());
        assert(seq![(cmds[0].0, module)] + more =~= cmds);
    }
}

/// A registry is read back as it was written: every command, in order.
pub proof fn law_registry_round_trip(cmds: Seq<(Seq<char>, Seq<u8>)>)
    requires
        registry_fits(cmds),
    ensures
        spec_parse_shell_cmds(registry_bytes(cmds)) == cmds,
{
    let head = le_bytes(cmds.len(), 4);
    let b = registry_bytes(cmds);
    lemma_le_bytes_len(cmds.len(), 4);
    lemma_pow256_values();
    lemma_le_round_trip(cmds.len(), 4);
    assert(b.subrange(0, 4) =~= head);
    lemma_cmds_round_trip(head, cmds);
}

/// The verdict on a shell run: a shell that reaches the end of its script returns nothing of
/// interest, which counts as zero.
pub open spec fn spec_shell_verdict(r: RunResult) -> Verdict {
    match r {
        RunResult::Returned(vals) => Verdict {
            status: STATUS_OK,
            value: spec_first_i64(vals@),
            exit_code: 0,
        },
        _ => spec_verdict(r, STATUS_OK),
    }
}

/// Judges a shell run.
pub fn judge_shell(run: &RunResult) -> (r: Verdict)
    ensures
        r == spec_shell_verdict(*run),
{
    match run {
        RunResult::Returned(vals) => Verdict {
            status: STATUS_OK,
            value: first_i64(vals.as_slice()),
            exit_code: 0,
        },
        _ => maybe_value_or_exit(run),
    }
}

/// Where the personality's heap starts.
pub open spec fn spec_heap_base(win: nat) -> nat {
    if win >= 65536 {
        (win - 65536) as nat
    } else {
        0
    }
}

/// Where the personality's heap starts: the top 64 KiB of the window, or all of a smaller one.
pub fn posix_heap_base(win: u64) -> (r: u64)
    ensures
        r == spec_heap_base(win as nat),
        r == (if win >= 65536 { win - 65536 } else { 0 }),
{
    win.saturating_sub(65536)
}

/// The personality's heap ends with the window and takes 64 KiB of it, or all of a smaller one.
pub proof fn law_heap_is_the_top_of_the_window(win: nat)
    ensures
        spec_heap_base(win) <= win,
        win >= 65536 ==> spec_heap_base(win) + 65536 == win,
        win < 65536 ==> spec_heap_base(win) == 0,
{
}

/// A shell that reaches its end reports its first integer, zero if it has none; one that exits or
/// traps is judged as any other run.
pub proof fn law_shell_reports_how_it_ended(vals: Vec<crate::slots::Value>, code: i32, x: i64)
    ensures
        spec_shell_verdict(RunResult::Returned(vals)).status == 0,
        spec_shell_verdict(RunResult::Returned(vals)).exit_code == 0,
        vals@.len() == 0 ==> spec_shell_verdict(RunResult::Returned(vals)).value == 0,
        vals@.len() > 0 && vals@[0] == crate::slots::Value::I64(x) ==> spec_shell_verdict(
            RunResult::Returned(vals),
        ).value == x,
        spec_shell_verdict(RunResult::Trapped(crate::traps::Trap::Exit(code))) == (Verdict {
            status: 5,
            value: 0,
            exit_code: code,
        }),
        spec_shell_verdict(RunResult::Trapped(crate::traps::Trap::Other)).status == 3,
        spec_shell_verdict(RunResult::Unsupported).status == 2,
{
}

/// What is read of a front of the bytes is a front of what is read of all of them.
proof fn lemma_cmds_of_front(b: Seq<u8>, n: int, at: nat, count: nat)
    requires
        0 <= n <= b.len(),
    ensures
        cmds_from(b.take(n), at, count).len() <= cmds_from(b, at, count).len(),
        cmds_from(b.take(n), at, count) == cmds_from(b, at, count).take(
            cmds_from(b.take(n), at, count).len() as int,
        ),
    decreases count,
{
    let c = b.take(n);
    let short = cmds_from(c, at, count);
    let long = cmds_from(b, at, count);
    if count > 0 && field_at(c, at) is Some {
        lemma_field_of_front(b, n, at);
        let name = field_at(c, at)->0;
        let to = at + 4 + name.len();
        if field_at(c, to) is Some {
            lemma_field_of_front(b, n, to);
            let module = field_at(c, to)->0;
            let next = at + 8 + name.len() + module.len();
            lemma_cmds_of_front(b, n, next, (count - 1) as nat);
            let rest = cmds_from(c, next, (count - 1) as nat);
            let all = cmds_from(b, next, (count - 1) as nat);
            let first = named_cmd(name, module);
            assert(long == first + all);
            assert(short == first + rest);
            assert(short =~= long.take(short.len() as int));
        } else {
            assert(short =~= long.take(0));
        }
    } else {
        assert(short =~= long.take(0));
    }
}

/// A field that a front of the bytes holds is that of all of them.
proof fn lemma_field_of_front(b: Seq<u8>, n: int, at: nat)
    requires
        0 <= n <= b.len(),
        field_at(b.take(n), at) is Some,
    ensures
        field_at(b, at) == field_at(b.take(n), at),
{
    let c = b.take(n);
    assert(c.subrange(at as int, (at + 4) as int) =~= b.subrange(at as int, (at + 4) as int));
    let len = word_at(c, at)->0;
    assert(c.subrange((at + 4) as int, (at + 4 + len) as int) =~= b.subrange(
        (at + 4) as int,
        (at + 4 + len) as int,
    ));
}

/// A registry that is cut short still gives its first commands, unchanged and in order.
pub proof fn law_cut_registry_keeps_its_first_commands(cmds: Seq<(Seq<char>, Seq<u8>)>, n: int)
    requires
        registry_fits(cmds),
        0 <= n <= registry_bytes(cmds).len(),
    ensures
        ({
            let got = spec_parse_shell_cmds(registry_bytes(cmds).take(n));
            got.len() <= cmds.len() && got == cmds.take(got.len() as int)
        }),
{
    let b = registry_bytes(cmds);
    law_registry_round_trip(cmds);
    let got = spec_parse_shell_cmds(b.take(n));
    if n >= 4 {
        assert(b.take(n).subrange(0, 4) =~= b.subrange(0, 4));
        lemma_cmds_of_front(b, n, 4, word_at(b, 0)->0);
    } else {
        assert(got =~= cmds.take(0));
    }
}

/// A command whose name is no text is dropped, and only that one.
pub proof fn law_nameless_command_is_dropped(
    pre: Seq<u8>,
    name: Seq<u8>,
    module: Seq<u8>,
    rest: Seq<u8>,
    count: nat,
)
    requires
        name.len() <= u32::MAX,
        module.len() <= u32::MAX,
    ensures
        ({
            let entry = le_bytes(name.len(), 4) + name + (le_bytes(module.len(), 4) + module);
            let b = pre + entry + rest;
            let others = cmds_from(b, pre.len() + entry.len(), count);
            &&& !valid_utf8(name) ==> cmds_from(b, pre.len(), count + 1) == others
            &&& valid_utf8(name) ==> cmds_from(b, pre.len(), count + 1) == seq![
                (decode_utf8(name), module),
            ] + others
        }),
{
    let entry = le_bytes(name.len(), 4) + name + (le_bytes(module.len(), 4) + module);
    let b = pre + entry + rest;
    let mod_field = le_bytes(module.len(), 4) + module + rest;
    assert(b =~= pre + (le_bytes(name.len(), 4) + name + mod_field));
    lemma_field_round_trip(pre, name, mod_field);
    let pre2 = pre + (le_bytes(name.len(), 4) + name);
    assert(b =~= pre2 + (le_bytes(module.len(), 4) + module + rest));
    lemma_field_round_trip(pre2, module, rest);
    let others = cmds_from(b, pre.len() + entry.len(), count);
    assert(Seq::<(Seq<char>, Seq<u8>)>::empty() + others =~= others);
    assert(pre2.len() == pre.len() + 4 + name.len());
    assert(entry.len() == 8 + name.len() + module.len());
}

} // verus!
