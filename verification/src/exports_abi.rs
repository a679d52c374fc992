//! The surface between the page's scripts and the compiled library, read from source text: what is
//! exported, what the scripts call by name, and the table of both.

use vstd::prelude::*;
use vstd::slice::slice_subrange;

use crate::fmt::{dec, push_dec};
use crate::modnames::file_name;
use crate::plan::{
    lemma_contains_back, lemma_contains_transitive, lemma_contains_within, lemma_middle,
};
use crate::sorted::{
    before, law_put_changes_one_key, lemma_before_total, lemma_place, lemma_place_of_key, ordered,
    TextMap, TextMapView,
};
use crate::text::{
    chars_of, contains, find_char, find_last, first_at, has_part, has_prefix, last_at, matches_at,
    occurs_at, position_of, push_char, same_text, skip_white, spec_trim_start, starts_with, text_of,
    texts,
};

verus! {

/// An exported function and the `cfg` that it exists under, if any.
#[derive(Debug)]
pub struct Export {
    pub name: String,
    pub cfg: Option<String>,
}

/// The text of an optional string.
pub open spec fn opt_text(s: Option<String>) -> Option<Seq<char>> {
    match s {
        Some(t) => Some(t@),
        None => None,
    }
}

impl DeepView for Export {
    type V = (Seq<char>, Option<Seq<char>>);

    open spec fn deep_view(&self) -> (Seq<char>, Option<Seq<char>>) {
        (self.name@, opt_text(self.cfg))
    }
}

/// The lines of `text`: a line ends at a newline, which a carriage return may precede; the last one
/// needs no newline.
pub open spec fn lines(text: Seq<char>) -> Seq<Seq<char>>
    decreases text.len(),
{
    if text.len() == 0 {
        Seq::empty()
    } else {
        let i = first_at(text, '\n') as int;
        if i < text.len() {
            let line = text.take(i);
            let kept = if i > 0 && line.last() == '\r' {
                line.drop_last()
            } else {
                line
            };
            seq![kept] + lines(text.skip(i + 1))
        } else {
            seq![text]
        }
    }
}

/// A character of a name: an ASCII letter or digit, or an underscore.
pub open spec fn is_word(c: char) -> bool {
    ('a' <= c && c <= 'z') || ('A' <= c && c <= 'Z') || ('0' <= c && c <= '9') || c == '_'
}

/// How many characters of a name `s` starts with.
pub open spec fn word_len(s: Seq<char>) -> nat
    decreases s.len(),
{
    if s.len() == 0 || !is_word(s[0]) {
        0
    } else {
        1 + word_len(s.drop_first())
    }
}

/// `s` without the copies of `c` that it ends with.
pub open spec fn strip_trail(s: Seq<char>, c: char) -> Seq<char>
    decreases s.len(),
{
    if s.len() > 0 && s.last() == c {
        strip_trail(s.drop_last(), c)
    } else {
        s
    }
}

/// How many characters of a name follow from `from` on.
fn word_run(s: &[char], from: usize) -> (r: usize)
    requires
        from <= s@.len(),
    ensures
        r == word_len(s@.skip(from as int)),
        from + r <= s@.len(),
{
    let mut i: usize = from;
    while i < s.len() && ((s[i] >= 'a' && s[i] <= 'z') || (s[i] >= 'A' && s[i] <= 'Z') || (s[i]
        >= '0' && s[i] <= '9') || s[i] == '_')
        invariant
            from <= i <= s.len(),
            word_len(s@.skip(from as int)) == (i - from) + word_len(s@.skip(i as int)),
        decreases s.len() - i,
    {
        assert(s@.skip(i as int).drop_first() =~= s@.skip(i as int + 1));
        i = i + 1;
    }
    i - from
}

/// The name on a line that declares an exported function.
pub open spec fn spec_fn_name(t: Seq<char>) -> Option<Seq<char>> {
    if !starts_with(t, "pub "@) {
        None
    } else {
        let a = t.skip("pub "@.len() as int);
        let b = if starts_with(a, "unsafe "@) {
            a.skip("unsafe "@.len() as int)
        } else {
            a
        };
        if !starts_with(b, "extern \"C\" fn "@) {
            None
        } else {
            let c = b.skip("extern \"C\" fn "@.len() as int);
            if word_len(c) > 0 {
                Some(c.take(word_len(c) as int))
            } else {
                None
            }
        }
    }
}

/// Past `prefix`, if `s` continues with it at `at`.
fn past(s: &[char], at: usize, prefix: &str) -> (r: Option<usize>)
    requires
        at <= s@.len(),
    ensures
        r is Some <==> starts_with(s@.skip(at as int), prefix@),
        r matches Some(k) ==> k == at + prefix@.len() && k <= s@.len(),
{
    let p: Vec<char> = chars_of(prefix);
    let rest: &[char] = slice_subrange(s, at, s.len());
    assert(rest@ =~= s@.skip(at as int));
    if matches_at(rest, p.as_slice(), 0) {
        Some(at + p.len())
    } else {
        None
    }
}

/// The name on a line that declares an exported function; `None` for any other line.
pub fn fn_name(t: &[char]) -> (r: Option<String>)
    ensures
        r is Some <==> spec_fn_name(t@) is Some,
        r matches Some(n) ==> Some(n@) == spec_fn_name(t@),
{
    assert(t@.skip(0) =~= t@);
    let a: usize = match past(t, 0, "pub ") {
        None => {
            return None;
        },
        Some(k) => k,
    };
    let b: usize = match past(t, a, "unsafe ") {
        None => a,
        Some(k) => {
            assert(t@.skip(a as int).skip("unsafe "@.len() as int) =~= t@.skip(k as int));
            k
        },
    };
    let c: usize = match past(t, b, "extern \"C\" fn ") {
        None => {
            return None;
        },
        Some(k) => k,
    };
    assert(t@.skip(b as int).skip("extern \"C\" fn "@.len() as int) =~= t@.skip(c as int));
    let n: usize = word_run(t, c);
    if n == 0 {
        return None;
    }
    assert(t@.skip(c as int).take(n as int) =~= t@.subrange(c as int, c + n));
    assert(c + n <= t.len());
    Some(text_of(slice_subrange(t, c, c + n)))
}

/// What the scan of a source file has seen: the attributes above the line, and the exports.
pub ghost struct ScanState {
    pub attrs: Seq<Seq<char>>,
    pub table: TextMapView<(Seq<char>, Option<Seq<char>>)>,
}

/// The first attribute that is a `cfg`.
pub open spec fn cfg_of(attrs: Seq<Seq<char>>) -> Option<Seq<char>>
    decreases attrs.len(),
{
    if attrs.len() == 0 {
        None
    } else if starts_with(attrs[0], "cfg("@) {
        Some(attrs[0])
    } else {
        cfg_of(attrs.drop_first())
    }
}

/// The state after one line.
///
/// Attribute lines pile up; a declaration under `no_mangle` is an export; an event-getter line names
/// one too; and any line but a doc comment ends the pile.
pub open spec fn scan_line(s: ScanState, line: Seq<char>) -> ScanState {
    let t = spec_trim_start(line);
    if starts_with(t, "#["@) {
        ScanState { attrs: s.attrs.push(strip_trail(t.skip(2), ']')), ..s }
    } else {
        let declared = if s.attrs.contains("no_mangle"@) && spec_fn_name(t) is Some {
            s.table.put(spec_fn_name(t)->0, (spec_fn_name(t)->0, cfg_of(s.attrs)))
        } else {
            s.table
        };
        let getter = if starts_with(t, "par_ev_getter!("@) {
            let rest = t.skip("par_ev_getter!("@.len() as int);
            let name = rest.take(word_len(rest) as int);
            declared.put(name, (name, None))
        } else {
            declared
        };
        ScanState {
            attrs: if starts_with(t, "///"@) {
                s.attrs
            } else {
                Seq::empty()
            },
            table: getter,
        }
    }
}

/// The state after the first `n` lines.
pub open spec fn scan_lines(s: ScanState, ls: Seq<Seq<char>>, n: nat) -> ScanState
    decreases n,
{
    if n == 0 {
        s
    } else {
        scan_line(scan_lines(s, ls, (n - 1) as nat), ls[n - 1])
    }
}

/// The exports once the source text `text` has been read too.
pub open spec fn spec_rust_exports(
    table: TextMapView<(Seq<char>, Option<Seq<char>>)>,
    text: Seq<char>,
) -> TextMapView<(Seq<char>, Option<Seq<char>>)> {
    scan_lines(ScanState { attrs: Seq::empty(), table }, lines(text), lines(text).len()).table
}

/// The characters without the copies of `c` that they end with.
fn drop_trail(s: &[char], c: char) -> (r: &[char])
    ensures
        r@ == strip_trail(s@, c),
{
    let mut n: usize = s.len();
    assert(s@.take(n as int) =~= s@);
    while n > 0 && s[n - 1] == c
        invariant
            n <= s.len(),
            strip_trail(s@, c) == strip_trail(s@.take(n as int), c),
        decreases n,
    {
        assert(s@.take(n as int).drop_last() =~= s@.take(n - 1));
        n = n - 1;
    }
    slice_subrange(s, 0, n)
}

/// The first attribute that is a `cfg`.
fn find_cfg(attrs: &[String]) -> (r: Option<String>)
    ensures
        opt_text(r) == cfg_of(texts(attrs@)),
{
    let mut i: usize = 0;
    assert(texts(attrs@).skip(0) =~= texts(attrs@));
    while i < attrs.len()
        invariant
            i <= attrs.len(),
            cfg_of(texts(attrs@)) == cfg_of(texts(attrs@).skip(i as int)),
        decreases attrs.len() - i,
    {
        assert(texts(attrs@).skip(i as int)[0] == attrs@[i as int]@);
        if has_prefix(attrs[i].as_str(), "cfg(") {
            return Some(attrs[i].clone());
        }
        assert(texts(attrs@).skip(i as int).drop_first() =~= texts(attrs@).skip(i as int + 1));
        i = i + 1;
    }
    None
}

/// Takes one line of a source file.
fn take_line(attrs: &mut Vec<String>, table: &mut TextMap<Export>, line: &[char])
    requires
        old(table)@.wf(),
    ensures
        final(table)@.wf(),
        scan_line(ScanState { attrs: texts(old(attrs)@), table: old(table)@ }, line@) == (
        ScanState { attrs: texts(final(attrs)@), table: final(table)@ }),
{
    let ghost s0 = ScanState { attrs: texts(attrs@), table: table@ };
    let a: usize = skip_white(line, 0);
    assert(line@.skip(0) =~= line@);
    let t: &[char] = slice_subrange(line, a, line.len());
    assert(t@ =~= line@.skip(a as int));
    assert(t@.skip(0) =~= t@);
    proof {
        reveal_strlit("#[");
    }
    match past(t, 0, "#[") {
        Some(k) => {
            let body: &[char] = slice_subrange(t, k, t.len());
            assert(body@ =~= t@.skip(2));
            attrs.push(text_of(drop_trail(body, ']')));
            assert(texts(attrs@) =~= s0.attrs.push(strip_trail(t@.skip(2), ']')));
            return;
        },
        None => {},
    }
    if position_of(attrs.as_slice(), "no_mangle").is_some() {
        proof {
            let i = choose|i: int| 0 <= i < attrs@.len() && (#[trigger] attrs@[i])@ == "no_mangle"@;
            assert(texts(attrs@)[i] == "no_mangle"@);
        }
        match fn_name(t) {
            Some(name) => {
                let cfg: Option<String> = find_cfg(attrs.as_slice());
                let e: Export = Export { name: name.clone(), cfg };
                table.insert(name, e);
            },
            None => {},
        }
    } else {
        assert(!texts(attrs@).contains("no_mangle"@)) by {
            assert forall|i: int| 0 <= i < texts(attrs@).len() implies texts(attrs@)[i]
                != "no_mangle"@ by {
                assert(texts(attrs@)[i] == attrs@[i]@);
            }
        }
    }
    match past(t, 0, "par_ev_getter!(") {
        Some(k) => {
            let n: usize = word_run(t, k);
            assert(t@.skip(k as int).take(n as int) =~= t@.subrange(k as int, k + n));
            assert(k + n <= t.len());
            let name: String = text_of(slice_subrange(t, k, k + n));
            let e: Export = Export { name: name.clone(), cfg: None };
            table.insert(name, e);
        },
        None => {},
    }
    if past(t, 0, "///").is_none() {
        attrs.clear();
        assert(texts(attrs@) =~= Seq::empty());
    }
}

/// Reads one source file: every export that it declares joins the table.
pub fn rust_exports(table: &mut TextMap<Export>, text: &str)
    requires
        old(table)@.wf(),
    ensures
        final(table)@.wf(),
        final(table)@ == spec_rust_exports(old(table)@, text@),
{
    let all: Vec<char> = chars_of(text);
    let mut attrs: Vec<String> = Vec::new();
    let ghost start = ScanState { attrs: Seq::empty(), table: table@ };
    let ghost ls = lines(text@);
    let ghost mut n: nat = 0;
    let mut at: usize = 0;
    proof {
        assert(text@.skip(0) =~= text@);
        assert(texts(attrs@) =~= Seq::empty());
        assert(ls.skip(0) =~= ls);
    }
    while at < all.len()
        invariant
            at <= all.len(),
            all@ == text@,
            ls == lines(text@),
            n <= ls.len(),
            lines(text@.skip(at as int)) == ls.skip(n as int),
            table@.wf(),
            scan_lines(start, ls, n) == (ScanState { attrs: texts(attrs@), table: table@ }),
        decreases all.len() - at,
    {
        let rest: &[char] = slice_subrange(all.as_slice(), at, all.len());
        assert(rest@ =~= text@.skip(at as int));
        let i: usize = find_char(rest, '\n');
        let mut end: usize = i;
        if i < rest.len() && i > 0 && rest[i - 1] == '\r' {
            end = i - 1;
        }
        let line: &[char] = slice_subrange(rest, 0, end);
        proof {
            let l = lines(rest@);
            if i < rest@.len() {
                if i > 0 {
                    assert(rest@.take(i as int).drop_last() =~= rest@.take(i - 1));
                }
                assert(l[0] =~= line@);
                assert(l.drop_first() =~= lines(rest@.skip(i as int + 1)));
            } else {
                assert(l[0] =~= line@);
            }
            assert(l.len() >= 1);
            assert(ls.skip(n as int).len() >= 1);
            assert(ls[n as int] == ls.skip(n as int)[0]);
        }
        take_line(&mut attrs, table, line);
        proof {
            assert(ls.skip(n as int).drop_first() =~= ls.skip(n as int + 1));
            n = n + 1;
        }
        if i < rest.len() {
            assert(rest@.skip(i as int + 1) =~= text@.skip(at + i + 1));
            at = at + i + 1;
        } else {
            at = all.len();
            assert(text@.skip(at as int) =~= Seq::empty());
            assert(lines(rest@).drop_first() =~= Seq::empty());
        }
    }
    proof {
        assert(text@.skip(at as int) =~= Seq::empty());
        assert(n == ls.len());
    }
}

/// Where the first `*/` from `from` on starts, or the length of `b`.
pub open spec fn close_at(b: Seq<char>, from: nat) -> nat
    decreases b.len() - from,
{
    if from + 1 >= b.len() {
        b.len()
    } else if b[from as int] == '*' && b[from as int + 1] == '/' {
        from
    } else {
        close_at(b, from + 1)
    }
}

/// Where the first newline from `from` on is, or the length of `b`.
pub open spec fn newline_at(b: Seq<char>, from: nat) -> nat
    decreases b.len() - from,
{
    if from >= b.len() {
        b.len()
    } else if b[from as int] == '\n' {
        from
    } else {
        newline_at(b, from + 1)
    }
}

/// A block comment starts at `i`.
pub open spec fn opens_block(b: Seq<char>, i: int) -> bool {
    i + 1 < b.len() && b[i] == '/' && b[i + 1] == '*'
}

/// A line comment starts at `i`: two slashes that no colon precedes.
pub open spec fn opens_line(b: Seq<char>, i: int) -> bool {
    i + 1 < b.len() && b[i] == '/' && b[i + 1] == '/' && (i == 0 || b[i - 1] != ':')
}

/// The end of a comment lies past its start.
proof fn lemma_comment_ends(b: Seq<char>, from: nat)
    requires
        from <= b.len(),
    ensures
        from <= close_at(b, from) <= b.len(),
        from <= newline_at(b, from) <= b.len(),
        close_at(b, from) < b.len() ==> close_at(b, from) + 2 <= b.len(),
    decreases b.len() - from,
{
    if from < b.len() {
        lemma_comment_ends(b, from + 1);
    }
}

/// What is left of `b` from `i` on without its comments.
pub open spec fn stripped_from(b: Seq<char>, i: nat) -> Seq<char>
    decreases b.len() - i,
{
    if i >= b.len() {
        Seq::empty()
    } else if opens_block(b, i as int) {
        let k = close_at(b, i + 2);
        if i < k && k + 2 <= b.len() {
            stripped_from(b, k + 2)
        } else {
            Seq::empty()
        }
    } else if opens_line(b, i as int) {
        let k = newline_at(b, i);
        if i < k <= b.len() {
            stripped_from(b, k)
        } else {
            Seq::empty()
        }
    } else {
        seq![b[i as int]] + stripped_from(b, i + 1)
    }
}

/// A script without its comments; what stands outside of them is kept as it is.
pub open spec fn spec_strip_comments(text: Seq<char>) -> Seq<char> {
    stripped_from(text, 0)
}

/// Where the first `*/` from `from` on starts, or the length.
fn find_close(b: &[char], from: usize) -> (r: usize)
    requires
        from <= b@.len(),
    ensures
        r == close_at(b@, from as nat),
{
    let mut k: usize = from;
    while k < b.len() && b.len() - k > 1
        invariant
            from <= k <= b.len(),
            close_at(b@, from as nat) == close_at(b@, k as nat),
        decreases b.len() - k,
    {
        if b[k] == '*' && b[k + 1] == '/' {
            return k;
        }
        k = k + 1;
    }
    b.len()
}

/// Where the first newline from `from` on is, or the length.
fn find_newline(b: &[char], from: usize) -> (r: usize)
    requires
        from <= b@.len(),
    ensures
        r == newline_at(b@, from as nat),
{
    let mut k: usize = from;
    while k < b.len()
        invariant
            from <= k <= b.len(),
            newline_at(b@, from as nat) == newline_at(b@, k as nat),
        decreases b.len() - k,
    {
        if b[k] == '\n' {
            return k;
        }
        k = k + 1;
    }
    b.len()
}

/// A script without its comments: blocks and line tails are dropped, but not the slashes of an
/// address.
pub fn strip_comments(s: &str) -> (r: String)
    ensures
        r@ == spec_strip_comments(s@),
{
    let script: Vec<char> = chars_of(s);
    let b: &[char] = script.as_slice();
    let mut out: String = String::new();
    let mut i: usize = 0;
    let ghost whole = stripped_from(b@, 0);
    assert(out@ + whole =~= whole);
    while i < b.len()
        invariant
            i <= b.len(),
            whole == stripped_from(b@, 0),
            whole == out@ + stripped_from(b@, i as nat),
        decreases b.len() - i,
    {
        if b.len() - i > 1 && b[i] == '/' && b[i + 1] == '*' {
            proof {
                lemma_comment_ends(b@, (i + 2) as nat);
            }
            let k: usize = find_close(b, i + 2);
            if k < b.len() {
                i = k + 2;
            } else {
                i = b.len();
            }
        } else if b.len() - i > 1 && b[i] == '/' && b[i + 1] == '/' && (i == 0 || b[i - 1]
            != ':') {
            proof {
                lemma_comment_ends(b@, (i + 1) as nat);
            }
            i = find_newline(b, i);
        } else {
            let ghost before = out@;
            push_char(&mut out, b[i]);
            assert(before + (seq![b@[i as int]] + stripped_from(b@, (i + 1) as nat)) =~= out@
                + stripped_from(b@, (i + 1) as nat));
            i = i + 1;
        }
    }
    assert(stripped_from(b@, i as nat) =~= Seq::empty());
    assert(out@ + Seq::<char>::empty() =~= out@);
    out
}

/// A script without slashes has no comments: from any place on it is kept whole.
pub proof fn law_slashless_script_is_kept(b: Seq<char>, i: nat)
    requires
        forall|j: int| 0 <= j < b.len() ==> #[trigger] b[j] != '/',
        i <= b.len(),
    ensures
        stripped_from(b, i) == b.skip(i as int),
    decreases b.len() - i,
{
    if i < b.len() {
        law_slashless_script_is_kept(b, i + 1);
        assert(b[i as int] != '/');
        assert(b.skip(i as int) =~= seq![b[i as int]] + b.skip(i as int + 1));
    } else {
        assert(b.skip(i as int) =~= Seq::empty());
    }
}

/// Where `part` first occurs from `from` on, or the length of `t`.
pub open spec fn found_at(t: Seq<char>, part: Seq<char>, from: nat) -> nat
    decreases t.len() - from,
{
    if from >= t.len() {
        t.len()
    } else if occurs_at(t, part, from as int) {
        from
    } else {
        found_at(t, part, from + 1)
    }
}

/// A name starts at or past where the search began.
proof fn lemma_found_at(t: Seq<char>, part: Seq<char>, from: nat)
    requires
        from <= t.len(),
    ensures
        from <= found_at(t, part, from) <= t.len(),
        found_at(t, part, from) < t.len() ==> occurs_at(
            t,
            part,
            found_at(t, part, from) as int,
        ),
    decreases t.len() - from,
{
    if from < t.len() && !occurs_at(t, part, from as int) {
        lemma_found_at(t, part, from + 1);
    }
}

/// A name of the exported kind is called at `[start, end)`: as a member, or as a whole quoted
/// string.
pub open spec fn is_reference(t: Seq<char>, start: int, end: int) -> bool {
    let prev = if start == 0 {
        ' '
    } else {
        t[start - 1]
    };
    let next = if end < t.len() {
        t[end]
    } else {
        ' '
    };
    prev == '.' || ((prev == '\'' || prev == '"' || prev == '`') && next == prev)
}

/// The names that `t` refers to from `from` on, in order.
pub open spec fn names_from(t: Seq<char>, from: nat) -> Seq<Seq<char>>
    decreases t.len() - from,
{
    let start = found_at(t, "temen_"@, from);
    let end = start + word_len(t.skip(start as int));
    if start >= t.len() || !(from < end <= t.len()) {
        Seq::empty()
    } else if is_reference(t, start as int, end as int) {
        seq![t.subrange(start as int, end as int)] + names_from(t, end)
    } else {
        names_from(t, end)
    }
}

/// Where `part` first occurs from `from` on, or the length.
fn find_part(t: &[char], part: &[char], from: usize) -> (r: usize)
    requires
        from <= t@.len(),
    ensures
        r == found_at(t@, part@, from as nat),
{
    let mut k: usize = from;
    while k < t.len()
        invariant
            from <= k <= t.len(),
            found_at(t@, part@, from as nat) == found_at(t@, part@, k as nat),
        decreases t.len() - k,
    {
        if matches_at(t, part, k) {
            return k;
        }
        k = k + 1;
    }
    t.len()
}

/// A name is at least as long as the prefix that it was found by.
proof fn lemma_prefix_is_word(t: Seq<char>, start: int)
    requires
        occurs_at(t, "temen_"@, start),
    ensures
        word_len(t.skip(start)) >= 1,
        start < t.len(),
        start + word_len(t.skip(start)) <= t.len(),
{
    reveal_strlit("temen_");
    let s = t.skip(start);
    assert(t.subrange(start, start + "temen_"@.len())[0] == "temen_"@[0]);
    assert(s[0] == 't');
    lemma_word_len(s);
}

/// A name does not reach past its text.
proof fn lemma_word_len(s: Seq<char>)
    ensures
        word_len(s) <= s.len(),
    decreases s.len(),
{
    if s.len() > 0 {
        lemma_word_len(s.drop_first());
    }
}

/// The names that a comment-free script refers to, in order.
fn js_names(text: &str) -> (r: Vec<String>)
    ensures
        texts(r@) == names_from(text@, 0),
{
    let t: Vec<char> = chars_of(text);
    let prefix: Vec<char> = chars_of("temen_");
    let mut out: Vec<String> = Vec::new();
    let mut i: usize = 0;
    let ghost whole = names_from(text@, 0);
    assert(texts(out@) + whole =~= whole);
    loop
        invariant
            i <= t.len(),
            t@ == text@,
            prefix@ == "temen_"@,
            whole == names_from(text@, 0),
            whole == texts(out@) + names_from(text@, i as nat),
        decreases t.len() - i,
    {
        let start: usize = find_part(t.as_slice(), prefix.as_slice(), i);
        proof {
            lemma_found_at(text@, "temen_"@, i as nat);
        }
        if start >= t.len() {
            assert(texts(out@) + Seq::<Seq<char>>::empty() =~= texts(out@));
            return out;
        }
        proof {
            lemma_prefix_is_word(text@, start as int);
        }
        let end: usize = start + word_run(t.as_slice(), start);
        let prev: char = if start == 0 {
            ' '
        } else {
            t[start - 1]
        };
        let next: char = if end < t.len() {
            t[end]
        } else {
            ' '
        };
        if prev == '.' || ((prev == '\'' || prev == '"' || prev == '`') && next == prev) {
            let name: String = text_of(slice_subrange(t.as_slice(), start, end));
            let ghost before = out@;
            let ghost x = name@;
            out.push(name);
            proof {
                assert(texts(out@) =~= texts(before).push(x));
                let tail = names_from(text@, end as nat);
                assert(texts(before) + (seq![x] + tail) =~= texts(out@) + tail);
            }
        }
        i = end;
    }
}

/// The path `a` comes before the path `b`: by their names along the way, so a slash counts less than
/// any other character.
pub open spec fn path_before(a: Seq<char>, b: Seq<char>) -> bool
    decreases a.len(),
{
    if b.len() == 0 {
        false
    } else if a.len() == 0 {
        true
    } else if a[0] == b[0] {
        path_before(a.drop_first(), b.drop_first())
    } else if a[0] == '/' {
        true
    } else if b[0] == '/' {
        false
    } else {
        a[0] < b[0]
    }
}

/// Of two paths one comes first, unless they are the same.
proof fn lemma_path_total(a: Seq<char>, b: Seq<char>)
    ensures
        a == b ==> !path_before(a, b) && !path_before(b, a),
        a != b ==> path_before(a, b) != path_before(b, a),
    decreases a.len(),
{
    if a.len() > 0 && b.len() > 0 && a[0] == b[0] {
        lemma_path_total(a.drop_first(), b.drop_first());
        if a.drop_first() == b.drop_first() {
            assert(a =~= seq![a[0]] + a.drop_first());
            assert(b =~= seq![b[0]] + b.drop_first());
        }
    } else if a.len() == 0 && b.len() == 0 {
        assert(a =~= b);
    }
}

/// What comes before a path comes before what that path comes before.
proof fn lemma_path_transitive(a: Seq<char>, b: Seq<char>, c: Seq<char>)
    requires
        path_before(a, b),
        path_before(b, c),
    ensures
        path_before(a, c),
    decreases a.len(),
{
    if a.len() > 0 && a[0] == b[0] && b[0] == c[0] {
        lemma_path_transitive(a.drop_first(), b.drop_first(), c.drop_first());
    }
}

/// Whether the path `a` comes before the path `b`.
fn is_path_before(a: &str, b: &str) -> (r: bool)
    ensures
        r == path_before(a@, b@),
{
    let x: Vec<char> = chars_of(a);
    let y: Vec<char> = chars_of(b);
    let mut i: usize = 0;
    assert(x@.skip(0) =~= x@);
    assert(y@.skip(0) =~= y@);
    while i < x.len() && i < y.len() && x[i] == y[i]
        invariant
            i <= x.len(),
            i <= y.len(),
            x@ == a@,
            y@ == b@,
            path_before(a@, b@) == path_before(x@.skip(i as int), y@.skip(i as int)),
        decreases x.len() - i,
    {
        assert(x@.skip(i as int).drop_first() =~= x@.skip(i as int + 1));
        assert(y@.skip(i as int).drop_first() =~= y@.skip(i as int + 1));
        i = i + 1;
    }
    if i >= y.len() {
        return false;
    }
    if i >= x.len() {
        return true;
    }
    x[i] == '/' || (y[i] != '/' && x[i] < y[i])
}

/// The files of a list ascend, and none occurs twice.
pub open spec fn ascending(files: Seq<Seq<char>>) -> bool {
    forall|i: int, j: int|
        0 <= i < j < files.len() ==> path_before(#[trigger] files[i], #[trigger] files[j])
}

/// How many files of an ascending list come before `file`.
pub open spec fn file_place(files: Seq<Seq<char>>, file: Seq<char>) -> nat
    decreases files.len(),
{
    if files.len() == 0 || !path_before(files[0], file) {
        0
    } else {
        1 + file_place(files.drop_first(), file)
    }
}

/// `files` with `file` in its place, if it was not there.
pub open spec fn with_file(files: Seq<Seq<char>>, file: Seq<char>) -> Seq<Seq<char>> {
    let i = file_place(files, file) as int;
    if i < files.len() && files[i] == file {
        files
    } else {
        files.insert(i, file)
    }
}

/// Everything in front of the place of a file comes before it, and nothing behind does.
proof fn lemma_file_place(files: Seq<Seq<char>>, file: Seq<char>)
    requires
        ascending(files),
    ensures
        file_place(files, file) <= files.len(),
        forall|j: int| 0 <= j < file_place(files, file) ==> path_before(#[trigger] files[j], file),
        forall|j: int|
            file_place(files, file) <= j < files.len() ==> !path_before(#[trigger] files[j], file),
    decreases files.len(),
{
    if files.len() > 0 {
        let rest = files.drop_first();
        let k = file_place(rest, file);
        assert forall|i: int, j: int| 0 <= i < j < rest.len() implies path_before(
            #[trigger] rest[i],
            #[trigger] rest[j],
        ) by {
            assert(path_before(files[i + 1], files[j + 1]));
        }
        lemma_file_place(rest, file);
        if path_before(files[0], file) {
            assert forall|j: int| 0 <= j < 1 + k implies path_before(#[trigger] files[j], file) by {
                if j > 0 {
                    assert(path_before(rest[j - 1], file));
                }
            }
            assert forall|j: int| 1 + k <= j < files.len() implies !path_before(
                #[trigger] files[j],
                file,
            ) by {
                assert(!path_before(rest[j - 1], file));
            }
        } else {
            assert forall|j: int| 0 <= j < files.len() implies !path_before(
                #[trigger] files[j],
                file,
            ) by {
                if j > 0 && path_before(files[j], file) {
                    lemma_path_transitive(files[0], files[j], file);
                }
            }
        }
    }
}

/// A file list is a set in order: it ascends with the new file too, which it then holds beside what
/// it held before, and nothing else.
pub proof fn law_file_list_is_an_ordered_set(files: Seq<Seq<char>>, file: Seq<char>)
    requires
        ascending(files),
    ensures
        ascending(with_file(files, file)),
        forall|x: Seq<char>| #[trigger]
            with_file(files, file).contains(x) <==> x == file || files.contains(x),
{
    let i = file_place(files, file) as int;
    let more = with_file(files, file);
    lemma_file_place(files, file);
    if i < files.len() && files[i] == file {
        assert(files.contains(file));
    } else {
        assert forall|j: int| i <= j < files.len() implies path_before(file, #[trigger] files[j]) by {
            assert(!path_before(files[j], file));
            lemma_path_total(files[j], file);
            if files[j] == file && j > i {
                assert(path_before(files[i], files[j]));
            }
        }
        assert forall|a: int, b: int| 0 <= a < b < more.len() implies path_before(
            #[trigger] more[a],
            #[trigger] more[b],
        ) by {
            if a < i && b > i {
                assert(path_before(files[a], files[b - 1]));
            } else if a > i {
                assert(path_before(files[a - 1], files[b - 1]));
            } else if b < i {
                assert(path_before(files[a], files[b]));
            }
        }
        assert forall|x: Seq<char>| #[trigger] more.contains(x) <==> x == file || files.contains(
            x,
        ) by {
            assert(more[i] == file);
            if more.contains(x) && x != file {
                let j = choose|j: int| 0 <= j < more.len() && more[j] == x;
                if j < i {
                    assert(files[j] == x);
                } else {
                    assert(files[j - 1] == x);
                }
            }
            if files.contains(x) {
                let j = choose|j: int| 0 <= j < files.len() && files[j] == x;
                if j < i {
                    assert(more[j] == x);
                } else {
                    assert(more[j + 1] == x);
                }
            }
        }
    }
}

/// Two ascending lists of the same files are the same list.
proof fn lemma_ascending_unique(a: Seq<Seq<char>>, b: Seq<Seq<char>>)
    requires
        ascending(a),
        ascending(b),
        forall|x: Seq<char>| #[trigger] a.contains(x) <==> b.contains(x),
    ensures
        a == b,
    decreases a.len(),
{
    if a.len() == 0 {
        if b.len() > 0 {
            assert(b.contains(b[0]));
            assert(a.contains(b[0]));
        }
        assert(a =~= b);
    } else {
        assert(a.contains(a[0]));
        assert(b.contains(a[0]));
        let j = choose|j: int| 0 <= j < b.len() && b[j] == a[0];
        assert(b.contains(b[0]));
        assert(a.contains(b[0]));
        let i = choose|i: int| 0 <= i < a.len() && a[i] == b[0];
        lemma_path_total(a[0], b[0]);
        if i > 0 {
            assert(path_before(a[0], a[i]));
        }
        if j > 0 {
            assert(path_before(b[0], b[j]));
        }
        assert(a[0] == b[0]);
        let p = a.drop_first();
        let q = b.drop_first();
        assert forall|x: Seq<char>| #[trigger] p.contains(x) <==> q.contains(x) by {
            lemma_tail_members(a, x);
            lemma_tail_members(b, x);
            assert(a.contains(x) <==> b.contains(x));
        }
        lemma_tail_ascends(a);
        lemma_tail_ascends(b);
        lemma_ascending_unique(p, q);
        assert(a =~= seq![a[0]] + p);
        assert(b =~= seq![b[0]] + q);
    }
}

/// Without its first file an ascending list still ascends.
proof fn lemma_tail_ascends(a: Seq<Seq<char>>)
    requires
        a.len() > 0,
        ascending(a),
    ensures
        ascending(a.drop_first()),
{
    let p = a.drop_first();
    assert forall|i: int, j: int| 0 <= i < j < p.len() implies path_before(
        #[trigger] p[i],
        #[trigger] p[j],
    ) by {
        assert(path_before(a[i + 1], a[j + 1]));
    }
}

/// Without its first file an ascending list holds all the others.
proof fn lemma_tail_members(a: Seq<Seq<char>>, x: Seq<char>)
    requires
        a.len() > 0,
        ascending(a),
    ensures
        a.drop_first().contains(x) <==> a.contains(x) && x != a[0],
{
    let p = a.drop_first();
    if p.contains(x) {
        let i = choose|i: int| 0 <= i < p.len() && p[i] == x;
        assert(a[i + 1] == x);
        assert(path_before(a[0], a[i + 1]));
        lemma_path_total(a[0], a[i + 1]);
    }
    if a.contains(x) && x != a[0] {
        let i = choose|i: int| 0 <= i < a.len() && a[i] == x;
        assert(p[i - 1] == x);
    }
}

/// The order in which files are read does not show in a list.
pub proof fn law_reading_order_does_not_show(
    files: Seq<Seq<char>>,
    one: Seq<char>,
    other: Seq<char>,
)
    requires
        ascending(files),
    ensures
        with_file(with_file(files, one), other) == with_file(with_file(files, other), one),
{
    law_file_list_is_an_ordered_set(files, one);
    law_file_list_is_an_ordered_set(files, other);
    law_file_list_is_an_ordered_set(with_file(files, one), other);
    law_file_list_is_an_ordered_set(with_file(files, other), one);
    lemma_ascending_unique(
        with_file(with_file(files, one), other),
        with_file(with_file(files, other), one),
    );
}

/// Puts `file` in its place in an ascending list, if it is not there.
fn add_file(files: &Vec<String>, file: &str) -> (r: Vec<String>)
    requires
        ascending(texts(files@)),
    ensures
        texts(r@) == with_file(texts(files@), file@),
        r.deep_view() == with_file(texts(files@), file@),
{
    let ghost all = texts(files@);
    let mut i: usize = 0;
    assert(all.skip(0) =~= all);
    while i < files.len() && is_path_before(files[i].as_str(), file)
        invariant
            i <= files.len(),
            all == texts(files@),
            file_place(all, file@) == i + file_place(all.skip(i as int), file@),
        decreases files.len() - i,
    {
        assert(all.skip(i as int)[0] == files@[i as int]@);
        assert(all.skip(i as int).drop_first() =~= all.skip(i as int + 1));
        i = i + 1;
    }
    proof {
        if i < files.len() {
            assert(all.skip(i as int)[0] == files@[i as int]@);
        }
        assert(file_place(all, file@) == i);
    }
    let mut out: Vec<String> = copy_texts(files);
    if i >= files.len() || !same_text(files[i].as_str(), file) {
        let ghost before = out@;
        out.insert(i, file.to_owned());
        assert(texts(out@) =~= texts(before).insert(i as int, file@));
    }
    assert(out.deep_view() =~= texts(out@));
    out
}

/// The references are well formed, and every file list ascends.
pub open spec fn refs_wf(refs: TextMapView<Seq<Seq<char>>>) -> bool {
    refs.wf() && forall|i: int| 0 <= i < refs.vals.len() ==> ascending(#[trigger] refs.vals[i])
}

/// `refs` with `file` among the files that refer to `name`.
pub open spec fn add_reference(
    refs: TextMapView<Seq<Seq<char>>>,
    name: Seq<char>,
    file: Seq<char>,
) -> TextMapView<Seq<Seq<char>>> {
    let files = if refs.has(name) {
        refs.at(name)
    } else {
        Seq::empty()
    };
    refs.put(name, with_file(files, file))
}

/// One more reference leaves every file list ascending.
proof fn lemma_add_reference_wf(
    refs: TextMapView<Seq<Seq<char>>>,
    name: Seq<char>,
    file: Seq<char>,
)
    requires
        refs_wf(refs),
    ensures
        refs_wf(add_reference(refs, name, file)),
        refs.has(name) ==> ascending(refs.at(name)),
{
    assert((seq!['x'] + name).len() != name.len());
    lemma_place(refs.keys, name);
    if refs.has(name) {
        let k = choose|k: int| 0 <= k < refs.keys.len() && refs.keys[k] == name;
        lemma_place_of_key(refs.keys, k);
        assert(ascending(refs.vals[k]));
        law_file_list_is_an_ordered_set(refs.at(name), file);
    } else {
        assert(ascending(Seq::<Seq<char>>::empty()));
        law_file_list_is_an_ordered_set(Seq::empty(), file);
    }
    let files = if refs.has(name) {
        refs.at(name)
    } else {
        Seq::empty()
    };
    law_put_changes_one_key(refs, name, with_file(files, file), seq!['x'] + name);
}

/// `refs` with `file` among the files that refer to each of `names`.
pub open spec fn add_references(
    refs: TextMapView<Seq<Seq<char>>>,
    names: Seq<Seq<char>>,
    file: Seq<char>,
) -> TextMapView<Seq<Seq<char>>>
    decreases names.len(),
{
    if names.len() == 0 {
        refs
    } else {
        add_reference(add_references(refs, names.drop_last(), file), names.last(), file)
    }
}

/// Copies a list of texts.
fn copy_texts(v: &Vec<String>) -> (r: Vec<String>)
    ensures
        r.deep_view() == v.deep_view(),
        texts(r@) == texts(v@),
{
    let mut out: Vec<String> = Vec::with_capacity(v.len());
    let mut i: usize = 0;
    while i < v.len()
        invariant
            i <= v.len(),
            out@.len() == i,
            forall|j: int| 0 <= j < i ==> (#[trigger] out@[j])@ == v@[j]@,
        decreases v.len() - i,
    {
        out.push(v[i].clone());
        i = i + 1;
    }
    assert(out.deep_view() =~= v.deep_view());
    assert(texts(out@) =~= texts(v@));
    out
}

/// Reading one script after another leaves every file list ascending.
pub proof fn law_reference_lists_ascend(
    refs: TextMapView<Seq<Seq<char>>>,
    names: Seq<Seq<char>>,
    file: Seq<char>,
)
    requires
        refs_wf(refs),
    ensures
        refs_wf(add_references(refs, names, file)),
    decreases names.len(),
{
    if names.len() > 0 {
        law_reference_lists_ascend(refs, names.drop_last(), file);
        lemma_add_reference_wf(
            add_references(refs, names.drop_last(), file),
            names.last(),
            file,
        );
    }
}

/// Reads one script: every exported name that it calls gets `file` among its files.
pub fn js_references(refs: &mut TextMap<Vec<String>>, text: &str, file: &str)
    requires
        refs_wf(old(refs)@),
    ensures
        refs_wf(final(refs)@),
        final(refs)@ == add_references(
            old(refs)@,
            names_from(spec_strip_comments(text@), 0),
            file@,
        ),
{
    let bare: String = strip_comments(text);
    let names: Vec<String> = js_names(bare.as_str());
    let ghost all = texts(names@);
    let ghost start = refs@;
    let mut i: usize = 0;
    assert(all.take(0) =~= Seq::empty());
    while i < names.len()
        invariant
            i <= names.len(),
            all == texts(names@),
            refs_wf(refs@),
            refs@ == add_references(start, all.take(i as int), file@),
        decreases names.len() - i,
    {
        let ghost m = refs@;
        let name: &String = &names[i];
        proof {
            let now = all.take(i as int + 1);
            assert(now.drop_last() =~= all.take(i as int));
            assert(now.last() == name@);
            lemma_add_reference_wf(m, name@, file@);
        }
        let (k, found) = refs.find(name.as_str());
        let more: Vec<String> = if found {
            let held: &Vec<String> = &refs.vals[k];
            assert(m.vals[k as int] == held.deep_view());
            assert(held.deep_view() =~= texts(held@));
            add_file(held, file)
        } else {
            let none: Vec<String> = Vec::new();
            assert(texts(none@) =~= Seq::empty());
            add_file(&none, file)
        };
        refs.insert(name.clone(), more);
        i = i + 1;
    }
    assert(all.take(all.len() as int) =~= all);
}

/// The family that an exported name belongs to: what stands between the prefix and the next
/// underscore; names without the prefix share one family.
pub open spec fn spec_family(name: Seq<char>) -> Seq<char> {
    if starts_with(name, "temen_"@) {
        let rest = name.skip("temen_"@.len() as int);
        rest.take(first_at(rest, '_') as int)
    } else {
        "(corpus runners)"@
    }
}

/// The family that an exported name belongs to.
pub fn family(name: &str) -> (r: String)
    ensures
        r@ == spec_family(name@),
{
    let t: Vec<char> = chars_of(name);
    assert(t@.skip(0) =~= t@);
    match past(t.as_slice(), 0, "temen_") {
        None => "(corpus runners)".to_owned(),
        Some(k) => {
            let rest: &[char] = slice_subrange(t.as_slice(), k, t.len());
            assert(rest@ =~= name@.skip("temen_"@.len() as int));
            let n: usize = find_char(rest, '_');
            let part: &[char] = slice_subrange(rest, 0, n);
            assert(part@ =~= rest@.take(n as int));
            text_of(part)
        },
    }
}

/// How many of `items` have the property `p`.
pub open spec fn count<V>(items: Seq<V>, p: spec_fn(V) -> bool) -> nat
    decreases items.len(),
{
    if items.len() == 0 {
        0
    } else {
        count(items.drop_last(), p) + (if p(items.last()) {
            1nat
        } else {
            0nat
        })
    }
}

/// The export is in the family `f`.
pub open spec fn in_family(f: Seq<char>) -> spec_fn((Seq<char>, Option<Seq<char>>)) -> bool {
    |e: (Seq<char>, Option<Seq<char>>)| spec_family(e.0) == f
}

/// The export is in the family `f` and some script refers to it.
pub open spec fn in_family_called(f: Seq<char>, refs: TextMapView<Seq<Seq<char>>>) -> spec_fn(
    (Seq<char>, Option<Seq<char>>),
) -> bool {
    |e: (Seq<char>, Option<Seq<char>>)| spec_family(e.0) == f && refs.has(e.0)
}

/// The export is in the family `f` and exists under a `cfg`.
pub open spec fn in_family_gated(f: Seq<char>) -> spec_fn((Seq<char>, Option<Seq<char>>)) -> bool {
    |e: (Seq<char>, Option<Seq<char>>)| spec_family(e.0) == f && e.1 is Some
}

/// Some script refers to the name.
pub open spec fn is_called(refs: TextMapView<Seq<Seq<char>>>) -> spec_fn(Seq<char>) -> bool {
    |k: Seq<char>| refs.has(k)
}

/// The export exists under a `cfg`.
pub open spec fn is_gated() -> spec_fn((Seq<char>, Option<Seq<char>>)) -> bool {
    |e: (Seq<char>, Option<Seq<char>>)| e.1 is Some
}

/// The families of `items`, in order.
pub open spec fn families(items: Seq<(Seq<char>, Option<Seq<char>>)>) -> TextMapView<bool>
    decreases items.len(),
{
    if items.len() == 0 {
        TextMapView::empty()
    } else {
        families(items.drop_last()).put(spec_family(items.last().0), true)
    }
}

/// The title and the note under it.
pub const MD_HEAD: &'static str = "# Browser export ABI

**Generated — do not edit by hand.** Regenerate with `cargo run --bin genexports` (in `browser/`). Every `#[no_mangle] extern \"C\"` export of the `temen-browser` cdylib, by driver family, against what the page's JS actually calls by name. `tests/exports_abi.rs` pins that every name the JS touches is exported, and that this file is fresh (#1414).

";

/// The head of the family table.
pub const MD_TABLE: &'static str = "| family | exports | referenced from JS | `cfg`-gated |
|---|---:|---:|---:|
";

/// The head of the export lists.
pub const MD_LISTS: &'static str = "
## Exports by family

An export marked *unreferenced* is called by no JS or HTML in `browser/`; one marked with a `cfg` exists only in builds where that cfg holds, so a JS caller on another build gets a missing function at runtime (the source-level scan cannot see which build a page runs).

";

/// The line that counts everything.
pub open spec fn md_totals(
    es: TextMapView<(Seq<char>, Option<Seq<char>>)>,
    refs: TextMapView<Seq<Seq<char>>>,
) -> Seq<char> {
    let total = es.keys.len();
    let called = count(es.keys, is_called(refs));
    "**"@ + dec(total) + " exports** in "@ + dec(families(es.vals).keys.len()) + " families — "@
        + dec(called) + " referenced from JS, "@ + dec((total - called) as nat)
        + " referenced by nothing, "@ + dec(count(es.vals, is_gated())) + " behind a `cfg`.\n\n"@
}

/// The table row of the family `f`.
pub open spec fn md_row(
    items: Seq<(Seq<char>, Option<Seq<char>>)>,
    refs: TextMapView<Seq<Seq<char>>>,
    f: Seq<char>,
) -> Seq<char> {
    "| `"@ + f + "` | "@ + dec(count(items, in_family(f))) + " | "@ + dec(
        count(items, in_family_called(f, refs)),
    ) + " | "@ + dec(count(items, in_family_gated(f))) + " |\n"@
}

/// The rows of the first `n` families.
pub open spec fn md_rows(
    items: Seq<(Seq<char>, Option<Seq<char>>)>,
    refs: TextMapView<Seq<Seq<char>>>,
    fams: Seq<Seq<char>>,
    n: nat,
) -> Seq<char>
    decreases n,
{
    if n == 0 {
        Seq::empty()
    } else {
        md_rows(items, refs, fams, (n - 1) as nat) + md_row(items, refs, fams[n - 1])
    }
}

/// The list item of one export.
pub open spec fn md_item(
    e: (Seq<char>, Option<Seq<char>>),
    refs: TextMapView<Seq<Seq<char>>>,
) -> Seq<char> {
    "- `"@ + e.0 + "`"@ + (match e.1 {
        Some(c) => " — `"@ + c + "`"@,
        None => Seq::empty(),
    }) + (if refs.has(e.0) {
        Seq::empty()
    } else {
        " — *unreferenced*"@
    }) + "\n"@
}

/// The list items of the family `f`.
pub open spec fn md_items(
    items: Seq<(Seq<char>, Option<Seq<char>>)>,
    refs: TextMapView<Seq<Seq<char>>>,
    f: Seq<char>,
) -> Seq<char>
    decreases items.len(),
{
    if items.len() == 0 {
        Seq::empty()
    } else {
        md_items(items.drop_last(), refs, f) + (if spec_family(items.last().0) == f {
            md_item(items.last(), refs)
        } else {
            Seq::empty()
        })
    }
}

/// The lists of the first `n` families.
pub open spec fn md_lists(
    items: Seq<(Seq<char>, Option<Seq<char>>)>,
    refs: TextMapView<Seq<Seq<char>>>,
    fams: Seq<Seq<char>>,
    n: nat,
) -> Seq<char>
    decreases n,
{
    if n == 0 {
        Seq::empty()
    } else {
        md_lists(items, refs, fams, (n - 1) as nat) + ("### `"@ + fams[n - 1] + "`\n\n"@ + md_items(
            items,
            refs,
            fams[n - 1],
        ) + "\n"@)
    }
}

/// The whole table.
pub open spec fn spec_render_markdown(
    es: TextMapView<(Seq<char>, Option<Seq<char>>)>,
    refs: TextMapView<Seq<Seq<char>>>,
) -> Seq<char> {
    let fams = families(es.vals).keys;
    MD_HEAD@ + md_totals(es, refs) + MD_TABLE@ + md_rows(es.vals, refs, fams, fams.len())
        + MD_LISTS@ + md_lists(es.vals, refs, fams, fams.len())
}

/// No more items have a property than there are.
proof fn lemma_count_bound<V>(items: Seq<V>, p: spec_fn(V) -> bool)
    ensures
        count(items, p) <= items.len(),
    decreases items.len(),
{
    if items.len() > 0 {
        lemma_count_bound(items.drop_last(), p);
    }
}

/// Collects the families of the exports.
fn collect_families(exports: &TextMap<Export>) -> (r: TextMap<bool>)
    ensures
        r@ == families(exports@.vals),
        r@.wf(),
{
    let ghost items = exports@.vals;
    let mut fams: TextMap<bool> = TextMap::new();
    let mut i: usize = 0;
    assert(items.take(0) =~= Seq::empty());
    while i < exports.vals.len()
        invariant
            i <= exports.vals.len(),
            items == exports@.vals,
            fams@.wf(),
            fams@ == families(items.take(i as int)),
        decreases exports.vals.len() - i,
    {
        proof {
            let now = items.take(i as int + 1);
            assert(now.drop_last() =~= items.take(i as int));
            assert(now.last() == exports.vals@[i as int].deep_view());
        }
        fams.insert(family(exports.vals[i].name.as_str()), true);
        i = i + 1;
    }
    assert(items.take(items.len() as int) =~= items);
    fams
}

/// Counts the exports of the family `f`: all, the referenced and the gated ones.
fn count_family(exports: &TextMap<Export>, refs: &TextMap<Vec<String>>, f: &str) -> (r: (
    u64,
    u64,
    u64,
))
    requires
        refs@.wf(),
    ensures
        r.0 == count(exports@.vals, in_family(f@)),
        r.1 == count(exports@.vals, in_family_called(f@, refs@)),
        r.2 == count(exports@.vals, in_family_gated(f@)),
{
    let ghost items = exports@.vals;
    let mut all: u64 = 0;
    let mut called: u64 = 0;
    let mut gated: u64 = 0;
    let mut i: usize = 0;
    assert(items.take(0) =~= Seq::empty());
    while i < exports.vals.len()
        invariant
            i <= exports.vals.len(),
            items == exports@.vals,
            refs@.wf(),
            all == count(items.take(i as int), in_family(f@)),
            called == count(items.take(i as int), in_family_called(f@, refs@)),
            gated == count(items.take(i as int), in_family_gated(f@)),
        decreases exports.vals.len() - i,
    {
        let e: &Export = &exports.vals[i];
        proof {
            let now = items.take(i as int + 1);
            assert(now.drop_last() =~= items.take(i as int));
            assert(now.last() == e.deep_view());
            lemma_count_bound(items.take(i as int), in_family(f@));
            lemma_count_bound(items.take(i as int), in_family_called(f@, refs@));
            lemma_count_bound(items.take(i as int), in_family_gated(f@));
        }
        let fam: String = family(e.name.as_str());
        if same_text(fam.as_str(), f) {
            all = all + 1;
            if refs.contains_key(e.name.as_str()) {
                called = called + 1;
            }
            if e.cfg.is_some() {
                gated = gated + 1;
            }
        }
        i = i + 1;
    }
    assert(items.take(items.len() as int) =~= items);
    (all, called, gated)
}

/// Counts the referenced and the gated exports.
fn count_totals(exports: &TextMap<Export>, refs: &TextMap<Vec<String>>) -> (r: (u64, u64))
    requires
        exports@.wf(),
        refs@.wf(),
    ensures
        r.0 == count(exports@.keys, is_called(refs@)),
        r.1 == count(exports@.vals, is_gated()),
        r.0 <= exports@.keys.len(),
{
    let ghost keys = exports@.keys;
    let ghost items = exports@.vals;
    let mut called: u64 = 0;
    let mut gated: u64 = 0;
    let mut i: usize = 0;
    assert(keys.take(0) =~= Seq::empty());
    assert(items.take(0) =~= Seq::empty());
    while i < exports.keys.len()
        invariant
            i <= exports.keys.len(),
            keys == exports@.keys,
            items == exports@.vals,
            exports@.wf(),
            refs@.wf(),
            called == count(keys.take(i as int), is_called(refs@)),
            gated == count(items.take(i as int), is_gated()),
        decreases exports.keys.len() - i,
    {
        proof {
            let now = keys.take(i as int + 1);
            assert(now.drop_last() =~= keys.take(i as int));
            assert(now.last() == exports.keys@[i as int]@);
            let vals = items.take(i as int + 1);
            assert(vals.drop_last() =~= items.take(i as int));
            assert(vals.last() == exports.vals@[i as int].deep_view());
            lemma_count_bound(keys.take(i as int), is_called(refs@));
            lemma_count_bound(items.take(i as int), is_gated());
        }
        if refs.contains_key(exports.keys[i].as_str()) {
            called = called + 1;
        }
        if exports.vals[i].cfg.is_some() {
            gated = gated + 1;
        }
        i = i + 1;
    }
    proof {
        assert(keys.take(keys.len() as int) =~= keys);
        assert(items.take(items.len() as int) =~= items);
        lemma_count_bound(keys, is_called(refs@));
    }
    (called, gated)
}

/// Appends the list items of the family `f`.
fn push_items(s: &mut String, exports: &TextMap<Export>, refs: &TextMap<Vec<String>>, f: &str)
    requires
        refs@.wf(),
    ensures
        final(s)@ == old(s)@ + md_items(exports@.vals, refs@, f@),
{
    let ghost items = exports@.vals;
    let ghost start = s@;
    let mut i: usize = 0;
    assert(items.take(0) =~= Seq::empty());
    assert(s@ =~= start + md_items(items.take(0), refs@, f@));
    while i < exports.vals.len()
        invariant
            i <= exports.vals.len(),
            items == exports@.vals,
            refs@.wf(),
            s@ == start + md_items(items.take(i as int), refs@, f@),
        decreases exports.vals.len() - i,
    {
        let e: &Export = &exports.vals[i];
        let ghost x = e.deep_view();
        let ghost before = s@;
        proof {
            let now = items.take(i as int + 1);
            assert(now.drop_last() =~= items.take(i as int));
            assert(now.last() == x);
        }
        let fam: String = family(e.name.as_str());
        if same_text(fam.as_str(), f) {
            s.append("- `");
            s.append(e.name.as_str());
            s.append("`");
            match &e.cfg {
                Some(c) => {
                    s.append(" — `");
                    s.append(c.as_str());
                    s.append("`");
                },
                None => {},
            }
            if !refs.contains_key(e.name.as_str()) {
                s.append(" — *unreferenced*");
            }
            s.append("\n");
            assert(s@ =~= before + md_item(x, refs@));
        }
        assert(s@ =~= start + md_items(items.take(i as int + 1), refs@, f@));
        i = i + 1;
    }
    assert(items.take(items.len() as int) =~= items);
}

/// Appends the totals.
fn push_totals(
    s: &mut String,
    exports: &TextMap<Export>,
    refs: &TextMap<Vec<String>>,
    fams: &TextMap<bool>,
)
    requires
        exports@.wf(),
        refs@.wf(),
        fams@ == families(exports@.vals),
    ensures
        final(s)@ == old(s)@ + md_totals(exports@, refs@),
{
    let ghost start = s@;
    let (called, gated) = count_totals(exports, refs);
    s.append("**");
    push_dec(s, exports.keys.len() as u64);
    s.append(" exports** in ");
    push_dec(s, fams.keys.len() as u64);
    s.append(" families — ");
    push_dec(s, called);
    s.append(" referenced from JS, ");
    push_dec(s, exports.keys.len() as u64 - called);
    s.append(" referenced by nothing, ");
    push_dec(s, gated);
    s.append(" behind a `cfg`.\n\n");
    assert(s@ =~= start + md_totals(exports@, refs@));
}

/// Appends the row of the family `f`.
fn push_row(s: &mut String, exports: &TextMap<Export>, refs: &TextMap<Vec<String>>, f: &str)
    requires
        refs@.wf(),
    ensures
        final(s)@ == old(s)@ + md_row(exports@.vals, refs@, f@),
{
    let ghost start = s@;
    let (a, b, c) = count_family(exports, refs, f);
    s.append("| `");
    s.append(f);
    s.append("` | ");
    push_dec(s, a);
    s.append(" | ");
    push_dec(s, b);
    s.append(" | ");
    push_dec(s, c);
    s.append(" |\n");
    assert(s@ =~= start + md_row(exports@.vals, refs@, f@));
}

/// Appends the rows of the families.
fn push_rows(
    s: &mut String,
    exports: &TextMap<Export>,
    refs: &TextMap<Vec<String>>,
    fams: &TextMap<bool>,
)
    requires
        refs@.wf(),
    ensures
        final(s)@ == old(s)@ + md_rows(exports@.vals, refs@, fams@.keys, fams@.keys.len()),
{
    let ghost start = s@;
    let mut i: usize = 0;
    assert(s@ =~= start + md_rows(exports@.vals, refs@, fams@.keys, 0));
    while i < fams.keys.len()
        invariant
            i <= fams.keys.len(),
            refs@.wf(),
            s@ == start + md_rows(exports@.vals, refs@, fams@.keys, i as nat),
        decreases fams.keys.len() - i,
    {
        let f: &String = &fams.keys[i];
        assert(fams@.keys[i as int] == f@);
        push_row(s, exports, refs, f.as_str());
        assert(s@ =~= start + md_rows(exports@.vals, refs@, fams@.keys, (i + 1) as nat));
        i = i + 1;
    }
}

/// Appends the lists of the families.
fn push_lists(
    s: &mut String,
    exports: &TextMap<Export>,
    refs: &TextMap<Vec<String>>,
    fams: &TextMap<bool>,
)
    requires
        refs@.wf(),
    ensures
        final(s)@ == old(s)@ + md_lists(exports@.vals, refs@, fams@.keys, fams@.keys.len()),
{
    let ghost start = s@;
    let ghost items = exports@.vals;
    let mut j: usize = 0;
    assert(s@ =~= start + md_lists(items, refs@, fams@.keys, 0));
    while j < fams.keys.len()
        invariant
            j <= fams.keys.len(),
            items == exports@.vals,
            refs@.wf(),
            s@ == start + md_lists(items, refs@, fams@.keys, j as nat),
        decreases fams.keys.len() - j,
    {
        let f: &String = &fams.keys[j];
        assert(fams@.keys[j as int] == f@);
        let ghost before = s@;
        s.append("### `");
        s.append(f.as_str());
        s.append("`\n\n");
        push_items(s, exports, refs, f.as_str());
        s.append("\n");
        assert(s@ =~= before + ("### `"@ + f@ + "`\n\n"@ + md_items(items, refs@, f@) + "\n"@));
        assert(s@ =~= start + md_lists(items, refs@, fams@.keys, (j + 1) as nat));
        j = j + 1;
    }
}

/// The table of exports by family: how many each has, how many the scripts call, how many exist
/// only under a `cfg`, and then every one of them.
pub fn render_markdown(exports: &TextMap<Export>, refs: &TextMap<Vec<String>>) -> (r: String)
    requires
        exports@.wf(),
        refs@.wf(),
    ensures
        r@ == spec_render_markdown(exports@, refs@),
{
    let fams: TextMap<bool> = collect_families(exports);
    let mut s: String = MD_HEAD.to_owned();
    push_totals(&mut s, exports, refs, &fams);
    s.append(MD_TABLE);
    push_rows(&mut s, exports, refs, &fams);
    s.append(MD_LISTS);
    push_lists(&mut s, exports, refs, &fams);
    s
}

/// The counts in `column` of the first `n` families, added up.
pub open spec fn family_sum(
    items: Seq<(Seq<char>, Option<Seq<char>>)>,
    column: spec_fn(Seq<char>) -> spec_fn((Seq<char>, Option<Seq<char>>)) -> bool,
    fams: Seq<Seq<char>>,
    n: nat,
) -> nat
    decreases n,
{
    if n == 0 {
        0
    } else {
        family_sum(items, column, fams, (n - 1) as nat) + count(items, column(fams[n - 1]))
    }
}

/// `column` counts the exports of a row's family that have the property `p`.
spec fn counts(
    column: spec_fn(Seq<char>) -> spec_fn((Seq<char>, Option<Seq<char>>)) -> bool,
    p: spec_fn((Seq<char>, Option<Seq<char>>)) -> bool,
) -> bool {
    forall|f: Seq<char>, e: (Seq<char>, Option<Seq<char>>)| #[trigger]
        column(f)(e) == (spec_family(e.0) == f && p(e))
}

/// One more export adds one to the sum as soon as its family has been counted, if it has the
/// property.
proof fn lemma_family_sum_step(
    items: Seq<(Seq<char>, Option<Seq<char>>)>,
    column: spec_fn(Seq<char>) -> spec_fn((Seq<char>, Option<Seq<char>>)) -> bool,
    p: spec_fn((Seq<char>, Option<Seq<char>>)) -> bool,
    fams: Seq<Seq<char>>,
    n: nat,
    at: int,
)
    requires
        items.len() > 0,
        counts(column, p),
        ordered(fams),
        n <= fams.len(),
        0 <= at < fams.len(),
        fams[at] == spec_family(items.last().0),
    ensures
        family_sum(items, column, fams, n) == family_sum(items.drop_last(), column, fams, n) + (if at
            < n && p(items.last()) {
            1nat
        } else {
            0nat
        }),
    decreases n,
{
    if n > 0 {
        lemma_family_sum_step(items, column, p, fams, (n - 1) as nat, at);
        let f = fams[n - 1];
        if at < n - 1 {
            assert(before(fams[at], fams[n - 1]));
            lemma_before_total(fams[at], fams[n - 1]);
        } else if at > n - 1 {
            assert(before(fams[n - 1], fams[at]));
            lemma_before_total(fams[n - 1], fams[at]);
        }
        assert(column(f)(items.last()) == (at == n - 1 && p(items.last())));
    }
}

/// Counting nothing gives zero.
proof fn lemma_family_sum_empty(
    column: spec_fn(Seq<char>) -> spec_fn((Seq<char>, Option<Seq<char>>)) -> bool,
    fams: Seq<Seq<char>>,
    n: nat,
)
    ensures
        family_sum(Seq::empty(), column, fams, n) == 0,
    decreases n,
{
    if n > 0 {
        lemma_family_sum_empty(column, fams, (n - 1) as nat);
    }
}

/// Over any ordered list that has all their families, the exports with the property are counted once
/// each.
proof fn lemma_family_sum(
    items: Seq<(Seq<char>, Option<Seq<char>>)>,
    column: spec_fn(Seq<char>) -> spec_fn((Seq<char>, Option<Seq<char>>)) -> bool,
    p: spec_fn((Seq<char>, Option<Seq<char>>)) -> bool,
    fams: Seq<Seq<char>>,
)
    requires
        counts(column, p),
        ordered(fams),
        forall|i: int|
            0 <= i < items.len() ==> fams.contains(spec_family((#[trigger] items[i]).0)),
    ensures
        family_sum(items, column, fams, fams.len()) == count(items, p),
    decreases items.len(),
{
    if items.len() == 0 {
        assert(items =~= Seq::empty());
        lemma_family_sum_empty(column, fams, fams.len());
    } else {
        let less = items.drop_last();
        assert(forall|i: int| 0 <= i < less.len() ==> #[trigger] less[i] == items[i]);
        lemma_family_sum(less, column, p, fams);
        assert(fams.contains(spec_family(items[items.len() - 1].0)));
        let at = choose|at: int|
            0 <= at < fams.len() && fams[at] == spec_family(items.last().0);
        lemma_family_sum_step(items, column, p, fams, fams.len(), at);
    }
}

/// The families of the exports are in order and hold every export's family.
proof fn lemma_families(items: Seq<(Seq<char>, Option<Seq<char>>)>)
    ensures
        families(items).wf(),
        forall|i: int|
            0 <= i < items.len() ==> families(items).has(spec_family((#[trigger] items[i]).0)),
    decreases items.len(),
{
    if items.len() > 0 {
        let less = items.drop_last();
        lemma_families(less);
        let m = families(less);
        let k = spec_family(items.last().0);
        assert forall|i: int| 0 <= i < items.len() implies families(items).has(
            spec_family((#[trigger] items[i]).0),
        ) by {
            let f = spec_family(items[i].0);
            if f == k {
                assert((seq!['x'] + k).len() != k.len());
                law_put_changes_one_key(m, k, true, seq!['x'] + k);
            } else {
                assert(less[i] == items[i]);
                law_put_changes_one_key(m, k, true, f);
            }
        }
        assert((seq!['x'] + k).len() != k.len());
        law_put_changes_one_key(m, k, true, seq!['x'] + k);
    }
}

/// The table is well formed, and every export stands under its own name.
pub open spec fn named(es: TextMapView<(Seq<char>, Option<Seq<char>>)>) -> bool {
    es.wf() && forall|i: int| 0 <= i < es.keys.len() ==> #[trigger] es.keys[i] == es.vals[i].0
}

/// An export put under its own name leaves every export under its own name.
proof fn lemma_put_named(
    es: TextMapView<(Seq<char>, Option<Seq<char>>)>,
    name: Seq<char>,
    cfg: Option<Seq<char>>,
)
    requires
        named(es),
    ensures
        named(es.put(name, (name, cfg))),
{
    assert((seq!['x'] + name).len() != name.len());
    law_put_changes_one_key(es, name, (name, cfg), seq!['x'] + name);
    lemma_place(es.keys, name);
}

/// Every export that a scan finds stands under its own name.
pub proof fn law_scanned_exports_are_named(
    table: TextMapView<(Seq<char>, Option<Seq<char>>)>,
    text: Seq<char>,
)
    requires
        named(table),
    ensures
        named(spec_rust_exports(table, text)),
{
    lemma_scan_named(ScanState { attrs: Seq::empty(), table }, lines(text), lines(text).len());
}

/// As [`law_scanned_exports_are_named`], after the first `n` lines.
proof fn lemma_scan_named(s: ScanState, ls: Seq<Seq<char>>, n: nat)
    requires
        named(s.table),
    ensures
        named(scan_lines(s, ls, n).table),
    decreases n,
{
    if n > 0 {
        lemma_scan_named(s, ls, (n - 1) as nat);
        let now = scan_lines(s, ls, (n - 1) as nat);
        let t = spec_trim_start(ls[n - 1]);
        let declared = if now.attrs.contains("no_mangle"@) && spec_fn_name(t) is Some {
            lemma_put_named(now.table, spec_fn_name(t)->0, cfg_of(now.attrs));
            now.table.put(spec_fn_name(t)->0, (spec_fn_name(t)->0, cfg_of(now.attrs)))
        } else {
            now.table
        };
        let rest = t.skip("par_ev_getter!("@.len() as int);
        lemma_put_named(declared, rest.take(word_len(rest) as int), None);
    }
}

/// Counting the names that are referenced counts the exports that are.
proof fn lemma_count_called(
    keys: Seq<Seq<char>>,
    items: Seq<(Seq<char>, Option<Seq<char>>)>,
    refs: TextMapView<Seq<Seq<char>>>,
    p: spec_fn((Seq<char>, Option<Seq<char>>)) -> bool,
)
    requires
        keys.len() == items.len(),
        forall|i: int| 0 <= i < keys.len() ==> #[trigger] keys[i] == items[i].0,
        forall|e: (Seq<char>, Option<Seq<char>>)| #[trigger] p(e) == refs.has(e.0),
    ensures
        count(keys, is_called(refs)) == count(items, p),
    decreases keys.len(),
{
    if keys.len() > 0 {
        lemma_count_called(keys.drop_last(), items.drop_last(), refs, p);
        assert(keys[keys.len() - 1] == items[keys.len() - 1].0);
        assert(p(items.last()) == refs.has(items.last().0));
    }
}

/// A property that everything has counts everything.
proof fn lemma_count_all<V>(items: Seq<V>, p: spec_fn(V) -> bool)
    requires
        forall|e: V| #[trigger] p(e),
    ensures
        count(items, p) == items.len(),
    decreases items.len(),
{
    if items.len() > 0 {
        lemma_count_all(items.drop_last(), p);
    }
}

/// The rows of the family table add up to the line that counts everything, column by column: the
/// exports, those referenced from a script, and those behind a `cfg`.
pub proof fn law_family_rows_add_up(
    es: TextMapView<(Seq<char>, Option<Seq<char>>)>,
    refs: TextMapView<Seq<Seq<char>>>,
)
    requires
        named(es),
    ensures
        ({
            let fams = families(es.vals).keys;
            &&& family_sum(es.vals, |f: Seq<char>| in_family(f), fams, fams.len()) == es.keys.len()
            &&& family_sum(
                es.vals,
                |f: Seq<char>| in_family_called(f, refs),
                fams,
                fams.len(),
            ) == count(es.keys, is_called(refs))
            &&& family_sum(es.vals, |f: Seq<char>| in_family_gated(f), fams, fams.len()) == count(
                es.vals,
                is_gated(),
            )
        }),
{
    let items = es.vals;
    let fams = families(items).keys;
    lemma_families(items);
    let any = |e: (Seq<char>, Option<Seq<char>>)| true;
    lemma_family_sum(items, |f: Seq<char>| in_family(f), any, fams);
    lemma_count_all(items, any);
    let called = |e: (Seq<char>, Option<Seq<char>>)| refs.has(e.0);
    lemma_family_sum(items, |f: Seq<char>| in_family_called(f, refs), called, fams);
    lemma_count_called(es.keys, items, refs, called);
    lemma_family_sum(items, |f: Seq<char>| in_family_gated(f), is_gated(), fams);
}

/// The extension of a file: what follows the last dot of its name, if the name does not start there.
pub open spec fn extension(path: Seq<char>) -> Option<Seq<char>> {
    let name = file_name(path);
    match last_at(name, '.') {
        Some(i) => if i > 0 {
            Some(name.skip(i as int + 1))
        } else {
            None
        },
        None => None,
    }
}

/// The extension of a file.
fn extension_of(path: &str) -> (r: Option<String>)
    ensures
        r is Some <==> extension(path@) is Some,
        r matches Some(e) ==> extension(path@) == Some(e@),
{
    let c: Vec<char> = chars_of(path);
    let n: usize = c.len();
    let from: usize = match find_last(c.as_slice(), '/') {
        Some(i) => i + 1,
        None => 0,
    };
    let name: &[char] = slice_subrange(c.as_slice(), from, n);
    assert(path@.skip(0) =~= path@);
    assert(name@ =~= file_name(path@));
    match find_last(name, '.') {
        Some(i) => {
            if i == 0 {
                return None;
            }
            assert(name@.subrange(i + 1, name@.len() as int) =~= name@.skip(i + 1));
            Some(text_of(slice_subrange(name, i + 1, name.len())))
        },
        None => None,
    }
}

/// The file is a source file that may declare exports.
pub open spec fn spec_is_source(path: Seq<char>) -> bool {
    extension(path) == Some("rs"@)
}

/// The file is a source file that may declare exports.
pub fn is_source(path: &str) -> (r: bool)
    ensures
        r == spec_is_source(path@),
        r == (extension(path@) == Some("rs"@)),
{
    match extension_of(path) {
        Some(e) => same_text(e.as_str(), "rs"),
        None => false,
    }
}

/// The file is a script or a page of its own, not a vendored or built one.
pub open spec fn spec_is_script(path: Seq<char>) -> bool {
    &&& !contains(path, "/node_modules/"@)
    &&& !contains(path, "/target/"@)
    &&& !contains(path, "/web/assets/"@)
    &&& extension(path) == Some("js"@) || extension(path) == Some("mjs"@) || extension(path) == Some(
        "html"@,
    )
}

/// The file is a script or a page whose calls count.
pub fn is_script(path: &str) -> (r: bool)
    ensures
        r == spec_is_script(path@),
{
    if has_part(path, "/node_modules/") || has_part(path, "/target/") || has_part(
        path,
        "/web/assets/",
    ) {
        return false;
    }
    match extension_of(path) {
        Some(e) => same_text(e.as_str(), "js") || same_text(e.as_str(), "mjs") || same_text(
            e.as_str(),
            "html",
        ),
        None => false,
    }
}

/// A name ends where the first other character follows it.
proof fn lemma_word_front(name: Seq<char>, rest: Seq<char>)
    requires
        forall|j: int| 0 <= j < name.len() ==> is_word(#[trigger] name[j]),
        rest.len() > 0 ==> !is_word(rest[0]),
    ensures
        word_len(name + rest) == name.len(),
        (name + rest).take(name.len() as int) == name,
    decreases name.len(),
{
    let all = name + rest;
    assert(all.take(name.len() as int) =~= name);
    if name.len() == 0 {
        assert(all =~= rest);
    } else {
        let less = name.drop_first();
        assert(all[0] == name[0]);
        assert(all.drop_first() =~= less + rest);
        assert forall|j: int| 0 <= j < less.len() implies is_word(#[trigger] less[j]) by {
            assert(less[j] == name[j + 1]);
        }
        lemma_word_front(less, rest);
    }
}

/// A prefix is taken off a text that starts with it.
proof fn lemma_prefix_off(prefix: Seq<char>, rest: Seq<char>)
    ensures
        starts_with(prefix + rest, prefix),
        (prefix + rest).skip(prefix.len() as int) == rest,
{
    assert((prefix + rest).subrange(0, prefix.len() as int) =~= prefix);
    assert((prefix + rest).skip(prefix.len() as int) =~= rest);
}

/// A declaration exports the name that it declares, whole, safe or not; a line that is no public
/// declaration exports nothing.
pub proof fn law_declaration_names_its_function(name: Seq<char>, rest: Seq<char>, line: Seq<char>)
    requires
        name.len() > 0,
        forall|j: int| 0 <= j < name.len() ==> is_word(#[trigger] name[j]),
        rest.len() > 0 ==> !is_word(rest[0]),
    ensures
        spec_fn_name("pub "@ + ("extern \"C\" fn "@ + (name + rest))) == Some(name),
        spec_fn_name("pub "@ + ("unsafe "@ + ("extern \"C\" fn "@ + (name + rest)))) == Some(name),
        !starts_with(line, "pub "@) ==> spec_fn_name(line) is None,
{
    let c = name + rest;
    let b = "extern \"C\" fn "@ + c;
    lemma_word_front(name, rest);
    lemma_prefix_off("extern \"C\" fn "@, c);
    lemma_prefix_off("pub "@, b);
    lemma_prefix_off("unsafe "@, b);
    lemma_prefix_off("pub "@, "unsafe "@ + b);
    reveal_strlit("unsafe ");
    reveal_strlit("extern \"C\" fn ");
    assert(!starts_with(b, "unsafe "@)) by {
        if starts_with(b, "unsafe "@) {
            assert(b.subrange(0, 7)[0] == b[0]);
        }
    }
}

/// A declaration is exported exactly under `no_mangle`, with the first `cfg` above it; it ends the
/// attributes above it, and a doc comment between does not.
pub proof fn law_export_is_declared_under_its_attributes(s: ScanState, line: Seq<char>, name: Seq<char>)
    requires
        spec_fn_name(spec_trim_start(line)) == Some(name),
    ensures
        s.attrs.contains("no_mangle"@) ==> scan_line(s, line).table == s.table.put(
            name,
            (name, cfg_of(s.attrs)),
        ),
        !s.attrs.contains("no_mangle"@) ==> scan_line(s, line).table == s.table,
        scan_line(s, line).attrs.len() == 0,
{
    let t = spec_trim_start(line);
    reveal_strlit("pub ");
    reveal_strlit("#[");
    reveal_strlit("///");
    reveal_strlit("par_ev_getter!(");
    assert(t.subrange(0, 4)[1] == t[1]);
    if starts_with(t, "#["@) {
        assert(t.subrange(0, 4)[0] == t[0]);
        assert(t.subrange(0, 2)[0] == t[0]);
    }
    if starts_with(t, "///"@) {
        assert(t.subrange(0, 3)[1] == t[1]);
    }
    if starts_with(t, "par_ev_getter!("@) {
        assert(t.subrange(0, 15)[1] == t[1]);
    }
}

/// An attribute line adds its attribute to those above the next declaration and exports nothing.
pub proof fn law_attributes_pile_up(s: ScanState, attr: Seq<char>)
    requires
        attr.len() > 0,
        attr.last() != ']',
    ensures
        scan_line(s, "#["@ + attr + "]"@) == (ScanState { attrs: s.attrs.push(attr), ..s }),
{
    reveal_strlit("#[");
    reveal_strlit("]");
    let line = "#["@ + attr + "]"@;
    assert(line[0] == '#');
    assert(spec_trim_start(line) == line);
    assert(line.subrange(0, 2) =~= "#["@);
    let body = line.skip(2);
    assert(body =~= attr.push(']'));
    assert(body.drop_last() =~= attr);
    reveal_with_fuel(strip_trail, 2);
    assert(strip_trail(body, ']') == attr);
}

/// The `cfg` of an export is the first among its attributes, and there is none if no attribute is one.
pub proof fn law_first_cfg_counts(attrs: Seq<Seq<char>>, i: int)
    ensures
        (0 <= i < attrs.len() && starts_with(attrs[i], "cfg("@) && forall|j: int|
            0 <= j < i ==> !starts_with(#[trigger] attrs[j], "cfg("@)) ==> cfg_of(attrs) == Some(
            attrs[i],
        ),
        (forall|j: int| 0 <= j < attrs.len() ==> !starts_with(#[trigger] attrs[j], "cfg("@))
            ==> cfg_of(attrs) is None,
    decreases attrs.len(),
{
    if attrs.len() > 0 && !starts_with(attrs[0], "cfg("@) {
        let rest = attrs.drop_first();
        law_first_cfg_counts(rest, i - 1);
        if 0 <= i < attrs.len() && starts_with(attrs[i], "cfg("@) && forall|j: int|
            0 <= j < i ==> !starts_with(#[trigger] attrs[j], "cfg("@) {
            assert(rest[i - 1] == attrs[i]);
            assert forall|j: int| 0 <= j < i - 1 implies !starts_with(
                #[trigger] rest[j],
                "cfg("@,
            ) by {
                assert(rest[j] == attrs[j + 1]);
            }
        }
        if forall|j: int| 0 <= j < attrs.len() ==> !starts_with(#[trigger] attrs[j], "cfg("@) {
            assert forall|j: int| 0 <= j < rest.len() implies !starts_with(
                #[trigger] rest[j],
                "cfg("@,
            ) by {
                assert(rest[j] == attrs[j + 1]);
            }
        }
    }
}

/// The first close from a place on is where one stands and none stood before.
proof fn lemma_close_is(b: Seq<char>, from: nat, k: nat)
    requires
        from <= k,
        k + 1 < b.len(),
        b[k as int] == '*',
        b[k as int + 1] == '/',
        forall|j: int| from <= j < k ==> !(#[trigger] b[j] == '*' && b[j + 1] == '/'),
    ensures
        close_at(b, from) == k,
    decreases k - from,
{
    if from < k {
        assert(!(b[from as int] == '*' && b[from as int + 1] == '/'));
        lemma_close_is(b, from + 1, k);
    }
}

/// The first newline from a place on is where one stands and none stood before.
proof fn lemma_newline_is(b: Seq<char>, from: nat, k: nat)
    requires
        from <= k < b.len(),
        b[k as int] == '\n',
        forall|j: int| from <= j < k ==> #[trigger] b[j] != '\n',
    ensures
        newline_at(b, from) == k,
    decreases k - from,
{
    if from < k {
        lemma_newline_is(b, from + 1, k);
    }
}

/// A block comment is dropped up to its first close, and what follows is read on as if it were not
/// there.
pub proof fn law_block_comment_is_dropped(b: Seq<char>, i: nat, k: nat)
    requires
        i + 2 <= k,
        k + 1 < b.len(),
        b[i as int] == '/',
        b[i as int + 1] == '*',
        b[k as int] == '*',
        b[k as int + 1] == '/',
        forall|j: int| i + 2 <= j < k ==> !(#[trigger] b[j] == '*' && b[j + 1] == '/'),
    ensures
        stripped_from(b, i) == stripped_from(b, k + 2),
{
    lemma_close_is(b, i + 2, k);
}

/// A line comment is dropped up to the end of its line, which stays; two slashes behind a colon are
/// none.
pub proof fn law_line_comment_is_dropped(b: Seq<char>, i: nat, k: nat)
    requires
        i + 2 <= k < b.len(),
        b[i as int] == '/',
        b[i as int + 1] == '/',
        b[k as int] == '\n',
        forall|j: int| i <= j < k ==> #[trigger] b[j] != '\n',
    ensures
        i == 0 || b[i - 1] != ':' ==> stripped_from(b, i) == seq!['\n'] + stripped_from(b, k + 1),
        i > 0 && b[i - 1] == ':' ==> stripped_from(b, i) == seq!['/'] + stripped_from(b, i + 1),
{
    lemma_newline_is(b, i, k);
    assert(stripped_from(b, k) == seq!['\n'] + stripped_from(b, k + 1));
}

/// A comment that never ends takes the rest of the script.
pub proof fn law_open_comment_takes_the_rest(b: Seq<char>, i: nat)
    requires
        i + 1 < b.len(),
        b[i as int] == '/',
        b[i as int + 1] == '*',
        forall|j: int| i + 2 <= j < b.len() - 1 ==> !(#[trigger] b[j] == '*' && b[j + 1] == '/'),
    ensures
        stripped_from(b, i).len() == 0,
{
    lemma_never_closed(b, i + 2);
}

/// Where nothing closes, the search ends at the end.
proof fn lemma_never_closed(b: Seq<char>, from: nat)
    requires
        from <= b.len(),
        forall|j: int| from <= j < b.len() - 1 ==> !(#[trigger] b[j] == '*' && b[j + 1] == '/'),
    ensures
        close_at(b, from) == b.len(),
    decreases b.len() - from,
{
    if from + 1 < b.len() {
        assert(!(b[from as int] == '*' && b[from as int + 1] == '/'));
        lemma_never_closed(b, from + 1);
    }
}

/// Every call counts: a name of the exported kind that a script calls as a member, or names as a whole
/// string, is among its references.
pub proof fn law_every_call_is_found(t: Seq<char>, from: nat, start: int)
    requires
        from <= start < t.len(),
        occurs_at(t, "temen_"@, start),
        start > 0 ==> !is_word(t[start - 1]),
        is_reference(t, start, start + word_len(t.skip(start))),
    ensures
        names_from(t, from).contains(t.subrange(start, start + word_len(t.skip(start)))),
    decreases t.len() - from,
{
    let name = t.subrange(start, start + word_len(t.skip(start)));
    let first = found_at(t, "temen_"@, from);
    lemma_found_before(t, "temen_"@, from, start);
    lemma_found_at(t, "temen_"@, from);
    lemma_prefix_is_word(t, first as int);
    lemma_word_len(t.skip(first as int));
    let end = first + word_len(t.skip(first as int));
    if first == start {
        if end > from {
            assert(names_from(t, from)[0] == name);
        }
    } else {
        lemma_word_stops(t.skip(first as int), start - 1 - first);
        assert(end <= start);
        law_every_call_is_found(t, end, start);
        let rest = names_from(t, end);
        let j = choose|j: int| 0 <= j < rest.len() && rest[j] == name;
        if is_reference(t, first as int, end as int) {
            assert(names_from(t, from)[j + 1] == name);
        } else {
            assert(names_from(t, from)[j] == name);
        }
    }
}

/// The search stops at or before every place where the part stands.
proof fn lemma_found_before(t: Seq<char>, part: Seq<char>, from: nat, at: int)
    requires
        from <= at < t.len(),
        occurs_at(t, part, at),
    ensures
        found_at(t, part, from) <= at,
    decreases at - from,
{
    if !occurs_at(t, part, from as int) {
        lemma_found_before(t, part, from + 1, at);
    }
}

/// A name does not reach past a character that is none of a name's.
proof fn lemma_word_stops(s: Seq<char>, k: int)
    requires
        0 <= k < s.len(),
        !is_word(s[k]),
    ensures
        word_len(s) <= k,
    decreases s.len(),
{
    if k > 0 && is_word(s[0]) {
        lemma_word_stops(s.drop_first(), k - 1);
    }
}

/// Nothing else counts: every reference of a script stands in it, called as a member or as a whole
/// string, and has the exported prefix.
pub proof fn law_every_reference_is_a_call(t: Seq<char>, from: nat, i: int) -> (start: int)
    requires
        from <= t.len(),
        0 <= i < names_from(t, from).len(),
    ensures
        from <= start < t.len(),
        occurs_at(t, "temen_"@, start),
        names_from(t, from)[i] == t.subrange(start, start + word_len(t.skip(start))),
        is_reference(t, start, start + word_len(t.skip(start))),
    decreases t.len() - from,
{
    let first = found_at(t, "temen_"@, from);
    lemma_found_at(t, "temen_"@, from);
    lemma_word_len(t.skip(first as int));
    let end = first + word_len(t.skip(first as int));
    if is_reference(t, first as int, end as int) {
        if i == 0 {
            first as int
        } else {
            law_every_reference_is_a_call(t, end, i - 1)
        }
    } else {
        law_every_reference_is_a_call(t, end, i)
    }
}

/// A script is recorded under every name that it refers to, and under no other; what other scripts
/// refer to stays.
pub proof fn law_script_is_recorded_under_its_names(
    refs: TextMapView<Seq<Seq<char>>>,
    names: Seq<Seq<char>>,
    file: Seq<char>,
    name: Seq<char>,
    other: Seq<char>,
)
    requires
        refs_wf(refs),
    ensures
        ({
            let after = add_references(refs, names, file);
            &&& after.has(name) <==> refs.has(name) || names.contains(name)
            &&& names.contains(name) ==> after.at(name).contains(file)
            &&& !names.contains(name) && refs.has(name) ==> after.at(name) == refs.at(name)
            &&& refs.has(name) && refs.at(name).contains(other) ==> after.at(name).contains(other)
        }),
    decreases names.len(),
{
    if names.len() > 0 {
        let less = names.drop_last();
        let k = names.last();
        law_script_is_recorded_under_its_names(refs, less, file, name, other);
        law_reference_lists_ascend(refs, less, file);
        let m = add_references(refs, less, file);
        assert(names.contains(name) <==> less.contains(name) || name == k) by {
            if less.contains(name) {
                let j = choose|j: int| 0 <= j < less.len() && less[j] == name;
                assert(names[j] == name);
            }
            if name == k {
                assert(names[less.len() as int] == name);
            }
            if names.contains(name) && name != k {
                let j = choose|j: int| 0 <= j < names.len() && names[j] == name;
                assert(less[j] == name);
            }
        }
        lemma_add_reference_wf(m, k, file);
        let files = if m.has(k) {
            m.at(k)
        } else {
            Seq::empty()
        };
        assert(ascending(files));
        law_file_list_is_an_ordered_set(files, file);
        if name == k {
            assert((seq!['x'] + k).len() != k.len());
            law_put_changes_one_key(m, k, with_file(files, file), seq!['x'] + k);
        } else {
            law_put_changes_one_key(m, k, with_file(files, file), name);
        }
    }
}

/// A name belongs to the family between its prefix and the next underscore, whatever follows; one
/// without a further underscore is its family's own, and one without the prefix belongs to none.
pub proof fn law_family_is_the_first_part(fam: Seq<char>, rest: Seq<char>, name: Seq<char>)
    requires
        forall|j: int| 0 <= j < fam.len() ==> fam[j] != '_',
    ensures
        spec_family("temen_"@ + (fam + seq!['_'] + rest)) == fam,
        spec_family("temen_"@ + fam) == fam,
        !starts_with(name, "temen_"@) ==> spec_family(name) == "(corpus runners)"@,
{
    let a = fam + seq!['_'] + rest;
    lemma_prefix_off("temen_"@, a);
    lemma_prefix_off("temen_"@, fam);
    crate::text::lemma_first_at_is(a, '_', fam.len() as int);
    crate::text::lemma_first_at_is(fam, '_', fam.len() as int);
    assert(a.take(fam.len() as int) =~= fam);
    assert(fam.take(fam.len() as int) =~= fam);
}

/// A file's extension is what follows the last dot of its name, in whatever directory it lies; a name
/// that only starts with a dot has none.
pub proof fn law_extension_follows_the_last_dot(dir: Seq<char>, stem: Seq<char>, ext: Seq<char>)
    requires
        forall|j: int| 0 <= j < stem.len() ==> stem[j] != '/',
        forall|j: int| 0 <= j < ext.len() ==> ext[j] != '/' && ext[j] != '.',
    ensures
        stem.len() > 0 ==> extension(dir + seq!['/'] + (stem + seq!['.'] + ext)) == Some(ext),
        stem.len() == 0 ==> extension(dir + seq!['/'] + (stem + seq!['.'] + ext)) is None,
        extension(dir + seq!['/'] + ext) is None,
{
    let name = stem + seq!['.'] + ext;
    let path = dir + seq!['/'] + name;
    let n = dir.len() as int;
    crate::text::lemma_last_at(path, '/');
    assert(path[n] == '/');
    assert forall|j: int| n < j < path.len() implies path[j] != '/' by {
        assert(path[j] == name[j - n - 1]);
    }
    assert(last_at(path, '/') == Some(n as nat));
    assert(path.skip(n + 1) =~= name);
    crate::text::lemma_last_at(name, '.');
    let k = stem.len() as int;
    assert(name[k] == '.');
    assert forall|j: int| k < j < name.len() implies name[j] != '.' by {
        assert(name[j] == ext[j - k - 1]);
    }
    assert(last_at(name, '.') == Some(k as nat));
    assert(name.skip(k + 1) =~= ext);
    let bare = dir + seq!['/'] + ext;
    crate::text::lemma_last_at(bare, '/');
    assert(bare[n] == '/');
    assert forall|j: int| n < j < bare.len() implies bare[j] != '/' by {
        assert(bare[j] == ext[j - n - 1]);
    }
    assert(last_at(bare, '/') == Some(n as nat));
    assert(bare.skip(n + 1) =~= ext);
    crate::text::lemma_last_at(ext, '.');
}

/// Vendored and built files never count as scripts, and any other file counts by its extension.
pub proof fn law_scripts_are_the_pages_own(path: Seq<char>)
    ensures
        contains(path, "/node_modules/"@) || contains(path, "/target/"@) || contains(
            path,
            "/web/assets/"@,
        ) ==> !spec_is_script(path),
        spec_is_script(path) ==> extension(path) == Some("js"@) || extension(path) == Some("mjs"@)
            || extension(path) == Some("html"@),
        !contains(path, "/node_modules/"@) && !contains(path, "/target/"@) && !contains(
            path,
            "/web/assets/"@,
        ) && (extension(path) == Some("js"@) || extension(path) == Some("mjs"@) || extension(path)
            == Some("html"@)) ==> spec_is_script(path),
{
}

/// The items of a family list each of its exports.
proof fn lemma_item_in_family(
    items: Seq<(Seq<char>, Option<Seq<char>>)>,
    refs: TextMapView<Seq<Seq<char>>>,
    i: int,
)
    requires
        0 <= i < items.len(),
    ensures
        contains(md_items(items, refs, spec_family(items[i].0)), md_item(items[i], refs)),
    decreases items.len(),
{
    let less = items.drop_last();
    let f = spec_family(items[i].0);
    if i < less.len() {
        lemma_item_in_family(less, refs, i);
        let tail = if spec_family(items.last().0) == f {
            md_item(items.last(), refs)
        } else {
            Seq::empty()
        };
        let none = Seq::<char>::empty();
        assert(none + md_items(less, refs, f) + tail =~= md_items(items, refs, f));
        lemma_contains_within(none, md_items(less, refs, f), tail, md_item(items[i], refs));
    } else {
        lemma_contains_back(md_items(less, refs, f), md_item(items.last(), refs));
    }
}

/// The lists hold the list of each family.
proof fn lemma_family_in_lists(
    items: Seq<(Seq<char>, Option<Seq<char>>)>,
    refs: TextMapView<Seq<Seq<char>>>,
    fams: Seq<Seq<char>>,
    n: nat,
    k: int,
)
    requires
        0 <= k < n <= fams.len(),
    ensures
        contains(md_lists(items, refs, fams, n), md_items(items, refs, fams[k])),
        contains(md_rows(items, refs, fams, n), md_row(items, refs, fams[k])),
    decreases n,
{
    let lists = md_lists(items, refs, fams, (n - 1) as nat);
    let rows = md_rows(items, refs, fams, (n - 1) as nat);
    let none = Seq::<char>::empty();
    let head = "### `"@ + fams[n - 1] + "`\n\n"@;
    let mine = md_items(items, refs, fams[n - 1]);
    if k < n - 1 {
        lemma_family_in_lists(items, refs, fams, (n - 1) as nat, k);
        let tail = head + mine + "\n"@;
        assert(none + lists + tail =~= md_lists(items, refs, fams, n));
        lemma_contains_within(none, lists, tail, md_items(items, refs, fams[k]));
        let row = md_row(items, refs, fams[n - 1]);
        assert(none + rows + row =~= md_rows(items, refs, fams, n));
        lemma_contains_within(none, rows, row, md_row(items, refs, fams[k]));
    } else {
        assert((lists + head) + mine + "\n"@ =~= md_lists(items, refs, fams, n));
        lemma_middle(lists + head, mine, "\n"@);
        lemma_contains_back(rows, md_row(items, refs, fams[n - 1]));
    }
}

/// Every export is in the table: listed by its name, with its `cfg` if it has one, marked exactly if
/// no script refers to it, and its family has a row with its counts.
pub proof fn law_every_export_is_in_the_table(
    es: TextMapView<(Seq<char>, Option<Seq<char>>)>,
    refs: TextMapView<Seq<Seq<char>>>,
    i: int,
)
    requires
        0 <= i < es.vals.len(),
    ensures
        ({
            let text = spec_render_markdown(es, refs);
            let name = es.vals[i].0;
            let f = spec_family(name);
            let note = match es.vals[i].1 {
                Some(cfg) => " — `"@ + cfg + "`"@,
                None => Seq::empty(),
            };
            let line = "- `"@ + name + "`"@ + note;
            &&& refs.has(name) ==> contains(text, line + "\n"@)
            &&& !refs.has(name) ==> contains(text, line + " — *unreferenced*"@ + "\n"@)
            &&& contains(
                text,
                "| `"@ + f + "` | "@ + dec(
                    count(es.vals, |e: (Seq<char>, Option<Seq<char>>)| spec_family(e.0) == f),
                ) + " | "@ + dec(
                    count(
                        es.vals,
                        |e: (Seq<char>, Option<Seq<char>>)|
                            spec_family(e.0) == f && refs.has(e.0),
                    ),
                ) + " | "@ + dec(
                    count(
                        es.vals,
                        |e: (Seq<char>, Option<Seq<char>>)| spec_family(e.0) == f && e.1 is Some,
                    ),
                ) + " |\n"@,
            )
        }),
{
    let text = spec_render_markdown(es, refs);
    let name = es.vals[i].0;
    let f = spec_family(name);
    let fams = families(es.vals).keys;
    lemma_families(es.vals);
    assert(families(es.vals).has(f));
    let k = choose|k: int| 0 <= k < fams.len() && fams[k] == f;
    lemma_item_in_family(es.vals, refs, i);
    lemma_family_in_lists(es.vals, refs, fams, fams.len(), k);
    let lists = md_lists(es.vals, refs, fams, fams.len());
    let rows = md_rows(es.vals, refs, fams, fams.len());
    let front = MD_HEAD@ + md_totals(es, refs) + MD_TABLE@;
    assert(text =~= front + rows + (MD_LISTS@ + lists));
    lemma_contains_within(front, rows, MD_LISTS@ + lists, md_row(es.vals, refs, f));
    lemma_contains_back(front + rows + MD_LISTS@, lists);
    assert(text =~= front + rows + MD_LISTS@ + lists);
    lemma_contains_transitive(lists, md_items(es.vals, refs, f), md_item(es.vals[i], refs));
    lemma_contains_transitive(text, lists, md_item(es.vals[i], refs));
    let note = match es.vals[i].1 {
        Some(cfg) => " — `"@ + cfg + "`"@,
        None => Seq::empty(),
    };
    let line = "- `"@ + name + "`"@ + note;
    if refs.has(name) {
        assert(md_item(es.vals[i], refs) =~= line + "\n"@);
    }
}

/// A script without slashes is read whole, from its first character on.
pub proof fn law_script_without_comments_is_kept(b: Seq<char>)
    requires
        forall|j: int| 0 <= j < b.len() ==> #[trigger] b[j] != '/',
    ensures
        spec_strip_comments(b) == b,
{
    law_slashless_script_is_kept(b, 0);
    assert(b.skip(0) =~= b);
}

/// A name is called as a member, or named by a whole string in quotes of one kind; standing anywhere
/// else it is no reference.
pub proof fn law_call_is_a_member_or_a_whole_string(t: Seq<char>, start: int, end: int)
    requires
        0 < start <= end < t.len(),
    ensures
        t[start - 1] == '.' ==> is_reference(t, start, end),
        t[start - 1] == '"' && t[end] == '"' ==> is_reference(t, start, end),
        t[start - 1] == '\'' && t[end] == '\'' ==> is_reference(t, start, end),
        t[start - 1] == '`' && t[end] == '`' ==> is_reference(t, start, end),
        t[start - 1] != '.' && t[end] != t[start - 1] ==> !is_reference(t, start, end),
        t[start - 1] != '.' && t[start - 1] != '"' && t[start - 1] != '\'' && t[start - 1] != '`'
            ==> !is_reference(t, start, end),
{
}

/// A text is read line by line: a line ends at its newline, a carriage return before that is not part
/// of it, and what follows the last newline is a line of its own.
pub proof fn law_text_is_read_line_by_line(line: Seq<char>, rest: Seq<char>)
    requires
        forall|j: int| 0 <= j < line.len() ==> line[j] != '\n',
    ensures
        line.len() > 0 ==> lines(line) == seq![line],
        line.len() == 0 || line.last() != '\r' ==> lines(line + seq!['\n'] + rest) == seq![line]
            + lines(rest),
        lines(line + seq!['\r', '\n'] + rest) == seq![line] + lines(rest),
        lines(Seq::empty()).len() == 0,
{
    crate::text::lemma_first_at_is(line, '\n', line.len() as int);
    let a = line + seq!['\n'] + rest;
    let n = line.len() as int;
    assert forall|j: int| 0 <= j < n implies a[j] != '\n' by {
        assert(a[j] == line[j]);
    }
    assert(a[n] == '\n');
    crate::text::lemma_first_at_is(a, '\n', n);
    assert(a.take(n) =~= line);
    assert(a.skip(n + 1) =~= rest);
    let b = line + seq!['\r', '\n'] + rest;
    assert forall|j: int| 0 <= j < n + 1 implies b[j] != '\n' by {
        if j < n {
            assert(b[j] == line[j]);
        }
    }
    assert(b[n + 1] == '\n');
    crate::text::lemma_first_at_is(b, '\n', n + 1);
    assert(b.take(n + 1) =~= line.push('\r'));
    assert(b.take(n + 1).drop_last() =~= line);
    assert(b.skip(n + 2) =~= rest);
}

/// An event getter is exported under the name that it is declared with, whatever stands above it.
pub proof fn law_event_getter_is_exported(s: ScanState, name: Seq<char>, rest: Seq<char>)
    requires
        forall|j: int| 0 <= j < name.len() ==> is_word(#[trigger] name[j]),
        rest.len() > 0 ==> !is_word(rest[0]),
    ensures
        scan_line(s, "par_ev_getter!("@ + (name + rest)).table == s.table.put(name, (name, None)),
        scan_line(s, "par_ev_getter!("@ + (name + rest)).attrs.len() == 0,
{
    let line = "par_ev_getter!("@ + (name + rest);
    lemma_prefix_off("par_ev_getter!("@, name + rest);
    lemma_word_front(name, rest);
    reveal_strlit("par_ev_getter!(");
    reveal_strlit("pub ");
    reveal_strlit("#[");
    reveal_strlit("///");
    assert(line[0] == 'p');
    assert(line[1] == 'a');
    assert(spec_trim_start(line) == line);
    if starts_with(line, "#["@) {
        assert(line.subrange(0, 2)[0] == line[0]);
    }
    if starts_with(line, "///"@) {
        assert(line.subrange(0, 3)[0] == line[0]);
    }
    if starts_with(line, "pub "@) {
        assert(line.subrange(0, 4)[1] == line[1]);
    }
}

/// The table's first line counts what there is: the exports, their families, those that some script
/// refers to and those that none does, and those under a `cfg`.
pub proof fn law_totals_count_everything(
    es: TextMapView<(Seq<char>, Option<Seq<char>>)>,
    refs: TextMapView<Seq<Seq<char>>>,
)
    ensures
        ({
            let text = spec_render_markdown(es, refs);
            let called = count(es.keys, |k: Seq<char>| refs.has(k));
            &&& called <= es.keys.len()
            &&& contains(
                text,
                "**"@ + dec(es.keys.len()) + " exports** in "@ + dec(families(es.vals).keys.len())
                    + " families — "@ + dec(called) + " referenced from JS, "@ + dec(
                    (es.keys.len() - called) as nat,
                ) + " referenced by nothing, "@ + dec(
                    count(es.vals, |e: (Seq<char>, Option<Seq<char>>)| e.1 is Some),
                ) + " behind a `cfg`.\n\n"@,
            )
        }),
{
    let text = spec_render_markdown(es, refs);
    let fams = families(es.vals).keys;
    lemma_count_bound(es.keys, is_called(refs));
    let rest = MD_TABLE@ + md_rows(es.vals, refs, fams, fams.len()) + MD_LISTS@ + md_lists(
        es.vals,
        refs,
        fams,
        fams.len(),
    );
    assert(text =~= MD_HEAD@ + md_totals(es, refs) + rest);
    lemma_middle(MD_HEAD@, md_totals(es, refs), rest);
}

/// A source file is told by its extension, wherever it lies and whatever it is called.
pub proof fn law_source_is_told_by_its_extension(dir: Seq<char>, stem: Seq<char>, ext: Seq<char>)
    requires
        stem.len() > 0,
        forall|j: int| 0 <= j < stem.len() ==> stem[j] != '/',
        forall|j: int| 0 <= j < ext.len() ==> ext[j] != '/' && ext[j] != '.',
    ensures
        spec_is_source(dir + seq!['/'] + (stem + seq!['.'] + ext)) <==> ext == "rs"@,
{
    law_extension_follows_the_last_dot(dir, stem, ext);
}

} // verus!
