//! The files that a module imports, read from its dependency listing.

use vstd::prelude::*;
use vstd::slice::slice_subrange;

use crate::text::{
    chars_of, contains, has_part, is_white, join, matches_at, occurs_at, same_text, skip_white,
    spec_is_white, spec_join, spec_trim_start, starts_with, text_of, texts,
};

verus! {

/// The first place from `at` on where `part` occurs in `whole`.
pub open spec fn part_from(whole: Seq<char>, part: Seq<char>, at: nat) -> Option<nat>
    decreases whole.len() + 1 - at,
{
    if at + part.len() > whole.len() {
        None
    } else if occurs_at(whole, part, at as int) {
        Some(at)
    } else {
        part_from(whole, part, at + 1)
    }
}

/// The first place from `at` on where `part` occurs in `whole`.
fn find_part(whole: &[char], part: &[char]) -> (r: Option<usize>)
    ensures
        r is Some <==> part_from(whole@, part@, 0) is Some,
        r matches Some(i) ==> part_from(whole@, part@, 0) == Some(i as nat) && occurs_at(
            whole@,
            part@,
            i as int,
        ),
{
    let mut at: usize = 0;
    while at <= whole.len() && part.len() <= whole.len() - at
        invariant
            at <= whole.len() + 1,
            part_from(whole@, part@, 0) == part_from(whole@, part@, at as nat),
        decreases whole.len() + 1 - at,
    {
        if matches_at(whole, part, at) {
            return Some(at);
        }
        if at == whole.len() {
            assert(part_from(whole@, part@, at as nat + 1) is None);
            return None;
        }
        at = at + 1;
    }
    None
}

/// Where the bracket closes that is `depth` deep at `at`.
pub open spec fn close_from(s: Seq<char>, at: nat, depth: int) -> Option<nat>
    decreases s.len() - at,
{
    if at >= s.len() {
        None
    } else if s[at as int] == '(' {
        close_from(s, at + 1, depth + 1)
    } else if s[at as int] == ')' {
        if depth == 1 {
            Some(at)
        } else {
            close_from(s, at + 1, depth - 1)
        }
    } else {
        close_from(s, at + 1, depth)
    }
}

/// The first form of `s` whose head starts with `head`: from its opening bracket to behind the one
/// that closes it.
pub open spec fn form_of(s: Seq<char>, head: Seq<char>) -> Option<(nat, nat)> {
    match part_from(s, seq!['('] + head, 0) {
        None => None,
        Some(start) => match close_from(s, start, 0) {
            None => None,
            Some(end) => Some((start, end + 1)),
        },
    }
}

/// A bracket closes at or after the place from which it is sought.
proof fn lemma_close_from(s: Seq<char>, at: nat, depth: int)
    ensures
        close_from(s, at, depth) matches Some(i) ==> at <= i < s.len(),
    decreases s.len() - at,
{
    if at < s.len() {
        lemma_close_from(s, at + 1, depth + 1);
        lemma_close_from(s, at + 1, depth - 1);
        lemma_close_from(s, at + 1, depth);
    }
}

/// A form lies in its text and has a bracket.
pub proof fn lemma_form_of(s: Seq<char>, head: Seq<char>)
    ensures
        form_of(s, head) matches Some((a, b)) ==> a < b <= s.len(),
{
    if let Some(start) = part_from(s, seq!['('] + head, 0) {
        lemma_close_from(s, start, 0);
    }
}

/// The first form of `s` whose head starts with `head`.
fn find_form(s: &[char], head: &str) -> (r: Option<(usize, usize)>)
    ensures
        r is Some <==> form_of(s@, head@) is Some,
        r matches Some((a, b)) ==> form_of(s@, head@) == Some((a as nat, b as nat)) && a < b
            <= s@.len(),
{
    let mut open: Vec<char> = Vec::new();
    open.push('(');
    let mut name: Vec<char> = chars_of(head);
    open.append(&mut name);
    assert(open@ =~= seq!['('] + head@);
    let start: usize = match find_part(s, open.as_slice()) {
        None => {
            return None;
        },
        Some(i) => i,
    };
    proof {
        assert(s@.subrange(start as int, start + open@.len())[0] == open@[0]);
    }
    let mut at: usize = start;
    let mut depth: usize = 0;
    while at < s.len()
        invariant
            start <= at <= s.len(),
            start < s@.len(),
            s@[start as int] == '(',
            depth <= at - start,
            at > start ==> depth >= 1,
            open@ == seq!['('] + head@,
            part_from(s@, open@, 0) == Some(start as nat),
            close_from(s@, start as nat, 0) == close_from(s@, at as nat, depth as int),
        decreases s.len() - at,
    {
        if s[at] == '(' {
            depth = depth + 1;
        } else if s[at] == ')' {
            if depth == 1 {
                return Some((start, at + 1));
            }
            depth = depth - 1;
        }
        at = at + 1;
    }
    None
}

/// The text of the first form of `s` whose head starts with `head`.
pub fn balanced(s: &str, head: &str) -> (r: Option<String>)
    ensures
        r is Some <==> form_of(s@, head@) is Some,
        r matches Some(t) ==> t@ == s@.subrange(
            (form_of(s@, head@)->0).0 as int,
            (form_of(s@, head@)->0).1 as int,
        ),
{
    let c: Vec<char> = chars_of(s);
    match find_form(c.as_slice(), head) {
        None => None,
        Some((a, b)) => Some(text_of(slice_subrange(c.as_slice(), a, b))),
    }
}

/// How many characters come before the first white space.
pub open spec fn word_len(s: Seq<char>) -> nat
    decreases s.len(),
{
    if s.len() == 0 || spec_is_white(s[0]) {
        0
    } else {
        1 + word_len(s.drop_first())
    }
}

/// A word is a part of its text.
pub proof fn lemma_word_len(s: Seq<char>)
    ensures
        word_len(s) <= s.len(),
    decreases s.len(),
{
    if s.len() > 0 && !spec_is_white(s[0]) {
        lemma_word_len(s.drop_first());
    }
}

/// Dropping white space does not make a text longer, and no white space is left in front.
pub proof fn lemma_trim_start(s: Seq<char>)
    ensures
        spec_trim_start(s).len() <= s.len(),
        spec_trim_start(s).len() > 0 ==> !spec_is_white(spec_trim_start(s)[0]),
    decreases s.len(),
{
    if s.len() > 0 && spec_is_white(s[0]) {
        lemma_trim_start(s.drop_first());
    }
}

/// The words of a text: what stands between white space.
pub open spec fn words(s: Seq<char>) -> Seq<Seq<char>>
    decreases s.len(),
{
    proof {
        lemma_trim_start(s);
        lemma_word_len(spec_trim_start(s));
    }
    let t = spec_trim_start(s);
    if t.len() == 0 {
        Seq::empty()
    } else {
        seq![t.take(word_len(t) as int)] + words(t.skip(word_len(t) as int))
    }
}

/// The words that are good.
pub open spec fn kept(
    items: Seq<Seq<char>>,
    good: spec_fn(Seq<char>) -> bool,
) -> Seq<Seq<char>>
    decreases items.len(),
{
    if items.len() == 0 {
        Seq::empty()
    } else if good(items.last()) {
        kept(items.drop_last(), good).push(items.last())
    } else {
        kept(items.drop_last(), good)
    }
}

/// `s` without the copies of `part` that it starts with.
pub open spec fn strip_front(s: Seq<char>, part: Seq<char>) -> Seq<char>
    decreases s.len(),
{
    if part.len() > 0 && starts_with(s, part) {
        strip_front(s.skip(part.len() as int), part)
    } else {
        s
    }
}

/// `s` without the copies of `c` that it ends with.
pub open spec fn strip_back(s: Seq<char>, c: char) -> Seq<char>
    decreases s.len(),
{
    if s.len() > 0 && s.last() == c {
        strip_back(s.drop_last(), c)
    } else {
        s
    }
}

/// A word of a library path: neither the path operator nor a nested form.
pub open spec fn library_word() -> spec_fn(Seq<char>) -> bool {
    |t: Seq<char>| t != "/"@ && !(t.len() > 0 && t[0] == '(')
}

/// A word of a relative path: no dot escape, not the path operator and no escaped operator.
pub open spec fn sibling_word() -> spec_fn(Seq<char>) -> bool {
    |t: Seq<char>| !contains(t, "2E"@) && t != "/"@ && !(t.len() > 0 && t[0] == '\\')
}

/// The words inside a form with the head `head`.
pub open spec fn inner_words(form: Seq<char>, head: Seq<char>) -> Seq<Seq<char>> {
    words(strip_back(strip_front(form, seq!['('] + head), ')'))
}

/// The path of a source file under `dir`.
pub open spec fn source_path(dir: Seq<char>, parts: Seq<Seq<char>>) -> Option<Seq<char>> {
    if parts.len() == 0 {
        None
    } else {
        Some(dir + "/"@ + spec_join(parts, "/"@) + ".nim"@)
    }
}

/// The file that an import form names: a library file for an infix path, a file beside the
/// importer for a prefix path; nothing for a form that depends on the platform.
pub open spec fn import_of(form: Seq<char>, dir: Seq<char>) -> Option<Seq<char>> {
    if contains(form, "(when"@) {
        None
    } else {
        match form_of(form, "infix"@) {
            Some((a, b)) => source_path(
                "/lib"@,
                kept(inner_words(form.subrange(a as int, b as int), "infix"@), library_word()),
            ),
            None => match form_of(form, "prefix"@) {
                Some((a, b)) => source_path(
                    dir,
                    kept(inner_words(form.subrange(a as int, b as int), "prefix"@), sibling_word()),
                ),
                None => None,
            },
        }
    }
}

/// The files that the forms of `s` whose heads start with `head` name, in order.
pub open spec fn imports_under(s: Seq<char>, head: Seq<char>, dir: Seq<char>) -> Seq<Seq<char>>
    decreases s.len(),
{
    proof {
        lemma_form_of(s, head);
    }
    match form_of(s, head) {
        None => Seq::empty(),
        Some((a, b)) => (match import_of(s.subrange(a as int, b as int), dir) {
            None => Seq::empty(),
            Some(path) => seq![path],
        }) + imports_under(s.skip(b as int), head, dir),
    }
}

/// The files that a module in `dir` imports.
pub open spec fn spec_parse_imports(deps: Seq<char>, dir: Seq<char>) -> Seq<Seq<char>> {
    imports_under(deps, "import"@, dir) + imports_under(deps, "fromimport"@, dir)
}

/// The words of a text.
fn words_of(s: &[char]) -> (r: Vec<String>)
    ensures
        texts(r@) == words(s@),
{
    let mut out: Vec<String> = Vec::new();
    let mut at: usize = 0;
    assert(s@.skip(0) =~= s@);
    assert(texts(out@) + words(s@) =~= words(s@));
    loop
        invariant
            at <= s.len(),
            texts(out@) + words(s@.skip(at as int)) == words(s@),
        decreases s.len() - at,
    {
        let from: usize = skip_white(s, at);
        if from == s.len() {
            assert(spec_trim_start(s@.skip(at as int)).len() == 0);
            assert(texts(out@) + words(s@.skip(at as int)) =~= texts(out@));
            return out;
        }
        let ghost t = s@.skip(from as int);
        let mut to: usize = from;
        assert(t.skip(0) =~= t);
        while to < s.len() && !is_white(s[to])
            invariant
                from <= to <= s.len(),
                t == s@.skip(from as int),
                word_len(t) == (to - from) + word_len(t.skip(to - from)),
            decreases s.len() - to,
        {
            assert(t.skip(to - from).drop_first() =~= t.skip(to + 1 - from));
            assert(t.skip(to - from)[0] == s@[to as int]);
            to = to + 1;
        }
        proof {
            if to < s.len() {
                assert(t.skip(to - from)[0] == s@[to as int]);
            }
            assert(word_len(t) == to - from);
            assert(t[0] == s@[from as int]);
            assert(to > from);
        }
        let ghost before = out@;
        out.push(text_of(slice_subrange(s, from, to)));
        proof {
            assert(s@.subrange(from as int, to as int) =~= t.take(to - from));
            assert(t.skip(to - from) =~= s@.skip(to as int));
            assert(texts(out@) =~= texts(before).push(t.take(to - from)));
            let more = words(s@.skip(to as int));
            assert(texts(before) + (seq![t.take(to - from)] + more) =~= texts(out@) + more);
        }
        at = to;
    }
}

/// Keeps the words of a library path, or those of a relative path.
fn keep_words(items: &[String], library: bool) -> (r: Vec<String>)
    ensures
        texts(r@) == kept(
            texts(items@),
            if library {
                library_word()
            } else {
                sibling_word()
            },
        ),
{
    let mut out: Vec<String> = Vec::new();
    let ghost good = if library {
        library_word()
    } else {
        sibling_word()
    };
    let mut i: usize = 0;
    assert(texts(out@) =~= kept(texts(items@).take(0), good));
    while i < items.len()
        invariant
            i <= items.len(),
            good == (if library {
                library_word()
            } else {
                sibling_word()
            }),
            texts(out@) == kept(texts(items@).take(i as int), good),
        decreases items.len() - i,
    {
        let word: &str = items[i].as_str();
        proof {
            let now = texts(items@).take(i as int + 1);
            assert(now.drop_last() =~= texts(items@).take(i as int));
            assert(now.last() == word@);
        }
        let c: Vec<char> = chars_of(word);
        let fine: bool = if library {
            !same_text(word, "/") && !(c.len() > 0 && c[0] == '(')
        } else {
            !has_part(word, "2E") && !same_text(word, "/") && !(c.len() > 0 && c[0] == '\\')
        };
        assert(fine == good(word@));
        if fine {
            let ghost before = out@;
            out.push(items[i].clone());
            assert(texts(out@) =~= texts(before).push(word@));
        }
        i = i + 1;
    }
    assert(texts(items@).take(items@.len() as int) =~= texts(items@));
    out
}

/// The words inside a form.
fn inner_words_of(form: &[char], head: &str) -> (r: Vec<String>)
    ensures
        texts(r@) == inner_words(form@, head@),
{
    let mut open: Vec<char> = Vec::new();
    open.push('(');
    let mut name: Vec<char> = chars_of(head);
    open.append(&mut name);
    assert(open@ =~= seq!['('] + head@);
    let n: usize = open.len();
    let mut from: usize = 0;
    assert(form@.skip(0) =~= form@);
    while matches_at(slice_subrange(form, from, form.len()), open.as_slice(), 0)
        invariant
            from <= form.len(),
            n == open@.len(),
            n > 0,
            strip_front(form@, open@) == strip_front(form@.skip(from as int), open@),
        decreases form.len() - from,
    {
        assert(form@.subrange(from as int, form@.len() as int) =~= form@.skip(from as int));
        assert(form@.skip(from as int).skip(n as int) =~= form@.skip(from + n));
        from = from + n;
    }
    let mut to: usize = form.len();
    assert(form@.subrange(from as int, to as int) =~= form@.skip(from as int));
    while to > from && form[to - 1] == ')'
        invariant
            from <= to <= form.len(),
            strip_back(strip_front(form@, open@), ')') == strip_back(
                form@.subrange(from as int, to as int),
                ')',
            ),
        decreases to - from,
    {
        assert(form@.subrange(from as int, to as int).drop_last() =~= form@.subrange(
            from as int,
            to - 1,
        ));
        to = to - 1;
    }
    words_of(slice_subrange(form, from, to))
}

/// The path of a source file under `dir`.
fn source_path_of(dir: &str, parts: &[String]) -> (r: Option<String>)
    ensures
        r is Some <==> source_path(dir@, texts(parts@)) is Some,
        r matches Some(p) ==> source_path(dir@, texts(parts@)) == Some(p@),
{
    if parts.len() == 0 {
        return None;
    }
    let mut s: String = dir.to_owned();
    s.append("/");
    let inner: String = join(parts, "/");
    s.append(inner.as_str());
    s.append(".nim");
    Some(s)
}

/// The file that an import form names.
fn import_file(form: &[char], dir: &str) -> (r: Option<String>)
    ensures
        r is Some <==> import_of(form@, dir@) is Some,
        r matches Some(p) ==> import_of(form@, dir@) == Some(p@),
{
    let text: String = text_of(form);
    if has_part(text.as_str(), "(when") {
        return None;
    }
    match find_form(form, "infix") {
        Some((a, b)) => {
            let all: Vec<String> = inner_words_of(slice_subrange(form, a, b), "infix");
            let good: Vec<String> = keep_words(all.as_slice(), true);
            source_path_of("/lib", good.as_slice())
        },
        None => match find_form(form, "prefix") {
            Some((a, b)) => {
                let all: Vec<String> = inner_words_of(slice_subrange(form, a, b), "prefix");
                let good: Vec<String> = keep_words(all.as_slice(), false);
                source_path_of(dir, good.as_slice())
            },
            None => None,
        },
    }
}

/// Appends the files that the forms with this head name.
fn push_imports(out: &mut Vec<String>, s: &[char], head: &str, dir: &str)
    ensures
        texts(final(out)@) == texts(old(out)@) + imports_under(s@, head@, dir@),
{
    let ghost start = texts(out@);
    let mut at: usize = 0;
    assert(s@.skip(0) =~= s@);
    loop
        invariant
            at <= s.len(),
            start == texts(old(out)@),
            texts(out@) + imports_under(s@.skip(at as int), head@, dir@) == start + imports_under(
                s@,
                head@,
                dir@,
            ),
        decreases s.len() - at,
    {
        let rest: &[char] = slice_subrange(s, at, s.len());
        assert(rest@ =~= s@.skip(at as int));
        match find_form(rest, head) {
            None => {
                assert(texts(out@) + imports_under(rest@, head@, dir@) =~= texts(out@));
                return;
            },
            Some((a, b)) => {
                let ghost more = imports_under(rest@.skip(b as int), head@, dir@);
                let ghost before = out@;
                assert(rest@.skip(b as int) =~= s@.skip(at + b));
                match import_file(slice_subrange(rest, a, b), dir) {
                    None => {
                        assert(Seq::<Seq<char>>::empty() + more =~= more);
                    },
                    Some(path) => {
                        let ghost p = path@;
                        out.push(path);
                        assert(texts(out@) =~= texts(before).push(p));
                        assert(texts(before) + (seq![p] + more) =~= texts(out@) + more);
                    },
                }
                at = at + b;
            },
        }
    }
}

/// The files that a module in `importer_dir` imports, as absolute paths; imports that depend on the
/// platform are left out.
pub fn parse_imports(deps_nif: &str, importer_dir: &str) -> (r: Vec<String>)
    ensures
        texts(r@) == spec_parse_imports(deps_nif@, importer_dir@),
{
    let s: Vec<char> = chars_of(deps_nif);
    let mut out: Vec<String> = Vec::new();
    assert(texts(out@) =~= Seq::empty());
    push_imports(&mut out, s.as_slice(), "import", importer_dir);
    push_imports(&mut out, s.as_slice(), "fromimport", importer_dir);
    assert(texts(out@) =~= spec_parse_imports(deps_nif@, importer_dir@));
    out
}

/// How many brackets are open at the end of `s`.
pub open spec fn depth_of(s: Seq<char>) -> int
    decreases s.len(),
{
    if s.len() == 0 {
        0
    } else {
        depth_of(s.drop_last()) + (if s.last() == '(' {
            1int
        } else if s.last() == ')' {
            -1int
        } else {
            0int
        })
    }
}

/// Between the place from which a bracket is sought and the one that closes it, it stays open.
proof fn lemma_close_depth(s: Seq<char>, start: nat, at: nat, j: int)
    requires
        start <= at,
        at <= s.len(),
        at > start ==> depth_of(s.subrange(start as int, at as int)) >= 1,
        at == start ==> at < s.len() && s[at as int] == '(',
        close_from(s, at, depth_of(s.subrange(start as int, at as int))) is Some,
        at < j <= close_from(s, at, depth_of(s.subrange(start as int, at as int)))->0,
    ensures
        depth_of(s.subrange(start as int, j)) >= 1,
    decreases s.len() - at,
{
    let d = depth_of(s.subrange(start as int, at as int));
    lemma_close_from(s, at, d);
    let now = s.subrange(start as int, at as int + 1);
    assert(now.drop_last() =~= s.subrange(start as int, at as int));
    if at == start {
        assert(s.subrange(start as int, at as int) =~= Seq::empty());
    }
    if j > at + 1 {
        lemma_close_depth(s, start, at + 1, j);
    }
}

/// At the bracket that closes, none is open.
proof fn lemma_close_end(s: Seq<char>, start: nat, at: nat)
    requires
        start <= at <= s.len(),
        close_from(s, at, depth_of(s.subrange(start as int, at as int))) is Some,
    ensures
        ({
            let i = close_from(s, at, depth_of(s.subrange(start as int, at as int)))->0;
            depth_of(s.subrange(start as int, i as int + 1)) == 0 && s[i as int] == ')'
        }),
    decreases s.len() - at,
{
    let d = depth_of(s.subrange(start as int, at as int));
    let now = s.subrange(start as int, at as int + 1);
    assert(now.drop_last() =~= s.subrange(start as int, at as int));
    if s[at as int] == ')' && d == 1 {
    } else {
        lemma_close_end(s, start, at + 1);
    }
}

/// What is found is one whole form: it opens with a bracket, closes with one, has as many closing as
/// opening ones, and does not close before its end.
pub proof fn law_form_is_balanced(s: Seq<char>, head: Seq<char>, j: int)
    requires
        form_of(s, head) is Some,
        forall|i: int| 0 <= i < head.len() ==> #[trigger] head[i] != ')',
    ensures
        ({
            let (a, b) = form_of(s, head)->0;
            let form = s.subrange(a as int, b as int);
            &&& starts_with(form, seq!['('] + head)
            &&& form[0] == '('
            &&& form.last() == ')'
            &&& depth_of(form) == 0
            &&& 0 < j < form.len() ==> depth_of(form.take(j)) >= 1
        }),
{
    let (a, b) = form_of(s, head)->0;
    let form = s.subrange(a as int, b as int);
    let open = seq!['('] + head;
    lemma_form_of(s, head);
    lemma_part_from(s, open, 0);
    assert(s.subrange(a as int, (a + open.len()) as int)[0] == open[0]);
    assert(s.subrange(a as int, a as int) =~= Seq::empty());
    lemma_close_end(s, a, a);
    if 0 < j < form.len() {
        lemma_close_depth(s, a, a, a + j);
        assert(form.take(j) =~= s.subrange(a as int, a + j));
    }
    if b - 1 < a + open.len() {
        let k = b - 1 - a;
        assert(s.subrange(a as int, (a + open.len()) as int)[k] == s[b - 1]);
        assert(k > 0 ==> open[k] == head[k - 1]);
    }
    assert(form.subrange(0, open.len() as int) =~= s.subrange(a as int, (a + open.len()) as int));
}

/// A part is found where it occurs.
proof fn lemma_part_from(whole: Seq<char>, part: Seq<char>, at: nat)
    ensures
        part_from(whole, part, at) matches Some(i) ==> at <= i && occurs_at(whole, part, i as int),
    decreases whole.len() + 1 - at,
{
    if at + part.len() <= whole.len() && !occurs_at(whole, part, at as int) {
        lemma_part_from(whole, part, at + 1);
    }
}

/// `path` is a source file under `dir`.
pub open spec fn source_under(path: Seq<char>, dir: Seq<char>) -> bool {
    &&& starts_with(path, dir + "/"@)
    &&& occurs_at(path, ".nim"@, path.len() - ".nim"@.len())
}

/// A path that is built is a source file under its directory.
proof fn lemma_source_path(dir: Seq<char>, parts: Seq<Seq<char>>)
    ensures
        source_path(dir, parts) matches Some(p) ==> source_under(p, dir),
{
    if let Some(p) = source_path(dir, parts) {
        let head = dir + "/"@;
        let dot = ".nim"@;
        assert(p.subrange(0, head.len() as int) =~= head);
        assert(p.subrange(p.len() - dot.len(), p.len() as int) =~= dot);
    }
}

/// The imports under one head are source files of the library or beside the importer.
proof fn lemma_imports_under(s: Seq<char>, head: Seq<char>, dir: Seq<char>, i: int)
    requires
        0 <= i < imports_under(s, head, dir).len(),
    ensures
        source_under(imports_under(s, head, dir)[i], "/lib"@) || source_under(
            imports_under(s, head, dir)[i],
            dir,
        ),
    decreases s.len(),
{
    lemma_form_of(s, head);
    let (a, b) = form_of(s, head)->0;
    let form = s.subrange(a as int, b as int);
    let rest = s.skip(b as int);
    if let Some((c, d)) = form_of(form, "infix"@) {
        lemma_source_path(
            "/lib"@,
            kept(inner_words(form.subrange(c as int, d as int), "infix"@), library_word()),
        );
    }
    if let Some((c, d)) = form_of(form, "prefix"@) {
        lemma_source_path(
            dir,
            kept(inner_words(form.subrange(c as int, d as int), "prefix"@), sibling_word()),
        );
    }
    match import_of(form, dir) {
        None => {
            assert(imports_under(s, head, dir) =~= imports_under(rest, head, dir));
            lemma_imports_under(rest, head, dir, i);
        },
        Some(p) => {
            assert(imports_under(s, head, dir) =~= seq![p] + imports_under(rest, head, dir));
            if i > 0 {
                lemma_imports_under(rest, head, dir, i - 1);
            }
        },
    }
}

/// Every import is a source file of the library or one beside the importer.
pub proof fn law_imports_are_source_files(deps: Seq<char>, dir: Seq<char>, i: int)
    requires
        0 <= i < spec_parse_imports(deps, dir).len(),
    ensures
        source_under(spec_parse_imports(deps, dir)[i], "/lib"@) || source_under(
            spec_parse_imports(deps, dir)[i],
            dir,
        ),
{
    let n = imports_under(deps, "import"@, dir).len();
    if i < n {
        lemma_imports_under(deps, "import"@, dir, i);
    } else {
        lemma_imports_under(deps, "fromimport"@, dir, i - n);
    }
}

/// A form that depends on the platform imports nothing, whatever else it holds.
pub proof fn law_platform_imports_are_skipped(form: Seq<char>, dir: Seq<char>, at: int)
    requires
        occurs_at(form, "(when"@, at),
    ensures
        import_of(form, dir) is None,
{
    assert(contains(form, "(when"@));
}

/// What is found is the first: no form with the head opens before it, and none opens at all where
/// nothing is found.
pub proof fn law_first_form_is_found(whole: Seq<char>, part: Seq<char>, at: nat, j: int)
    requires
        at <= j,
        occurs_at(whole, part, j),
    ensures
        part_from(whole, part, at) matches Some(i) && at <= i <= j && occurs_at(
            whole,
            part,
            i as int,
        ),
    decreases j - at,
{
    if !occurs_at(whole, part, at as int) {
        law_first_form_is_found(whole, part, at + 1, j);
    }
}

/// A bracket that closes in the front of a text closes there whatever follows.
proof fn lemma_close_front(s: Seq<char>, rest: Seq<char>, at: nat, depth: int)
    requires
        close_from(s, at, depth) is Some,
    ensures
        close_from(s + rest, at, depth) == close_from(s, at, depth),
    decreases s.len() - at,
{
    assert((s + rest)[at as int] == s[at as int]);
    if s[at as int] == '(' {
        lemma_close_front(s, rest, at + 1, depth + 1);
    } else if s[at as int] == ')' {
        if depth != 1 {
            lemma_close_front(s, rest, at + 1, depth - 1);
        }
    } else {
        lemma_close_front(s, rest, at + 1, depth);
    }
}

/// The imports of a listing are those of its forms, one after the other: a form in front adds its own
/// file, or nothing, to what follows.
pub proof fn law_forms_import_in_order(
    form: Seq<char>,
    rest: Seq<char>,
    head: Seq<char>,
    dir: Seq<char>,
)
    requires
        form_of(form, head) == Some((0nat, form.len())),
    ensures
        import_of(form, dir) is None ==> imports_under(form + rest, head, dir) == imports_under(
            rest,
            head,
            dir,
        ),
        import_of(form, dir) matches Some(p) ==> imports_under(form + rest, head, dir) == seq![p]
            + imports_under(rest, head, dir),
{
    let open = seq!['('] + head;
    let all = form + rest;
    lemma_part_from(form, open, 0);
    lemma_close_front(form, rest, 0, 0);
    assert(occurs_at(all, open, 0)) by {
        assert(all.subrange(0, open.len() as int) =~= form.subrange(0, open.len() as int));
    }
    assert(form_of(all, head) == Some((0nat, form.len())));
    assert(all.subrange(0, form.len() as int) =~= form);
    assert(form.subrange(0, form.len() as int) =~= form);
    assert(all.skip(form.len() as int) =~= rest);
    let tail = imports_under(rest, head, dir);
    assert(Seq::<Seq<char>>::empty() + tail =~= tail);
}

/// A listing without a form of the head imports nothing under it, and a module's imports are those
/// under both heads, plain ones first.
pub proof fn law_both_heads_import(deps: Seq<char>, dir: Seq<char>)
    ensures
        form_of(deps, "import"@) is None ==> spec_parse_imports(deps, dir) == imports_under(
            deps,
            "fromimport"@,
            dir,
        ),
        form_of(deps, "fromimport"@) is None ==> spec_parse_imports(deps, dir) == imports_under(
            deps,
            "import"@,
            dir,
        ),
        spec_parse_imports(deps, dir).take(imports_under(deps, "import"@, dir).len() as int)
            == imports_under(deps, "import"@, dir),
        spec_parse_imports(deps, dir).skip(imports_under(deps, "import"@, dir).len() as int)
            == imports_under(deps, "fromimport"@, dir),
{
    let a = imports_under(deps, "import"@, dir);
    let b = imports_under(deps, "fromimport"@, dir);
    assert((a + b).take(a.len() as int) =~= a);
    assert((a + b).skip(a.len() as int) =~= b);
    if form_of(deps, "import"@) is None {
        assert(a + b =~= b);
    }
    if form_of(deps, "fromimport"@) is None {
        assert(a + b =~= a);
    }
}

/// A library import lies under the library, wherever the importer is; a relative one lies beside the
/// importer and moves with it; a form with neither path imports nothing.
pub proof fn law_import_lies_where_its_form_says(
    form: Seq<char>,
    here: Seq<char>,
    there: Seq<char>,
)
    requires
        !contains(form, "(when"@),
    ensures
        form_of(form, "infix"@) is Some ==> import_of(form, here) == import_of(form, there) && (
        import_of(form, here) matches Some(p) ==> starts_with(p, "/lib"@ + "/"@)),
        form_of(form, "infix"@) is None && form_of(form, "prefix"@) is Some ==> (import_of(
            form,
            here,
        ) is Some <==> import_of(form, there) is Some) && (import_of(form, here) matches Some(p)
            ==> starts_with(p, here + "/"@) && import_of(form, there) == Some(
            there + p.skip(here.len() as int),
        )),
        form_of(form, "infix"@) is None && form_of(form, "prefix"@) is None ==> import_of(form, here)
            is None,
{
    match form_of(form, "infix"@) {
        Some((a, b)) => {
            lemma_source_path(
                "/lib"@,
                kept(inner_words(form.subrange(a as int, b as int), "infix"@), library_word()),
            );
        },
        None => {
            if let Some((a, b)) = form_of(form, "prefix"@) {
                let parts = kept(
                    inner_words(form.subrange(a as int, b as int), "prefix"@),
                    sibling_word(),
                );
                lemma_source_path(here, parts);
                if parts.len() > 0 {
                    let p = source_path(here, parts)->0;
                    assert(p.skip(here.len() as int) =~= "/"@ + spec_join(parts, "/"@) + ".nim"@);
                    assert(there + p.skip(here.len() as int) =~= source_path(there, parts)->0);
                }
            }
        },
    }
}

/// An import's path has its words as segments, in order: one more word is one more segment before
/// the ending, and a path of no words is none.
pub proof fn law_path_has_its_words_as_segments(
    dir: Seq<char>,
    parts: Seq<Seq<char>>,
    word: Seq<char>,
    stem: Seq<char>,
)
    ensures
        source_path(dir, Seq::empty()) is None,
        source_path(dir, seq![word]) == Some(dir + "/"@ + word + ".nim"@),
        parts.len() > 0 && source_path(dir, parts) == Some(stem + ".nim"@) ==> source_path(
            dir,
            parts.push(word),
        ) == Some(stem + "/"@ + word + ".nim"@),
{
    assert(source_path(dir, seq![word])->0 =~= dir + "/"@ + word + ".nim"@);
    if parts.len() > 0 && source_path(dir, parts) == Some(stem + ".nim"@) {
        let more = parts.push(word);
        assert(more.drop_last() =~= parts);
        let whole = dir + "/"@ + spec_join(parts, "/"@) + ".nim"@;
        assert(stem.len() == whole.len() - ".nim"@.len());
        assert(stem =~= whole.take(stem.len() as int)) by {
            assert((stem + ".nim"@).take(stem.len() as int) =~= stem);
        }
        assert(whole.take(stem.len() as int) =~= dir + "/"@ + spec_join(parts, "/"@));
        assert(source_path(dir, more)->0 =~= stem + "/"@ + word + ".nim"@);
    }
}

/// Filtering looks at one word at a time and keeps their order.
pub proof fn law_words_are_kept_one_by_one(
    a: Seq<Seq<char>>,
    b: Seq<Seq<char>>,
    good: spec_fn(Seq<char>) -> bool,
)
    ensures
        kept(a + b, good) == kept(a, good) + kept(b, good),
    decreases b.len(),
{
    if b.len() == 0 {
        assert(a + b =~= a);
        assert(kept(a, good) + kept(b, good) =~= kept(a, good));
    } else {
        law_words_are_kept_one_by_one(a, b.drop_last(), good);
        assert((a + b).drop_last() =~= a + b.drop_last());
        assert(kept(a + b, good) =~= kept(a, good) + kept(b, good));
    }
}

/// A library path drops the path operator and nested forms; a relative one drops dot escapes, the
/// operator and escaped operators; every other word is a segment.
pub proof fn law_operators_are_no_segments(word: Seq<char>)
    requires
        word.len() > 0,
    ensures
        word == "/"@ || word[0] == '(' ==> kept(seq![word], library_word()).len() == 0,
        word != "/"@ && word[0] != '(' ==> kept(seq![word], library_word()) == seq![word],
        word == "/"@ || word[0] == '\\' || contains(word, "2E"@) ==> kept(
            seq![word],
            sibling_word(),
        ).len() == 0,
        word != "/"@ && word[0] != '\\' && !contains(word, "2E"@) ==> kept(
            seq![word],
            sibling_word(),
        ) == seq![word],
{
    reveal_with_fuel(kept, 2);
    assert(seq![word].drop_last() =~= Seq::empty());
    assert(kept(Seq::empty(), library_word()) =~= Seq::empty());
    assert(Seq::<Seq<char>>::empty().push(word) =~= seq![word]);
}

/// Words are told apart by white space alone: one in front is the first, whatever follows its white
/// space, and white space in front changes nothing.
pub proof fn law_words_stand_between_white_space(word: Seq<char>, rest: Seq<char>, white: char)
    requires
        word.len() > 0,
        forall|j: int| 0 <= j < word.len() ==> !spec_is_white(#[trigger] word[j]),
        spec_is_white(white),
    ensures
        words(word) == seq![word],
        words(word + seq![white] + rest) == seq![word] + words(rest),
        words(seq![white] + rest) == words(rest),
{
    lemma_word_in_front(word, Seq::empty());
    assert(word + Seq::<char>::empty() =~= word);
    assert(words(word) =~= seq![word]) by {
        assert(word.skip(word.len() as int) =~= Seq::empty());
        assert(words(Seq::empty()) =~= Seq::empty());
        assert(word.take(word.len() as int) =~= word);
    }
    let tail = seq![white] + rest;
    assert(tail.drop_first() =~= rest);
    let all = word + seq![white] + rest;
    assert(all =~= word + tail);
    lemma_word_in_front(word, tail);
    assert(all.take(word.len() as int) =~= word);
    assert(all.skip(word.len() as int) =~= tail);
    assert(spec_trim_start(tail) == spec_trim_start(rest));
    assert(words(tail) == words(rest));
    assert(all[0] == word[0]);
}

/// A word ends where white space or the text's end follows it.
proof fn lemma_word_in_front(word: Seq<char>, tail: Seq<char>)
    requires
        forall|j: int| 0 <= j < word.len() ==> !spec_is_white(#[trigger] word[j]),
        tail.len() > 0 ==> spec_is_white(tail[0]),
    ensures
        word_len(word + tail) == word.len(),
    decreases word.len(),
{
    let all = word + tail;
    if word.len() == 0 {
        assert(all =~= tail);
    } else {
        assert(all[0] == word[0]);
        let less = word.drop_first();
        assert(all.drop_first() =~= less + tail);
        assert forall|j: int| 0 <= j < less.len() implies !spec_is_white(#[trigger] less[j]) by {
            assert(less[j] == word[j + 1]);
        }
        lemma_word_in_front(less, tail);
    }
}

/// The words of a form are those between its head and its closing bracket.
pub proof fn law_form_holds_its_words(head: Seq<char>, body: Seq<char>)
    requires
        body.len() > 0,
        body.last() != ')',
        body[0] != '(',
    ensures
        inner_words(seq!['('] + head + body + seq![')'], head) == words(body),
{
    let open = seq!['('] + head;
    let form = open + body + seq![')'];
    assert(form.subrange(0, open.len() as int) =~= open);
    assert(form.skip(open.len() as int) =~= body + seq![')']);
    let inner = body + seq![')'];
    assert(!starts_with(inner, open)) by {
        if starts_with(inner, open) {
            assert(inner.subrange(0, open.len() as int)[0] == open[0]);
            assert(inner[0] == body[0]);
        }
    }
    reveal_with_fuel(strip_front, 2);
    assert(strip_front(form, open) == inner);
    assert(inner.drop_last() =~= body);
    reveal_with_fuel(strip_back, 2);
    assert(strip_back(inner, ')') == body);
}

} // verus!
