//! Text as sequences of characters.

use vstd::prelude::*;
use vstd::slice::{slice_subrange, slice_to_vec};
use vstd::utf8::{decode_utf8, encode_utf8, encode_utf8_decode_utf8, valid_utf8};

verus! {

/// Appends one character: `String::push`, which appends `c` to the end of the string.
#[verifier::external_body]
pub(crate) fn push_char(s: &mut String, c: char)
    ensures
        final(s)@ == old(s)@.push(c),
{
    s.push(c);
}

/// The text that bytes stand for when every ill-formed part reads as U+FFFD.
pub uninterp spec fn lossy_text(bytes: Seq<u8>) -> Seq<char>;

/// Reads bytes as text: `String::from_utf8_lossy`, which replaces ill-formed UTF-8 by U+FFFD and
/// keeps well-formed UTF-8 as it is.
#[verifier::external_body]
pub(crate) fn from_utf8_lossy(bytes: &[u8]) -> (r: String)
    ensures
        r@ == lossy_text(bytes@),
        valid_utf8(bytes@) ==> r@ == decode_utf8(bytes@),
{
    String::from_utf8_lossy(bytes).into_owned()
}

/// The text that bytes are read as: what they encode, or, where they are ill-formed, the text with
/// U+FFFD in it.
pub open spec fn text_from(bytes: Seq<u8>) -> Seq<char> {
    if valid_utf8(bytes) {
        decode_utf8(bytes)
    } else {
        lossy_text(bytes)
    }
}

/// Reads bytes as text: `core::str::from_utf8`, which succeeds exactly on well-formed UTF-8 and
/// then gives the text that the bytes encode.
#[verifier::external_body]
pub(crate) fn from_utf8(bytes: &[u8]) -> (r: Option<String>)
    ensures
        r is Some <==> valid_utf8(bytes@),
        r matches Some(s) ==> s@ == decode_utf8(bytes@),
{
    match core::str::from_utf8(bytes) {
        Ok(s) => Some(s.to_string()),
        Err(_) => None,
    }
}

/// The characters of `s`.
pub fn chars_of(s: &str) -> (r: Vec<char>)
    ensures
        r@ == s@,
{
    let mut out: Vec<char> = Vec::new();
    for c in it: s.chars()
        invariant
            out@ == s@.take(it.index() as int),
            it.seq() == s@,
    {
        out.push(c);
        assert(out@ =~= s@.take(it.index() as int + 1));
    }
    assert(s@.take(s@.len() as int) =~= s@);
    out
}

/// The text with these characters.
pub fn text_of(chars: &[char]) -> (r: String)
    ensures
        r@ == chars@,
{
    let mut out: String = String::new();
    let mut i: usize = 0;
    while i < chars.len()
        invariant
            i <= chars.len(),
            out@ == chars@.take(i as int),
        decreases chars.len() - i,
    {
        push_char(&mut out, chars[i]);
        assert(out@ =~= chars@.take(i as int + 1));
        i = i + 1;
    }
    assert(out@ =~= chars@);
    out
}

/// Whether two texts are the same.
pub fn same_text(a: &str, b: &str) -> (r: bool)
    ensures
        r == (a@ == b@),
{
    let x: &[u8] = a.as_bytes();
    let y: &[u8] = b.as_bytes();
    proof {
        encode_utf8_decode_utf8(a@);
        encode_utf8_decode_utf8(b@);
    }
    if x.len() != y.len() {
        return false;
    }
    let mut i: usize = 0;
    while i < x.len()
        invariant
            i <= x.len(),
            x@.len() == y@.len(),
            x@ == encode_utf8(a@),
            y@ == encode_utf8(b@),
            forall|j: int| 0 <= j < i ==> x@[j] == y@[j],
        decreases x.len() - i,
    {
        if x[i] != y[i] {
            return false;
        }
        i = i + 1;
    }
    assert(x@ =~= y@);
    true
}

/// `part` occurs in `whole` at `at`.
pub open spec fn occurs_at<T>(whole: Seq<T>, part: Seq<T>, at: int) -> bool {
    0 <= at && at + part.len() <= whole.len() && whole.subrange(at, at + part.len()) == part
}

/// `whole` starts with `part`.
pub open spec fn starts_with<T>(whole: Seq<T>, part: Seq<T>) -> bool {
    occurs_at(whole, part, 0)
}

/// `part` occurs in `whole`.
pub open spec fn contains<T>(whole: Seq<T>, part: Seq<T>) -> bool {
    exists|at: int| occurs_at(whole, part, at)
}

/// Whether `part` occurs in `whole` at `at`.
pub fn matches_at(whole: &[char], part: &[char], at: usize) -> (r: bool)
    ensures
        r == occurs_at(whole@, part@, at as int),
{
    if at > whole.len() || part.len() > whole.len() - at {
        return false;
    }
    let mut i: usize = 0;
    while i < part.len()
        invariant
            i <= part.len(),
            at + part@.len() <= whole.len(),
            forall|j: int| 0 <= j < i ==> #[trigger] part@[j] == whole@[at + j],
        decreases part.len() - i,
    {
        if whole[at + i] != part[i] {
            assert(whole@.subrange(at as int, at + part@.len())[i as int] == whole@[at + i]);
            return false;
        }
        i = i + 1;
    }
    assert(whole@.subrange(at as int, at + part@.len()) =~= part@);
    true
}

/// Whether `text` starts with `prefix`.
pub fn has_prefix(text: &str, prefix: &str) -> (r: bool)
    ensures
        r == starts_with(text@, prefix@),
{
    let whole: Vec<char> = chars_of(text);
    let part: Vec<char> = chars_of(prefix);
    matches_at(whole.as_slice(), part.as_slice(), 0)
}

/// Whether `part` occurs in `text`.
pub fn has_part(text: &str, part: &str) -> (r: bool)
    ensures
        r == contains(text@, part@),
{
    let w: Vec<char> = chars_of(text);
    let p: Vec<char> = chars_of(part);
    let mut at: usize = 0;
    while at <= w.len()
        invariant
            at <= w.len() + 1,
            w@ == text@,
            p@ == part@,
            forall|k: int| 0 <= k < at ==> !occurs_at(text@, part@, k),
        decreases w.len() + 1 - at,
    {
        if matches_at(w.as_slice(), p.as_slice(), at) {
            return true;
        }
        if at == w.len() {
            assert forall|k: int| !occurs_at(text@, part@, k) by {}
            return false;
        }
        at = at + 1;
    }
    false
}

/// The texts of `parts`.
pub open spec fn texts(parts: Seq<String>) -> Seq<Seq<char>> {
    parts.map_values(|s: String| s@)
}

/// The parts with `sep` between neighbours.
pub open spec fn spec_join(parts: Seq<Seq<char>>, sep: Seq<char>) -> Seq<char>
    decreases parts.len(),
{
    if parts.len() == 0 {
        Seq::empty()
    } else if parts.len() == 1 {
        parts[0]
    } else {
        spec_join(parts.drop_last(), sep) + sep + parts.last()
    }
}

/// The parts with `sep` between neighbours.
pub fn join(parts: &[String], sep: &str) -> (r: String)
    ensures
        r@ == spec_join(texts(parts@), sep@),
{
    let mut out: String = String::new();
    let mut i: usize = 0;
    while i < parts.len()
        invariant
            i <= parts.len(),
            out@ == spec_join(texts(parts@.take(i as int)), sep@),
        decreases parts.len() - i,
    {
        proof {
            let now = texts(parts@.take(i as int + 1));
            assert(now.drop_last() =~= texts(parts@.take(i as int)));
            assert(now.last() == parts@[i as int]@);
        }
        if i > 0 {
            out.append(sep);
        }
        out.append(parts[i].as_str());
        assert(out@ =~= spec_join(texts(parts@.take(i as int + 1)), sep@));
        i = i + 1;
    }
    assert(parts@.take(parts@.len() as int) =~= parts@);
    out
}

/// `text` is one of `items`.
pub open spec fn listed(items: Seq<String>, text: Seq<char>) -> bool {
    exists|i: int| 0 <= i < items.len() && (#[trigger] items[i])@ == text
}

/// `i` is the first place where `text` stands in `items`.
pub open spec fn first_place(items: Seq<String>, text: Seq<char>, i: int) -> bool {
    &&& 0 <= i < items.len()
    &&& items[i]@ == text
    &&& forall|j: int| 0 <= j < i ==> (#[trigger] items[j])@ != text
}

/// The first place where `text` stands in `items`.
pub fn position_of(items: &[String], text: &str) -> (r: Option<usize>)
    ensures
        r is Some <==> listed(items@, text@),
        r matches Some(i) ==> first_place(items@, text@, i as int),
{
    let mut i: usize = 0;
    while i < items.len()
        invariant
            i <= items.len(),
            forall|j: int| 0 <= j < i ==> (#[trigger] items@[j])@ != text@,
        decreases items.len() - i,
    {
        if same_text(items[i].as_str(), text) {
            assert(first_place(items@, text@, i as int));
            return Some(i);
        }
        i = i + 1;
    }
    None
}

/// The first place of `c` in `s`, or the length of `s`.
pub open spec fn first_at(s: Seq<char>, c: char) -> nat
    decreases s.len(),
{
    if s.len() == 0 || s[0] == c {
        0
    } else {
        1 + first_at(s.drop_first(), c)
    }
}

/// `first_at` is the place that its name says.
pub proof fn lemma_first_at(s: Seq<char>, c: char)
    ensures
        first_at(s, c) <= s.len(),
        first_at(s, c) < s.len() ==> s[first_at(s, c) as int] == c,
        forall|j: int| 0 <= j < first_at(s, c) ==> s[j] != c,
    decreases s.len(),
{
    if s.len() > 0 && s[0] != c {
        let t = s.drop_first();
        lemma_first_at(t, c);
        assert forall|j: int| 0 <= j < first_at(s, c) implies s[j] != c by {
            if j > 0 {
                assert(s[j] == t[j - 1]);
            }
        }
    }
}

/// Only one place is the first one.
pub proof fn lemma_first_at_is(s: Seq<char>, c: char, i: int)
    requires
        0 <= i <= s.len(),
        forall|j: int| 0 <= j < i ==> s[j] != c,
        i < s.len() ==> s[i] == c,
    ensures
        first_at(s, c) == i,
{
    lemma_first_at(s, c);
    if first_at(s, c) < i {
        assert(s[first_at(s, c) as int] == c);
    }
}

/// The first place of `c` in `s`, or the length of `s`.
pub fn find_char(s: &[char], c: char) -> (r: usize)
    ensures
        r == first_at(s@, c),
        r <= s@.len(),
{
    let mut i: usize = 0;
    while i < s.len() && s[i] != c
        invariant
            i <= s.len(),
            forall|j: int| 0 <= j < i ==> s@[j] != c,
        decreases s.len() - i,
    {
        i = i + 1;
    }
    proof {
        lemma_first_at_is(s@, c, i as int);
    }
    i
}

/// The parts of `s` between the occurrences of `sep`; one part more than there are occurrences.
pub open spec fn spec_split(s: Seq<char>, sep: char) -> Seq<Seq<char>>
    decreases s.len(),
{
    let i = first_at(s, sep);
    if i >= s.len() {
        seq![s]
    } else {
        seq![s.take(i as int)] + spec_split(s.skip(i as int + 1), sep)
    }
}

/// The characters of a part.
pub open spec fn char_rows(parts: Seq<Vec<char>>) -> Seq<Seq<char>> {
    parts.map_values(|p: Vec<char>| p@)
}

/// The parts of `s` between the occurrences of `sep`.
pub fn split_chars(s: &[char], sep: char) -> (r: Vec<Vec<char>>)
    ensures
        char_rows(r@) == spec_split(s@, sep),
        r@.len() >= 1,
{
    let mut out: Vec<Vec<char>> = Vec::new();
    let mut at: usize = 0;
    assert(s@.skip(0) =~= s@);
    assert(char_rows(out@) + spec_split(s@, sep) =~= spec_split(s@, sep));
    loop
        invariant
            at <= s.len(),
            spec_split(s@, sep) == char_rows(out@) + spec_split(s@.skip(at as int), sep),
        decreases s.len() - at,
    {
        let rest: &[char] = slice_subrange(s, at, s.len());
        assert(rest@ =~= s@.skip(at as int));
        let i: usize = find_char(rest, sep);
        let part: Vec<char> = slice_to_vec(slice_subrange(rest, 0, i));
        let ghost before = out@;
        let ghost x = part@;
        out.push(part);
        assert(char_rows(out@) =~= char_rows(before).push(x));
        if i == rest.len() {
            assert(x =~= rest@);
            assert(char_rows(before) + seq![x] =~= char_rows(out@));
            return out;
        }
        assert(x =~= rest@.take(i as int));
        assert(rest@.skip(i + 1) =~= s@.skip(at + i + 1));
        proof {
            let more = spec_split(s@.skip(at + i + 1), sep);
            assert(char_rows(before) + (seq![x] + more) =~= char_rows(out@) + more);
        }
        at = at + i + 1;
    }
}

/// `c` has the Unicode property `White_Space`.
pub open spec fn spec_is_white(c: char) -> bool {
    let u = c as u32;
    ||| 0x9 <= u <= 0xd
    ||| u == 0x20
    ||| u == 0x85
    ||| u == 0xa0
    ||| u == 0x1680
    ||| 0x2000 <= u <= 0x200a
    ||| u == 0x2028
    ||| u == 0x2029
    ||| u == 0x202f
    ||| u == 0x205f
    ||| u == 0x3000
}

/// Whether `c` is white space.
pub fn is_white(c: char) -> (r: bool)
    ensures
        r == spec_is_white(c),
{
    let u: u32 = c as u32;
    (u >= 0x9 && u <= 0xd) || u == 0x20 || u == 0x85 || u == 0xa0 || u == 0x1680 || (u >= 0x2000 && u
        <= 0x200a) || u == 0x2028 || u == 0x2029 || u == 0x202f || u == 0x205f || u == 0x3000
}

/// `s` without the white space that it starts with.
pub open spec fn spec_trim_start(s: Seq<char>) -> Seq<char>
    decreases s.len(),
{
    if s.len() > 0 && spec_is_white(s[0]) {
        spec_trim_start(s.drop_first())
    } else {
        s
    }
}

/// `s` without the white space that it ends with.
pub open spec fn spec_trim_end(s: Seq<char>) -> Seq<char>
    decreases s.len(),
{
    if s.len() > 0 && spec_is_white(s.last()) {
        spec_trim_end(s.drop_last())
    } else {
        s
    }
}

/// `s` without the white space around it.
pub open spec fn spec_trim(s: Seq<char>) -> Seq<char> {
    spec_trim_end(spec_trim_start(s))
}

/// `s` without the copies of `c` that it starts with.
pub open spec fn spec_strip_lead(s: Seq<char>, c: char) -> Seq<char>
    decreases s.len(),
{
    if s.len() > 0 && s[0] == c {
        spec_strip_lead(s.drop_first(), c)
    } else {
        s
    }
}

/// Skips white space from `from` on.
pub fn skip_white(s: &[char], from: usize) -> (r: usize)
    requires
        from <= s@.len(),
    ensures
        from <= r <= s@.len(),
        spec_trim_start(s@.skip(from as int)) == s@.skip(r as int),
        r < s@.len() ==> !spec_is_white(s@[r as int]),
{
    let mut i: usize = from;
    while i < s.len() && is_white(s[i])
        invariant
            from <= i <= s.len(),
            spec_trim_start(s@.skip(from as int)) == spec_trim_start(s@.skip(i as int)),
        decreases s.len() - i,
    {
        assert(s@.skip(i as int).drop_first() =~= s@.skip(i as int + 1));
        i = i + 1;
    }
    i
}

/// The white space around the characters is dropped.
pub fn trim_chars(s: &[char]) -> (r: &[char])
    ensures
        r@ == spec_trim(s@),
{
    let a: usize = skip_white(s, 0);
    assert(s@.skip(0) =~= s@);
    let mut b: usize = s.len();
    assert(s@.subrange(a as int, b as int) =~= s@.skip(a as int));
    while b > a && is_white(s[b - 1])
        invariant
            a <= b <= s.len(),
            spec_trim(s@) == spec_trim_end(s@.subrange(a as int, b as int)),
        decreases b - a,
    {
        assert(s@.subrange(a as int, b as int).drop_last() =~= s@.subrange(a as int, b - 1));
        b = b - 1;
    }
    slice_subrange(s, a, b)
}

/// The leading copies of `c` are dropped.
pub fn strip_lead(s: &[char], c: char) -> (r: &[char])
    ensures
        r@ == spec_strip_lead(s@, c),
{
    let mut i: usize = 0;
    assert(s@.skip(0) =~= s@);
    while i < s.len() && s[i] == c
        invariant
            i <= s.len(),
            spec_strip_lead(s@, c) == spec_strip_lead(s@.skip(i as int), c),
        decreases s.len() - i,
    {
        assert(s@.skip(i as int).drop_first() =~= s@.skip(i as int + 1));
        i = i + 1;
    }
    assert(s@.subrange(i as int, s@.len() as int) =~= s@.skip(i as int));
    slice_subrange(s, i, s.len())
}

/// The last place of `c` in `s`.
pub open spec fn last_at(s: Seq<char>, c: char) -> Option<nat>
    decreases s.len(),
{
    if s.len() == 0 {
        None
    } else if s.last() == c {
        Some((s.len() - 1) as nat)
    } else {
        last_at(s.drop_last(), c)
    }
}

/// `last_at` is the place that its name says.
pub proof fn lemma_last_at(s: Seq<char>, c: char)
    ensures
        last_at(s, c) matches Some(i) ==> i < s.len() && s[i as int] == c && forall|j: int|
            i < j < s.len() ==> s[j] != c,
        last_at(s, c) is None ==> forall|j: int| 0 <= j < s.len() ==> s[j] != c,
    decreases s.len(),
{
    if s.len() > 0 && s.last() != c {
        let less = s.drop_last();
        lemma_last_at(less, c);
        assert(forall|j: int| 0 <= j < less.len() ==> less[j] == s[j]);
        assert forall|j: int|
            (match last_at(s, c) {
                Some(i) => i as int,
                None => -1int,
            }) < j < s.len() implies s[j] != c by {
            if j < less.len() {
                assert(less[j] != c);
            }
        }
    }
}

/// The last place of `c` in `s`.
pub fn find_last(s: &[char], c: char) -> (r: Option<usize>)
    ensures
        r is Some <==> last_at(s@, c) is Some,
        r matches Some(i) ==> i < s@.len() && last_at(s@, c) == Some(i as nat),
{
    let mut n: usize = s.len();
    assert(s@.take(n as int) =~= s@);
    while n > 0
        invariant
            n <= s.len(),
            last_at(s@, c) == last_at(s@.take(n as int), c),
        decreases n,
    {
        assert(s@.take(n as int).drop_last() =~= s@.take(n - 1));
        if s[n - 1] == c {
            return Some(n - 1);
        }
        n = n - 1;
    }
    None
}

/// Copies of the texts.
pub fn owned(items: &[&str]) -> (r: Vec<String>)
    ensures
        texts(r@) == items@.map_values(|s: &str| s@),
{
    let mut out: Vec<String> = Vec::new();
    let mut i: usize = 0;
    while i < items.len()
        invariant
            i <= items.len(),
            out@.len() == i,
            forall|j: int| 0 <= j < i ==> (#[trigger] out@[j])@ == items@[j]@,
        decreases items.len() - i,
    {
        out.push(items[i].to_owned());
        i = i + 1;
    }
    assert(texts(out@) =~= items@.map_values(|s: &str| s@));
    out
}

/// Joining a first part and the others is joining the others behind it.
pub proof fn lemma_join_front(x: Seq<char>, ys: Seq<Seq<char>>, sep: Seq<char>)
    requires
        ys.len() > 0,
    ensures
        spec_join(seq![x] + ys, sep) == x + sep + spec_join(ys, sep),
    decreases ys.len(),
{
    let all = seq![x] + ys;
    if ys.len() == 1 {
        reveal_with_fuel(spec_join, 2);
        assert(all.drop_last() =~= seq![x]);
        assert(all.last() == ys[0]);
        assert(spec_join(all, sep) =~= x + sep + ys[0]);
    } else {
        lemma_join_front(x, ys.drop_last(), sep);
        assert(all.drop_last() =~= seq![x] + ys.drop_last());
        assert(all.last() == ys.last());
        assert(spec_join(all, sep) =~= x + sep + spec_join(ys, sep));
    }
}

/// Splitting loses nothing and leaves nothing to split: the parts joined are the text, and no part
/// holds the separator.
pub proof fn law_join_undoes_split(s: Seq<char>, sep: char)
    ensures
        spec_split(s, sep).len() > 0,
        spec_join(spec_split(s, sep), seq![sep]) == s,
        forall|i: int, j: int|
            0 <= i < spec_split(s, sep).len() && 0 <= j < spec_split(s, sep)[i].len()
                ==> #[trigger] spec_split(s, sep)[i][j] != sep,
    decreases s.len(),
{
    let i = first_at(s, sep) as int;
    lemma_first_at(s, sep);
    if i < s.len() {
        let rest = s.skip(i + 1);
        law_join_undoes_split(rest, sep);
        lemma_join_front(s.take(i), spec_split(rest, sep), seq![sep]);
        assert(s.take(i) + seq![sep] + rest =~= s);
        let all = spec_split(s, sep);
        assert forall|a: int, b: int| 0 <= a < all.len() && 0 <= b < all[a].len() implies #[trigger]
        all[a][b] != sep by {
            if a > 0 {
                assert(all[a] == spec_split(rest, sep)[a - 1]);
            }
        }
    }
}

/// Trimming takes white space off both ends and nothing else: what stays stands in the text between
/// white space alone, and neither starts nor ends with any.
pub proof fn law_trim_takes_white_space_alone(s: Seq<char>) -> (at: int)
    ensures
        0 <= at,
        at + spec_trim(s).len() <= s.len(),
        s.subrange(at, at + spec_trim(s).len()) == spec_trim(s),
        forall|j: int|
            0 <= j < s.len() && !(at <= j < at + spec_trim(s).len()) ==> spec_is_white(
                #[trigger] s[j],
            ),
        spec_trim(s).len() > 0 ==> !spec_is_white(spec_trim(s)[0]) && !spec_is_white(
            spec_trim(s).last(),
        ),
{
    let a = lemma_trim_start(s);
    let t = spec_trim_start(s);
    lemma_trim_end(t);
    let u = spec_trim_end(t);
    assert(s.subrange(a, a + u.len()) =~= u) by {
        assert(s.skip(a) == t);
        assert(t.take(u.len() as int) == u);
    }
    assert forall|j: int| 0 <= j < s.len() && !(a <= j < a + u.len()) implies spec_is_white(
        #[trigger] s[j],
    ) by {
        if j >= a {
            assert(t[j - a] == s.skip(a)[j - a]);
        }
    }
    if u.len() > 0 {
        assert(u[0] == t[0]);
    }
    a
}

/// What trimming the front takes is white space, and the rest starts with none.
pub proof fn lemma_trim_start(s: Seq<char>) -> (at: int)
    ensures
        0 <= at <= s.len(),
        s.skip(at) == spec_trim_start(s),
        forall|j: int| 0 <= j < at ==> spec_is_white(#[trigger] s[j]),
        spec_trim_start(s).len() > 0 ==> !spec_is_white(spec_trim_start(s)[0]),
    decreases s.len(),
{
    if s.len() > 0 && spec_is_white(s[0]) {
        let t = s.drop_first();
        let k = lemma_trim_start(t);
        assert(s.skip(k + 1) =~= t.skip(k));
        assert forall|j: int| 0 <= j < k + 1 implies spec_is_white(#[trigger] s[j]) by {
            if j > 0 {
                assert(t[j - 1] == s[j]);
            }
        }
        k + 1
    } else {
        assert(s.skip(0) =~= s);
        0
    }
}

/// What trimming the end takes is white space, and the rest ends with none.
pub proof fn lemma_trim_end(s: Seq<char>)
    ensures
        spec_trim_end(s).len() <= s.len(),
        s.take(spec_trim_end(s).len() as int) == spec_trim_end(s),
        forall|j: int| spec_trim_end(s).len() <= j < s.len() ==> spec_is_white(#[trigger] s[j]),
        spec_trim_end(s).len() > 0 ==> !spec_is_white(spec_trim_end(s).last()),
    decreases s.len(),
{
    if s.len() > 0 && spec_is_white(s.last()) {
        let t = s.drop_last();
        lemma_trim_end(t);
        let n = spec_trim_end(s).len() as int;
        assert(s.take(n) =~= t.take(n));
        assert forall|j: int| n <= j < s.len() implies spec_is_white(#[trigger] s[j]) by {
            if j < t.len() {
                assert(t[j] == s[j]);
            }
        }
    } else {
        assert(s.take(s.len() as int) =~= s);
    }
}

/// Joining undoes nothing that splitting needs: parts without the separator are split again as they
/// were.
pub proof fn law_split_undoes_join(parts: Seq<Seq<char>>, sep: char)
    requires
        parts.len() > 0,
        forall|i: int, j: int|
            0 <= i < parts.len() && 0 <= j < parts[i].len() ==> #[trigger] parts[i][j] != sep,
    ensures
        spec_split(spec_join(parts, seq![sep]), sep) == parts,
    decreases parts.len(),
{
    let x = parts[0];
    assert forall|j: int| 0 <= j < x.len() implies x[j] != sep by {
        assert(parts[0][j] != sep);
    }
    if parts.len() == 1 {
        lemma_first_at_is(x, sep, x.len() as int);
        assert(parts =~= seq![x]);
    } else {
        let ys = parts.drop_first();
        assert(parts =~= seq![x] + ys);
        lemma_join_front(x, ys, seq![sep]);
        let rest = spec_join(ys, seq![sep]);
        let s = x + seq![sep] + rest;
        assert(s[x.len() as int] == sep);
        lemma_first_at_is(s, sep, x.len() as int);
        assert(s.take(x.len() as int) =~= x);
        assert(s.skip(x.len() as int + 1) =~= rest);
        assert forall|i: int, j: int| 0 <= i < ys.len() && 0 <= j < ys[i].len() implies #[trigger]
        ys[i][j] != sep by {
            assert(parts[i + 1][j] != sep);
        }
        law_split_undoes_join(ys, sep);
    }
}

} // verus!
