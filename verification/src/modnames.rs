//! The cache stem of a module: what its compiled forms are called.

use vstd::prelude::*;
use vstd::slice::slice_subrange;
use vstd::utf8::encode_utf8;

use crate::text::{
    char_rows, chars_of, find_last, first_at, join, last_at, law_join_undoes_split,
    law_split_undoes_join, lemma_first_at, matches_at, occurs_at, push_char,
    spec_join, spec_split, split_chars, text_of, texts,
};

verus! {

/// The hash after one more byte.
pub open spec fn hash_step(h: u32, c: u8) -> u32 {
    let a = h.wrapping_add(c as u32);
    let b = a.wrapping_add(a << 10u32);
    b ^ (b >> 6u32)
}

/// The hash of bytes before it is finished.
pub open spec fn hash_mix(s: Seq<u8>) -> u32
    decreases s.len(),
{
    if s.len() == 0 {
        0
    } else {
        hash_step(hash_mix(s.drop_last()), s.last())
    }
}

/// The last scrambling of a hash.
pub open spec fn hash_finish(h: u32) -> u32 {
    let a = h.wrapping_add(h << 3u32);
    let b = a ^ (a >> 11u32);
    b.wrapping_add(b << 15u32)
}

/// The hash of a text's bytes.
pub fn uhash(s: &str) -> (r: u32)
    ensures
        r == hash_finish(hash_mix(encode_utf8(s@))),
{
    let bytes: &[u8] = s.as_bytes();
    let mut h: u32 = 0;
    let mut i: usize = 0;
    while i < bytes.len()
        invariant
            i <= bytes.len(),
            h == hash_mix(bytes@.take(i as int)),
        decreases bytes.len() - i,
    {
        proof {
            let now = bytes@.take(i as int + 1);
            assert(now.drop_last() =~= bytes@.take(i as int));
            assert(now.last() == bytes@[i as int]);
        }
        h = h.wrapping_add(bytes[i] as u32);
        h = h.wrapping_add(h << 10u32);
        h = h ^ (h >> 6u32);
        i = i + 1;
    }
    assert(bytes@.take(bytes@.len() as int) =~= bytes@);
    h = h.wrapping_add(h << 3u32);
    h = h ^ (h >> 11u32);
    h.wrapping_add(h << 15u32)
}

/// The digit `d` to the base 36.
pub open spec fn digit36(d: nat) -> char {
    if d < 10 {
        (48 + d) as char
    } else {
        (87 + d) as char
    }
}

/// `n` to the base 36, the lowest digit first; nothing for zero.
pub open spec fn spec_base36(n: nat) -> Seq<char>
    decreases n,
{
    if n == 0 {
        Seq::empty()
    } else {
        seq![digit36(n % 36)] + spec_base36(n / 36)
    }
}

/// `id` to the base 36, the lowest digit first.
pub fn base36(id: u32) -> (r: String)
    ensures
        r@ == spec_base36(id as nat),
{
    let mut out: String = String::new();
    let mut rest: u32 = id;
    assert(out@ + spec_base36(rest as nat) =~= spec_base36(id as nat));
    while rest > 0
        invariant
            out@ + spec_base36(rest as nat) == spec_base36(id as nat),
        decreases rest,
    {
        let d: u8 = (rest % 36) as u8;
        let ghost before = out@;
        let c: char = if d < 10 {
            (48 + d) as char
        } else {
            (87 + d) as char
        };
        push_char(&mut out, c);
        assert(out@ + spec_base36((rest / 36) as nat) =~= before + spec_base36(rest as nat));
        rest = rest / 36;
    }
    assert(out@ =~= spec_base36(id as nat));
    out
}

/// The value of a digit to the base 36.
pub open spec fn value36(c: char) -> nat {
    if c >= 'a' {
        (c as u32 - 87) as nat
    } else {
        (c as u32 - 48) as nat
    }
}

/// The number that digits to the base 36 stand for, the lowest first.
pub open spec fn number36(s: Seq<char>) -> nat
    decreases s.len(),
{
    if s.len() == 0 {
        0
    } else {
        value36(s[0]) + 36 * number36(s.drop_first())
    }
}

/// Different hashes are written differently: a number is read back from its digits.
pub proof fn law_base36_round_trip(n: nat)
    ensures
        number36(spec_base36(n)) == n,
    decreases n,
{
    if n > 0 {
        law_base36_round_trip(n / 36);
        assert(spec_base36(n).drop_first() =~= spec_base36(n / 36));
    }
}

/// The rows that are not empty.
pub open spec fn nonempty(rows: Seq<Seq<char>>) -> Seq<Seq<char>>
    decreases rows.len(),
{
    if rows.len() == 0 {
        Seq::empty()
    } else if rows.last().len() == 0 {
        nonempty(rows.drop_last())
    } else {
        nonempty(rows.drop_last()).push(rows.last())
    }
}

/// The names along a path.
pub open spec fn segments(path: Seq<char>) -> Seq<Seq<char>> {
    nonempty(spec_split(path, '/'))
}

/// How many names two paths have in common from the front on.
pub open spec fn common(p: Seq<Seq<char>>, b: Seq<Seq<char>>) -> nat
    decreases p.len(),
{
    if p.len() == 0 || b.len() == 0 || p[0] != b[0] {
        0
    } else {
        1 + common(p.drop_first(), b.drop_first())
    }
}

/// The way from `b` to `p`: up to what they have in common, then down.
pub open spec fn way(p: Seq<Seq<char>>, b: Seq<Seq<char>>) -> Seq<Seq<char>> {
    let i = common(p, b);
    Seq::new((b.len() - i) as nat, |k: int| ".."@) + p.skip(i as int)
}

/// `path` relative to `base`.
pub open spec fn spec_relative_path(path: Seq<char>, base: Seq<char>) -> Seq<char> {
    spec_join(way(segments(path), segments(base)), "/"@)
}

/// The names along a path.
fn segments_of(path: &str) -> (r: Vec<String>)
    ensures
        texts(r@) == segments(path@),
{
    let s: Vec<char> = chars_of(path);
    let all: Vec<Vec<char>> = split_chars(s.as_slice(), '/');
    let mut out: Vec<String> = Vec::new();
    let mut i: usize = 0;
    assert(texts(out@) =~= nonempty(char_rows(all@).take(0)));
    while i < all.len()
        invariant
            i <= all.len(),
            texts(out@) == nonempty(char_rows(all@).take(i as int)),
        decreases all.len() - i,
    {
        proof {
            let now = char_rows(all@).take(i as int + 1);
            assert(now.drop_last() =~= char_rows(all@).take(i as int));
            assert(now.last() == all@[i as int]@);
        }
        if all[i].len() > 0 {
            let ghost before = out@;
            out.push(text_of(all[i].as_slice()));
            assert(texts(out@) =~= texts(before).push(all@[i as int]@));
        }
        i = i + 1;
    }
    assert(char_rows(all@).take(all@.len() as int) =~= char_rows(all@));
    out
}

/// What two paths have in common is common to both.
proof fn lemma_common(p: Seq<Seq<char>>, b: Seq<Seq<char>>)
    ensures
        common(p, b) <= p.len(),
        common(p, b) <= b.len(),
        p.take(common(p, b) as int) == b.take(common(p, b) as int),
    decreases p.len(),
{
    let i = common(p, b) as int;
    if p.len() == 0 || b.len() == 0 || p[0] != b[0] {
        assert(p.take(0) =~= b.take(0));
    } else {
        let q = p.drop_first();
        let c = b.drop_first();
        lemma_common(q, c);
        assert(p.take(i) =~= seq![p[0]] + q.take(i - 1));
        assert(b.take(i) =~= seq![b[0]] + c.take(i - 1));
    }
}

/// How many names two paths have in common.
fn common_of(p: &[String], b: &[String]) -> (r: usize)
    ensures
        r == common(texts(p@), texts(b@)),
        r <= p@.len(),
        r <= b@.len(),
{
    let mut i: usize = 0;
    let ghost ps = texts(p@);
    let ghost bs = texts(b@);
    assert(ps.skip(0) =~= ps);
    assert(bs.skip(0) =~= bs);
    while i < p.len() && i < b.len() && crate::text::same_text(p[i].as_str(), b[i].as_str())
        invariant
            i <= p.len(),
            i <= b.len(),
            ps == texts(p@),
            bs == texts(b@),
            common(ps, bs) == i + common(ps.skip(i as int), bs.skip(i as int)),
        decreases p.len() - i,
    {
        assert(ps.skip(i as int)[0] == p@[i as int]@);
        assert(bs.skip(i as int)[0] == b@[i as int]@);
        assert(ps.skip(i as int).drop_first() =~= ps.skip(i as int + 1));
        assert(bs.skip(i as int).drop_first() =~= bs.skip(i as int + 1));
        i = i + 1;
    }
    proof {
        if i < p.len() && i < b.len() {
            assert(ps.skip(i as int)[0] == p@[i as int]@);
            assert(bs.skip(i as int)[0] == b@[i as int]@);
        }
    }
    i
}

/// `path` relative to `base`: `..` for every name of `base` below the common part, then the rest of
/// `path`.
pub fn relative_path(path: &str, base: &str) -> (r: String)
    ensures
        r@ == spec_relative_path(path@, base@),
{
    let p: Vec<String> = segments_of(path);
    let b: Vec<String> = segments_of(base);
    let i: usize = common_of(p.as_slice(), b.as_slice());
    let mut out: Vec<String> = Vec::new();
    while out.len() < b.len() - i
        invariant
            i <= b@.len(),
            out@.len() <= b@.len() - i,
            forall|k: int| 0 <= k < out@.len() ==> (#[trigger] out@[k])@ == ".."@,
        decreases b.len() - i - out.len(),
    {
        out.push("..".to_owned());
    }
    let ghost ups = out@.len();
    let mut k: usize = i;
    while k < p.len()
        invariant
            i <= k <= p@.len(),
            ups == b@.len() - i,
            out@.len() == ups + (k - i),
            forall|j: int| 0 <= j < ups ==> (#[trigger] out@[j])@ == ".."@,
            forall|j: int| ups <= j < out@.len() ==> (#[trigger] out@[j])@ == p@[i + (j - ups)]@,
        decreases p.len() - k,
    {
        out.push(p[k].clone());
        k = k + 1;
    }
    assert(texts(out@) =~= way(texts(p@), texts(b@)));
    join(out.as_slice(), "/")
}

/// Where a way leads from a place: `..` goes up, any other name down.
pub open spec fn walk(place: Seq<Seq<char>>, steps: Seq<Seq<char>>) -> Seq<Seq<char>>
    decreases steps.len(),
{
    if steps.len() == 0 {
        place
    } else {
        let at = walk(place, steps.drop_last());
        if steps.last() != ".."@ {
            at.push(steps.last())
        } else if at.len() > 0 {
            at.drop_last()
        } else {
            at
        }
    }
}

/// Going up `k` times drops the last `k` names.
proof fn lemma_walk_up(place: Seq<Seq<char>>, k: nat)
    requires
        k <= place.len(),
    ensures
        walk(place, Seq::new(k, |j: int| ".."@)) == place.take(place.len() - k),
    decreases k,
{
    let steps = Seq::new(k, |j: int| ".."@);
    if k == 0 {
        assert(place.take(place.len() as int) =~= place);
    } else {
        lemma_walk_up(place, (k - 1) as nat);
        assert(steps.drop_last() =~= Seq::new((k - 1) as nat, |j: int| ".."@));
        assert(place.take(place.len() - (k - 1)).drop_last() =~= place.take(place.len() - k));
    }
}

/// Going down appends the names.
proof fn lemma_walk_down(place: Seq<Seq<char>>, ups: Seq<Seq<char>>, names: Seq<Seq<char>>)
    requires
        forall|j: int| 0 <= j < names.len() ==> #[trigger] names[j] != ".."@,
    ensures
        walk(place, ups + names) == walk(place, ups) + names,
    decreases names.len(),
{
    if names.len() == 0 {
        assert(ups + names =~= ups);
        assert(walk(place, ups) + names =~= walk(place, ups));
    } else {
        let less = names.drop_last();
        assert((ups + names).drop_last() =~= ups + less);
        assert(names[names.len() - 1] != ".."@);
        lemma_walk_down(place, ups, less);
        assert(walk(place, ups + names) =~= walk(place, ups) + names);
    }
}

/// A relative path leads back: followed from the base, it ends at the path.
pub proof fn law_relative_path_leads_back(path: Seq<char>, base: Seq<char>)
    requires
        forall|j: int| 0 <= j < segments(path).len() ==> #[trigger] segments(path)[j] != ".."@,
    ensures
        walk(segments(base), way(segments(path), segments(base))) == segments(path),
{
    let p = segments(path);
    let b = segments(base);
    let i = common(p, b);
    let ups = Seq::new((b.len() - i) as nat, |k: int| ".."@);
    let names = p.skip(i as int);
    lemma_common(p, b);
    lemma_walk_up(b, (b.len() - i) as nat);
    assert forall|j: int| 0 <= j < names.len() implies #[trigger] names[j] != ".."@ by {
        assert(p[j + i] != ".."@);
    }
    lemma_walk_down(b, ups, names);
    assert(p.take(i as int) + names =~= p);
}

/// What follows the last slash.
pub open spec fn file_name(path: Seq<char>) -> Seq<char> {
    match last_at(path, '/') {
        None => path,
        Some(i) => path.skip(i as int + 1),
    }
}

/// The name without the extension of a source file.
pub open spec fn without_nim(name: Seq<char>) -> Seq<char> {
    if occurs_at(name, ".nim"@, name.len() - 4) {
        name.take(name.len() - 4)
    } else {
        name
    }
}

/// The shorter of the file's paths relative to the root and to the library; the former if they are
/// equally long.
pub open spec fn shortest_path(file: Seq<char>) -> Seq<char> {
    let root = spec_relative_path(file, "/"@);
    let lib = spec_relative_path(file, "/lib"@);
    if encode_utf8(lib).len() < encode_utf8(root).len() {
        lib
    } else {
        root
    }
}

/// The stem that a relative path gives: three letters of its file's name and its hash.
pub open spec fn stem_of(rel: Seq<char>) -> Seq<char> {
    let name = without_nim(file_name(rel));
    (if name.len() > 3 {
        name.take(3)
    } else {
        name
    }) + spec_base36(hash_finish(hash_mix(encode_utf8(rel))) as nat)
}

/// The stem of a file: that of its shortest path.
pub open spec fn spec_module_suffix(file: Seq<char>) -> Seq<char> {
    stem_of(shortest_path(file))
}

/// The stem of a file.
pub fn module_suffix(file: &str) -> (r: String)
    ensures
        r@ == spec_module_suffix(file@),
{
    let root: String = relative_path(file, "/");
    let lib: String = relative_path(file, "/lib");
    let rel: String = if lib.as_str().as_bytes().len() < root.as_str().as_bytes().len() {
        lib
    } else {
        root
    };
    let s: Vec<char> = chars_of(rel.as_str());
    let n: usize = s.len();
    let from: usize = match find_last(s.as_slice(), '/') {
        None => 0,
        Some(i) => i + 1,
    };
    let name: &[char] = slice_subrange(s.as_slice(), from, n);
    proof {
        assert(rel@.skip(0) =~= rel@);
        assert(name@ =~= file_name(rel@));
        reveal_strlit(".nim");
    }
    let dot: Vec<char> = chars_of(".nim");
    let mut end: usize = name.len();
    if end >= 4 && matches_at(name, dot.as_slice(), end - 4) {
        end = end - 4;
    }
    assert(name@.take(end as int) =~= without_nim(name@));
    let keep: usize = if end > 3 {
        3
    } else {
        end
    };
    assert(name@.take(end as int).take(keep as int) =~= name@.take(keep as int));
    assert(name@.subrange(0, keep as int) =~= name@.take(keep as int));
    let mut stem: String = text_of(slice_subrange(name, 0, keep));
    let hash: String = base36(uhash(rel.as_str()));
    stem.append(hash.as_str());
    stem
}

/// A leading slash splits off an empty row.
proof fn lemma_split_slash(p: Seq<char>)
    ensures
        spec_split(seq!['/'] + p, '/') == seq![Seq::<char>::empty()] + spec_split(p, '/'),
{
    let s = seq!['/'] + p;
    assert(first_at(s, '/') == 0);
    assert(s.take(0) =~= Seq::<char>::empty());
    assert(s.skip(1) =~= p);
}

/// The library's directory splits off its name.
proof fn lemma_split_lib(p: Seq<char>)
    ensures
        spec_split("/lib/"@ + p, '/') == seq![Seq::<char>::empty(), "lib"@] + spec_split(p, '/'),
        spec_split("/lib"@, '/') == seq![Seq::<char>::empty(), "lib"@],
        spec_split("/"@, '/') == seq![Seq::<char>::empty(), Seq::<char>::empty()],
{
    reveal_strlit("/lib/");
    reveal_strlit("/lib");
    reveal_strlit("/");
    reveal_strlit("lib");
    reveal_with_fuel(first_at, 5);
    let s = "lib"@ + (seq!['/'] + p);
    assert("/lib/"@ + p =~= seq!['/'] + s);
    lemma_split_slash(s);
    assert(s.drop_first().drop_first().drop_first() =~= seq!['/'] + p);
    assert(first_at(s, '/') == 3);
    assert(s.take(3) =~= "lib"@);
    assert(s.skip(4) =~= p);
    assert(spec_split("/lib/"@ + p, '/') =~= seq![Seq::<char>::empty(), "lib"@] + spec_split(
        p,
        '/',
    ));
    assert("/lib"@ =~= seq!['/'] + "lib"@);
    lemma_split_slash("lib"@);
    assert(first_at("lib"@, '/') == 3);
    assert(spec_split("/lib"@, '/') =~= seq![Seq::<char>::empty(), "lib"@]);
    assert("/"@ =~= seq!['/'] + Seq::<char>::empty());
    lemma_split_slash(Seq::empty());
    assert(spec_split("/"@, '/') =~= seq![Seq::<char>::empty(), Seq::<char>::empty()]);
}

/// Rows that are all filled stay, and what stands in front of them is filtered by itself.
proof fn lemma_nonempty(front: Seq<Seq<char>>, rows: Seq<Seq<char>>)
    requires
        forall|j: int| 0 <= j < rows.len() ==> (#[trigger] rows[j]).len() > 0,
    ensures
        nonempty(front + rows) == nonempty(front) + rows,
    decreases rows.len(),
{
    if rows.len() == 0 {
        assert(front + rows =~= front);
        assert(nonempty(front) + rows =~= nonempty(front));
    } else {
        let less = rows.drop_last();
        lemma_nonempty(front, less);
        assert((front + rows).drop_last() =~= front + less);
        assert(rows[rows.len() - 1].len() > 0);
        assert(nonempty(front + rows) =~= nonempty(front) + rows);
    }
}

/// A join starts with its first part.
proof fn lemma_join_front(first: Seq<char>, parts: Seq<Seq<char>>, sep: Seq<char>)
    requires
        parts.len() > 0,
    ensures
        spec_join(seq![first] + parts, sep) == first + sep + spec_join(parts, sep),
    decreases parts.len(),
{
    let all = seq![first] + parts;
    assert(all.drop_last() =~= seq![first] + parts.drop_last());
    if parts.len() == 1 {
        assert(all.drop_last() =~= seq![first]);
        assert(spec_join(seq![first], sep) == first);
        assert(all.last() == parts[0]);
    } else {
        lemma_join_front(first, parts.drop_last(), sep);
        assert(spec_join(all, sep) =~= first + sep + spec_join(parts, sep));
    }
}

/// What was split at the slashes is joined by them again.
proof fn lemma_join_split(p: Seq<char>)
    ensures
        spec_split(p, '/').len() > 0,
        spec_join(spec_split(p, '/'), "/"@) == p,
    decreases p.len(),
{
    let i = first_at(p, '/');
    lemma_first_at(p, '/');
    if i < p.len() {
        let rest = p.skip(i as int + 1);
        lemma_join_split(rest);
        lemma_join_front(p.take(i as int), spec_split(rest, '/'), "/"@);
        reveal_strlit("/");
        assert(p.take(i as int) + "/"@ + rest =~= p);
    }
}

/// Text in front makes the bytes more.
proof fn lemma_longer(a: Seq<char>, b: Seq<char>)
    ensures
        encode_utf8(a + b).len() >= encode_utf8(b).len(),
        a.len() > 0 ==> encode_utf8(a + b).len() > encode_utf8(b).len(),
    decreases a.len(),
{
    if a.len() == 0 {
        assert(a + b =~= b);
    } else {
        assert((a + b).drop_first() =~= a.drop_first() + b);
        lemma_longer(a.drop_first(), b);
    }
}

/// A module is called the same wherever it is found: under the root or under the library, its stem
/// is that of its path below. `p` has no empty name; below the root, it is not itself in the
/// library.
pub proof fn law_stem_ignores_the_search_path(p: Seq<char>)
    requires
        forall|j: int|
            0 <= j < spec_split(p, '/').len() ==> (#[trigger] spec_split(p, '/')[j]).len() > 0,
    ensures
        spec_split(p, '/')[0] != "lib"@ ==> spec_module_suffix("/"@ + p) == stem_of(p),
        spec_module_suffix("/lib/"@ + p) == stem_of(p),
{
    let names = spec_split(p, '/');
    let none = seq![Seq::<char>::empty()];
    let lib = seq!["lib"@];
    let top = "/"@ + p;
    let below = "/lib/"@ + p;
    reveal_with_fuel(nonempty, 3);
    lemma_split_lib(p);
    lemma_join_split(p);
    assert(segments("/"@) =~= Seq::empty());
    assert(segments("/lib"@) =~= lib) by {
        reveal_strlit("lib");
        let rows = seq![Seq::<char>::empty(), "lib"@];
        assert(rows.drop_last() =~= none);
        assert(none.drop_last() =~= Seq::empty());
    }
    assert(segments(top) =~= names) by {
        reveal_strlit("/");
        assert("/"@ =~= seq!['/']);
        lemma_split_slash(p);
        lemma_nonempty(none, names);
        assert(none.drop_last() =~= Seq::empty());
    }
    assert(segments(below) =~= lib + names) by {
        reveal_strlit("lib");
        let front = seq![Seq::<char>::empty(), "lib"@];
        lemma_nonempty(front, names);
        assert(front.drop_last() =~= none);
        assert(none.drop_last() =~= Seq::empty());
    }
    reveal_strlit("/");
    reveal_strlit("lib");
    // below the root
    if names[0] != "lib"@ {
        assert(way(names, Seq::empty()) =~= names);
        assert(common(names, lib) == 0);
        assert(way(names, lib) =~= seq![".."@] + names);
        lemma_join_front(".."@, names, "/"@);
        lemma_longer(".."@ + "/"@, p);
    }
    // below the library
    assert(way(lib + names, Seq::empty()) =~= lib + names);
    lemma_join_front("lib"@, names, "/"@);
    lemma_longer("lib"@ + "/"@, p);
    assert((lib + names).drop_first() =~= names);
    assert(lib.drop_first() =~= Seq::empty());
    assert(common(names, Seq::empty()) == 0);
    assert(common(lib + names, lib) == 1);
    assert((lib + names).skip(1) =~= names);
    assert(way(lib + names, lib) =~= names);
}

/// The segments of a path hold no slash.
proof fn lemma_segments_are_plain(rows: Seq<Seq<char>>, i: int, j: int)
    requires
        forall|a: int, b: int|
            0 <= a < rows.len() && 0 <= b < rows[a].len() ==> #[trigger] rows[a][b] != '/',
        0 <= i < nonempty(rows).len(),
        0 <= j < nonempty(rows)[i].len(),
    ensures
        nonempty(rows)[i][j] != '/',
    decreases rows.len(),
{
    let less = rows.drop_last();
    assert forall|a: int, b: int| 0 <= a < less.len() && 0 <= b < less[a].len() implies #[trigger]
    less[a][b] != '/' by {
        assert(rows[a][b] != '/');
    }
    if rows.last().len() == 0 || i < nonempty(less).len() {
        lemma_segments_are_plain(less, i, j);
    } else {
        assert(rows[rows.len() - 1][j] != '/');
    }
}

/// A relative path, read segment by segment, leads from the base to the file.
pub proof fn law_relative_path_is_walked(path: Seq<char>, base: Seq<char>)
    requires
        forall|j: int| 0 <= j < segments(path).len() ==> #[trigger] segments(path)[j] != ".."@,
        way(segments(path), segments(base)).len() > 0,
    ensures
        walk(segments(base), spec_split(spec_relative_path(path, base), '/')) == segments(path),
{
    law_relative_path_leads_back(path, base);
    let w = way(segments(path), segments(base));
    let i0 = common(segments(path), segments(base));
    lemma_common(segments(path), segments(base));
    reveal_strlit("..");
    reveal_strlit("/");
    assert("/"@ =~= seq!['/']);
    assert forall|i: int, j: int| 0 <= i < w.len() && 0 <= j < w[i].len() implies #[trigger] w[i][j]
        != '/' by {
        let ups = segments(base).len() - i0;
        if i < ups {
            assert(w[i] == ".."@);
        } else {
            law_join_undoes_split(path, '/');
            let k = i - ups + i0;
            if 0 <= k < segments(path).len() {
                assert(w[i] == segments(path)[k]);
                lemma_segments_are_plain(spec_split(path, '/'), k, j);
            }
        }
    }
    law_split_undoes_join(w, '/');
}

/// A file's name is what follows its directory, and a source file's stem is that without the
/// extension.
pub proof fn law_file_name_follows_the_directory(dir: Seq<char>, name: Seq<char>)
    requires
        forall|j: int| 0 <= j < name.len() ==> name[j] != '/',
    ensures
        file_name(dir + seq!['/'] + name) == name,
        file_name(name) == name,
        without_nim(name + ".nim"@) == name,
{
    let path = dir + seq!['/'] + name;
    let n = dir.len() as int;
    crate::text::lemma_last_at(path, '/');
    assert(path[n] == '/');
    assert forall|j: int| n < j < path.len() implies path[j] != '/' by {
        assert(path[j] == name[j - n - 1]);
    }
    assert(last_at(path, '/') == Some(n as nat));
    assert(path.skip(n + 1) =~= name);
    crate::text::lemma_last_at(name, '/');
    reveal_strlit(".nim");
    let full = name + ".nim"@;
    assert(full.subrange(full.len() - 4, full.len() as int) =~= ".nim"@);
    assert(full.take(full.len() - 4) =~= name);
}

/// A stem is up to three letters of the file's name and then the hash of its path, which can be read
/// back from it.
pub proof fn law_stem_is_letters_and_hash(rel: Seq<char>)
    ensures
        ({
            let name = without_nim(file_name(rel));
            let k = if name.len() < 3 {
                name.len() as int
            } else {
                3
            };
            &&& stem_of(rel).len() >= k
            &&& stem_of(rel).take(k) == name.take(k)
            &&& number36(stem_of(rel).skip(k)) == hash_finish(hash_mix(encode_utf8(rel)))
        }),
{
    let name = without_nim(file_name(rel));
    let h = hash_finish(hash_mix(encode_utf8(rel))) as nat;
    let k = if name.len() < 3 {
        name.len() as int
    } else {
        3
    };
    law_base36_round_trip(h);
    assert(stem_of(rel).take(k) =~= name.take(k));
    assert(stem_of(rel).skip(k) =~= spec_base36(h));
}

/// A module is named by the shorter of its two relative paths.
pub proof fn law_shortest_path_is_one_of_the_two(file: Seq<char>)
    ensures
        shortest_path(file) == spec_relative_path(file, "/"@) || shortest_path(file)
            == spec_relative_path(file, "/lib"@),
        encode_utf8(shortest_path(file)).len() <= encode_utf8(spec_relative_path(file, "/"@)).len(),
        encode_utf8(shortest_path(file)).len() <= encode_utf8(
            spec_relative_path(file, "/lib"@),
        ).len(),
        spec_module_suffix(file) == stem_of(shortest_path(file)),
{
}

} // verus!
