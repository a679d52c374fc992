//! The compiler card: how an editor buffer becomes the files that a compiler guest reads.

use vstd::prelude::*;
use vstd::slice::{slice_subrange, slice_to_vec};
use vstd::utf8::encode_utf8;

use crate::args::byte_rows;
use crate::caps::ExportEntry;
use crate::status::{STATUS_EXIT, STATUS_OK};
use crate::text::{
    char_rows, chars_of, find_char, find_last, first_at, from_utf8_lossy, last_at,
    law_join_undoes_split, matches_at, position_of, same_text, skip_white, spec_is_white, spec_join,
    spec_split, spec_strip_lead, spec_trim, spec_trim_start, split_chars, starts_with, strip_lead,
    text_from, text_of, texts, trim_chars,
};

verus! {

/// A file of the guest's in-memory file system.
#[derive(Debug)]
pub struct MemFile {
    pub key: String,
    pub bytes: Vec<u8>,
}

/// The contents of a list of files.
pub open spec fn files_view(files: Seq<MemFile>) -> Seq<(Seq<char>, Seq<u8>)> {
    files.map_values(|f: MemFile| (f.key@, f.bytes@))
}

/// The built-in headers, by the key that each is served under.
pub open spec fn spec_header_keys() -> Seq<Seq<char>> {
    seq![
        "include/stdio.h"@,
        "include/string.h"@,
        "include/stdlib.h"@,
        "include/stdarg.h"@,
        "include/ctype.h"@,
        "include/stdbool.h"@,
        "include/stdint.h"@,
        "include/stddef.h"@,
        "include/limits.h"@,
        "include/errno.h"@,
        "include/assert.h"@,
        "include/math.h"@,
        "include/xmmintrin.h"@,
        "include/pthread.h"@,
        "include/semaphore.h"@,
        "include/stdatomic.h"@,
        "include/stdnoreturn.h"@,
        "include/strings.h"@,
        "include/glob.h"@,
        "include/libgen.h"@,
        "include/unistd.h"@,
        "include/time.h"@,
        "include/sys/stat.h"@,
        "include/sys/types.h"@,
        "include/sys/wait.h"@,
    ]
}

/// The keys of the built-in headers.
pub fn header_keys() -> (r: Vec<&'static str>)
    ensures
        r@.map_values(|s: &'static str| s@) == spec_header_keys(),
{
    let mut out: Vec<&'static str> = Vec::new();
    out.push("include/stdio.h");
    out.push("include/string.h");
    out.push("include/stdlib.h");
    out.push("include/stdarg.h");
    out.push("include/ctype.h");
    out.push("include/stdbool.h");
    out.push("include/stdint.h");
    out.push("include/stddef.h");
    out.push("include/limits.h");
    out.push("include/errno.h");
    out.push("include/assert.h");
    out.push("include/math.h");
    out.push("include/xmmintrin.h");
    out.push("include/pthread.h");
    out.push("include/semaphore.h");
    out.push("include/stdatomic.h");
    out.push("include/stdnoreturn.h");
    out.push("include/strings.h");
    out.push("include/glob.h");
    out.push("include/libgen.h");
    out.push("include/unistd.h");
    out.push("include/time.h");
    out.push("include/sys/stat.h");
    out.push("include/sys/types.h");
    out.push("include/sys/wait.h");
    assert(out@.map_values(|s: &'static str| s@) =~= spec_header_keys());
    out
}

/// The built-in headers as files.
pub open spec fn spec_include_files(headers: Seq<Vec<u8>>) -> Seq<(Seq<char>, Seq<u8>)> {
    Seq::new(spec_header_keys().len(), |i: int| (spec_header_keys()[i], headers[i]@))
}

/// The built-in headers as files: each text under its key.
pub fn playground_include_files(headers: &[Vec<u8>]) -> (r: Vec<MemFile>)
    requires
        headers@.len() == spec_header_keys().len(),
    ensures
        files_view(r@) == spec_include_files(headers@),
        files_view(r@) == Seq::new(
            spec_header_keys().len(),
            |i: int| (spec_header_keys()[i], headers@[i]@),
        ),
{
    let keys: Vec<&'static str> = header_keys();
    let mut out: Vec<MemFile> = Vec::with_capacity(keys.len());
    let mut i: usize = 0;
    while i < keys.len()
        invariant
            i <= keys.len(),
            keys@.map_values(|s: &'static str| s@) == spec_header_keys(),
            headers@.len() == spec_header_keys().len(),
            files_view(out@) == Seq::new(
                i as nat,
                |j: int| (spec_header_keys()[j], headers@[j]@),
            ),
        decreases keys.len() - i,
    {
        assert(keys@.map_values(|s: &'static str| s@)[i as int] == keys@[i as int]@);
        let f: MemFile = MemFile {
            key: keys[i].to_owned(),
            bytes: slice_to_vec(headers[i].as_slice()),
        };
        let ghost before = out@;
        let ghost x = (f.key@, f.bytes@);
        out.push(f);
        assert(files_view(out@) =~= files_view(before).push(x));
        assert(x == (spec_header_keys()[i as int], headers@[i as int]@));
        assert(files_view(out@) =~= Seq::new(
            (i + 1) as nat,
            |j: int| (spec_header_keys()[j], headers@[j]@),
        ));
        i = i + 1;
    }
    out
}

/// The arguments of a compile of the editor's file; `-g` asks for debug information.
pub open spec fn spec_chibicc_card_argv(debug_info: bool) -> Seq<Seq<u8>> {
    let head = seq![
        encode_utf8("chibicc"@),
        encode_utf8("--data-page"@),
        encode_utf8("65536"@),
    ];
    if debug_info {
        head.push(encode_utf8("-g"@)).push(encode_utf8("/in.c"@))
    } else {
        head.push(encode_utf8("/in.c"@))
    }
}

/// The arguments of a compile of the editor's file.
pub fn chibicc_card_argv(debug_info: bool) -> (r: Vec<Vec<u8>>)
    ensures
        byte_rows(r@) == spec_chibicc_card_argv(debug_info),
{
    let mut argv: Vec<Vec<u8>> = Vec::new();
    argv.push("chibicc".as_bytes_vec());
    argv.push("--data-page".as_bytes_vec());
    argv.push("65536".as_bytes_vec());
    if debug_info {
        argv.push("-g".as_bytes_vec());
    }
    argv.push("/in.c".as_bytes_vec());
    assert(byte_rows(argv@) =~= spec_chibicc_card_argv(debug_info));
    argv
}

/// The arguments of a compile of one of the compiler's own sources to a linkable object.
pub open spec fn spec_chibicc_selfhost_argv(tu: Seq<u8>, debug_info: bool) -> Seq<Seq<u8>> {
    let head = seq![
        encode_utf8("chibicc"@),
        encode_utf8("--emit-object"@),
        encode_utf8("-include"@),
        encode_utf8("crates/svm-run/demos/chibicc_selfhost/selfhost_prelude.h"@),
        encode_utf8("-Ifrontend/chibicc"@),
        encode_utf8("-Ifrontend/chibicc/include"@),
        encode_utf8("-Iusr/include/x86_64-linux-gnu"@),
        encode_utf8("-Iusr/include"@),
    ];
    if debug_info {
        head.push(encode_utf8("-g"@)).push(tu)
    } else {
        head.push(tu)
    }
}

/// The arguments of a compile of one of the compiler's own sources.
pub fn chibicc_selfhost_argv(tu: &[u8], debug_info: bool) -> (r: Vec<Vec<u8>>)
    ensures
        byte_rows(r@) == spec_chibicc_selfhost_argv(tu@, debug_info),
{
    let mut argv: Vec<Vec<u8>> = Vec::new();
    argv.push("chibicc".as_bytes_vec());
    argv.push("--emit-object".as_bytes_vec());
    argv.push("-include".as_bytes_vec());
    argv.push("crates/svm-run/demos/chibicc_selfhost/selfhost_prelude.h".as_bytes_vec());
    argv.push("-Ifrontend/chibicc".as_bytes_vec());
    argv.push("-Ifrontend/chibicc/include".as_bytes_vec());
    argv.push("-Iusr/include/x86_64-linux-gnu".as_bytes_vec());
    argv.push("-Iusr/include".as_bytes_vec());
    if debug_info {
        argv.push("-g".as_bytes_vec());
    }
    argv.push(slice_to_vec(tu));
    assert(byte_rows(argv@) =~= spec_chibicc_selfhost_argv(tu@, debug_info));
    argv
}

/// `s` starts with `file:` in any case.
pub open spec fn has_file_tag(s: Seq<char>) -> bool {
    s.len() >= 5 && (s[0] == 'f' || s[0] == 'F') && (s[1] == 'i' || s[1] == 'I') && (s[2] == 'l'
        || s[2] == 'L') && (s[3] == 'e' || s[3] == 'E') && s[4] == ':'
}

/// The file that a marker line names; `None` for a line that is no marker.
///
/// A marker is `////`, then `file:` in any case, then a name; white space may stand around each,
/// and slashes before the name are dropped.
pub open spec fn spec_marker_name(line: Seq<char>) -> Option<Seq<char>> {
    let body = spec_trim_start(line);
    if !starts_with(body, "////"@) {
        None
    } else {
        let rest = spec_trim_start(body.skip(4));
        if !has_file_tag(rest) {
            None
        } else {
            let name = spec_trim(spec_strip_lead(spec_trim(rest.skip(5)), '/'));
            if name.len() == 0 {
                None
            } else {
                Some(name)
            }
        }
    }
}

/// The file that a marker line names.
#[verifier::spinoff_prover]
#[verifier::rlimit(40)]
fn marker_name(line: &[char]) -> (r: Option<String>)
    ensures
        r is Some <==> spec_marker_name(line@) is Some,
        r matches Some(name) ==> Some(name@) == spec_marker_name(line@),
{
    let a: usize = skip_white(line, 0);
    assert(line@.skip(0) =~= line@);
    let ghost body = line@.skip(a as int);
    proof {
        reveal_strlit("////");
        assert("////"@ =~= seq!['/', '/', '/', '/']);
    }
    let slashes: Vec<char> = chars_of("////");
    let tail: &[char] = slice_subrange(line, a, line.len());
    assert(tail@ =~= body);
    if !matches_at(tail, slashes.as_slice(), 0) {
        return None;
    }
    let b: usize = skip_white(tail, 4);
    assert(tail@.skip(4) =~= body.skip(4));
    let rest: &[char] = slice_subrange(tail, b, tail.len());
    assert(rest@ =~= tail@.skip(b as int));
    if !(rest.len() >= 5 && (rest[0] == 'f' || rest[0] == 'F') && (rest[1] == 'i' || rest[1] == 'I')
        && (rest[2] == 'l' || rest[2] == 'L') && (rest[3] == 'e' || rest[3] == 'E') && rest[4]
        == ':') {
        return None;
    }
    let after: &[char] = slice_subrange(rest, 5, rest.len());
    assert(after@ =~= rest@.skip(5));
    let name: &[char] = trim_chars(strip_lead(trim_chars(after), '/'));
    if name.len() == 0 {
        return None;
    }
    Some(text_of(name))
}

/// The length of the first line of `text`, its newline counted.
pub open spec fn first_line_len(text: Seq<char>) -> nat {
    let i = first_at(text, '\n');
    if i < text.len() {
        i + 1
    } else {
        text.len()
    }
}

/// The files of a buffer from `text` on, where `name` is being filled and holds `cur`.
pub open spec fn files_from(text: Seq<char>, name: Seq<char>, cur: Seq<char>) -> Seq<
    (Seq<char>, Seq<char>),
>
    decreases text.len(),
{
    if text.len() == 0 {
        seq![(name, cur)]
    } else {
        let n = first_line_len(text) as int;
        let line = text.take(first_at(text, '\n') as int);
        match spec_marker_name(line) {
            Some(next) => seq![(name, cur)] + files_from(
                text.skip(n),
                next,
                Seq::empty(),
            ),
            None => files_from(text.skip(n), name, cur + text.take(n)),
        }
    }
}

/// The files of a buffer: what comes before the first marker is `in.c`, and every marker starts a
/// file of its own.
pub open spec fn spec_split_multifile(text: Seq<char>) -> Seq<(Seq<char>, Seq<u8>)> {
    files_from(text, "in.c"@, Seq::empty()).map_values(
        |f: (Seq<char>, Seq<char>)| (f.0, encode_utf8(f.1)),
    )
}

/// Splits a buffer into files.
pub fn split_multifile_text(text: &str) -> (r: Vec<MemFile>)
    ensures
        files_view(r@) == spec_split_multifile(text@),
{
    let all: Vec<char> = chars_of(text);
    let mut files: Vec<MemFile> = Vec::new();
    let ghost mut done: Seq<(Seq<char>, Seq<char>)> = Seq::empty();
    let mut name: String = "in.c".to_owned();
    let mut cur: Vec<char> = Vec::new();
    let mut at: usize = 0;
    proof {
        assert(text@.skip(0) =~= text@);
        assert(cur@ =~= Seq::empty());
        assert(done + files_from(text@, "in.c"@, Seq::empty()) =~= files_from(
            text@,
            "in.c"@,
            Seq::empty(),
        ));
        assert(files_view(files@) =~= done.map_values(
            |f: (Seq<char>, Seq<char>)| (f.0, encode_utf8(f.1)),
        ));
    }
    while at < all.len()
        invariant
            at <= all.len(),
            all@ == text@,
            files_from(text@, "in.c"@, Seq::empty()) == done + files_from(
                text@.skip(at as int),
                name@,
                cur@,
            ),
            files_view(files@) == done.map_values(
                |f: (Seq<char>, Seq<char>)| (f.0, encode_utf8(f.1)),
            ),
        decreases all.len() - at,
    {
        let rest: &[char] = slice_subrange(all.as_slice(), at, all.len());
        assert(rest@ =~= text@.skip(at as int));
        let i: usize = find_char(rest, '\n');
        let n: usize = if i < rest.len() {
            i + 1
        } else {
            rest.len()
        };
        assert(n == first_line_len(rest@));
        assert(rest@.skip(n as int) =~= text@.skip(at + n));
        let line: &[char] = slice_subrange(rest, 0, i);
        assert(line@ =~= rest@.take(i as int));
        match marker_name(line) {
            Some(next) => {
                let f: MemFile = MemFile { key: name, bytes: text_of(cur.as_slice()).as_str().as_bytes_vec() };
                let ghost before = files@;
                proof {
                    let x = (f.key@, cur@);
                    let tail = files_from(rest@.skip(n as int), next@, Seq::empty());
                    assert(done + (seq![x] + tail) =~= done.push(x) + tail);
                    assert(files_view(files@.push(f)) =~= files_view(before).push((f.key@, f.bytes@)));
                    assert(done.push(x).map_values(
                        |f: (Seq<char>, Seq<char>)| (f.0, encode_utf8(f.1)),
                    ) =~= done.map_values(
                        |f: (Seq<char>, Seq<char>)| (f.0, encode_utf8(f.1)),
                    ).push((x.0, encode_utf8(x.1))));
                    done = done.push(x);
                }
                files.push(f);
                name = next;
                cur = Vec::new();
                assert(cur@ =~= Seq::empty());
            },
            None => {
                let ghost held = cur@;
                let mut k: usize = 0;
                while k < n
                    invariant
                        k <= n <= rest.len(),
                        cur@ == held + rest@.take(k as int),
                    decreases n - k,
                {
                    cur.push(rest[k]);
                    assert(cur@ =~= held + rest@.take(k as int + 1));
                    k = k + 1;
                }
            },
        }
        at = at + n;
    }
    let f: MemFile = MemFile { key: name, bytes: text_of(cur.as_slice()).as_str().as_bytes_vec() };
    let ghost before = files@;
    let ghost x = (f.key@, cur@);
    proof {
        assert(text@.skip(at as int) =~= Seq::empty());
        assert(files_from(text@, "in.c"@, Seq::empty()) =~= done.push(x));
        assert(files_view(files@.push(f)) =~= files_view(before).push((f.key@, f.bytes@)));
        assert(done.push(x).map_values(|f: (Seq<char>, Seq<char>)| (f.0, encode_utf8(f.1)))
            =~= done.map_values(|f: (Seq<char>, Seq<char>)| (f.0, encode_utf8(f.1))).push(
            (x.0, encode_utf8(x.1)),
        ));
    }
    files.push(f);
    files
}

/// Splits an editor buffer into files: the text that it encodes, with replacement characters where it
/// is ill-formed.
pub fn split_multifile_source(src: &[u8]) -> (r: Vec<MemFile>)
    ensures
        files_view(r@) == spec_split_multifile(text_from(src@)),
{
    let text: String = from_utf8_lossy(src);
    split_multifile_text(text.as_str())
}

/// A file system: its files and its directories.
#[derive(Debug)]
pub struct CardImage {
    pub files: Vec<MemFile>,
    pub dirs: Vec<String>,
}

/// Some file has the key `k`.
pub open spec fn has_key(files: Seq<(Seq<char>, Seq<u8>)>, k: Seq<char>) -> bool {
    exists|i: int| 0 <= i < files.len() && (#[trigger] files[i]).0 == k
}

/// `files` with `f` added, unless its key is taken.
pub open spec fn add_absent(
    files: Seq<(Seq<char>, Seq<u8>)>,
    f: (Seq<char>, Seq<u8>),
) -> Seq<(Seq<char>, Seq<u8>)> {
    if has_key(files, f.0) {
        files
    } else {
        files.push(f)
    }
}

/// `files` with each of `more` added whose key is free.
pub open spec fn add_all_absent(
    files: Seq<(Seq<char>, Seq<u8>)>,
    more: Seq<(Seq<char>, Seq<u8>)>,
) -> Seq<(Seq<char>, Seq<u8>)>
    decreases more.len(),
{
    if more.len() == 0 {
        files
    } else {
        add_absent(add_all_absent(files, more.drop_last()), more.last())
    }
}

/// `files` without those that have the key `k`.
pub open spec fn without_key(
    files: Seq<(Seq<char>, Seq<u8>)>,
    k: Seq<char>,
) -> Seq<(Seq<char>, Seq<u8>)>
    decreases files.len(),
{
    if files.len() == 0 {
        files
    } else if files.last().0 == k {
        without_key(files.drop_last(), k)
    } else {
        without_key(files.drop_last(), k).push(files.last())
    }
}

/// `files` with `f` in place of every file with its key.
pub open spec fn put(
    files: Seq<(Seq<char>, Seq<u8>)>,
    f: (Seq<char>, Seq<u8>),
) -> Seq<(Seq<char>, Seq<u8>)> {
    without_key(files, f.0).push(f)
}

/// `files` with each of `more` put in place.
pub open spec fn put_all(
    files: Seq<(Seq<char>, Seq<u8>)>,
    more: Seq<(Seq<char>, Seq<u8>)>,
) -> Seq<(Seq<char>, Seq<u8>)>
    decreases more.len(),
{
    if more.len() == 0 {
        files
    } else {
        put(put_all(files, more.drop_last()), more.last())
    }
}

/// `dirs` with `d` added, unless it is there.
pub open spec fn with_dir(dirs: Seq<Seq<char>>, d: Seq<char>) -> Seq<Seq<char>> {
    if dirs.contains(d) {
        dirs
    } else {
        dirs.push(d)
    }
}

/// `dirs` with each of `more` added that is not there.
pub open spec fn with_dirs(dirs: Seq<Seq<char>>, more: Seq<Seq<char>>) -> Seq<Seq<char>>
    decreases more.len(),
{
    if more.len() == 0 {
        dirs
    } else {
        with_dir(with_dirs(dirs, more.drop_last()), more.last())
    }
}

/// The path that the first `n` segments make.
pub open spec fn path_of(segs: Seq<Seq<char>>, n: nat) -> Seq<char>
    decreases n,
{
    if n == 0 {
        Seq::empty()
    } else {
        let above = path_of(segs, (n - 1) as nat);
        if above.len() == 0 {
            segs[n - 1]
        } else {
            above.push('/') + segs[n - 1]
        }
    }
}

/// The directories above the file `key`, from the outermost on.
pub open spec fn ancestors(key: Seq<char>) -> Seq<Seq<char>> {
    match last_at(key, '/') {
        None => Seq::empty(),
        Some(i) => {
            let segs = spec_split(key.take(i as int), '/');
            Seq::new(segs.len(), |n: int| path_of(segs, (n + 1) as nat))
        },
    }
}

/// `dirs` with the directories above each of `files`.
pub open spec fn with_ancestors(
    dirs: Seq<Seq<char>>,
    files: Seq<(Seq<char>, Seq<u8>)>,
) -> Seq<Seq<char>>
    decreases files.len(),
{
    if files.len() == 0 {
        dirs
    } else {
        with_dirs(with_ancestors(dirs, files.drop_last()), ancestors(files.last().0))
    }
}

/// The position of the key `k`.
fn key_position(files: &[MemFile], k: &str) -> (r: Option<usize>)
    ensures
        r is Some <==> has_key(files_view(files@), k@),
        r matches Some(i) ==> i < files@.len() && files@[i as int].key@ == k@,
{
    let mut i: usize = 0;
    while i < files.len()
        invariant
            i <= files.len(),
            forall|j: int| 0 <= j < i ==> (#[trigger] files@[j]).key@ != k@,
        decreases files.len() - i,
    {
        if same_text(files[i].key.as_str(), k) {
            assert(files_view(files@)[i as int].0 == k@);
            return Some(i);
        }
        i = i + 1;
    }
    assert forall|j: int| 0 <= j < files@.len() implies (#[trigger] files_view(files@)[j]).0
        != k@ by {
        assert(files@[j].key@ != k@);
    }
    None
}

/// Adds a directory that is not there.
fn add_dir(dirs: &mut Vec<String>, d: String)
    ensures
        texts(final(dirs)@) == with_dir(texts(old(dirs)@), d@),
{
    match position_of(dirs.as_slice(), d.as_str()) {
        Some(i) => {
            assert(texts(dirs@)[i as int] == d@);
        },
        None => {
            assert forall|j: int| 0 <= j < texts(dirs@).len() implies texts(dirs@)[j] != d@ by {
                assert(texts(dirs@)[j] == dirs@[j]@);
            }
            dirs.push(d);
            assert(texts(dirs@) =~= texts(old(dirs)@).push(d@));
        },
    }
}

/// Adds the directories above the file `key`.
fn add_ancestors(dirs: &mut Vec<String>, key: &str)
    ensures
        texts(final(dirs)@) == with_dirs(texts(old(dirs)@), ancestors(key@)),
{
    let k: Vec<char> = chars_of(key);
    let i: usize = match find_last(k.as_slice(), '/') {
        None => {
            return;
        },
        Some(i) => i,
    };
    let dir: &[char] = slice_subrange(k.as_slice(), 0, i);
    assert(dir@ =~= key@.take(i as int));
    let segs: Vec<Vec<char>> = split_chars(dir, '/');
    let ghost rows = char_rows(segs@);
    let ghost all = ancestors(key@);
    let ghost start = texts(dirs@);
    let mut acc: Vec<char> = Vec::new();
    let mut n: usize = 0;
    assert(all.take(0) =~= Seq::empty());
    assert(acc@ =~= Seq::empty());
    while n < segs.len()
        invariant
            n <= segs.len(),
            rows == char_rows(segs@),
            all == Seq::new(rows.len(), |n: int| path_of(rows, (n + 1) as nat)),
            acc@ == path_of(rows, n as nat),
            texts(dirs@) == with_dirs(start, all.take(n as int)),
        decreases segs.len() - n,
    {
        if acc.len() > 0 {
            acc.push('/');
        }
        let ghost head = acc@;
        let seg: &Vec<char> = &segs[n];
        assert(rows[n as int] == seg@);
        let mut j: usize = 0;
        while j < seg.len()
            invariant
                j <= seg.len(),
                acc@ == head + seg@.take(j as int),
            decreases seg.len() - j,
        {
            acc.push(seg[j]);
            assert(acc@ =~= head + seg@.take(j as int + 1));
            j = j + 1;
        }
        assert(acc@ =~= path_of(rows, (n + 1) as nat));
        add_dir(dirs, text_of(acc.as_slice()));
        proof {
            let now = all.take(n as int + 1);
            assert(now.drop_last() =~= all.take(n as int));
            assert(now.last() == acc@);
        }
        n = n + 1;
    }
    assert(all.take(all.len() as int) =~= all);
}

/// Puts `f` in place of every file with its key.
fn put_file(files: &mut Vec<MemFile>, f: MemFile)
    ensures
        files_view(final(files)@) == put(files_view(old(files)@), (f.key@, f.bytes@)),
{
    let ghost all = files_view(files@);
    let ghost held = files@;
    let mut kept: Vec<MemFile> = Vec::new();
    let mut rest: Vec<MemFile> = Vec::new();
    rest.append(files);
    let ghost k = f.key@;
    assert(files_view(kept@) =~= without_key(all.take(0), k));
    for g in it: rest
        invariant
            it.seq() == held,
            all == files_view(held),
            k == f.key@,
            files_view(kept@) == without_key(all.take(it.index() as int), k),
    {
        proof {
            let now = all.take(it.index() as int + 1);
            assert(now.drop_last() =~= all.take(it.index() as int));
            assert(now.last() == (g.key@, g.bytes@));
        }
        if !same_text(g.key.as_str(), f.key.as_str()) {
            let ghost before = kept@;
            let ghost x = (g.key@, g.bytes@);
            kept.push(g);
            assert(files_view(kept@) =~= files_view(before).push(x));
        }
    }
    assert(all.take(all.len() as int) =~= all);
    let ghost before = kept@;
    let ghost x = (f.key@, f.bytes@);
    kept.push(f);
    assert(files_view(kept@) =~= files_view(before).push(x));
    *files = kept;
}

/// Assembles the compiler's file system: the caller's files, the built-in headers where the caller
/// has none of that name, and the files of the editor over both.
pub fn chibicc_card_image(image: CardImage, headers: Vec<MemFile>, sources: Vec<MemFile>) -> (r:
    CardImage)
    ensures
        files_view(r.files@) == put_all(
            add_all_absent(files_view(image.files@), files_view(headers@)),
            files_view(sources@),
        ),
        texts(r.dirs@) == with_ancestors(
            with_dir(with_dir(texts(image.dirs@), "include"@), "include/sys"@),
            files_view(sources@),
        ),
{
    let ghost first = files_view(image.files@);
    let mut files: Vec<MemFile> = image.files;
    let mut dirs: Vec<String> = image.dirs;
    let ghost hs = files_view(headers@);
    let ghost heads = headers@;
    assert(files_view(files@) =~= add_all_absent(first, hs.take(0)));
    for f in it: headers
        invariant
            it.seq() == heads,
            hs == files_view(heads),
            files_view(files@) == add_all_absent(first, hs.take(it.index() as int)),
    {
        proof {
            let now = hs.take(it.index() as int + 1);
            assert(now.drop_last() =~= hs.take(it.index() as int));
            assert(now.last() == (f.key@, f.bytes@));
        }
        if key_position(files.as_slice(), f.key.as_str()).is_none() {
            let ghost before = files@;
            let ghost x = (f.key@, f.bytes@);
            files.push(f);
            assert(files_view(files@) =~= files_view(before).push(x));
        }
    }
    assert(hs.take(hs.len() as int) =~= hs);
    add_dir(&mut dirs, "include".to_owned());
    add_dir(&mut dirs, "include/sys".to_owned());
    let ghost merged = files_view(files@);
    let ghost base = texts(dirs@);
    let ghost ss = files_view(sources@);
    let ghost srcs = sources@;
    assert(ss.take(0) =~= Seq::empty());
    for f in it: sources
        invariant
            it.seq() == srcs,
            ss == files_view(srcs),
            files_view(files@) == put_all(merged, ss.take(it.index() as int)),
            texts(dirs@) == with_ancestors(base, ss.take(it.index() as int)),
    {
        proof {
            let now = ss.take(it.index() as int + 1);
            assert(now.drop_last() =~= ss.take(it.index() as int));
            assert(now.last() == (f.key@, f.bytes@));
        }
        add_ancestors(&mut dirs, f.key.as_str());
        put_file(&mut files, f);
    }
    assert(ss.take(ss.len() as int) =~= ss);
    CardImage { files, dirs }
}

/// No two files have the same key.
pub open spec fn keys_unique(files: Seq<(Seq<char>, Seq<u8>)>) -> bool {
    forall|i: int, j: int|
        0 <= i < j < files.len() ==> (#[trigger] files[i]).0 != (#[trigger] files[j]).0
}

/// Dropping a key drops nothing else and keeps the rest distinct.
proof fn lemma_without_key(files: Seq<(Seq<char>, Seq<u8>)>, k: Seq<char>)
    ensures
        !has_key(without_key(files, k), k),
        forall|j: Seq<char>| #[trigger]
            has_key(without_key(files, k), j) ==> has_key(files, j),
        keys_unique(files) ==> keys_unique(without_key(files, k)),
    decreases files.len(),
{
    if files.len() > 0 {
        let less = files.drop_last();
        let kept = without_key(less, k);
        lemma_without_key(less, k);
        assert forall|j: Seq<char>| #[trigger] has_key(without_key(files, k), j) implies has_key(
            files,
            j,
        ) by {
            if files.last().0 == j {
                assert(files[files.len() - 1].0 == j);
            } else {
                let i = choose|i: int|
                    0 <= i < without_key(files, k).len() && (#[trigger] without_key(
                        files,
                        k,
                    )[i]).0 == j;
                assert(kept[i].0 == j);
                assert(has_key(kept, j));
                let h = choose|h: int| 0 <= h < less.len() && (#[trigger] less[h]).0 == j;
                assert(files[h].0 == j);
            }
        }
        if keys_unique(files) {
            assert(keys_unique(less)) by {
                assert forall|a: int, b: int| 0 <= a < b < less.len() implies (
                #[trigger] less[a]).0 != (#[trigger] less[b]).0 by {
                    assert(files[a].0 != files[b].0);
                }
            }
            if files.last().0 != k {
                let all = kept.push(files.last());
                assert forall|a: int, b: int| 0 <= a < b < all.len() implies (
                #[trigger] all[a]).0 != (#[trigger] all[b]).0 by {
                    if b == kept.len() {
                        assert(kept[a].0 == all[a].0);
                        assert(has_key(kept, all[a].0));
                        let h = choose|h: int|
                            0 <= h < less.len() && (#[trigger] less[h]).0 == all[a].0;
                        assert(files[h].0 != files[files.len() - 1].0);
                    } else {
                        assert(kept[a].0 != kept[b].0);
                    }
                }
            }
        }
    }
}

/// The editor wins: after it is put, a file is the only one with its key.
pub proof fn law_editor_file_wins(files: Seq<(Seq<char>, Seq<u8>)>, f: (Seq<char>, Seq<u8>), i: int)
    requires
        0 <= i < put(files, f).len(),
        put(files, f)[i].0 == f.0,
    ensures
        put(files, f)[i] == f,
{
    lemma_without_key(files, f.0);
    if i < without_key(files, f.0).len() {
        assert(without_key(files, f.0)[i].0 == f.0);
    }
}

/// The caller wins over the built-in headers: a header whose key is taken changes nothing.
pub proof fn law_caller_file_wins(files: Seq<(Seq<char>, Seq<u8>)>, header: (Seq<char>, Seq<u8>))
    requires
        has_key(files, header.0),
    ensures
        add_absent(files, header) == files,
{
}

/// Assembling a file system never makes a key ambiguous.
pub proof fn law_assembled_keys_are_unique(
    files: Seq<(Seq<char>, Seq<u8>)>,
    headers: Seq<(Seq<char>, Seq<u8>)>,
    sources: Seq<(Seq<char>, Seq<u8>)>,
)
    requires
        keys_unique(files),
    ensures
        keys_unique(put_all(add_all_absent(files, headers), sources)),
    decreases headers.len() + sources.len(),
{
    if sources.len() > 0 {
        law_assembled_keys_are_unique(files, headers, sources.drop_last());
        let before = put_all(add_all_absent(files, headers), sources.drop_last());
        let f = sources.last();
        lemma_without_key(before, f.0);
        let kept = without_key(before, f.0);
        assert forall|a: int, b: int| 0 <= a < b < put(before, f).len() implies (
        #[trigger] put(before, f)[a]).0 != (#[trigger] put(before, f)[b]).0 by {
            if b == kept.len() {
                assert(kept[a].0 != f.0);
            } else {
                assert(kept[a].0 != kept[b].0);
            }
        }
    } else if headers.len() > 0 {
        law_assembled_keys_are_unique(files, headers.drop_last(), sources);
        let before = add_all_absent(files, headers.drop_last());
        let h = headers.last();
        assert(keys_unique(before));
        if !has_key(before, h.0) {
            let all = before.push(h);
            assert forall|a: int, b: int| 0 <= a < b < all.len() implies (#[trigger] all[a]).0 != (
            #[trigger] all[b]).0 by {
                if b < before.len() {
                    assert(before[a].0 != before[b].0);
                } else {
                    assert(before[a].0 == all[a].0);
                }
            }
        }
    }
}

/// No line of `text` is a marker.
pub open spec fn unmarked(text: Seq<char>) -> bool
    decreases text.len(),
{
    text.len() == 0 || (spec_marker_name(text.take(first_at(text, '\n') as int)) is None
        && unmarked(text.skip(first_line_len(text) as int)))
}

/// Without markers the files are the one that is being filled.
proof fn lemma_unmarked(text: Seq<char>, name: Seq<char>, cur: Seq<char>)
    requires
        unmarked(text),
    ensures
        files_from(text, name, cur) == seq![(name, cur + text)],
    decreases text.len(),
{
    if text.len() == 0 {
        assert(cur + text =~= cur);
    } else {
        let n = first_line_len(text) as int;
        crate::text::lemma_first_at(text, '\n');
        lemma_unmarked(text.skip(n), name, cur + text.take(n));
        assert(cur + text.take(n) + text.skip(n) =~= cur + text);
    }
}

/// A buffer without markers is one file, `in.c`, and loses nothing.
pub proof fn law_unmarked_buffer_is_one_file(text: Seq<char>)
    requires
        unmarked(text),
    ensures
        spec_split_multifile(text) == seq![("in.c"@, encode_utf8(text))],
{
    lemma_unmarked(text, "in.c"@, Seq::empty());
    assert(Seq::<char>::empty() + text =~= text);
    assert(spec_split_multifile(text) =~= seq![("in.c"@, encode_utf8(text))]);
}

/// The contents of the first file with the key `k`; nothing if there is none.
pub open spec fn file_contents(files: Seq<(Seq<char>, Seq<u8>)>, k: Seq<char>) -> Seq<u8>
    decreases files.len(),
{
    if files.len() == 0 {
        Seq::empty()
    } else if files[0].0 == k {
        files[0].1
    } else {
        file_contents(files.drop_first(), k)
    }
}

/// What a run wrote to the file `key`; nothing if it wrote none.
pub fn read_back(files: &[MemFile], key: &str) -> (r: Vec<u8>)
    ensures
        r@ == file_contents(files_view(files@), key@),
{
    let ghost all = files_view(files@);
    let mut i: usize = 0;
    assert(all.skip(0) =~= all);
    while i < files.len()
        invariant
            i <= files.len(),
            all == files_view(files@),
            file_contents(all, key@) == file_contents(all.skip(i as int), key@),
        decreases files.len() - i,
    {
        assert(all.skip(i as int)[0] == (files@[i as int].key@, files@[i as int].bytes@));
        if same_text(files[i].key.as_str(), key) {
            return slice_to_vec(files[i].bytes.as_slice());
        }
        assert(all.skip(i as int).drop_first() =~= all.skip(i as int + 1));
        i = i + 1;
    }
    Vec::new()
}

/// The arguments of a parse of the editor's file.
pub open spec fn spec_nifler_card_argv() -> Seq<Seq<u8>> {
    seq![
        encode_utf8("nifler"@),
        encode_utf8("p"@),
        encode_utf8("/in.nim"@),
        encode_utf8("/out.p.nif"@),
    ]
}

/// The arguments with which the prebuilt library unit is compiled.
pub open spec fn spec_libc_unit_argv() -> Seq<Seq<u8>> {
    seq![
        encode_utf8("chibicc"@),
        encode_utf8("--emit-object"@),
        encode_utf8("--data-page"@),
        encode_utf8("65536"@),
        encode_utf8("-Iinclude"@),
        encode_utf8("-g"@),
        encode_utf8("/__pg_libc.c"@),
    ]
}

/// The arguments of a parse of the editor's file to its syntax tree.
pub fn nifler_card_argv() -> (r: Vec<Vec<u8>>)
    ensures
        byte_rows(r@) == spec_nifler_card_argv(),
        byte_rows(r@) == seq![
            encode_utf8("nifler"@),
            encode_utf8("p"@),
            encode_utf8("/in.nim"@),
            encode_utf8("/out.p.nif"@),
        ],
{
    let mut argv: Vec<Vec<u8>> = Vec::new();
    argv.push("nifler".as_bytes_vec());
    argv.push("p".as_bytes_vec());
    argv.push("/in.nim".as_bytes_vec());
    argv.push("/out.p.nif".as_bytes_vec());
    assert(byte_rows(argv@) =~= seq![
        encode_utf8("nifler"@),
        encode_utf8("p"@),
        encode_utf8("/in.nim"@),
        encode_utf8("/out.p.nif"@),
    ]);
    argv
}

/// The arguments with which the prebuilt library unit is compiled.
pub fn libc_unit_argv() -> (r: Vec<Vec<u8>>)
    ensures
        byte_rows(r@) == spec_libc_unit_argv(),
        byte_rows(r@) == seq![
            encode_utf8("chibicc"@),
            encode_utf8("--emit-object"@),
            encode_utf8("--data-page"@),
            encode_utf8("65536"@),
            encode_utf8("-Iinclude"@),
            encode_utf8("-g"@),
            encode_utf8("/__pg_libc.c"@),
        ],
{
    let mut argv: Vec<Vec<u8>> = Vec::new();
    argv.push("chibicc".as_bytes_vec());
    argv.push("--emit-object".as_bytes_vec());
    argv.push("--data-page".as_bytes_vec());
    argv.push("65536".as_bytes_vec());
    argv.push("-Iinclude".as_bytes_vec());
    argv.push("-g".as_bytes_vec());
    argv.push("/__pg_libc.c".as_bytes_vec());
    assert(byte_rows(argv@) =~= seq![
        encode_utf8("chibicc"@),
        encode_utf8("--emit-object"@),
        encode_utf8("--data-page"@),
        encode_utf8("65536"@),
        encode_utf8("-Iinclude"@),
        encode_utf8("-g"@),
        encode_utf8("/__pg_libc.c"@),
    ]);
    argv
}

/// Why a library unit is not fit to be shipped.
#[derive(Clone, Copy, Debug, PartialEq, Eq, Structural)]
pub enum UnitFault {
    /// The compiler failed with this status.
    Compiler(i32),
    /// The unit carries no debug information.
    NoDebugInfo,
    /// The unit does not export the library's bodies.
    NoBodies,
}

/// Some export is called `printf`.
pub open spec fn exports_printf(exports: Seq<ExportEntry>) -> bool {
    exists|i: int| 0 <= i < exports.len() && (#[trigger] exports[i]).name@ == "printf"@
}

/// What checking a library unit comes to.
pub open spec fn spec_check_libc_unit(
    status: i32,
    debug_info: bool,
    exports: Seq<ExportEntry>,
) -> Result<(), UnitFault> {
    if status != STATUS_OK && status != STATUS_EXIT {
        Err(UnitFault::Compiler(status))
    } else if !debug_info {
        Err(UnitFault::NoDebugInfo)
    } else if !exports_printf(exports) {
        Err(UnitFault::NoBodies)
    } else {
        Ok(())
    }
}

/// Checks a library unit before it is shipped: it compiled, a session can step into it, and it has
/// the bodies.
pub fn check_libc_unit(status: i32, debug_info: bool, exports: &[ExportEntry]) -> (r: Result<
    (),
    UnitFault,
>)
    ensures
        r == spec_check_libc_unit(status, debug_info, exports@),
        r == (if status != STATUS_OK && status != STATUS_EXIT {
            Err::<(), UnitFault>(UnitFault::Compiler(status))
        } else if !debug_info {
            Err(UnitFault::NoDebugInfo)
        } else if !exports_printf(exports@) {
            Err(UnitFault::NoBodies)
        } else {
            Ok(())
        }),
{
    if status != STATUS_OK && status != STATUS_EXIT {
        return Err(UnitFault::Compiler(status));
    }
    if !debug_info {
        return Err(UnitFault::NoDebugInfo);
    }
    let mut i: usize = 0;
    while i < exports.len()
        invariant
            i <= exports.len(),
            forall|j: int| 0 <= j < i ==> (#[trigger] exports@[j]).name@ != "printf"@,
            status == STATUS_OK || status == STATUS_EXIT,
            debug_info,
        decreases exports.len() - i,
    {
        if same_text(exports[i].name.as_str(), "printf") {
            assert(exports_printf(exports@));
            return Ok(());
        }
        i = i + 1;
    }
    Err(UnitFault::NoBodies)
}

/// A library unit is fit exactly if it compiled, carries debug information and has the bodies; the
/// compiler's own status is handed on.
pub proof fn law_fit_unit_has_everything(status: i32, debug_info: bool, exports: Seq<ExportEntry>)
    ensures
        spec_check_libc_unit(status, debug_info, exports) is Ok <==> (status == 0 || status == 5)
            && debug_info && exists|i: int|
            0 <= i < exports.len() && (#[trigger] exports[i]).name@ == "printf"@,
        spec_check_libc_unit(status, debug_info, exports) matches Err(UnitFault::Compiler(s))
            ==> s == status && status != 0 && status != 5,
        spec_check_libc_unit(status, debug_info, exports) == Err::<(), UnitFault>(
            UnitFault::NoDebugInfo,
        ) ==> !debug_info,
        spec_check_libc_unit(status, debug_info, exports) == Err::<(), UnitFault>(
            UnitFault::NoBodies,
        ) ==> debug_info && !exports_printf(exports),
{
}

/// Debug information is asked for by one more argument, and the file to compile stays the last.
pub proof fn law_debug_info_is_one_more_argument(tu: Seq<u8>)
    ensures
        ({
            let with = spec_chibicc_card_argv(true);
            let without = spec_chibicc_card_argv(false);
            &&& with.last() == encode_utf8("/in.c"@)
            &&& without.last() == encode_utf8("/in.c"@)
            &&& with.drop_last() == without.drop_last().push(encode_utf8("-g"@))
        }),
        ({
            let with = spec_chibicc_selfhost_argv(tu, true);
            let without = spec_chibicc_selfhost_argv(tu, false);
            &&& with.last() == tu
            &&& without.last() == tu
            &&& with.drop_last() == without.drop_last().push(encode_utf8("-g"@))
        }),
        spec_chibicc_card_argv(true)[0] == spec_chibicc_selfhost_argv(tu, true)[0],
{
    assert(spec_chibicc_card_argv(true).drop_last() =~= spec_chibicc_card_argv(
        false,
    ).drop_last().push(encode_utf8("-g"@)));
    assert(spec_chibicc_selfhost_argv(tu, true).drop_last() =~= spec_chibicc_selfhost_argv(
        tu,
        false,
    ).drop_last().push(encode_utf8("-g"@)));
}

/// The contents of a key are those of its first file, and nothing where no file has it.
pub proof fn law_contents_are_the_first_files(
    files: Seq<(Seq<char>, Seq<u8>)>,
    k: Seq<char>,
    i: int,
)
    ensures
        (0 <= i < files.len() && files[i].0 == k && forall|j: int|
            0 <= j < i ==> (#[trigger] files[j]).0 != k) ==> file_contents(files, k) == files[i].1,
        !has_key(files, k) ==> file_contents(files, k).len() == 0,
    decreases files.len(),
{
    if files.len() > 0 && files[0].0 != k {
        let rest = files.drop_first();
        law_contents_are_the_first_files(rest, k, i - 1);
        if 0 <= i < files.len() && files[i].0 == k && forall|j: int|
            0 <= j < i ==> (#[trigger] files[j]).0 != k {
            assert(rest[i - 1] == files[i]);
            assert forall|j: int| 0 <= j < i - 1 implies (#[trigger] rest[j]).0 != k by {
                assert(rest[j] == files[j + 1]);
            }
        }
        if !has_key(files, k) {
            assert forall|j: int| 0 <= j < rest.len() implies (#[trigger] rest[j]).0 != k by {
                assert(rest[j] == files[j + 1]);
            }
        }
    }
}

/// The contents of a key behind files that do not have it.
proof fn lemma_contents_of_push(
    files: Seq<(Seq<char>, Seq<u8>)>,
    f: (Seq<char>, Seq<u8>),
    k: Seq<char>,
)
    ensures
        has_key(files, k) ==> file_contents(files.push(f), k) == file_contents(files, k),
        !has_key(files, k) && f.0 == k ==> file_contents(files.push(f), k) == f.1,
        f.0 != k ==> file_contents(files.push(f), k) == file_contents(files, k),
        has_key(files.push(f), k) <==> has_key(files, k) || f.0 == k,
    decreases files.len(),
{
    let all = files.push(f);
    assert(has_key(all, k) <==> has_key(files, k) || f.0 == k) by {
        if f.0 == k {
            assert(all[files.len() as int].0 == k);
        }
        if has_key(files, k) {
            let i = choose|i: int| 0 <= i < files.len() && (#[trigger] files[i]).0 == k;
            assert(all[i].0 == k);
        }
        if has_key(all, k) && f.0 != k {
            let i = choose|i: int| 0 <= i < all.len() && (#[trigger] all[i]).0 == k;
            assert(files[i].0 == k);
        }
    }
    if files.len() == 0 {
        assert(all.drop_first() =~= files);
    } else {
        let rest = files.drop_first();
        lemma_contents_of_push(rest, f, k);
        assert(all.drop_first() =~= rest.push(f));
        assert(all[0] == files[0]);
        if files[0].0 != k {
            assert(has_key(files, k) <==> has_key(rest, k)) by {
                if has_key(files, k) {
                    let i = choose|i: int| 0 <= i < files.len() && (#[trigger] files[i]).0 == k;
                    assert(rest[i - 1].0 == k);
                }
                if has_key(rest, k) {
                    let i = choose|i: int| 0 <= i < rest.len() && (#[trigger] rest[i]).0 == k;
                    assert(files[i + 1].0 == k);
                }
            }
        }
    }
}

/// Dropping one key leaves every other one as it was.
proof fn lemma_contents_without(files: Seq<(Seq<char>, Seq<u8>)>, gone: Seq<char>, k: Seq<char>)
    requires
        gone != k,
    ensures
        file_contents(without_key(files, gone), k) == file_contents(files, k),
        has_key(without_key(files, gone), k) <==> has_key(files, k),
    decreases files.len(),
{
    if files.len() > 0 {
        let less = files.drop_last();
        lemma_contents_without(less, gone, k);
        assert(less.push(files.last()) =~= files);
        lemma_contents_of_push(less, files.last(), k);
        lemma_contents_of_push(without_key(less, gone), files.last(), k);
    }
}

/// A file that is put is read back, and every other key reads as before.
pub proof fn law_put_file_is_read_back(
    files: Seq<(Seq<char>, Seq<u8>)>,
    f: (Seq<char>, Seq<u8>),
    k: Seq<char>,
)
    ensures
        file_contents(put(files, f), f.0) == f.1,
        k != f.0 ==> file_contents(put(files, f), k) == file_contents(files, k),
        has_key(put(files, f), k) <==> has_key(files, k) || k == f.0,
{
    lemma_without_key(files, f.0);
    lemma_contents_of_push(without_key(files, f.0), f, f.0);
    lemma_contents_of_push(without_key(files, f.0), f, k);
    if k != f.0 {
        lemma_contents_without(files, f.0, k);
    }
}

/// Headers fill the gaps: what is there reads as before, and a key that is free reads as the first
/// header that has it.
proof fn lemma_contents_of_headers(
    files: Seq<(Seq<char>, Seq<u8>)>,
    headers: Seq<(Seq<char>, Seq<u8>)>,
    k: Seq<char>,
)
    ensures
        has_key(files, k) ==> file_contents(add_all_absent(files, headers), k) == file_contents(
            files,
            k,
        ),
        !has_key(files, k) ==> file_contents(add_all_absent(files, headers), k) == file_contents(
            headers,
            k,
        ),
        has_key(add_all_absent(files, headers), k) <==> has_key(files, k) || has_key(headers, k),
    decreases headers.len(),
{
    if headers.len() == 0 {
        law_contents_are_the_first_files(files, k, 0);
    } else {
        let less = headers.drop_last();
        let h = headers.last();
        lemma_contents_of_headers(files, less, k);
        assert(less.push(h) =~= headers);
        lemma_contents_of_push(less, h, k);
        lemma_contents_of_push(add_all_absent(files, less), h, k);
        law_contents_are_the_first_files(less, k, 0);
        law_contents_are_the_first_files(add_all_absent(files, less), k, 0);
    }
}

/// The compiler reads the editor's text: after the files of the editor are put, a key of theirs reads
/// as the last of them that has it, and any other key as before.
proof fn lemma_contents_of_sources(
    files: Seq<(Seq<char>, Seq<u8>)>,
    sources: Seq<(Seq<char>, Seq<u8>)>,
    k: Seq<char>,
    i: int,
)
    ensures
        (0 <= i < sources.len() && sources[i].0 == k && forall|j: int|
            i < j < sources.len() ==> (#[trigger] sources[j]).0 != k) ==> file_contents(
            put_all(files, sources),
            k,
        ) == sources[i].1,
        !has_key(sources, k) ==> file_contents(put_all(files, sources), k) == file_contents(files, k),
    decreases sources.len(),
{
    if sources.len() > 0 {
        let less = sources.drop_last();
        let f = sources.last();
        lemma_contents_of_sources(files, less, k, i);
        law_put_file_is_read_back(put_all(files, less), f, k);
        if 0 <= i < sources.len() && sources[i].0 == k && forall|j: int|
            i < j < sources.len() ==> (#[trigger] sources[j]).0 != k {
            if i < less.len() {
                assert(sources[less.len() as int].0 != k);
                assert(less[i] == sources[i]);
                assert forall|j: int| i < j < less.len() implies (#[trigger] less[j]).0 != k by {
                    assert(less[j] == sources[j]);
                }
            }
        }
        if !has_key(sources, k) {
            assert(sources[less.len() as int].0 != k);
            assert forall|j: int| 0 <= j < less.len() implies (#[trigger] less[j]).0 != k by {
                assert(less[j] == sources[j]);
            }
        }
    }
}

/// The compiler reads every key from where it should: the editor's last file of that key, else the
/// caller's file, else the built-in header, else nothing.
pub proof fn law_compiler_reads_the_right_file(
    files: Seq<(Seq<char>, Seq<u8>)>,
    headers: Seq<(Seq<char>, Seq<u8>)>,
    sources: Seq<(Seq<char>, Seq<u8>)>,
    k: Seq<char>,
    i: int,
)
    ensures
        ({
            let all = put_all(add_all_absent(files, headers), sources);
            &&& (0 <= i < sources.len() && sources[i].0 == k && forall|j: int|
                i < j < sources.len() ==> (#[trigger] sources[j]).0 != k) ==> file_contents(all, k)
                == sources[i].1
            &&& !has_key(sources, k) && has_key(files, k) ==> file_contents(all, k)
                == file_contents(files, k)
            &&& !has_key(sources, k) && !has_key(files, k) ==> file_contents(all, k)
                == file_contents(headers, k)
        }),
{
    lemma_contents_of_headers(files, headers, k);
    lemma_contents_of_sources(add_all_absent(files, headers), sources, k, i);
}

/// Adding directories keeps those that are there and adds exactly those that are new.
pub proof fn law_directories_are_added_once(
    dirs: Seq<Seq<char>>,
    more: Seq<Seq<char>>,
    d: Seq<char>,
)
    ensures
        with_dirs(dirs, more).contains(d) <==> dirs.contains(d) || more.contains(d),
        dirs.no_duplicates() ==> with_dirs(dirs, more).no_duplicates(),
    decreases more.len(),
{
    if more.len() > 0 {
        let less = more.drop_last();
        let x = more.last();
        law_directories_are_added_once(dirs, less, d);
        law_directories_are_added_once(dirs, less, x);
        let before = with_dirs(dirs, less);
        let after = with_dir(before, x);
        assert(more.contains(d) <==> less.contains(d) || d == x) by {
            if d == x {
                assert(more[less.len() as int] == d);
            }
            if less.contains(d) {
                let j = choose|j: int| 0 <= j < less.len() && less[j] == d;
                assert(more[j] == d);
            }
            if more.contains(d) && d != x {
                let j = choose|j: int| 0 <= j < more.len() && more[j] == d;
                assert(less[j] == d);
            }
        }
        if !before.contains(x) {
            assert(after.contains(d) <==> before.contains(d) || d == x) by {
                if d == x {
                    assert(after[before.len() as int] == d);
                }
                if before.contains(d) {
                    let j = choose|j: int| 0 <= j < before.len() && before[j] == d;
                    assert(after[j] == d);
                }
                if after.contains(d) && d != x {
                    let j = choose|j: int| 0 <= j < after.len() && after[j] == d;
                    assert(before[j] == d);
                }
            }
        }
    }
}

/// Every directory above a file of the editor is there, and so is every one that was; no other is.
pub proof fn law_every_file_has_its_directories(
    dirs: Seq<Seq<char>>,
    files: Seq<(Seq<char>, Seq<u8>)>,
    d: Seq<char>,
)
    ensures
        with_ancestors(dirs, files).contains(d) <==> dirs.contains(d) || exists|i: int|
            0 <= i < files.len() && ancestors((#[trigger] files[i]).0).contains(d),
    decreases files.len(),
{
    if files.len() > 0 {
        let less = files.drop_last();
        law_every_file_has_its_directories(dirs, less, d);
        law_directories_are_added_once(
            with_ancestors(dirs, less),
            ancestors(files.last().0),
            d,
        );
        if exists|i: int| 0 <= i < less.len() && ancestors((#[trigger] less[i]).0).contains(d) {
            let i = choose|i: int|
                0 <= i < less.len() && ancestors((#[trigger] less[i]).0).contains(d);
            assert(ancestors(files[i].0).contains(d));
        }
        if ancestors(files.last().0).contains(d) {
            assert(ancestors(files[less.len() as int].0).contains(d));
        }
        if exists|i: int| 0 <= i < files.len() && ancestors((#[trigger] files[i]).0).contains(d) {
            let i = choose|i: int|
                0 <= i < files.len() && ancestors((#[trigger] files[i]).0).contains(d);
            if i < less.len() {
                assert(ancestors(less[i].0).contains(d));
            }
        }
    }
}

/// A path is its segments with slashes between them.
proof fn lemma_path_is_joined(segs: Seq<Seq<char>>, n: nat)
    requires
        1 <= n <= segs.len(),
        segs[0].len() > 0,
    ensures
        path_of(segs, n) == spec_join(segs.take(n as int), seq!['/']),
        path_of(segs, n).len() > 0,
    decreases n,
{
    let head = segs.take(n as int);
    if n == 1 {
        reveal_with_fuel(path_of, 2);
        assert(head =~= seq![segs[0]]);
    } else {
        lemma_path_is_joined(segs, (n - 1) as nat);
        assert(head.drop_last() =~= segs.take(n - 1));
        assert(path_of(segs, n) =~= spec_join(head, seq!['/']));
    }
}

/// The directories above a file lead to it segment by segment: the innermost is what precedes the
/// file's name, each lies in the one before, and the outermost is one segment.
pub proof fn law_directories_lead_to_their_file(key: Seq<char>, i: int, n: int)
    requires
        key.len() > 0,
        key[0] != '/',
        last_at(key, '/') == Some(i as nat),
        0 <= i,
        0 <= n,
    ensures
        ({
            let up = ancestors(key);
            &&& up.len() > 0
            &&& up.last() == key.take(i)
            &&& !up[0].contains('/')
            &&& n + 1 < up.len() ==> {
                let k = up[n].len() as int;
                &&& k < up[n + 1].len()
                &&& up[n + 1].take(k) == up[n]
                &&& up[n + 1][k] == '/'
                &&& forall|j: int| k < j < up[n + 1].len() ==> #[trigger] up[n + 1][j] != '/'
            }
        }),
{
    crate::text::lemma_last_at(key, '/');
    let dir = key.take(i);
    let segs = spec_split(dir, '/');
    law_join_undoes_split(dir, '/');
    crate::text::lemma_first_at(dir, '/');
    assert(dir[0] == key[0]);
    assert(segs[0].len() > 0);
    let up = ancestors(key);
    lemma_path_is_joined(segs, segs.len());
    assert(segs.take(segs.len() as int) =~= segs);
    assert(up.last() == path_of(segs, segs.len()));
    assert(up[0] == segs[0]) by {
        reveal_with_fuel(path_of, 2);
    }
    assert forall|j: int| 0 <= j < segs[0].len() implies segs[0][j] != '/' by {
        assert(spec_split(dir, '/')[0][j] != '/');
    }
    if n + 1 < up.len() {
        lemma_path_is_joined(segs, (n + 1) as nat);
        let k = up[n].len() as int;
        assert(up[n + 1] == up[n].push('/') + segs[n + 1]);
        assert(up[n + 1].take(k) =~= up[n]);
        assert forall|j: int| k < j < up[n + 1].len() implies #[trigger] up[n + 1][j] != '/' by {
            assert(up[n + 1][j] == segs[n + 1][j - k - 1]);
            assert(spec_split(dir, '/')[n + 1][j - k - 1] != '/');
        }
    }
}

/// Text before a marker goes to the file that is being filled.
proof fn lemma_unmarked_front(before: Seq<char>, rest: Seq<char>, name: Seq<char>, cur: Seq<char>)
    requires
        unmarked(before),
        before.len() > 0 ==> before.last() == '\n',
    ensures
        files_from(before + rest, name, cur) == files_from(rest, name, cur + before),
    decreases before.len(),
{
    let all = before + rest;
    if before.len() == 0 {
        assert(all =~= rest);
        assert(cur + before =~= cur);
    } else {
        crate::text::lemma_first_at(before, '\n');
        let i = first_at(before, '\n') as int;
        assert(before[before.len() - 1] == '\n');
        assert(i < before.len());
        assert forall|j: int| 0 <= j < i implies all[j] != '\n' by {
            assert(all[j] == before[j]);
        }
        crate::text::lemma_first_at_is(all, '\n', i);
        let n = i + 1;
        assert(all.take(i) =~= before.take(i));
        assert(all.take(n) =~= before.take(n));
        assert(all.skip(n) =~= before.skip(n) + rest);
        if before.skip(n).len() > 0 {
            assert(before.skip(n).last() == before.last());
        }
        lemma_unmarked_front(before.skip(n), rest, name, cur + before.take(n));
        assert(cur + before.take(n) + before.skip(n) =~= cur + before);
    }
}

/// A marker ends the file that is being filled and starts the one that it names: that file holds what
/// follows, up to the next marker, and the marker line goes to neither.
pub proof fn law_marker_starts_its_file(
    before: Seq<char>,
    line: Seq<char>,
    rest: Seq<char>,
    name: Seq<char>,
    cur: Seq<char>,
    next: Seq<char>,
)
    requires
        unmarked(before),
        before.len() > 0 ==> before.last() == '\n',
        forall|j: int| 0 <= j < line.len() ==> line[j] != '\n',
        spec_marker_name(line) == Some(next),
    ensures
        files_from(before + (line.push('\n') + rest), name, cur) == seq![(name, cur + before)]
            + files_from(rest, next, Seq::empty()),
        unmarked(rest) ==> files_from(before + (line.push('\n') + rest), name, cur) == seq![
            (name, cur + before),
            (next, rest),
        ],
{
    let tail = line.push('\n') + rest;
    lemma_unmarked_front(before, tail, name, cur);
    let i = line.len() as int;
    assert forall|j: int| 0 <= j < i implies tail[j] != '\n' by {
        assert(tail[j] == line[j]);
    }
    crate::text::lemma_first_at_is(tail, '\n', i);
    assert(tail.take(i) =~= line);
    assert(tail.skip(i + 1) =~= rest);
    if unmarked(rest) {
        lemma_unmarked(rest, next, Seq::empty());
        assert(Seq::<char>::empty() + rest =~= rest);
        assert(seq![(name, cur + before)] + seq![(next, rest)] =~= seq![
            (name, cur + before),
            (next, rest),
        ]);
    }
}

/// A marker names what stands behind its tag: any name without white space around it or a slash
/// before it is read back, and a slash before it is dropped.
pub proof fn law_marker_names_its_file(name: Seq<char>)
    requires
        name.len() > 0,
        !spec_is_white(name[0]),
        !spec_is_white(name.last()),
        name[0] != '/',
    ensures
        spec_marker_name("////file:"@ + name) == Some(name),
        spec_marker_name("////file:/"@ + name) == Some(name),
{
    reveal_strlit("////file:");
    reveal_strlit("////file:/");
    reveal_strlit("////");
    let a = "////file:"@ + name;
    assert("////"@ =~= seq!['/', '/', '/', '/']);
    assert(a.subrange(0, 4) =~= "////"@);
    assert(a.skip(4).skip(5) =~= name);
    assert(spec_trim_start(a) == a);
    assert(spec_trim_start(a.skip(4)) == a.skip(4));
    assert(spec_trim(name) == name);
    assert(spec_strip_lead(name, '/') == name);
    let b = "////file:/"@ + name;
    assert(b.subrange(0, 4) =~= "////"@);
    let c = seq!['/'] + name;
    assert(b.skip(4).skip(5) =~= c);
    assert(spec_trim_start(b) == b);
    assert(spec_trim_start(b.skip(4)) == b.skip(4));
    assert(c.last() == name.last());
    assert(spec_trim(c) == c);
    assert(c.drop_first() =~= name);
    reveal_with_fuel(spec_strip_lead, 2);
}

/// Only a line that starts with four slashes, white space before them aside, is a marker.
pub proof fn law_other_lines_are_no_markers(line: Seq<char>, j: int)
    requires
        0 <= j < line.len(),
        !spec_is_white(line[j]),
        forall|k: int| 0 <= k < j ==> spec_is_white(#[trigger] line[k]),
        !starts_with(line.skip(j), "////"@),
    ensures
        spec_marker_name(line) is None,
{
    let at = crate::text::lemma_trim_start(line);
    if at < j {
        assert(line.skip(at)[0] == line[at]);
    } else if j < at {
        assert(spec_is_white(line[j]));
    }
}

/// A built-in header is read under its own key, unless an earlier one has the same.
pub proof fn law_header_is_read_under_its_key(headers: Seq<Vec<u8>>, i: int)
    requires
        headers.len() == spec_header_keys().len(),
        0 <= i < headers.len(),
        forall|j: int| 0 <= j < i ==> #[trigger] spec_header_keys()[j] != spec_header_keys()[i],
    ensures
        file_contents(spec_include_files(headers), spec_header_keys()[i]) == headers[i]@,
        spec_include_files(headers).len() == headers.len(),
{
    let files = spec_include_files(headers);
    assert forall|j: int| 0 <= j < i implies (#[trigger] files[j]).0 != spec_header_keys()[i] by {
        assert(files[j].0 == spec_header_keys()[j]);
    }
    law_contents_are_the_first_files(files, spec_header_keys()[i], i);
}

/// The library unit is compiled as the editor's file is, with the same pages and with debug
/// information, but to an object that can be linked, as the compiler's own sources are.
pub proof fn law_library_is_compiled_like_the_editors_file(tu: Seq<u8>)
    ensures
        ({
            let lib = spec_libc_unit_argv();
            let card = spec_chibicc_card_argv(true);
            let own = spec_chibicc_selfhost_argv(tu, true);
            &&& lib[0] == card[0]
            &&& lib.subrange(2, 4) == card.subrange(1, 3)
            &&& lib[1] == own[1]
            &&& lib[lib.len() - 2] == card[card.len() - 2]
            &&& lib.last() == encode_utf8("/__pg_libc.c"@)
        }),
        spec_nifler_card_argv().len() == 4,
        spec_nifler_card_argv()[2] == encode_utf8("/in.nim"@),
        spec_nifler_card_argv().last() == encode_utf8("/out.p.nif"@),
{
    assert(spec_libc_unit_argv().subrange(2, 4) =~= spec_chibicc_card_argv(true).subrange(1, 3));
}

} // verus!
