//! Numbers and strings as text.

use vstd::prelude::*;

use crate::text::push_char;

verus! {

/// The decimal digit `d`.
pub open spec fn digit(d: nat) -> char {
    (48 + d) as char
}

/// `n` in decimal.
pub open spec fn dec(n: nat) -> Seq<char>
    decreases n,
{
    if n < 10 {
        seq![digit(n)]
    } else {
        dec(n / 10).push(digit(n % 10))
    }
}

/// `i` in decimal, with its sign if it is negative.
pub open spec fn dec_int(i: int) -> Seq<char> {
    if i < 0 {
        seq!['-'] + dec((-i) as nat)
    } else {
        dec(i as nat)
    }
}

/// Appends `n` in decimal.
pub fn push_dec(out: &mut String, n: u64)
    ensures
        final(out)@ == old(out)@ + dec(n as nat),
    decreases n,
{
    if n >= 10 {
        push_dec(out, n / 10);
    }
    let d: u8 = (n % 10) as u8;
    push_char(out, (48 + d) as char);
    assert(out@ =~= old(out)@ + dec(n as nat));
}

/// Appends `i` in decimal.
pub fn push_int(out: &mut String, i: i64)
    ensures
        final(out)@ == old(out)@ + dec_int(i as int),
{
    if i < 0 {
        push_char(out, '-');
        push_dec(out, (-(i as i128)) as u64);
        assert(out@ =~= old(out)@ + dec_int(i as int));
    } else {
        push_dec(out, i as u64);
    }
}

/// The number that decimal digits stand for.
pub open spec fn dec_value(s: Seq<char>) -> nat
    decreases s.len(),
{
    if s.len() == 0 {
        0
    } else {
        10 * dec_value(s.drop_last()) + (s.last() as u32 - 48) as nat
    }
}

/// A number is read back from its decimal form, which has no superfluous zero in front.
pub proof fn law_decimal_round_trip(n: nat)
    ensures
        dec_value(dec(n)) == n,
        dec(n).len() >= 1,
        n > 0 ==> dec(n)[0] != '0',
    decreases n,
{
    if n < 10 {
        assert(dec(n).drop_last() =~= Seq::empty());
        assert(dec_value(dec(n).drop_last()) == 0);
    } else {
        law_decimal_round_trip(n / 10);
        assert(dec(n).drop_last() =~= dec(n / 10));
        assert(dec(n)[0] == dec(n / 10)[0]);
    }
}

/// The hexadecimal digit `d`.
pub open spec fn hex_digit(d: nat) -> char {
    if d < 10 {
        (48 + d) as char
    } else {
        (87 + d) as char
    }
}

/// How a character stands inside a JSON string.
pub open spec fn json_escape(c: char) -> Seq<char> {
    if c == '"' {
        seq!['\\', '"']
    } else if c == '\\' {
        seq!['\\', '\\']
    } else if c == '\n' {
        seq!['\\', 'n']
    } else if c == '\r' {
        seq!['\\', 'r']
    } else if c == '\t' {
        seq!['\\', 't']
    } else if (c as u32) < 0x20 {
        seq!['\\', 'u', '0', '0', hex_digit((c as u32 / 16) as nat), hex_digit((c as u32 % 16) as nat)]
    } else {
        seq![c]
    }
}

/// How a text stands inside a JSON string.
pub open spec fn json_body(s: Seq<char>) -> Seq<char>
    decreases s.len(),
{
    if s.len() == 0 {
        Seq::empty()
    } else {
        json_body(s.drop_last()) + json_escape(s.last())
    }
}

/// A text as a JSON string.
pub open spec fn spec_json_string(s: Seq<char>) -> Seq<char> {
    seq!['"'] + json_body(s) + seq!['"']
}

/// Appends a character as it stands inside a JSON string.
fn push_escaped(out: &mut String, c: char)
    ensures
        final(out)@ == old(out)@ + json_escape(c),
{
    if c == '"' {
        push_char(out, '\\');
        push_char(out, '"');
    } else if c == '\\' {
        push_char(out, '\\');
        push_char(out, '\\');
    } else if c == '\n' {
        push_char(out, '\\');
        push_char(out, 'n');
    } else if c == '\r' {
        push_char(out, '\\');
        push_char(out, 'r');
    } else if c == '\t' {
        push_char(out, '\\');
        push_char(out, 't');
    } else if (c as u32) < 0x20 {
        let u: u8 = c as u32 as u8;
        let hi: u8 = u / 16;
        let lo: u8 = u % 16;
        push_char(out, '\\');
        push_char(out, 'u');
        push_char(out, '0');
        push_char(out, '0');
        push_char(out, (48 + hi) as char);
        if lo < 10 {
            push_char(out, (48 + lo) as char);
        } else {
            push_char(out, (87 + lo) as char);
        }
    } else {
        push_char(out, c);
    }
    assert(out@ =~= old(out)@ + json_escape(c));
}

/// A text as a JSON string.
pub fn json_string(s: &str) -> (r: String)
    ensures
        r@ == spec_json_string(s@),
{
    let mut out: String = String::new();
    push_char(&mut out, '"');
    assert(out@ =~= seq!['"'] + json_body(s@.take(0)));
    for c in it: s.chars()
        invariant
            it.seq() == s@,
            out@ == seq!['"'] + json_body(s@.take(it.index() as int)),
    {
        proof {
            let now = s@.take(it.index() as int + 1);
            assert(now.drop_last() =~= s@.take(it.index() as int));
            assert(now.last() == c);
        }
        let ghost before = out@;
        push_escaped(&mut out, c);
        assert(out@ =~= seq!['"'] + json_body(s@.take(it.index() as int + 1)));
    }
    assert(s@.take(s@.len() as int) =~= s@);
    push_char(&mut out, '"');
    assert(out@ =~= spec_json_string(s@));
    out
}

/// The value of a hexadecimal digit in lower case.
pub open spec fn hex_value(c: char) -> nat {
    if 'a' <= c {
        (c as u32 - 87) as nat
    } else {
        (c as u32 - 48) as nat
    }
}

/// The character that an escape stands for and how long it is, at the start of `t`.
pub open spec fn json_first(t: Seq<char>) -> (char, nat) {
    if t[0] != '\\' {
        (t[0], 1)
    } else if t[1] == 'n' {
        ('\n', 2)
    } else if t[1] == 'r' {
        ('\r', 2)
    } else if t[1] == 't' {
        ('\t', 2)
    } else if t[1] == 'u' {
        (
            (hex_value(t[2]) * 4096 + hex_value(t[3]) * 256 + hex_value(t[4]) * 16 + hex_value(
                t[5],
            )) as char,
            6,
        )
    } else {
        (t[1], 2)
    }
}

/// An escape stands for its character, and never shows a bare quote.
pub proof fn law_json_escape_is_read_back(c: char, rest: Seq<char>)
    ensures
        json_first(json_escape(c) + rest) == (c, json_escape(c).len()),
        json_escape(c)[0] != '"',
{
    let t = json_escape(c) + rest;
    assert(t[0] == json_escape(c)[0]);
    if json_escape(c).len() > 1 {
        assert(t[1] == json_escape(c)[1]);
    }
    if json_escape(c).len() > 2 {
        assert(t[2] == json_escape(c)[2]);
        assert(t[3] == json_escape(c)[3]);
        assert(t[4] == json_escape(c)[4]);
        assert(t[5] == json_escape(c)[5]);
    }
}

/// A stretch of generated text.
#[derive(Clone, Copy, Debug)]
pub enum Piece<'a> {
    /// Text as it stands.
    Text(&'a str),
    /// A number in decimal.
    Num(u64),
}

/// What a stretch of generated text is made of.
pub ghost enum PieceView {
    Text(Seq<char>),
    Num(nat),
}

impl<'a> View for Piece<'a> {
    type V = PieceView;

    open spec fn view(&self) -> PieceView {
        match *self {
            Piece::Text(s) => PieceView::Text(s@),
            Piece::Num(n) => PieceView::Num(n as nat),
        }
    }
}

impl PieceView {
    /// The text of the piece.
    pub open spec fn text(self) -> Seq<char> {
        match self {
            PieceView::Text(s) => s,
            PieceView::Num(n) => dec(n),
        }
    }
}

/// The pieces one after the other.
pub open spec fn rendered(pieces: Seq<PieceView>) -> Seq<char>
    decreases pieces.len(),
{
    if pieces.len() == 0 {
        Seq::empty()
    } else {
        rendered(pieces.drop_last()) + pieces.last().text()
    }
}

/// What the pieces are made of.
pub open spec fn piece_views(pieces: Seq<Piece>) -> Seq<PieceView> {
    pieces.map_values(|p: Piece| p@)
}

/// Appends the pieces one after the other.
pub fn push_pieces(out: &mut String, pieces: &[Piece])
    ensures
        final(out)@ == old(out)@ + rendered(piece_views(pieces@)),
{
    let ghost start = out@;
    let ghost all = piece_views(pieces@);
    let mut i: usize = 0;
    assert(start + rendered(all.take(0)) =~= start);
    while i < pieces.len()
        invariant
            i <= pieces.len(),
            all == piece_views(pieces@),
            out@ == start + rendered(all.take(i as int)),
        decreases pieces.len() - i,
    {
        proof {
            let now = all.take(i as int + 1);
            assert(now.drop_last() =~= all.take(i as int));
            assert(now.last() == pieces@[i as int]@);
        }
        match pieces[i] {
            Piece::Text(s) => out.append(s),
            Piece::Num(n) => push_dec(out, n),
        }
        assert(out@ =~= start + rendered(all.take(i as int + 1)));
        i = i + 1;
    }
    assert(all.take(all.len() as int) =~= all);
}

/// Bytes as hexadecimal escapes of a data literal.
pub open spec fn hex_escaped(bytes: Seq<u8>) -> Seq<char>
    decreases bytes.len(),
{
    if bytes.len() == 0 {
        Seq::empty()
    } else {
        hex_escaped(bytes.drop_last()) + seq![
            '\\',
            'x',
            hex_digit((bytes.last() / 16) as nat),
            hex_digit((bytes.last() % 16) as nat),
        ]
    }
}

/// The hexadecimal digit `d`.
fn hex_char(d: u8) -> (r: char)
    requires
        d < 16,
    ensures
        r == hex_digit(d as nat),
{
    if d < 10 {
        (48 + d) as char
    } else {
        (87 + d) as char
    }
}

/// Bytes as hexadecimal escapes of a data literal.
pub fn hex_escape(bytes: &[u8]) -> (r: String)
    ensures
        r@ == hex_escaped(bytes@),
{
    let mut out: String = String::new();
    let mut i: usize = 0;
    while i < bytes.len()
        invariant
            i <= bytes.len(),
            out@ == hex_escaped(bytes@.take(i as int)),
        decreases bytes.len() - i,
    {
        push_char(&mut out, '\\');
        push_char(&mut out, 'x');
        push_char(&mut out, hex_char(bytes[i] / 16));
        push_char(&mut out, hex_char(bytes[i] % 16));
        proof {
            let now = bytes@.take(i as int + 1);
            assert(now.drop_last() =~= bytes@.take(i as int));
            assert(now.last() == bytes@[i as int]);
            assert(out@ =~= hex_escaped(now));
        }
        i = i + 1;
    }
    assert(bytes@.take(bytes@.len() as int) =~= bytes@);
    out
}

/// The byte that the escape at place `i` stands for.
pub open spec fn escape_value(s: Seq<char>, i: int) -> nat {
    hex_value(s[4 * i + 2]) * 16 + hex_value(s[4 * i + 3])
}

/// Every byte is read back from its escape, four characters to a byte.
pub proof fn law_hex_escape_round_trip(bytes: Seq<u8>, i: int)
    requires
        0 <= i < bytes.len(),
    ensures
        hex_escaped(bytes).len() == 4 * bytes.len(),
        hex_escaped(bytes)[4 * i] == '\\',
        hex_escaped(bytes)[4 * i + 1] == 'x',
        escape_value(hex_escaped(bytes), i) == bytes[i],
    decreases bytes.len(),
{
    let less = bytes.drop_last();
    if less.len() > 0 {
        law_hex_escape_round_trip(less, if i < less.len() { i } else { 0 });
    } else {
        assert(hex_escaped(less) =~= Seq::<char>::empty());
    }
    let b = bytes.last();
    assert(b / 16 < 16);
    assert(hex_value(hex_digit((b / 16) as nat)) == b / 16);
    assert(hex_value(hex_digit((b % 16) as nat)) == b % 16);
}

/// A text as a literal in the notation of the language: in quotes, with escapes.
pub uninterp spec fn quoted_text(s: Seq<char>) -> Seq<char>;

/// A printable ASCII character that is neither a quote nor the backslash.
pub open spec fn stands_for_itself(c: char) -> bool {
    ' ' <= c <= '~' && c != '"' && c != '\'' && c != '\\'
}

/// Every character of `s` stands for itself in a literal.
pub open spec fn needs_no_escape(s: Seq<char>) -> bool {
    forall|i: int| 0 <= i < s.len() ==> stands_for_itself(#[trigger] s[i])
}

/// A text as a literal: as it is between double quotes, where nothing in it needs an escape.
pub open spec fn literal(s: Seq<char>) -> Seq<char> {
    if needs_no_escape(s) {
        seq!['"'] + s + seq!['"']
    } else {
        quoted_text(s)
    }
}

/// A text as a quoted literal: the `Debug` form of `str`, which puts the text in double quotes and
/// escapes what would not read back. Printable ASCII without quotes and backslashes stands as it is;
/// what the escapes are is not stated.
#[verifier::external_body]
pub(crate) fn quoted(s: &str) -> (r: String)
    ensures
        r@ == quoted_text(s@),
        needs_no_escape(s@) ==> r@ == seq!['"'] + s@ + seq!['"'],
{
    format!("{s:?}")
}

} // verus!
