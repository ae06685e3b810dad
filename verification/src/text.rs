//! Small pieces of text that the messages and the notations are made of.

use crate::model::{Color, Square};
use crate::piece::Piece;
use vstd::prelude::*;

verus! {

/// The character of a decimal digit.
pub open spec fn digit_char(d: int) -> char {
    if d == 0 {
        '0'
    } else if d == 1 {
        '1'
    } else if d == 2 {
        '2'
    } else if d == 3 {
        '3'
    } else if d == 4 {
        '4'
    } else if d == 5 {
        '5'
    } else if d == 6 {
        '6'
    } else if d == 7 {
        '7'
    } else if d == 8 {
        '8'
    } else {
        '9'
    }
}

/// A number written in decimal digits, without leading zeros.
pub open spec fn decimal(n: nat) -> Seq<char>
    decreases n,
{
    if n < 10 {
        seq![digit_char(n as int)]
    } else {
        decimal(n / 10).push(digit_char((n % 10) as int))
    }
}

/// The name of a colour.
pub open spec fn color_name(color: Color) -> Seq<char> {
    match color {
        Color::Black => "Black"@,
        Color::White => "White"@,
    }
}

/// The name of a piece kind.
pub open spec fn piece_name(piece: Piece) -> Seq<char> {
    match piece {
        Piece::Empty => "Empty"@,
        Piece::Pawn => "Pawn"@,
        Piece::Lance => "Lance"@,
        Piece::Knight => "Knight"@,
        Piece::Silver => "Silver"@,
        Piece::Gold => "Gold"@,
        Piece::Bishop => "Bishop"@,
        Piece::Rook => "Rook"@,
        Piece::King => "King"@,
        Piece::ProPawn => "ProPawn"@,
        Piece::ProLance => "ProLance"@,
        Piece::ProKnight => "ProKnight"@,
        Piece::ProSilver => "ProSilver"@,
        Piece::ProBishop => "ProBishop"@,
        Piece::ProRook => "ProRook"@,
    }
}

/// A square written as its file and its rank, both in decimal.
pub open spec fn square_name(sq: Square) -> Seq<char> {
    decimal(sq.file as nat) + decimal(sq.rank as nat)
}

/// The characters of a text, one by one.
pub fn chars_of(text: &str) -> (chars: Vec<char>)
    ensures
        chars@ == text@,
{
    let mut chars: Vec<char> = Vec::new();
    for c in it: text.chars()
        invariant
            chars@ == it.seq().take(it.index()),
            it.seq() == text@,
    {
        chars.push(c);
    }
    chars
}

/// `String::push` appends one character to the text.
pub assume_specification[ String::push ](text: &mut String, c: char)
    ensures
        final(text)@ == old(text)@.push(c),
;

/// The text made of the given characters.
pub fn string_of(chars: &Vec<char>) -> (text: String)
    ensures
        text@ == chars@,
{
    let mut text = String::new();
    let mut i: usize = 0;
    while i < chars.len()
        invariant
            i <= chars@.len(),
            text@ == chars@.take(i as int),
        decreases chars@.len() - i,
    {
        text.push(chars[i]);
        assert(chars@.take(i + 1) =~= chars@.take(i as int).push(chars@[i as int]));
        i += 1;
    }
    assert(chars@.take(i as int) =~= chars@);
    text
}

/// Whether two texts hold the same characters.
pub fn same_chars(a: &Vec<char>, b: &Vec<char>) -> (same: bool)
    ensures
        same == (a@ == b@),
{
    if a.len() != b.len() {
        return false;
    }
    let mut i: usize = 0;
    while i < a.len()
        invariant
            i <= a@.len(),
            a@.len() == b@.len(),
            a@.take(i as int) == b@.take(i as int),
        decreases a@.len() - i,
    {
        if a[i] != b[i] {
            return false;
        }
        assert(a@.take(i + 1) =~= a@.take(i as int).push(a@[i as int]));
        assert(b@.take(i + 1) =~= b@.take(i as int).push(b@[i as int]));
        i += 1;
    }
    assert(a@.take(i as int) =~= a@);
    assert(b@.take(i as int) =~= b@);
    true
}

/// Whether the characters spell the given text.
pub fn spells(chars: &Vec<char>, word: &str) -> (same: bool)
    ensures
        same == (chars@ == word@),
{
    let other = chars_of(word);
    same_chars(chars, &other)
}

/// The parts of a text between the separators, read from left to right: a separator ends
/// a part and starts the next one, and any other character joins the part that is open. A
/// text without separator is one part, and so is the empty text.
pub open spec fn split_on(text: Seq<char>, sep: char) -> Seq<Seq<char>>
    decreases text.len(),
{
    if text.len() == 0 {
        seq![Seq::empty()]
    } else {
        let parts = split_on(text.drop_last(), sep);
        if text.last() == sep {
            parts.push(Seq::empty())
        } else {
            parts.drop_last().push(parts.last().push(text.last()))
        }
    }
}

/// The parts joined again, with the separator between them.
pub open spec fn joined(parts: Seq<Seq<char>>, sep: char) -> Seq<char>
    decreases parts.len(),
{
    if parts.len() == 0 {
        Seq::empty()
    } else if parts.len() == 1 {
        parts[0]
    } else {
        joined(parts.drop_last(), sep).push(sep) + parts.last()
    }
}

/// Splitting cuts the text at every separator and nowhere else: no part holds a
/// separator, and the parts joined with the separator are the text.
pub proof fn lemma_split_on(text: Seq<char>, sep: char)
    ensures
        split_on(text, sep).len() >= 1,
        forall|i: int, j: int|
            0 <= i < split_on(text, sep).len() && 0 <= j < split_on(text, sep)[i].len()
                ==> split_on(text, sep)[i][j] != sep,
        joined(split_on(text, sep), sep) == text,
    decreases text.len(),
{
    if text.len() > 0 {
        let head = text.drop_last();
        lemma_split_on(head, sep);
        let parts = split_on(head, sep);
        let all = split_on(text, sep);
        if text.last() == sep {
            assert(all.drop_last() =~= parts);
            assert(joined(all, sep) =~= text);
        } else {
            let open = parts.last().push(text.last());
            assert(all.last() == open);
            if parts.len() == 1 {
                assert(joined(all, sep) =~= text);
            } else {
                assert(all.drop_last() =~= parts.drop_last());
                assert(joined(all, sep) =~= joined(parts, sep).push(text.last()));
                assert(joined(all, sep) =~= text);
            }
        }
    } else {
        assert(joined(split_on(text, sep), sep) =~= text);
    }
}

/// Whether the sequence of texts holds the given sequences of characters.
pub open spec fn holds(parts: Seq<Vec<char>>, texts: Seq<Seq<char>>) -> bool {
    &&& parts.len() == texts.len()
    &&& forall|i: int| 0 <= i < parts.len() ==> (#[trigger] parts[i])@ == texts[i]
}

/// Cuts a text at every separator.
pub fn split(text: &Vec<char>, sep: char) -> (parts: Vec<Vec<char>>)
    ensures
        holds(parts@, split_on(text@, sep)),
{
    let mut parts: Vec<Vec<char>> = Vec::new();
    let mut open: Vec<char> = Vec::new();
    let mut i: usize = 0;
    while i < text.len()
        invariant
            i <= text@.len(),
            parts@.len() + 1 == split_on(text@.take(i as int), sep).len(),
            forall|n: int|
                0 <= n < parts@.len() ==> (#[trigger] parts@[n])@ == split_on(
                    text@.take(i as int),
                    sep,
                )[n],
            open@ == split_on(text@.take(i as int), sep).last(),
        decreases text@.len() - i,
    {
        let c = text[i];
        proof {
            assert(text@.take(i + 1).drop_last() =~= text@.take(i as int));
        }
        if c == sep {
            parts.push(open);
            open = Vec::new();
        } else {
            open.push(c);
        }
        i += 1;
    }
    parts.push(open);
    assert(text@.take(i as int) =~= text@);
    parts
}

/// Whether the character is white space: a blank, one of the controls from tab to
/// carriage return, or one of the spaces of the wider character set.
pub open spec fn is_space(c: char) -> bool {
    let n = c as u32;
    n == 0x20 || (0x09 <= n <= 0x0d) || n == 0x85 || n == 0xa0 || n == 0x1680 || (0x2000 <= n
        <= 0x200a) || n == 0x2028 || n == 0x2029 || n == 0x202f || n == 0x205f || n == 0x3000
}

/// The text without the white space at its start.
pub open spec fn trimmed_start(text: Seq<char>) -> Seq<char>
    decreases text.len(),
{
    if text.len() > 0 && is_space(text.first()) {
        trimmed_start(text.drop_first())
    } else {
        text
    }
}

/// The text without the white space at its end.
pub open spec fn trimmed_end(text: Seq<char>) -> Seq<char>
    decreases text.len(),
{
    if text.len() > 0 && is_space(text.last()) {
        trimmed_end(text.drop_last())
    } else {
        text
    }
}

/// The text without the white space at its two ends.
pub open spec fn trimmed(text: Seq<char>) -> Seq<char> {
    trimmed_end(trimmed_start(text))
}

/// Whether the character is white space.
pub fn is_whitespace(c: char) -> (b: bool)
    ensures
        b == is_space(c),
{
    let n = c as u32;
    n == 0x20 || (0x09 <= n && n <= 0x0d) || n == 0x85 || n == 0xa0 || n == 0x1680 || (0x2000 <= n
        && n <= 0x200a) || n == 0x2028 || n == 0x2029 || n == 0x202f || n == 0x205f || n == 0x3000
}

/// The characters from `from` up to `to`.
pub fn slice_of(text: &Vec<char>, from: usize, to: usize) -> (part: Vec<char>)
    requires
        from <= to <= text@.len(),
    ensures
        part@ == text@.subrange(from as int, to as int),
{
    let mut part: Vec<char> = Vec::new();
    let mut i: usize = from;
    while i < to
        invariant
            from <= i <= to <= text@.len(),
            part@ == text@.subrange(from as int, i as int),
        decreases to - i,
    {
        part.push(text[i]);
        assert(text@.subrange(from as int, i + 1) =~= text@.subrange(from as int, i as int).push(
            text@[i as int],
        ));
        i += 1;
    }
    part
}

/// Takes the white space off the two ends of a text.
pub fn trim(text: &Vec<char>) -> (part: Vec<char>)
    ensures
        part@ == trimmed(text@),
{
    let mut start: usize = 0;
    assert(text@.subrange(0, text@.len() as int) =~= text@);
    while start < text.len() && is_whitespace(text[start])
        invariant
            start <= text@.len(),
            trimmed_start(text@) == trimmed_start(text@.subrange(start as int, text@.len() as int)),
        decreases text@.len() - start,
    {
        proof {
            let rest = text@.subrange(start as int, text@.len() as int);
            assert(rest.drop_first() =~= text@.subrange(start + 1, text@.len() as int));
        }
        start += 1;
    }
    let mut end: usize = text.len();
    let ghost front = text@.subrange(start as int, text@.len() as int);
    assert(trimmed_start(text@) == front);
    while end > start && is_whitespace(text[end - 1])
        invariant
            start <= end <= text@.len(),
            front == text@.subrange(start as int, text@.len() as int),
            trimmed_end(front) == trimmed_end(text@.subrange(start as int, end as int)),
        decreases end,
    {
        proof {
            let rest = text@.subrange(start as int, end as int);
            assert(rest.drop_last() =~= text@.subrange(start as int, end - 1));
        }
        end -= 1;
    }
    slice_of(text, start, end)
}

/// The value of a decimal digit.
pub open spec fn digit_value(c: char) -> Option<u8> {
    if '0' <= c <= '9' {
        Some((c as u32 - '0' as u32) as u8)
    } else {
        None
    }
}

/// Reads a decimal digit.
pub fn read_digit(c: char) -> (d: Option<u8>)
    ensures
        d == digit_value(c),
        d matches Some(v) ==> v <= 9,
{
    let code = c as u32;
    if 0x30 <= code && code <= 0x39 {
        Some((code - 0x30) as u8)
    } else {
        None
    }
}

/// The text of one decimal digit.
pub fn digit_str(d: u8) -> (s: &'static str)
    requires
        d < 10,
    ensures
        s@ == seq![digit_char(d as int)],
{
    proof {
        reveal_strlit("0");
        reveal_strlit("1");
        reveal_strlit("2");
        reveal_strlit("3");
        reveal_strlit("4");
        reveal_strlit("5");
        reveal_strlit("6");
        reveal_strlit("7");
        reveal_strlit("8");
        reveal_strlit("9");
    }
    let s = match d {
        0 => "0",
        1 => "1",
        2 => "2",
        3 => "3",
        4 => "4",
        5 => "5",
        6 => "6",
        7 => "7",
        8 => "8",
        _ => "9",
    };
    assert(s@ =~= seq![digit_char(d as int)]);
    s
}

/// Appends a number in decimal.
pub fn append_decimal(text: &mut String, n: usize)
    ensures
        final(text)@ == old(text)@ + decimal(n as nat),
    decreases n,
{
    let ghost before = text@;
    if n >= 10 {
        append_decimal(text, n / 10);
    }
    text.append(digit_str((n % 10) as u8));
    assert(text@ =~= before + decimal(n as nat));
}

/// Appends the given characters.
pub fn append_chars(text: &mut String, chars: &Vec<char>)
    ensures
        final(text)@ == old(text)@ + chars@,
{
    let ghost before = text@;
    let mut i: usize = 0;
    while i < chars.len()
        invariant
            i <= chars@.len(),
            text@ == before + chars@.take(i as int),
        decreases chars@.len() - i,
    {
        text.push(chars[i]);
        assert(chars@.take(i + 1) =~= chars@.take(i as int).push(chars@[i as int]));
        assert(text@ =~= before + chars@.take(i + 1));
        i += 1;
    }
    assert(chars@.take(i as int) =~= chars@);
}

/// Appends a square as its file and its rank.
pub fn append_square(text: &mut String, sq: &Square)
    ensures
        final(text)@ == old(text)@ + square_name(*sq),
{
    let ghost before = text@;
    append_decimal(text, sq.file as usize);
    append_decimal(text, sq.rank as usize);
    assert(text@ =~= before + square_name(*sq));
}

/// The name of a colour.
pub fn color_str(color: Color) -> (s: &'static str)
    ensures
        s@ == color_name(color),
{
    match color {
        Color::Black => "Black",
        Color::White => "White",
    }
}

/// The name of a piece kind.
pub fn piece_str(piece: Piece) -> (s: &'static str)
    ensures
        s@ == piece_name(piece),
{
    match piece {
        Piece::Empty => "Empty",
        Piece::Pawn => "Pawn",
        Piece::Lance => "Lance",
        Piece::Knight => "Knight",
        Piece::Silver => "Silver",
        Piece::Gold => "Gold",
        Piece::Bishop => "Bishop",
        Piece::Rook => "Rook",
        Piece::King => "King",
        Piece::ProPawn => "ProPawn",
        Piece::ProLance => "ProLance",
        Piece::ProKnight => "ProKnight",
        Piece::ProSilver => "ProSilver",
        Piece::ProBishop => "ProBishop",
        Piece::ProRook => "ProRook",
    }
}

} // verus!
