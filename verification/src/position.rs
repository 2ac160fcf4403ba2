//! Squares of the 9x9 board and their two-character textual codec.

use crate::strutil::push_char;
use vstd::prelude::*;

verus! {

/// A square of the 9x9 board, indexed row-major: index = row * 9 + column,
/// with row 0..=8 printed as 'a'..='i' and column 0..=8 printed as '1'..='9'.
/// Valid positions range over [0, 80].
#[derive(Debug, PartialEq, Eq, Clone, Copy, Hash, Structural)]
pub struct Position(pub u16);

/// A position value actually designates a square of the board.
pub open spec fn pos_ok(p: Position) -> bool {
    p.0 <= 80
}

/// Zero-based column index of a position.
pub open spec fn col_of(p: Position) -> int {
    p.0 as int % 9
}

/// Zero-based row index of a position.
pub open spec fn row_of(p: Position) -> int {
    p.0 as int / 9
}

/// The printable digit for a zero-based column index ('1'..='9').
pub open spec fn col_char(c: int) -> char {
    ((c + 49) as u8) as char
}

/// The printable letter for a zero-based row index ('a'..='i').
pub open spec fn row_char(r: int) -> char {
    ((r + 97) as u8) as char
}

/// The two-character encoding of a position: column digit then row letter.
pub open spec fn pos_chars(p: Position) -> Seq<char> {
    seq![col_char(col_of(p)), row_char(row_of(p))]
}

/// Whether a character is a column digit '1'..='9'.
pub open spec fn is_col_char(ch: char) -> bool {
    49 <= ch as int && ch as int <= 57
}

/// Whether a character is a row letter 'a'..='i'.
pub open spec fn is_row_char(ch: char) -> bool {
    97 <= ch as int && ch as int <= 105
}

/// The position denoted by a column digit and a row letter.
pub open spec fn pos_of_chars(cc: char, rc: char) -> Position {
    Position(((cc as int - 49) + 9 * (rc as int - 97)) as u16)
}

/// What a two-character string denotes, if anything: exactly two characters,
/// a column digit then a row letter.
pub open spec fn parse_pos(s: Seq<char>) -> Option<Position> {
    if s.len() == 2 && is_col_char(s[0]) && is_row_char(s[1]) {
        Some(pos_of_chars(s[0], s[1]))
    } else {
        None
    }
}

impl Position {
    /// The printable row letter of this position.
    pub fn row(&self) -> (c: char)
        requires
            pos_ok(*self),
        ensures
            c == row_char(row_of(*self)),
    {
        ((self.0 / 9) as u8 + 97) as char
    }

    /// The printable column digit of this position.
    pub fn column(&self) -> (c: char)
        requires
            pos_ok(*self),
        ensures
            c == col_char(col_of(*self)),
    {
        ((self.0 % 9) as u8 + 49) as char
    }

    /// Encode this position as its two-character notation.
    pub fn to_string(&self) -> (s: String)
        requires
            pos_ok(*self),
        ensures
            s@ == pos_chars(*self),
    {
        let mut s = String::new();
        push_char(&mut s, self.column());
        push_char(&mut s, self.row());
        assert(s@ =~= pos_chars(*self));
        s
    }

    /// Decode a two-character notation back into a position. Fails on any
    /// string that is not exactly a column digit followed by a row letter.
    pub fn from_str(s: &str) -> (r: Result<Position, String>)
        ensures
            r is Ok <==> parse_pos(s@) is Some,
            r is Ok ==> r->Ok_0 == parse_pos(s@)->0 && pos_ok(r->Ok_0),
    {
        if s.unicode_len() != 2 {
            return Err(String::from_str("invalid number of characters in position"));
        }
        let c0 = s.get_char(0);
        let c1 = s.get_char(1);
        let v0 = c0 as u32;
        let v1 = c1 as u32;
        if v0 < 49 || v0 > 57 || v1 < 97 || v1 > 105 {
            return Err(String::from_str("position characters out of range"));
        }
        let p = Position(((v0 - 49) + 9 * (v1 - 97)) as u16);
        assert(p == pos_of_chars(s@[0], s@[1]));
        Ok(p)
    }
}

/// The position codec is a bijection on the board: decoding the encoding of
/// any valid position yields that position back.
pub proof fn lemma_position_roundtrip(p: Position)
    requires
        pos_ok(p),
    ensures
        parse_pos(pos_chars(p)) == Some(p),
{
    assert(col_char(col_of(p)) as int == col_of(p) + 49);
    assert(row_char(row_of(p)) as int == row_of(p) + 97);
}

} // verus!
