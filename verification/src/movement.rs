//! Move descriptors and their bijective textual codec.
//!
//! The grammar: a drop is `<TypeChar>*<col><row>` (4 characters); a normal
//! move is `<TypeChar><col><row><joiner><col><row>[+]` (6 or 7 characters)
//! with joiner `-` (plain) or `x` (asserting a capture) and a trailing `+`
//! requesting promotion; the two out-of-band tokens `restart` and `withdraw`
//! are recognized verbatim.

use crate::piece::{type_char, type_of_char, Piece, PieceType};
use crate::position::{
    col_char, col_of, is_col_char, is_row_char, pos_chars, pos_of_chars, pos_ok, row_char, row_of,
    Position,
};
use crate::strutil::{push_char, str_eq};
use vstd::prelude::*;

verus! {

/// A move: the piece type, the start square (`None` encodes a drop from the
/// reserve), the destination, whether promotion is requested, whether a
/// capture is asserted, and the two out-of-band sentinel flags.
#[derive(Debug, Clone, Copy, PartialEq, Eq, Hash, Structural)]
pub struct Movement {
    pub piecetype: PieceType,
    pub start: Option<Position>,
    pub end: Position,
    pub promotion: bool,
    pub force_capture: bool,
    pub withdraw: bool,
    pub restart: bool,
}

/// The characters of the verbatim token that restarts the game.
pub open spec fn restart_chars() -> Seq<char> {
    seq!['r', 'e', 's', 't', 'a', 'r', 't']
}

/// The characters of the verbatim token that resigns the game.
pub open spec fn withdraw_chars() -> Seq<char> {
    seq!['w', 'i', 't', 'h', 'd', 'r', 'a', 'w']
}

/// The canonical restart move value, as parsing produces it.
pub open spec fn restart_movement() -> Movement {
    Movement {
        piecetype: PieceType::Pawn,
        start: None,
        end: Position(0),
        promotion: false,
        force_capture: false,
        withdraw: false,
        restart: true,
    }
}

/// The canonical withdraw move value, as parsing produces it.
pub open spec fn withdraw_movement() -> Movement {
    Movement {
        piecetype: PieceType::Pawn,
        start: None,
        end: Position(0),
        promotion: false,
        force_capture: false,
        withdraw: true,
        restart: false,
    }
}

/// A movement value the codec can represent losslessly: sentinel moves carry
/// their canonical payload, a drop has no promotion or capture mark, and
/// every square referenced lies on the board.
pub open spec fn wf_movement(m: Movement) -> bool {
    if m.restart || m.withdraw {
        !(m.restart && m.withdraw) && m.piecetype == PieceType::Pawn && m.start is None && m.end
            == Position(0) && !m.promotion && !m.force_capture
    } else if m.start is None {
        pos_ok(m.end) && !m.promotion && !m.force_capture
    } else {
        pos_ok(m.start->0) && pos_ok(m.end)
    }
}

/// The textual encoding of a movement.
pub open spec fn movement_chars(m: Movement) -> Seq<char> {
    if m.restart {
        restart_chars()
    } else if m.withdraw {
        withdraw_chars()
    } else if m.start is None {
        seq![type_char(m.piecetype), '*'] + pos_chars(m.end)
    } else {
        seq![type_char(m.piecetype)] + pos_chars(m.start->0) + seq![
            if m.force_capture {
                'x'
            } else {
                '-'
            },
        ] + pos_chars(m.end) + if m.promotion {
            seq!['+']
        } else {
            Seq::<char>::empty()
        }
    }
}

/// The string has the shape of a drop move: four characters with `*`
/// second.
pub open spec fn maybe_drop_chars(s: Seq<char>) -> bool {
    s.len() == 4 && s[1] == '*'
}

/// The string has the shape of a normal move: six characters, or seven
/// ending in `+`, with a joiner fourth.
pub open spec fn maybe_normal_chars(s: Seq<char>) -> bool {
    ((s.len() == 7 && s[6] == '+') || s.len() == 6) && (s[3] == '-' || s[3] == 'x')
}

/// What a string denotes under the move grammar, if anything.
pub open spec fn parse_movement(s: Seq<char>) -> Option<Movement> {
    if s == restart_chars() {
        Some(restart_movement())
    } else if s == withdraw_chars() {
        Some(withdraw_movement())
    } else if s.len() == 4 && s[1] == '*' && type_of_char(s[0]) is Some && is_col_char(s[2])
        && is_row_char(s[3]) {
        Some(
            Movement {
                piecetype: type_of_char(s[0])->0,
                start: None,
                end: pos_of_chars(s[2], s[3]),
                promotion: false,
                force_capture: false,
                withdraw: false,
                restart: false,
            },
        )
    } else if (s.len() == 6 || (s.len() == 7 && s[6] == '+')) && (s[3] == '-' || s[3] == 'x')
        && type_of_char(s[0]) is Some && is_col_char(s[1]) && is_row_char(s[2]) && is_col_char(s[4])
        && is_row_char(s[5]) {
        Some(
            Movement {
                piecetype: type_of_char(s[0])->0,
                start: Some(pos_of_chars(s[1], s[2])),
                end: pos_of_chars(s[4], s[5]),
                promotion: s.len() == 7,
                force_capture: s[3] == 'x',
                withdraw: false,
                restart: false,
            },
        )
    } else {
        None
    }
}

/// Any successfully parsed movement is well formed.
pub proof fn lemma_parse_movement_wf(s: Seq<char>)
    requires
        parse_movement(s) is Some,
    ensures
        wf_movement(parse_movement(s)->0),
{
}

/// The move codec round-trip law: decoding the encoding of any well-formed
/// movement yields that movement back.
pub proof fn lemma_movement_roundtrip(m: Movement)
    requires
        wf_movement(m),
    ensures
        parse_movement(movement_chars(m)) == Some(m),
{
    let s = movement_chars(m);
    if m.restart {
    } else if m.withdraw {
    } else if m.start is None {
        assert(s.len() == 4);
        assert(s != restart_chars());
        assert(s != withdraw_chars());
        assert(s[0] == type_char(m.piecetype));
        assert(s[1] == '*');
        assert(s[2] == col_char(col_of(m.end)));
        assert(s[3] == row_char(row_of(m.end)));
        crate::position::lemma_position_roundtrip(m.end);
        crate::piece::lemma_type_char_roundtrip(m.piecetype);
        assert(pos_of_chars(s[2], s[3]) == m.end);
    } else {
        let st = m.start->0;
        assert(s.len() == if m.promotion {
            7int
        } else {
            6int
        });
        assert(s[0] == type_char(m.piecetype));
        assert(s != restart_chars());
        assert(s != withdraw_chars());
        assert(s[1] == col_char(col_of(st)));
        assert(s[2] == row_char(row_of(st)));
        assert(s[3] == if m.force_capture {
            'x'
        } else {
            '-'
        });
        assert(s[4] == col_char(col_of(m.end)));
        assert(s[5] == row_char(row_of(m.end)));
        if m.promotion {
            assert(s[6] == '+');
        }
        crate::position::lemma_position_roundtrip(st);
        crate::position::lemma_position_roundtrip(m.end);
        crate::piece::lemma_type_char_roundtrip(m.piecetype);
        assert(pos_of_chars(s[1], s[2]) == st);
        assert(pos_of_chars(s[4], s[5]) == m.end);
    }
}

impl Movement {
    /// Encode this movement in the textual notation.
    pub fn to_string(&self) -> (s: String)
        requires
            wf_movement(*self),
        ensures
            s@ == movement_chars(*self),
    {
        if self.restart {
            let s = String::from_str("restart");
            proof {
                reveal_strlit("restart");
                assert(s@ =~= restart_chars());
            }
            return s;
        }
        if self.withdraw {
            let s = String::from_str("withdraw");
            proof {
                reveal_strlit("withdraw");
                assert(s@ =~= withdraw_chars());
            }
            return s;
        }
        let mut s = String::new();
        push_char(&mut s, self.piecetype.to_char());
        match self.start {
            None => {
                push_char(&mut s, '*');
                push_char(&mut s, self.end.column());
                push_char(&mut s, self.end.row());
                assert(s@ =~= movement_chars(*self));
            },
            Some(st) => {
                push_char(&mut s, st.column());
                push_char(&mut s, st.row());
                if self.force_capture {
                    push_char(&mut s, 'x');
                } else {
                    push_char(&mut s, '-');
                }
                push_char(&mut s, self.end.column());
                push_char(&mut s, self.end.row());
                if self.promotion {
                    push_char(&mut s, '+');
                }
                assert(s@ =~= movement_chars(*self));
            },
        }
        s
    }

    /// Decode a string of the move notation. Fails exactly on strings the
    /// grammar does not generate.
    pub fn from_str(s: &str) -> (r: Result<Movement, String>)
        ensures
            r is Ok <==> parse_movement(s@) is Some,
            r is Ok ==> r->Ok_0 == parse_movement(s@)->0 && wf_movement(r->Ok_0),
    {
        proof {
            reveal_strlit("restart");
            reveal_strlit("withdraw");
            assert("restart"@ =~= restart_chars());
            assert("withdraw"@ =~= withdraw_chars());
        }
        if str_eq(s, "restart") {
            return Ok(
                Movement {
                    piecetype: PieceType::Pawn,
                    start: None,
                    end: Position(0),
                    promotion: false,
                    force_capture: false,
                    withdraw: false,
                    restart: true,
                },
            );
        }
        if str_eq(s, "withdraw") {
            return Ok(
                Movement {
                    piecetype: PieceType::Pawn,
                    start: None,
                    end: Position(0),
                    promotion: false,
                    force_capture: false,
                    withdraw: true,
                    restart: false,
                },
            );
        }
        let n = s.unicode_len();
        if n == 4 {
            let c0 = s.get_char(0);
            let c1 = s.get_char(1);
            let c2 = s.get_char(2);
            let c3 = s.get_char(3);
            if c1 != '*' {
                return Err(String::from_str("malformed drop move"));
            }
            let t = match PieceType::from_char(c0) {
                Some(t) => t,
                None => {
                    return Err(String::from_str("not a valid piece type"));
                },
            };
            let v2 = c2 as u32;
            let v3 = c3 as u32;
            if v2 < 49 || v2 > 57 || v3 < 97 || v3 > 105 {
                return Err(String::from_str("drop square out of range"));
            }
            let p = Position(((v2 - 49) + 9 * (v3 - 97)) as u16);
            assert(p == pos_of_chars(s@[2], s@[3]));
            return Ok(
                Movement {
                    piecetype: t,
                    start: None,
                    end: p,
                    promotion: false,
                    force_capture: false,
                    withdraw: false,
                    restart: false,
                },
            );
        }
        if n == 6 || n == 7 {
            if n == 7 && s.get_char(6) != '+' {
                return Err(String::from_str("malformed move"));
            }
            let c3 = s.get_char(3);
            if c3 != '-' && c3 != 'x' {
                return Err(String::from_str("malformed joiner"));
            }
            let t = match PieceType::from_char(s.get_char(0)) {
                Some(t) => t,
                None => {
                    return Err(String::from_str("not a valid piece type"));
                },
            };
            let v1 = s.get_char(1) as u32;
            let v2 = s.get_char(2) as u32;
            let v4 = s.get_char(4) as u32;
            let v5 = s.get_char(5) as u32;
            if v1 < 49 || v1 > 57 || v2 < 97 || v2 > 105 || v4 < 49 || v4 > 57 || v5 < 97 || v5
                > 105 {
                return Err(String::from_str("move square out of range"));
            }
            let p1 = Position(((v1 - 49) + 9 * (v2 - 97)) as u16);
            let p2 = Position(((v4 - 49) + 9 * (v5 - 97)) as u16);
            assert(p1 == pos_of_chars(s@[1], s@[2]));
            assert(p2 == pos_of_chars(s@[4], s@[5]));
            return Ok(
                Movement {
                    piecetype: t,
                    start: Some(p1),
                    end: p2,
                    promotion: n == 7,
                    force_capture: c3 == 'x',
                    withdraw: false,
                    restart: false,
                },
            );
        }
        Err(String::from_str("malformed move"))
    }

    /// The movement by a given relative offset of a board piece, with or
    /// without requesting promotion.
    pub open spec fn relative_movement(piece: Piece, relative: (i16, i16), promotion: bool) -> Movement {
        Movement {
            piecetype: piece.piecetype,
            start: piece.position,
            end: Position(
                ((piece.position->0).0 + relative.0 as int + 9 * (relative.1 as int)) as u16,
            ),
            promotion,
            force_capture: false,
            withdraw: false,
            restart: false,
        }
    }

    /// Expand one reachable offset of a board piece into the two candidate
    /// move strings: first the promoting variant, then the plain one.
    pub fn from_relative(piece: &Piece, relative: (i16, i16)) -> (r: Vec<String>)
        requires
            piece.position is Some,
            pos_ok(piece.position->0),
            crate::piece::offset_ok(piece.position->0, relative),
        ensures
            r@.len() == 2,
            r@[0]@ == movement_chars(Self::relative_movement(*piece, relative, true)),
            r@[1]@ == movement_chars(Self::relative_movement(*piece, relative, false)),
    {
        let st = match piece.position {
            Some(q) => q,
            None => {
                proof {
                    assert(false);
                }
                vstd::pervasive::unreached()
            },
        };
        let endv: i32 = st.0 as i32 + relative.0 as i32 + 9 * (relative.1 as i32);
        let end = Position(endv as u16);
        let mv_promoting = Movement {
            piecetype: piece.piecetype,
            start: Some(st),
            end,
            promotion: true,
            force_capture: false,
            withdraw: false,
            restart: false,
        };
        let mv_plain = Movement { promotion: false, ..mv_promoting };
        let mut r: Vec<String> = Vec::new();
        r.push(mv_promoting.to_string());
        r.push(mv_plain.to_string());
        r
    }
}

} // verus!
