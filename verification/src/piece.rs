//! Pieces: identity (type, color, promotion, optional board position), the
//! per-type tables of relative move offsets, and the material-value function.

use crate::position::{col_of, pos_ok, Position};
use rand::seq::SliceRandom;
use vstd::prelude::*;

verus! {

broadcast use vstd::seq_lib::group_to_multiset_ensures;

/// The two sides. White is the first player and moves toward increasing rows.
#[derive(PartialEq, Eq, Debug, Copy, Clone, Hash, Structural)]
pub enum Color {
    Black,
    White,
}

/// The side opposing `c`.
pub open spec fn other_color(c: Color) -> Color {
    if c == Color::Black {
        Color::White
    } else {
        Color::Black
    }
}

impl Color {
    /// Flip this color to the opposing side.
    pub fn invert(&mut self)
        ensures
            *final(self) == other_color(*old(self)),
    {
        if *self == Color::Black {
            *self = Color::White;
        } else {
            *self = Color::Black;
        }
    }
}

/// The eight piece types of the game.
#[derive(PartialEq, Eq, Debug, Copy, Clone, Hash, Structural)]
pub enum PieceType {
    Pawn,
    King,
    Rook,
    Bishop,
    Gold,
    Silver,
    Knight,
    Lance,
}

/// The notation letter of a piece type.
pub open spec fn type_char(t: PieceType) -> char {
    match t {
        PieceType::Pawn => 'P',
        PieceType::King => 'K',
        PieceType::Rook => 'R',
        PieceType::Bishop => 'B',
        PieceType::Gold => 'G',
        PieceType::Silver => 'S',
        PieceType::Knight => 'N',
        PieceType::Lance => 'L',
    }
}

/// The piece type named by a notation letter, if any.
pub open spec fn type_of_char(c: char) -> Option<PieceType> {
    if c == 'P' {
        Some(PieceType::Pawn)
    } else if c == 'K' {
        Some(PieceType::King)
    } else if c == 'R' {
        Some(PieceType::Rook)
    } else if c == 'B' {
        Some(PieceType::Bishop)
    } else if c == 'G' {
        Some(PieceType::Gold)
    } else if c == 'S' {
        Some(PieceType::Silver)
    } else if c == 'N' {
        Some(PieceType::Knight)
    } else if c == 'L' {
        Some(PieceType::Lance)
    } else {
        None
    }
}

/// Decoding the letter of any piece type yields that type back.
pub proof fn lemma_type_char_roundtrip(t: PieceType)
    ensures
        type_of_char(type_char(t)) == Some(t),
{
}

impl PieceType {
    /// The one-character notation of this piece type, as a string.
    pub fn to_string(&self) -> (s: String)
        ensures
            s@ == seq![type_char(*self)],
    {
        let c = self.to_char();
        let mut s = String::new();
        crate::strutil::push_char(&mut s, c);
        assert(s@ =~= seq![type_char(*self)]);
        s
    }

    /// The notation letter of this piece type.
    pub fn to_char(&self) -> (c: char)
        ensures
            c == type_char(*self),
    {
        match self {
            PieceType::Pawn => 'P',
            PieceType::King => 'K',
            PieceType::Rook => 'R',
            PieceType::Bishop => 'B',
            PieceType::Gold => 'G',
            PieceType::Silver => 'S',
            PieceType::Knight => 'N',
            PieceType::Lance => 'L',
        }
    }

    /// The piece type named by a notation letter, if any.
    pub fn from_char(c: char) -> (r: Option<PieceType>)
        ensures
            r == type_of_char(c),
    {
        if c == 'P' {
            Some(PieceType::Pawn)
        } else if c == 'K' {
            Some(PieceType::King)
        } else if c == 'R' {
            Some(PieceType::Rook)
        } else if c == 'B' {
            Some(PieceType::Bishop)
        } else if c == 'G' {
            Some(PieceType::Gold)
        } else if c == 'S' {
            Some(PieceType::Silver)
        } else if c == 'N' {
            Some(PieceType::Knight)
        } else if c == 'L' {
            Some(PieceType::Lance)
        } else {
            None
        }
    }
}

/// A piece: its side, type, promotion state, and board square. A piece with
/// no position is captured and held in its owner's reserve; such a piece is
/// never promoted.
#[derive(PartialEq, Eq, Debug, Copy, Clone, Hash, Structural)]
pub struct Piece {
    pub color: Color,
    pub piecetype: PieceType,
    pub promoted: bool,
    pub position: Option<Position>,
}

/// A piece value is well formed: its square (if any) is on the board, and a
/// reserve piece is never promoted.
pub open spec fn piece_ok(p: Piece) -> bool {
    match p.position {
        Some(q) => pos_ok(q),
        None => !p.promoted,
    }
}

/// The material value of a piece, in three tiers: held in reserve, promoted
/// on the board, unpromoted on the board. The King's value exceeds the sum
/// of every other piece's maximum value over a full standard set (23540),
/// so king safety dominates any material exchange in a consumer evaluation.
pub open spec fn piece_value(p: Piece) -> int {
    match p.piecetype {
        PieceType::Pawn => if p.position is None {
            115
        } else if p.promoted {
            420
        } else {
            100
        },
        PieceType::Lance => if p.position is None {
            480
        } else if p.promoted {
            630
        } else {
            430
        },
        PieceType::Knight => if p.position is None {
            510
        } else if p.promoted {
            640
        } else {
            450
        },
        PieceType::Silver => if p.position is None {
            720
        } else if p.promoted {
            670
        } else {
            640
        },
        PieceType::Gold => if p.position is None {
            780
        } else {
            690
        },
        PieceType::Rook => if p.position is None {
            1270
        } else if p.promoted {
            1300
        } else {
            1040
        },
        PieceType::Bishop => if p.position is None {
            1110
        } else if p.promoted {
            1150
        } else {
            890
        },
        PieceType::King => 25000,
    }
}

/// The offsets of the Gold general, which promoted Pawn, Lance, Knight and
/// Silver also move by.
pub open spec fn gold_offsets() -> Seq<(i16, i16)> {
    seq![(1i16, 0i16), (-1i16, 0i16), (-1i16, 1i16), (0i16, 1i16), (1i16, 1i16), (0i16, -1i16)]
}

/// The unpromoted offset table of each piece type, oriented for White
/// (moving toward increasing rows).
pub open spec fn unpromoted_offsets(t: PieceType) -> Seq<(i16, i16)> {
    match t {
        PieceType::Pawn => seq![(0i16, 1i16)],
        PieceType::King => seq![
            (1i16, 0i16),
            (-1i16, 0i16),
            (1i16, 1i16),
            (-1i16, 1i16),
            (0i16, 1i16),
            (0i16, -1i16),
            (1i16, -1i16),
            (-1i16, -1i16),
        ],
        PieceType::Rook => seq![
            (-8i16, 0i16),
            (-7i16, 0i16),
            (-6i16, 0i16),
            (-5i16, 0i16),
            (-4i16, 0i16),
            (-3i16, 0i16),
            (-2i16, 0i16),
            (-1i16, 0i16),
            (1i16, 0i16),
            (2i16, 0i16),
            (3i16, 0i16),
            (4i16, 0i16),
            (5i16, 0i16),
            (6i16, 0i16),
            (7i16, 0i16),
            (8i16, 0i16),
            (0i16, 1i16),
            (0i16, -1i16),
            (0i16, 2i16),
            (0i16, -2i16),
            (0i16, 3i16),
            (0i16, -3i16),
            (0i16, 4i16),
            (0i16, -4i16),
            (0i16, 5i16),
            (0i16, -5i16),
            (0i16, 6i16),
            (0i16, -6i16),
            (0i16, 7i16),
            (0i16, -7i16),
            (0i16, 8i16),
            (0i16, -8i16),
        ],
        PieceType::Bishop => seq![
            (1i16, 1i16),
            (2i16, 2i16),
            (3i16, 3i16),
            (4i16, 4i16),
            (5i16, 5i16),
            (6i16, 6i16),
            (7i16, 7i16),
            (8i16, 8i16),
            (-1i16, 1i16),
            (-2i16, 2i16),
            (-3i16, 3i16),
            (-4i16, 4i16),
            (-5i16, 5i16),
            (-6i16, 6i16),
            (-7i16, 7i16),
            (-8i16, 8i16),
            (1i16, -1i16),
            (2i16, -2i16),
            (3i16, -3i16),
            (4i16, -4i16),
            (5i16, -5i16),
            (6i16, -6i16),
            (7i16, -7i16),
            (8i16, -8i16),
            (-1i16, -1i16),
            (-2i16, -2i16),
            (-3i16, -3i16),
            (-4i16, -4i16),
            (-5i16, -5i16),
            (-6i16, -6i16),
            (-7i16, -7i16),
            (-8i16, -8i16),
        ],
        PieceType::Gold => gold_offsets(),
        PieceType::Silver => seq![
            (-1i16, 1i16),
            (0i16, 1i16),
            (1i16, 1i16),
            (1i16, -1i16),
            (-1i16, -1i16),
        ],
        PieceType::Knight => seq![(-1i16, 2i16), (1i16, 2i16)],
        PieceType::Lance => seq![
            (0i16, 1i16),
            (0i16, 2i16),
            (0i16, 3i16),
            (0i16, 4i16),
            (0i16, 5i16),
            (0i16, 6i16),
            (0i16, 7i16),
            (0i16, 8i16),
        ],
    }
}

/// The offset table of a piece type in a given promotion state, oriented for
/// White. Promotion substitutes the Gold table for Pawn, Knight, Lance and
/// Silver and extends the sliding tables of Rook and Bishop by one-step
/// moves; Gold and King never change (neither can be promoted).
pub open spec fn offsets_of(t: PieceType, promoted: bool) -> Seq<(i16, i16)> {
    if promoted {
        match t {
            PieceType::Pawn | PieceType::Knight | PieceType::Lance | PieceType::Silver => (
            gold_offsets()),
            PieceType::Rook => unpromoted_offsets(PieceType::Rook) + seq![
                (1i16, 1i16),
                (-1i16, 1i16),
                (1i16, -1i16),
                (-1i16, -1i16),
            ],
            PieceType::Bishop => unpromoted_offsets(PieceType::Bishop) + seq![
                (1i16, 0i16),
                (-1i16, 0i16),
                (0i16, 1i16),
                (0i16, -1i16),
            ],
            _ => unpromoted_offsets(t),
        }
    } else {
        unpromoted_offsets(t)
    }
}

/// An offset with both components negated, flipping the direction of travel.
pub open spec fn neg_offset(o: (i16, i16)) -> (i16, i16) {
    (((-(o.0 as int)) as i16), ((-(o.1 as int)) as i16))
}

/// The offset table of a piece type, promotion state and side: White uses
/// the tables as given, Black the same offsets negated (the sides move
/// toward opposite edges).
pub open spec fn colored_offsets(t: PieceType, promoted: bool, c: Color) -> Seq<(i16, i16)> {
    if c == Color::White {
        offsets_of(t, promoted)
    } else {
        offsets_of(t, promoted).map_values(|o: (i16, i16)| neg_offset(o))
    }
}

/// Each White-oriented offset table lists every offset exactly once, and
/// every component lies within one board span.
pub proof fn lemma_offsets_no_dup(t: PieceType, promoted: bool)
    ensures
        offsets_of(t, promoted).no_duplicates(),
        forall|j: int|
            0 <= j < offsets_of(t, promoted).len() ==> -8 <= (#[trigger] offsets_of(
                t,
                promoted,
            )[j]).0 <= 8 && -8 <= offsets_of(t, promoted)[j].1 <= 8,
{
}

/// The oriented offset table of any piece lists every offset exactly once:
/// negating a duplicate-free table in one board span stays duplicate-free.
pub proof fn lemma_colored_no_dup(t: PieceType, promoted: bool, c: Color)
    ensures
        colored_offsets(t, promoted, c).no_duplicates(),
{
    lemma_offsets_no_dup(t, promoted);
    if c != Color::White {
        let base = offsets_of(t, promoted);
        let mapped = base.map_values(|o: (i16, i16)| neg_offset(o));
        assert forall|i: int, j: int|
            0 <= i < mapped.len() && 0 <= j < mapped.len() && i != j implies mapped[i]
            != mapped[j] by {
            assert(mapped[i] == neg_offset(base[i]));
            assert(mapped[j] == neg_offset(base[j]));
            assert(-8 <= base[i].0 <= 8 && -8 <= base[i].1 <= 8);
            assert(-8 <= base[j].0 <= 8 && -8 <= base[j].1 <= 8);
            assert(neg_offset(base[i]).0 as int == -(base[i].0 as int));
            assert(neg_offset(base[i]).1 as int == -(base[i].1 as int));
            assert(neg_offset(base[j]).0 as int == -(base[j].0 as int));
            assert(neg_offset(base[j]).1 as int == -(base[j].1 as int));
            if mapped[i] == mapped[j] {
                assert(base[i].0 == base[j].0 && base[i].1 == base[j].1);
                assert(base[i] == base[j]);
                assert(false);
            }
        }
        assert(mapped.no_duplicates());
    }
}

/// An offset applied at a position keeps the piece on the board without
/// wrapping around an edge: the column shift stays within the nine columns,
/// and the resulting index stays within the board.
pub open spec fn offset_ok(p: Position, o: (i16, i16)) -> bool {
    let c = col_of(p) + o.0 as int;
    let t = p.0 as int + o.0 as int + 9 * (o.1 as int);
    0 <= c && c <= 8 && 0 <= t && t <= 80
}

/// Relies on rand's `SliceRandom::shuffle`: an in-place Fisher-Yates pass of
/// pairwise swaps, so the result is a permutation of the input; which
/// permutation depends on the thread's random generator.
#[verifier::external_body]
fn shuffle_offsets(v: &mut Vec<(i16, i16)>)
    ensures
        final(v)@.to_multiset() == old(v)@.to_multiset(),
{
    v.shuffle(&mut rand::thread_rng());
}

impl Piece {
    /// The material value of this piece.
    pub fn value(&self) -> (r: i32)
        ensures
            r == piece_value(*self),
            100 <= r <= 25000,
    {
        match self.piecetype {
            PieceType::Pawn => {
                if self.position.is_none() {
                    115
                } else if self.promoted {
                    420
                } else {
                    100
                }
            },
            PieceType::Lance => {
                if self.position.is_none() {
                    480
                } else if self.promoted {
                    630
                } else {
                    430
                }
            },
            PieceType::Knight => {
                if self.position.is_none() {
                    510
                } else if self.promoted {
                    640
                } else {
                    450
                }
            },
            PieceType::Silver => {
                if self.position.is_none() {
                    720
                } else if self.promoted {
                    670
                } else {
                    640
                }
            },
            PieceType::Gold => {
                if self.position.is_none() {
                    780
                } else {
                    690
                }
            },
            PieceType::Rook => {
                if self.position.is_none() {
                    1270
                } else if self.promoted {
                    1300
                } else {
                    1040
                }
            },
            PieceType::Bishop => {
                if self.position.is_none() {
                    1110
                } else if self.promoted {
                    1150
                } else {
                    890
                }
            },
            PieceType::King => 25000,
        }
    }

    /// The geometric offsets this piece may move by from its square, for its
    /// type, promotion state and side, with offsets that would wrap around a
    /// board edge filtered out: each such offset exactly once, in arbitrary
    /// order. Sliding obstruction is not considered here.
    pub fn get_relative_moves(&self) -> (r: Vec<(i16, i16)>)
        requires
            self.position is Some,
            pos_ok(self.position->0),
        ensures
            forall|o: (i16, i16)|
                #[trigger] r@.contains(o) <==> (colored_offsets(
                    self.piecetype,
                    self.promoted,
                    self.color,
                ).contains(o) && offset_ok(self.position->0, o)),
            r@.no_duplicates(),
    {
        let table = base_table(self.piecetype, self.promoted);
        let mut colored: Vec<(i16, i16)> = if self.color == Color::White {
            table
        } else {
            negate_table(table)
        };
        assert(colored@ == colored_offsets(self.piecetype, self.promoted, self.color));
        let ghost pre = colored@;
        shuffle_offsets(&mut colored);
        proof {
            let tbl = colored_offsets(self.piecetype, self.promoted, self.color);
            assert forall|o: (i16, i16)| colored@.contains(o) <==> tbl.contains(o) by {
                assert(colored@.contains(o) <==> colored@.to_multiset().count(o) > 0);
                assert(tbl.contains(o) <==> tbl.to_multiset().count(o) > 0);
            }
            // The shuffled table still lists every offset exactly once.
            lemma_colored_no_dup(self.piecetype, self.promoted, self.color);
            pre.lemma_multiset_has_no_duplicates();
            assert forall|x: (i16, i16)| colored@.to_multiset().contains(x) implies
                colored@.to_multiset().count(x) == 1 by {
                assert(pre.to_multiset().count(x) == colored@.to_multiset().count(x));
            }
            colored@.lemma_multiset_has_no_duplicates_conv();
        }
        let p = match self.position {
            Some(q) => q,
            None => {
                proof {
                    assert(false);
                }
                vstd::pervasive::unreached()
            },
        };
        let mut out: Vec<(i16, i16)> = Vec::new();
        let mut i: usize = 0;
        while i < colored.len()
            invariant
                0 <= i <= colored@.len(),
                p == self.position->0,
                pos_ok(p),
                forall|o: (i16, i16)|
                    colored@.contains(o) <==> colored_offsets(
                        self.piecetype,
                        self.promoted,
                        self.color,
                    ).contains(o),
                forall|o: (i16, i16)|
                    #[trigger] out@.contains(o) ==> colored@.contains(o) && offset_ok(p, o),
                forall|j: int|
                    0 <= j < i && offset_ok(p, colored@[j]) ==> out@.contains(#[trigger] colored@[j]),
                colored@.no_duplicates(),
                out@.no_duplicates(),
                forall|x: (i16, i16)|
                    #[trigger] out@.contains(x) ==> exists|j: int| 0 <= j < i && colored@[j] == x,
            decreases colored@.len() - i,
        {
            let ghost prev = out@;
            let o = colored[i];
            let c: i32 = (p.0 % 9) as i32 + o.0 as i32;
            let t: i32 = p.0 as i32 + o.0 as i32 + 9 * (o.1 as i32);
            if 0 <= c && c <= 8 && 0 <= t && t <= 80 {
                assert(offset_ok(p, o));
                assert(colored@.contains(o)) by {
                    assert(colored@[i as int] == o);
                }
                proof {
                    // The table has no duplicates, so this offset is new.
                    if prev.contains(o) {
                        let j = choose|j: int| 0 <= j < i && colored@[j] == o;
                        assert(colored@[j] == colored@[i as int]);
                        assert(false);
                    }
                }
                out.push(o);
                proof {
                    assert(out@ == prev.push(o));
                    assert forall|x: (i16, i16)| #[trigger] out@.contains(x) implies colored@.contains(x)
                        && offset_ok(p, x) by {
                        if prev.contains(x) {
                        } else {
                            assert(x == o);
                        }
                    }
                    assert forall|j: int|
                        0 <= j < i + 1 && offset_ok(p, colored@[j]) implies out@.contains(
                        #[trigger] colored@[j]) by {
                        if j < i {
                            assert(prev.contains(colored@[j]));
                            let k = choose|k: int| 0 <= k < prev.len() && prev[k] == colored@[j];
                            assert(out@[k] == colored@[j]);
                        } else {
                            assert(out@[prev.len() as int] == o);
                        }
                    }
                    assert forall|a: int, b: int|
                        0 <= a < out@.len() && 0 <= b < out@.len() && a != b implies out@[a]
                        != out@[b] by {
                        if a < prev.len() && b < prev.len() {
                            assert(prev[a] == out@[a] && prev[b] == out@[b]);
                        } else if b == prev.len() as int {
                            assert(out@[b] == o && out@[a] == prev[a]);
                            if prev[a] == o {
                                assert(prev.contains(o));
                            }
                        } else {
                            assert(out@[a] == o && out@[b] == prev[b]);
                            if prev[b] == o {
                                assert(prev.contains(o));
                            }
                        }
                    }
                    assert forall|x: (i16, i16)| #[trigger] out@.contains(x) implies exists|j: int|
                        0 <= j < i + 1 && colored@[j] == x by {
                        if prev.contains(x) {
                            let j = choose|j: int| 0 <= j < i && colored@[j] == x;
                        } else {
                            assert(x == o && colored@[i as int] == x);
                        }
                    }
                }
            } else {
                assert(!offset_ok(p, o));
            }
            i += 1;
        }
        proof {
            assert forall|o: (i16, i16)| #[trigger] out@.contains(o) implies (colored_offsets(
                self.piecetype,
                self.promoted,
                self.color,
            ).contains(o) && offset_ok(self.position->0, o)) by {}
            assert forall|o: (i16, i16)|
                (colored_offsets(self.piecetype, self.promoted, self.color).contains(o)
                    && offset_ok(self.position->0, o)) implies #[trigger] out@.contains(o) by {
                assert(colored@.contains(o));
                let j = choose|j: int| 0 <= j < colored@.len() && colored@[j] == o;
                assert(out@.contains(colored@[j]));
            }
        }
        out
    }
}

/// Build the White-oriented offset table of a piece type and promotion state.
fn base_table(t: PieceType, promoted: bool) -> (r: Vec<(i16, i16)>)
    ensures
        r@ == offsets_of(t, promoted),
{
    let use_gold: bool = match t {
        PieceType::Gold => true,
        PieceType::Pawn | PieceType::Knight | PieceType::Lance | PieceType::Silver => promoted,
        _ => false,
    };
    let mut v: Vec<(i16, i16)> = Vec::new();
    if use_gold {
        v.push((1, 0));
        v.push((-1, 0));
        v.push((-1, 1));
        v.push((0, 1));
        v.push((1, 1));
        v.push((0, -1));
        assert(v@ =~= gold_offsets());
        assert(v@ =~= offsets_of(t, promoted));
        return v;
    }
    match t {
        PieceType::Pawn => {
            v.push((0, 1));
        },
        PieceType::King => {
            v.push((1, 0));
            v.push((-1, 0));
            v.push((1, 1));
            v.push((-1, 1));
            v.push((0, 1));
            v.push((0, -1));
            v.push((1, -1));
            v.push((-1, -1));
        },
        PieceType::Rook => {
            let mut d: i16 = -8;
            while d <= -1
                invariant
                    -8 <= d <= 0,
                    v@.len() == d + 8,
                    forall|j: int| 0 <= j < v@.len() ==> v@[j] == ((j - 8) as i16, 0i16),
                decreases -(d as int),
            {
                v.push((d, 0));
                d += 1;
            }
            let mut d: i16 = 1;
            while d <= 8
                invariant
                    1 <= d <= 9,
                    v@.len() == d + 7,
                    forall|j: int| 0 <= j < 8 ==> v@[j] == ((j - 8) as i16, 0i16),
                    forall|j: int| 8 <= j < v@.len() ==> v@[j] == ((j - 7) as i16, 0i16),
                decreases 9 - d,
            {
                v.push((d, 0));
                d += 1;
            }
            let mut d: i16 = 1;
            while d <= 8
                invariant
                    1 <= d <= 9,
                    v@.len() == 14 + 2 * d,
                    forall|j: int| 0 <= j < 8 ==> v@[j] == ((j - 8) as i16, 0i16),
                    forall|j: int| 8 <= j < 16 ==> v@[j] == ((j - 7) as i16, 0i16),
                    forall|j: int|
                        16 <= j < v@.len() ==> v@[j] == (
                            0i16,
                            if j % 2 == 0 {
                                ((j - 14) / 2) as i16
                            } else {
                                (-((j - 15) / 2)) as i16
                            },
                        ),
                decreases 9 - d,
            {
                v.push((0, d));
                v.push((0, -d));
                d += 1;
            }
            assert(v@ =~= unpromoted_offsets(PieceType::Rook));
        },
        PieceType::Bishop => {
            let mut d: i16 = 1;
            while d <= 8
                invariant
                    1 <= d <= 9,
                    v@.len() == d - 1,
                    forall|j: int| 0 <= j < v@.len() ==> v@[j] == ((j + 1) as i16, (j + 1) as i16),
                decreases 9 - d,
            {
                v.push((d, d));
                d += 1;
            }
            let mut d: i16 = 1;
            while d <= 8
                invariant
                    1 <= d <= 9,
                    v@.len() == d + 7,
                    forall|j: int| 0 <= j < 8 ==> v@[j] == ((j + 1) as i16, (j + 1) as i16),
                    forall|j: int|
                        8 <= j < v@.len() ==> v@[j] == ((-(j - 7)) as i16, (j - 7) as i16),
                decreases 9 - d,
            {
                v.push((-d, d));
                d += 1;
            }
            let mut d: i16 = 1;
            while d <= 8
                invariant
                    1 <= d <= 9,
                    v@.len() == d + 15,
                    forall|j: int| 0 <= j < 8 ==> v@[j] == ((j + 1) as i16, (j + 1) as i16),
                    forall|j: int| 8 <= j < 16 ==> v@[j] == ((-(j - 7)) as i16, (j - 7) as i16),
                    forall|j: int|
                        16 <= j < v@.len() ==> v@[j] == ((j - 15) as i16, (-(j - 15)) as i16),
                decreases 9 - d,
            {
                v.push((d, -d));
                d += 1;
            }
            let mut d: i16 = 1;
            while d <= 8
                invariant
                    1 <= d <= 9,
                    v@.len() == d + 23,
                    forall|j: int| 0 <= j < 8 ==> v@[j] == ((j + 1) as i16, (j + 1) as i16),
                    forall|j: int| 8 <= j < 16 ==> v@[j] == ((-(j - 7)) as i16, (j - 7) as i16),
                    forall|j: int| 16 <= j < 24 ==> v@[j] == ((j - 15) as i16, (-(j - 15)) as i16),
                    forall|j: int|
                        24 <= j < v@.len() ==> v@[j] == ((-(j - 23)) as i16, (-(j - 23)) as i16),
                decreases 9 - d,
            {
                v.push((-d, -d));
                d += 1;
            }
            assert(v@ =~= unpromoted_offsets(PieceType::Bishop));
        },
        PieceType::Gold => {
        },
        PieceType::Silver => {
            v.push((-1, 1));
            v.push((0, 1));
            v.push((1, 1));
            v.push((1, -1));
            v.push((-1, -1));
        },
        PieceType::Knight => {
            v.push((-1, 2));
            v.push((1, 2));
        },
        PieceType::Lance => {
            let mut d: i16 = 1;
            while d <= 8
                invariant
                    1 <= d <= 9,
                    v@.len() == d - 1,
                    forall|j: int| 0 <= j < v@.len() ==> v@[j] == (0i16, (j + 1) as i16),
                decreases 9 - d,
            {
                v.push((0, d));
                d += 1;
            }
            assert(v@ =~= unpromoted_offsets(PieceType::Lance));
        },
    }
    if promoted {
        match t {
            PieceType::Rook => {
                v.push((1, 1));
                v.push((-1, 1));
                v.push((1, -1));
                v.push((-1, -1));
            },
            PieceType::Bishop => {
                v.push((1, 0));
                v.push((-1, 0));
                v.push((0, 1));
                v.push((0, -1));
            },
            _ => {
            },
        }
    }
    assert(v@ =~= offsets_of(t, promoted));
    v
}

/// Negate every offset of a table, reorienting it for the other side.
fn negate_table(v: Vec<(i16, i16)>) -> (r: Vec<(i16, i16)>)
    ensures
        r@ == v@.map_values(|o: (i16, i16)| neg_offset(o)),
{
    let mut out: Vec<(i16, i16)> = Vec::new();
    let mut i: usize = 0;
    while i < v.len()
        invariant
            0 <= i <= v@.len(),
            out@.len() == i,
            forall|j: int| 0 <= j < i ==> out@[j] == neg_offset(v@[j]),
        decreases v@.len() - i,
    {
        let o = v[i];
        let nx: i32 = -(o.0 as i32);
        let ny: i32 = -(o.1 as i32);
        out.push((nx as i16, ny as i16));
        i += 1;
    }
    assert(out@ =~= v@.map_values(|o: (i16, i16)| neg_offset(o)));
    out
}

} // verus!
