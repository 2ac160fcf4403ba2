//! Authoritative game state: piece placement, whose turn it is, the active
//! rule configuration, move application, legal-move enumeration, and
//! terminal-state detection.

use crate::invalidmoveerror::{
    check_destination, check_in_board, check_move_possible_after_drop, check_nifu, check_possible_move,
    check_promotion, check_start, check_syntax, destination_ok, in_board_ok, lemma_grammar_parse,
    check_checkmate_by_pawn_drop, check_move_result, check_uncover_check, lemma_accepted_playable,
    parse_known, parsed, partial_first_error, partial_pipeline_ok, start_ok, syntax_ok,
    InvalidMoveError,
};
use crate::movement::{movement_chars, restart_chars, withdraw_chars, Movement};
use crate::piece::{other_color, piece_ok, piece_value, Color, Piece, PieceType};
use crate::position::{pos_ok, Position};
use crate::strutil::str_eq;
use vstd::prelude::*;
use vstd::pervasive::VecAdditionalExecFns;

verus! {

/// Variant legality configuration.
#[derive(Debug, Clone, PartialEq, Eq, Copy, Hash, Structural)]
pub struct Rules {
    pub can_uncover_check: bool,
    pub can_restart: bool,
}

/// The default rule set: checks must be answered, no restarting.
pub open spec fn default_rules() -> Rules {
    Rules { can_uncover_check: false, can_restart: false }
}

impl Default for Rules {
    /// The default rule set.
    fn default() -> (r: Self)
        ensures
            r == default_rules(),
    {
        Rules { can_uncover_check: false, can_restart: false }
    }
}

/// The most pieces a board can hold. The standard game uses 40; the bound
/// leaves room for positions set up by hand.
pub const MAX_PIECES: usize = 128;

/// Whether some piece of the sequence stands on square `p`.
pub open spec fn board_has_at(s: Seq<Piece>, p: Position) -> bool {
    exists|i: int| 0 <= i < s.len() && (#[trigger] s[i]).position == Some(p)
}

/// The index of a piece of the sequence standing on square `p`.
pub open spec fn board_at_idx(s: Seq<Piece>, p: Position) -> int {
    choose|i: int| 0 <= i < s.len() && (#[trigger] s[i]).position == Some(p)
}

/// The piece of the sequence standing on square `p`, if any.
pub open spec fn board_occupied(s: Seq<Piece>, p: Position) -> Option<Piece> {
    if board_has_at(s, p) {
        Some(s[board_at_idx(s, p)])
    } else {
        None
    }
}

/// The game state: one collection of pieces (on board and in reserve), the
/// side to move, and the rule configuration.
#[derive(Debug, PartialEq, Eq, Clone, Hash)]
pub struct Board {
    pub pieces: Vec<Piece>,
    pub turn: Color,
    pub rules: Rules,
}

/// The mathematical model of a board: the piece collection as a sequence,
/// the side to move, and the rule configuration.
pub ghost struct BoardV {
    pub pieces: Seq<Piece>,
    pub turn: Color,
    pub rules: Rules,
}

impl View for Board {
    type V = BoardV;

    open spec fn view(&self) -> BoardV {
        BoardV { pieces: self.pieces@, turn: self.turn, rules: self.rules }
    }
}

impl BoardV {
    /// Every piece is well formed, no two pieces share a square, and the
    /// piece count stays within capacity.
    pub open spec fn wf(&self) -> bool {
        &&& self.pieces.len() <= MAX_PIECES
        &&& forall|i: int| 0 <= i < self.pieces.len() ==> piece_ok(#[trigger] self.pieces[i])
        &&& forall|i: int, j: int|
            0 <= i < j < self.pieces.len() && (#[trigger] self.pieces[i]).position is Some ==> (
            self.pieces[i]).position != (#[trigger] self.pieces[j]).position
    }

    /// The piece standing on square `p`, if any.
    pub open spec fn occ(&self, p: Position) -> Option<Piece> {
        board_occupied(self.pieces, p)
    }

    /// Whether the board (not the reserve) holds a piece of the given type
    /// and color.
    pub open spec fn spec_contains(&self, t: PieceType, c: Color) -> bool {
        exists|i: int|
            0 <= i < self.pieces.len() && (#[trigger] self.pieces[i]).position is Some
                && self.pieces[i].piecetype == t && self.pieces[i].color == c
    }

    /// Whether the reserve of side `c` holds a piece of type `t`.
    pub open spec fn spec_has_reserve(&self, t: PieceType, c: Color) -> bool {
        exists|i: int|
            0 <= i < self.pieces.len() && (#[trigger] self.pieces[i]).position is None
                && self.pieces[i].piecetype == t && self.pieces[i].color == c
    }
}

impl Board {
    /// Every piece is well formed, no two pieces share a square, and the
    /// piece count stays within capacity.
    pub open spec fn wf(&self) -> bool {
        self@.wf()
    }

    /// The piece standing on square `p`, if any.
    pub open spec fn occ(&self, p: Position) -> Option<Piece> {
        self@.occ(p)
    }

    /// Whether the board (not the reserve) holds a piece of the given type
    /// and color.
    pub open spec fn spec_contains(&self, t: PieceType, c: Color) -> bool {
        self@.spec_contains(t, c)
    }

    /// Whether the reserve of side `c` holds a piece of type `t`.
    pub open spec fn spec_has_reserve(&self, t: PieceType, c: Color) -> bool {
        self@.spec_has_reserve(t, c)
    }

    /// An empty board: no pieces, first player to move, default rules.
    pub fn empty() -> (r: Self)
        ensures
            r.pieces@ == Seq::<Piece>::empty(),
            r.turn == Color::White,
            r.rules == default_rules(),
            r.wf(),
    {
        Board { pieces: Vec::new(), turn: Color::White, rules: Rules::default() }
    }

    /// The side to move.
    pub fn get_color(&self) -> (c: Color)
        ensures
            c == self.turn,
    {
        self.turn
    }

    /// Whether the side to move is the first player.
    pub fn get_turn(&self) -> (r: bool)
        ensures
            r == (self.turn == Color::White),
    {
        self.get_color() == Color::White
    }

    /// The piece standing on the given square, or `None` if it is empty.
    pub fn is_occupied_by(&self, pos: Position) -> (r: Option<Piece>)
        requires
            self.wf(),
        ensures
            r == self.occ(pos),
    {
        let n = self.pieces.len();
        let mut i: usize = 0;
        while i < n
            invariant
                0 <= i <= n,
                n == self.pieces@.len(),
                self.wf(),
                forall|j: int| 0 <= j < i ==> (#[trigger] self.pieces@[j]).position != Some(pos),
            decreases n - i,
        {
            let p = self.pieces[i];
            if let Some(q) = p.position {
                if q == pos {
                    proof {
                        assert(self.pieces@[i as int].position == Some(pos));
                        assert(board_has_at(self.pieces@, pos));
                        let j = board_at_idx(self.pieces@, pos);
                        assert(0 <= j < self.pieces@.len() && self.pieces@[j].position == Some(
                            pos,
                        ));
                        if j != i as int {
                            assert(false);
                        }
                    }
                    return Some(p);
                }
            }
            i += 1;
        }
        proof {
            if board_has_at(self.pieces@, pos) {
                let j = board_at_idx(self.pieces@, pos);
                assert(0 <= j < self.pieces@.len() && self.pieces@[j].position == Some(pos));
            }
        }
        None
    }

    /// Whether the board (not the reserve) holds a piece of the given type
    /// and color.
    pub fn contains(&self, pc: PieceType, color: Color) -> (r: bool)
        ensures
            r == self.spec_contains(pc, color),
    {
        let n = self.pieces.len();
        let mut i: usize = 0;
        while i < n
            invariant
                0 <= i <= n,
                n == self.pieces@.len(),
                forall|j: int|
                    0 <= j < i ==> !((#[trigger] self.pieces@[j]).position is Some
                        && self.pieces@[j].piecetype == pc && self.pieces@[j].color == color),
            decreases n - i,
        {
            let p = self.pieces[i];
            if p.position.is_some() && p.piecetype == pc && p.color == color {
                return true;
            }
            i += 1;
        }
        false
    }

    /// Whether the reserve of side `c` holds a piece of type `t`.
    pub fn has_reserve(&self, t: PieceType, c: Color) -> (r: bool)
        ensures
            r == self.spec_has_reserve(t, c),
    {
        let n = self.pieces.len();
        let mut i: usize = 0;
        while i < n
            invariant
                0 <= i <= n,
                n == self.pieces@.len(),
                forall|j: int|
                    0 <= j < i ==> !((#[trigger] self.pieces@[j]).position is None
                        && self.pieces@[j].piecetype == t && self.pieces@[j].color == c),
            decreases n - i,
        {
            let p = self.pieces[i];
            if p.position.is_none() && p.piecetype == t && p.color == c {
                return true;
            }
            i += 1;
        }
        false
    }

    /// Add a piece: onto a free square, or into a reserve.
    pub fn add_piece(&mut self, piece: Piece)
        requires
            old(self).wf(),
            piece_ok(piece),
            old(self).pieces@.len() < MAX_PIECES,
            piece.position is Some ==> old(self).occ(piece.position->0) is None,
        ensures
            final(self).pieces@ == old(self).pieces@.push(piece),
            final(self).turn == old(self).turn,
            final(self).rules == old(self).rules,
            final(self).wf(),
    {
        self.pieces.push(piece);
        proof {
            let s = self.pieces@;
            let n = s.len() - 1;
            if piece.position is Some {
                assert forall|i: int|
                    0 <= i < n && (#[trigger] s[i]).position is Some implies s[i].position
                    != s[n].position by {
                    if s[i].position == Some(piece.position->0) {
                        assert(board_has_at(old(self).pieces@, piece.position->0));
                    }
                }
            }
        }
    }

    /// All the pieces, on board and in reserve.
    pub fn iter(&self) -> (r: Vec<Piece>)
        ensures
            r@ == self.pieces@,
    {
        let n = self.pieces.len();
        let mut r: Vec<Piece> = Vec::new();
        let mut i: usize = 0;
        while i < n
            invariant
                0 <= i <= n,
                n == self.pieces@.len(),
                r@ == self.pieces@.take(i as int),
            decreases n - i,
        {
            r.push(self.pieces[i]);
            assert(r@ =~= self.pieces@.take(i + 1));
            i += 1;
        }
        assert(r@ =~= self.pieces@);
        r
    }

    /// The pawns of the given side, on board and in reserve.
    pub fn iter_pawns(&self, c: Color) -> (r: Vec<Piece>)
        ensures
            r@ == self.pieces@.filter(is_pawn_of(c)),
    {
        let n = self.pieces.len();
        let mut r: Vec<Piece> = Vec::new();
        let mut i: usize = 0;
        let ghost pred = is_pawn_of(c);
        while i < n
            invariant
                0 <= i <= n,
                n == self.pieces@.len(),
                pred == is_pawn_of(c),
                r@ == self.pieces@.take(i as int).filter(pred),
            decreases n - i,
        {
            let p = self.pieces[i];
            proof {
                lemma_filter_take_step(self.pieces@, pred, i as int);
                assert(self.pieces@[i as int] == p);
            }
            if p.piecetype == PieceType::Pawn && p.color == c {
                r.push(p);
                assert(pred(p));
                assert(r@ =~= self.pieces@.take(i as int + 1).filter(pred));
            } else {
                assert(!pred(p));
                assert(r@ =~= self.pieces@.take(i as int + 1).filter(pred));
            }
            i += 1;
        }
        assert(self.pieces@.take(n as int) =~= self.pieces@);
        r
    }

    /// The pieces other than pawns of the given side, on board and in
    /// reserve.
    pub fn iter_pieces(&self, c: Color) -> (r: Vec<Piece>)
        ensures
            r@ == self.pieces@.filter(is_nonpawn_of(c)),
    {
        let n = self.pieces.len();
        let mut r: Vec<Piece> = Vec::new();
        let mut i: usize = 0;
        let ghost pred = is_nonpawn_of(c);
        while i < n
            invariant
                0 <= i <= n,
                n == self.pieces@.len(),
                pred == is_nonpawn_of(c),
                r@ == self.pieces@.take(i as int).filter(pred),
            decreases n - i,
        {
            let p = self.pieces[i];
            proof {
                lemma_filter_take_step(self.pieces@, pred, i as int);
                assert(self.pieces@[i as int] == p);
            }
            if !(p.piecetype == PieceType::Pawn) && p.color == c {
                r.push(p);
                assert(pred(p));
                assert(r@ =~= self.pieces@.take(i as int + 1).filter(pred));
            } else {
                assert(!pred(p));
                assert(r@ =~= self.pieces@.take(i as int + 1).filter(pred));
            }
            i += 1;
        }
        assert(self.pieces@.take(n as int) =~= self.pieces@);
        r
    }

    /// The material score of the position from the side to move's point of
    /// view: the sum of its pieces' values minus the sum of the opponent's.
    pub fn value(&self) -> (r: i32)
        requires
            self.wf(),
        ensures
            r == board_value_seq(self.pieces@, self.turn),
            -3200000 <= r <= 3200000,
    {
        let n = self.pieces.len();
        let mut sum: i32 = 0;
        let mut i: usize = 0;
        while i < n
            invariant
                0 <= i <= n,
                n == self.pieces@.len(),
                n <= MAX_PIECES,
                sum == board_value_seq(self.pieces@.take(i as int), self.turn),
                -25000 * (i as int) <= sum <= 25000 * (i as int),
                -3200000 <= sum <= 3200000,
            decreases n - i,
        {
            let p = self.pieces[i];
            let v = p.value();
            proof {
                assert(self.pieces@.take(i + 1).drop_last() =~= self.pieces@.take(i as int));
                assert(self.pieces@.take(i + 1).last() == self.pieces@[i as int]);
            }
            if p.color == self.turn {
                sum = sum + v;
            } else {
                sum = sum - v;
            }
            i += 1;
        }
        assert(self.pieces@.take(n as int) =~= self.pieces@);
        sum
    }

    /// Rotate the board centrally: every on-board piece moves from index
    /// `p` to index `80 - p`; reserve pieces are unchanged.
    pub fn flip(&mut self)
        requires
            old(self).wf(),
        ensures
            final(self).pieces@ == old(self).pieces@.map_values(|p: Piece| reflect_piece(p)),
            final(self).turn == old(self).turn,
            final(self).rules == old(self).rules,
            final(self).wf(),
    {
        let n = self.pieces.len();
        let mut out: Vec<Piece> = Vec::new();
        let mut i: usize = 0;
        while i < n
            invariant
                0 <= i <= n,
                n == self.pieces@.len(),
                self.wf(),
                out@.len() == i,
                forall|j: int| 0 <= j < i ==> out@[j] == reflect_piece(self.pieces@[j]),
            decreases n - i,
        {
            let p = self.pieces[i];
            match p.position {
                Some(q) => {
                    out.push(
                        Piece {
                            color: p.color,
                            piecetype: p.piecetype,
                            promoted: p.promoted,
                            position: Some(Position(80 - q.0)),
                        },
                    );
                },
                None => {
                    out.push(p);
                },
            }
            i += 1;
        }
        self.pieces = out;
        proof {
            let old_s = old(self).pieces@;
            let s = self.pieces@;
            assert(s =~= old_s.map_values(|p: Piece| reflect_piece(p)));
            assert forall|i: int, j: int|
                0 <= i < j < s.len() && (#[trigger] s[i]).position is Some implies (
            s[i]).position != (#[trigger] s[j]).position by {
                assert(s[i] == reflect_piece(old_s[i]));
                assert(s[j] == reflect_piece(old_s[j]));
            }
        }
    }

    /// Push the standard starting layout for one side onto the board's low
    /// rows (rows 'a' through 'c').
    pub fn set(&mut self, col: Color)
        requires
            old(self).wf(),
            old(self).pieces@.len() + 20 <= MAX_PIECES,
            forall|q: Position| q.0 <= 26 ==> #[trigger] old(self).occ(q) is None,
        ensures
            final(self).pieces@ == old(self).pieces@ + start_layout(col),
            final(self).turn == old(self).turn,
            final(self).rules == old(self).rules,
            final(self).wf(),
    {
        let mut sq: u16 = 18;
        while sq < 27
            invariant
                18 <= sq <= 27,
                self.turn == old(self).turn,
                self.rules == old(self).rules,
                self.pieces@ == old(self).pieces@ + start_layout(col).take(sq - 18),
            decreases 27 - sq,
        {
            proof {
                lemma_start_layout_props(col);
                assert(start_layout(col)[sq - 18] == start_piece(col, PieceType::Pawn, sq));
            }
            self.pieces.push(
                Piece {
                    color: col,
                    piecetype: PieceType::Pawn,
                    promoted: false,
                    position: Some(Position(sq)),
                },
            );
            assert(self.pieces@ =~= old(self).pieces@ + start_layout(col).take(sq - 18 + 1));
            sq += 1;
        }
        self.push_start_piece(col, PieceType::Lance, 0);
        self.push_start_piece(col, PieceType::Lance, 8);
        self.push_start_piece(col, PieceType::Knight, 1);
        self.push_start_piece(col, PieceType::Knight, 7);
        self.push_start_piece(col, PieceType::Silver, 2);
        self.push_start_piece(col, PieceType::Silver, 6);
        self.push_start_piece(col, PieceType::Gold, 3);
        self.push_start_piece(col, PieceType::Gold, 5);
        self.push_start_piece(col, PieceType::King, 4);
        self.push_start_piece(col, PieceType::Rook, 16);
        self.push_start_piece(col, PieceType::Bishop, 10);
        proof {
            lemma_start_layout_props(col);
            assert(self.pieces@ =~= old(self).pieces@ + start_layout(col));
            let s = self.pieces@;
            let n0 = old(self).pieces@.len() as int;
            assert forall|i: int, j: int|
                0 <= i < j < s.len() && (#[trigger] s[i]).position is Some implies (
            s[i]).position != (#[trigger] s[j]).position by {
                if i < n0 && j >= n0 {
                    let q = (start_layout(col)[j - n0]).position->0;
                    assert(q.0 <= 26);
                    if s[i].position == Some(q) {
                        assert(board_has_at(old(self).pieces@, q));
                        assert(old(self).occ(q) is Some);
                    }
                } else if i >= n0 {
                    assert((start_layout(col)[i - n0]).position != (start_layout(
                        col,
                    )[j - n0]).position);
                }
            }
            assert forall|i: int| 0 <= i < s.len() implies piece_ok(#[trigger] s[i]) by {
                if i >= n0 {
                    assert(piece_ok(start_layout(col)[i - n0]));
                }
            }
        }
    }

    fn push_start_piece(&mut self, col: Color, t: PieceType, sq: u16)
        requires
            sq <= 80,
        ensures
            final(self).pieces@ == old(self).pieces@.push(start_piece(col, t, sq)),
            final(self).turn == old(self).turn,
            final(self).rules == old(self).rules,
    {
        self.pieces.push(
            Piece { color: col, piecetype: t, promoted: false, position: Some(Position(sq)) },
        );
    }

    /// A new board holding the standard starting position: the second
    /// player's layout is the first player's reflected through the board's
    /// center.
    pub fn new() -> (r: Board)
        ensures
            r.pieces@ == initial_pieces(),
            r.turn == Color::White,
            r.rules == default_rules(),
            r.wf(),
    {
        let mut b = Board::empty();
        proof {
            lemma_start_layout_props(Color::Black);
            lemma_start_layout_props(Color::White);
        }
        b.set(Color::Black);
        b.flip();
        proof {
            assert forall|q: Position| q.0 <= 26 implies #[trigger] b.occ(q) is None by {
                if board_has_at(b.pieces@, q) {
                    let i = board_at_idx(b.pieces@, q);
                    assert(b.pieces@[i] == reflect_piece(start_layout(Color::Black)[i]));
                }
            }
            assert(b.pieces@ =~= start_layout(Color::Black).map_values(
                |p: Piece| reflect_piece(p),
            ));
        }
        b.set(Color::White);
        proof {
            assert(b.pieces@ =~= initial_pieces());
        }
        b
    }

    /// Apply a move without checking its full legality, and return the new
    /// board. The caller must supply a playable move: a sentinel token, or
    /// one that passes the syntax, in-board, start-existence and
    /// destination-occupancy stages; moves drawn from the enumerations
    /// qualify.
    #[verifier::rlimit(100)]
    pub fn play_move_unchecked(&self, mv: &str) -> (r: Board)
        requires
            self.wf(),
            playable(self@, mv@),
        ensures
            r@ == play_spec(self@, mv@),
            r.wf(),
    {
        proof {
            reveal_strlit("restart");
            reveal_strlit("withdraw");
            assert("restart"@ =~= restart_chars());
            assert("withdraw"@ =~= withdraw_chars());
        }
        if str_eq(mv, "restart") {
            proof {
                if !self.rules.can_restart {
                    assert(mv@ == restart_chars());
                    assert(mv@.len() == 7 && mv@[6] == 't');
                    assert(!syntax_ok(mv@));
                    assert(mv@ != withdraw_chars());
                    assert(false);
                }
            }
            let r = Board::new();
            proof {
                reveal(play_spec);
                assert(r@ == play_spec(self@, mv@));
            }
            return r;
        }
        if str_eq(mv, "withdraw") {
            return self.apply_withdraw(Ghost(mv@));
        }
        proof {
            assert(mv@ != restart_chars());
            assert(mv@ != withdraw_chars());
            assert(syntax_ok(mv@) && in_board_ok(mv@) && start_ok(self@, mv@) && destination_ok(
                self@,
                mv@,
            ));
            lemma_grammar_parse(mv@);
        }
        let m = parse_known(mv);
        let ghost s0 = self.pieces@;
        let mut pieces = self.iter();
        let mut turn = self.turn;
        turn.invert();
        match m.start {
            Some(st) => {
                proof {
                    // The start square holds the piece the start stage found,
                    // and the destination holds no friendly piece.
                    let im = choose|i: int|
                        0 <= i < s0.len() && (#[trigger] s0[i]).color == self.turn
                            && s0[i].position == m.start && s0[i].piecetype == m.piecetype;
                    assert(s0[im].position == Some(st));
                    assert(board_has_at(s0, st));
                    if board_has_at(s0, m.end) && s0[board_at_idx(s0, m.end)].color == self.turn {
                        assert(self@.occ(m.end) is Some);
                        assert(false);
                    }
                    lemma_capture_at(s0, m.end, self.turn);
                    // The start and destination squares differ.
                    if st == m.end {
                        assert(s0[board_at_idx(s0, m.end)].color == self.turn) by {
                            let jj = board_at_idx(s0, m.end);
                            assert(0 <= jj < s0.len() && s0[jj].position == Some(m.end));
                            if jj != im {
                                assert(false);
                            }
                        }
                        assert(false);
                    }
                }
                // Capture any opponent piece on the destination.
                match find_at(&pieces, m.end) {
                    Some(j0) => {
                        let victim = pieces[j0];
                        proof {
                            let jj = board_at_idx(s0, m.end);
                            assert(board_has_at(s0, m.end));
                            assert(0 <= jj < s0.len() && s0[jj].position == Some(m.end));
                            if jj != j0 as int {
                                assert(false);
                            }
                        }
                        if !(victim.color == self.turn) {
                            pieces.remove(j0);
                            pieces.push(
                                Piece {
                                    color: self.turn,
                                    piecetype: victim.piecetype,
                                    promoted: false,
                                    position: None,
                                },
                            );
                            proof {
                                assert(pieces@ =~= capture_at(s0, m.end, self.turn));
                            }
                        } else {
                            proof {
                                assert(pieces@ =~= capture_at(s0, m.end, self.turn));
                            }
                        }
                    },
                    None => {
                        proof {
                            if board_has_at(s0, m.end) {
                                let jj = board_at_idx(s0, m.end);
                                assert(0 <= jj < s0.len() && s0[jj].position == Some(m.end));
                                assert(false);
                            }
                            assert(pieces@ =~= capture_at(s0, m.end, self.turn));
                        }
                    },
                }
                let ghost s1 = capture_at(s0, m.end, self.turn);
                proof {
                    assert(pieces@ == s1);
                    assert(board_has_at(s1, st));
                }
                // Relocate the mover.
                let jm = match find_at(&pieces, st) {
                    Some(jm) => jm,
                    None => {
                        proof {
                            let jj = board_at_idx(s1, st);
                            assert(0 <= jj < s1.len() && s1[jj].position == Some(st));
                            assert(false);
                        }
                        vstd::pervasive::unreached()
                    },
                };
                let mover = pieces[jm];
                proof {
                    let jj = board_at_idx(s1, st);
                    assert(0 <= jj < s1.len() && s1[jj].position == Some(st));
                    if jj != jm as int {
                        assert(false);
                    }
                }
                pieces.set(
                    jm,
                    Piece {
                        color: mover.color,
                        piecetype: mover.piecetype,
                        promoted: mover.promoted || m.promotion,
                        position: Some(m.end),
                    },
                );
                let r = Board { pieces, turn, rules: self.rules };
                proof {
                    reveal(play_spec);
                    let jj = board_at_idx(s1, st);
                    assert(r.pieces@ =~= s1.update(jj, moved_piece(s1[jj], m)));
                    assert(r.pieces@ == play_normal_pieces(s0, m, self.turn));
                    assert(r@ == play_spec(self@, mv@));
                    // Well-formedness: the moved piece stands alone on the
                    // destination square, which the capture left empty.
                    let s2 = r.pieces@;
                    assert(pos_ok(m.end));
                    assert forall|i: int| 0 <= i < s2.len() implies piece_ok(#[trigger] s2[i]) by {
                        if i != jj {
                            assert(s2[i] == s1[i]);
                        }
                    }
                    assert forall|i: int, j: int|
                        0 <= i < j < s2.len() && (#[trigger] s2[i]).position is Some implies (
                    s2[i]).position != (#[trigger] s2[j]).position by {
                        if i != jj && j != jj {
                            assert(s2[i] == s1[i] && s2[j] == s1[j]);
                        } else if i == jj {
                            assert(s2[j] == s1[j]);
                            assert(s1[j].position != Some(m.end));
                        } else {
                            assert(s2[i] == s1[i]);
                            assert(s1[i].position != Some(m.end));
                        }
                    }
                }
                r
            },
            None => {
                // A drop: place the first matching reserve piece.
                let k = match find_reserve(&pieces, m.piecetype, self.turn) {
                    Some(k) => k,
                    None => {
                        proof {
                            let im = choose|i: int|
                                0 <= i < s0.len() && (#[trigger] s0[i]).color == self.turn
                                    && s0[i].position == m.start && s0[i].piecetype == m.piecetype;
                            assert(is_reserve_of(m.piecetype, self.turn)(s0[im]));
                            assert(false);
                        }
                        vstd::pervasive::unreached()
                    },
                };
                proof {
                    let ghost pred = is_reserve_of(m.piecetype, self.turn);
                    assert(exists|i: int|
                        0 <= i < s0.len() && pred(#[trigger] s0[i]) && (forall|j: int|
                            0 <= j < i ==> !pred(#[trigger] s0[j]))) by {
                        assert(pred(s0[k as int]) && (forall|j: int|
                            0 <= j < k ==> !pred(#[trigger] s0[j])));
                    }
                    let kk = first_idx_where(s0, pred);
                    assert(0 <= kk < s0.len() && pred(s0[kk]) && (forall|j: int|
                        0 <= j < kk ==> !pred(#[trigger] s0[j])));
                    if kk < k as int {
                        assert(!pred(s0[kk]));
                        assert(false);
                    } else if kk > k as int {
                        assert(!pred(s0[k as int]));
                        assert(false);
                    }
                }
                pieces.set(
                    k,
                    Piece {
                        color: self.turn,
                        piecetype: m.piecetype,
                        promoted: false,
                        position: Some(m.end),
                    },
                );
                let r = Board { pieces, turn, rules: self.rules };
                proof {
                    reveal(play_spec);
                    let ghost pred = is_reserve_of(m.piecetype, self.turn);
                    let kk = first_idx_where(s0, pred);
                    assert(r.pieces@ =~= play_drop_pieces(s0, m, self.turn));
                    assert(r@ == play_spec(self@, mv@));
                    // Well-formedness: the destination square was empty.
                    let s2 = r.pieces@;
                    assert(pos_ok(m.end));
                    assert forall|i: int| 0 <= i < s2.len() implies piece_ok(#[trigger] s2[i]) by {
                        if i != k {
                            assert(s2[i] == s0[i]);
                        }
                    }
                    assert forall|i: int, j: int|
                        0 <= i < j < s2.len() && (#[trigger] s2[i]).position is Some implies (
                    s2[i]).position != (#[trigger] s2[j]).position by {
                        if i != k && j != k {
                            assert(s2[i] == s0[i] && s2[j] == s0[j]);
                        } else if i == k as int {
                            assert(s2[j] == s0[j]);
                            if s0[j].position == Some(m.end) {
                                assert(board_has_at(s0, m.end));
                                assert(false);
                            }
                        } else {
                            assert(s2[i] == s0[i]);
                            if s0[i].position == Some(m.end) {
                                assert(board_has_at(s0, m.end));
                                assert(false);
                            }
                        }
                    }
                }
                r
            },
        }
    }

    /// Generate the raw candidate move strings for the side to move: every
    /// drop of a reserve piece type onto every square (when `with_drops`),
    /// and both the promoting and plain encodings of every reachable offset
    /// of every on-board piece.
    fn gen_candidates(&self, with_drops: bool) -> (r: Vec<String>)
        requires
            self.wf(),
        ensures
            forall|k: int|
                0 <= k < r@.len() ==> normal_candidate(self@, (#[trigger] r@[k])@) || (with_drops
                    && drop_candidate(self@, r@[k]@)),
            forall|s: Seq<char>| normal_candidate(self@, s) ==> #[trigger] holds_str(r@, s),
            with_drops ==> forall|s: Seq<char>|
                drop_candidate(self@, s) ==> #[trigger] holds_str(r@, s),
    {
        let mut out: Vec<String> = Vec::new();
        if with_drops {
            let mut ti: usize = 0;
            while ti < 8
                invariant
                    0 <= ti <= 8,
                    self.wf(),
                    forall|k: int|
                        0 <= k < out@.len() ==> drop_candidate(self@, (#[trigger] out@[k])@),
                    forall|t: PieceType, sq: int|
                        #![trigger movement_chars(drop_movement(t, sq))]
                        type_index(t) < ti && 0 <= sq < 81 && self@.spec_has_reserve(t, self.turn)
                            ==> holds_str(out@, movement_chars(drop_movement(t, sq))),
                decreases 8 - ti,
            {
                let t = type_of_index(ti);
                if self.has_reserve(t, self.get_color()) {
                    let mut sq: u16 = 0;
                    while sq < 81
                        invariant
                            0 <= sq <= 81,
                            self.wf(),
                            ti < 8,
                            type_index(t) == ti as int,
                            self@.spec_has_reserve(t, self.turn),
                            forall|k: int|
                                0 <= k < out@.len() ==> drop_candidate(
                                    self@,
                                    (#[trigger] out@[k])@,
                                ),
                            forall|t2: PieceType, sq2: int|
                                #![trigger movement_chars(drop_movement(t2, sq2))]
                                type_index(t2) < ti && 0 <= sq2 < 81 && self@.spec_has_reserve(
                                    t2,
                                    self.turn,
                                ) ==> holds_str(out@, movement_chars(drop_movement(t2, sq2))),
                            forall|sq2: int|
                                0 <= sq2 < sq ==> holds_str(
                                    out@,
                                    movement_chars(#[trigger] drop_movement(t, sq2)),
                                ),
                        decreases 81 - sq,
                    {
                        let mvt = Movement {
                            piecetype: t,
                            start: None,
                            end: Position(sq),
                            promotion: false,
                            force_capture: false,
                            withdraw: false,
                            restart: false,
                        };
                        proof {
                            assert(mvt == drop_movement(t, sq as int));
                        }
                        let str_of = mvt.to_string();
                        let ghost sv = str_of@;
                        let ghost prev = out@;
                        out.push(str_of);
                        proof {
                            lemma_holds_str_extend(prev, out@);
                            assert((out@[prev.len() as int])@ == sv);
                            assert(holds_str(out@, movement_chars(drop_movement(t, sq as int))));
                            assert(drop_candidate(self@, sv));
                        }
                        sq += 1;
                    }
                    proof {
                        assert forall|t2: PieceType, sq2: int|
                            type_index(t2) < ti + 1 && 0 <= sq2 < 81 && self@.spec_has_reserve(
                                t2,
                                self.turn,
                            ) implies holds_str(
                            out@,
                            #[trigger] movement_chars(drop_movement(t2, sq2)),
                        ) by {
                            if type_index(t2) == ti as int {
                                assert(t2 == t);
                            }
                        }
                    }
                } else {
                    proof {
                        assert forall|t2: PieceType, sq2: int|
                            type_index(t2) < ti + 1 && 0 <= sq2 < 81 && self@.spec_has_reserve(
                                t2,
                                self.turn,
                            ) implies holds_str(
                            out@,
                            #[trigger] movement_chars(drop_movement(t2, sq2)),
                        ) by {
                            if type_index(t2) == ti as int {
                                assert(t2 == t);
                                assert(false);
                            }
                        }
                    }
                }
                ti += 1;
            }
        }
        let n = self.pieces.len();
        let mut pi: usize = 0;
        while pi < n
            invariant
                0 <= pi <= n,
                n == self.pieces@.len(),
                self.wf(),
                forall|k: int|
                    0 <= k < out@.len() ==> normal_candidate(self@, (#[trigger] out@[k])@) || (
                with_drops && drop_candidate(self@, out@[k]@)),
                with_drops ==> forall|t2: PieceType, sq2: int|
                    #![trigger movement_chars(drop_movement(t2, sq2))]
                    0 <= sq2 < 81 && self@.spec_has_reserve(t2, self.turn) ==> holds_str(
                        out@,
                        movement_chars(drop_movement(t2, sq2)),
                    ),
                forall|i: int, o: (i16, i16), pr: bool|
                    #![trigger movement_chars(Movement::relative_movement(self.pieces@[i], o, pr))]
                    normal_gen_cond(self@, i, o) && i < pi ==> holds_str(
                        out@,
                        movement_chars(Movement::relative_movement(self.pieces@[i], o, pr)),
                    ),
            decreases n - pi,
        {
            let p = self.pieces[pi];
            if p.position.is_some() && p.color == self.get_color() {
                let offs = p.get_relative_moves();
                let mut oi: usize = 0;
                while oi < offs.len()
                    invariant
                        0 <= oi <= offs@.len(),
                        self.wf(),
                        pi < n,
                        n == self.pieces@.len(),
                        p == self.pieces@[pi as int],
                        p.position is Some,
                        p.color == self.turn,
                        pos_ok(p.position->0),
                        forall|o: (i16, i16)|
                            #[trigger] offs@.contains(o) <==> (crate::piece::colored_offsets(
                                p.piecetype,
                                p.promoted,
                                p.color,
                            ).contains(o) && crate::piece::offset_ok(p.position->0, o)),
                        forall|k: int|
                            0 <= k < out@.len() ==> normal_candidate(self@, (#[trigger] out@[k])@)
                                || (with_drops && drop_candidate(self@, out@[k]@)),
                        with_drops ==> forall|t2: PieceType, sq2: int|
                            #![trigger movement_chars(drop_movement(t2, sq2))]
                            0 <= sq2 < 81 && self@.spec_has_reserve(t2, self.turn) ==> holds_str(
                                out@,
                                movement_chars(drop_movement(t2, sq2)),
                            ),
                        forall|i: int, o: (i16, i16), pr: bool|
                            #![trigger movement_chars(
                                Movement::relative_movement(self.pieces@[i], o, pr),
                            )]
                            normal_gen_cond(self@, i, o) && i < pi ==> holds_str(
                                out@,
                                movement_chars(Movement::relative_movement(self.pieces@[i], o, pr)),
                            ),
                        forall|j: int, pr: bool|
                            #![trigger movement_chars(Movement::relative_movement(p, offs@[j], pr))]
                            0 <= j < oi ==> holds_str(
                                out@,
                                movement_chars(Movement::relative_movement(p, offs@[j], pr)),
                            ),
                    decreases offs@.len() - oi,
                {
                    let o = offs[oi];
                    proof {
                        assert(offs@[oi as int] == o);
                        assert(offs@.contains(o));
                        assert(normal_gen_cond(self@, pi as int, o));
                    }
                    let mut two = Movement::from_relative(&p, o);
                    let ghost sv0 = two@[0]@;
                    let ghost sv1 = two@[1]@;
                    let first = two.remove(0);
                    let second = two.remove(0);
                    let ghost prev = out@;
                    out.push(first);
                    out.push(second);
                    proof {
                        lemma_holds_str_extend(prev, out@);
                        assert((out@[prev.len() as int])@ == sv0);
                        assert((out@[prev.len() as int + 1])@ == sv1);
                        assert(sv0 == movement_chars(Movement::relative_movement(p, o, true)));
                        assert(sv1 == movement_chars(Movement::relative_movement(p, o, false)));
                        assert(holds_str(out@, sv0));
                        assert(holds_str(out@, sv1));
                        assert(normal_candidate(self@, sv0));
                        assert(normal_candidate(self@, sv1));
                        assert forall|j: int, pr: bool|
                            0 <= j < oi + 1 implies holds_str(
                            out@,
                            #[trigger] movement_chars(
                                Movement::relative_movement(p, offs@[j], pr),
                            ),
                        ) by {
                            if j == oi as int {
                                assert(offs@[j] == o);
                                if pr {
                                    assert(holds_str(out@, sv0));
                                } else {
                                    assert(holds_str(out@, sv1));
                                }
                            }
                        }
                    }
                    oi += 1;
                }
                proof {
                    assert forall|i: int, o: (i16, i16), pr: bool|
                        normal_gen_cond(self@, i, o) && i < pi + 1 implies holds_str(
                        out@,
                        #[trigger] movement_chars(
                            Movement::relative_movement(self.pieces@[i], o, pr),
                        ),
                    ) by {
                        if i == pi as int {
                            assert(offs@.contains(o));
                            let j = choose|j: int| 0 <= j < offs@.len() && offs@[j] == o;
                            assert(holds_str(
                                out@,
                                movement_chars(Movement::relative_movement(p, offs@[j], pr)),
                            ));
                        }
                    }
                }
            } else {
                proof {
                    assert forall|i: int, o: (i16, i16), pr: bool|
                        normal_gen_cond(self@, i, o) && i < pi + 1 implies holds_str(
                        out@,
                        #[trigger] movement_chars(
                            Movement::relative_movement(self.pieces@[i], o, pr),
                        ),
                    ) by {
                        if i == pi as int {
                            assert(false);
                        }
                    }
                }
            }
            pi += 1;
        }
        proof {
            assert forall|s: Seq<char>| normal_candidate(self@, s) implies #[trigger] holds_str(
                out@,
                s,
            ) by {
                let (i, o, pr) = choose|i: int, o: (i16, i16), pr: bool|
                    #![trigger movement_chars(Movement::relative_movement(self@.pieces[i], o, pr))]
                    normal_gen_cond(self@, i, o) && s == movement_chars(
                        Movement::relative_movement(self@.pieces[i], o, pr),
                    );
                assert(holds_str(
                    out@,
                    movement_chars(Movement::relative_movement(self.pieces@[i], o, pr)),
                ));
            }
            if with_drops {
                assert forall|s: Seq<char>| drop_candidate(self@, s) implies #[trigger] holds_str(
                    out@,
                    s,
                ) by {
                    let (t, sq) = choose|t: PieceType, sq: int|
                        #![trigger movement_chars(drop_movement(t, sq))]
                        0 <= sq < 81 && self@.spec_has_reserve(t, self.turn) && s == movement_chars(
                            drop_movement(t, sq),
                        );
                    assert(type_index(t) < 8);
                    assert(holds_str(out@, movement_chars(drop_movement(t, sq))));
                }
            }
        }
        out
    }

    /// Run the eight board-local stages of the pipeline, in order, on a
    /// candidate, returning the first failing stage's error.
    pub(crate) fn check_partial_pipeline<'a>(&'a self, mv: &'a str) -> (r: Result<
        &'a str,
        InvalidMoveError,
    >)
        requires
            self.wf(),
        ensures
            r is Ok <==> partial_first_error(self@, mv@) is None,
            r is Ok ==> r->Ok_0@ == mv@,
            r is Err ==> Some(r->Err_0) == partial_first_error(self@, mv@),
    {
        if let Err(e) = check_syntax(mv) {
            return Err(e);
        }
        if let Err(e) = check_in_board(mv) {
            return Err(e);
        }
        proof {
            lemma_grammar_parse(mv@);
        }
        if let Err(e) = check_start(mv, self) {
            return Err(e);
        }
        if let Err(e) = check_destination(mv, self) {
            return Err(e);
        }
        if let Err(e) = check_possible_move(mv, self) {
            return Err(e);
        }
        if let Err(e) = check_nifu(mv, self) {
            return Err(e);
        }
        if let Err(e) = check_move_possible_after_drop(mv, self) {
            return Err(e);
        }
        if let Err(e) = check_promotion(mv, self) {
            return Err(e);
        }
        Ok(mv)
    }

    /// Keep the candidates that pass the eight board-local stages.
    fn filter_partial(&self, cand: Vec<String>) -> (r: Vec<String>)
        requires
            self.wf(),
        ensures
            forall|k: int|
                0 <= k < r@.len() ==> partial_pipeline_ok(self@, (#[trigger] r@[k])@) && holds_str(
                    cand@,
                    r@[k]@,
                ),
            forall|j: int|
                0 <= j < cand@.len() && partial_pipeline_ok(self@, (#[trigger] cand@[j])@)
                    ==> holds_str(r@, cand@[j]@),
    {
        let mut r: Vec<String> = Vec::new();
        let mut i: usize = 0;
        while i < cand.len()
            invariant
                0 <= i <= cand@.len(),
                self.wf(),
                forall|k: int|
                    0 <= k < r@.len() ==> partial_pipeline_ok(self@, (#[trigger] r@[k])@)
                        && holds_str(cand@, r@[k]@),
                forall|j: int|
                    0 <= j < i && partial_pipeline_ok(self@, (#[trigger] cand@[j])@) ==> holds_str(
                        r@,
                        cand@[j]@,
                    ),
            decreases cand@.len() - i,
        {
            let s: &String = &cand[i];
            let ok = self.check_partial_pipeline(s.as_str()).is_ok();
            if ok {
                let ghost prev = r@;
                r.push(s.clone());
                proof {
                    lemma_holds_str_extend(prev, r@);
                    assert((r@[prev.len() as int])@ == cand@[i as int]@);
                    assert(holds_str(cand@, r@[prev.len() as int]@)) by {
                        assert((cand@[i as int])@ == r@[prev.len() as int]@);
                    }
                    assert(holds_str(r@, cand@[i as int]@));
                }
            }
            i += 1;
        }
        r
    }

    /// All the moves for the side to move that pass the eight board-local
    /// stages, drops included.
    pub(crate) fn enumerate_partial(&self) -> (r: Vec<String>)
        requires
            self.wf(),
        ensures
            forall|k: int| 0 <= k < r@.len() ==> enumerated_partial(self@, (#[trigger] r@[k])@),
            forall|s: Seq<char>| enumerated_partial(self@, s) ==> #[trigger] holds_str(r@, s),
    {
        let c = self.gen_candidates(true);
        let r = self.filter_partial(c);
        proof {
            reveal(enumerated_partial);
            assert forall|k: int| 0 <= k < r@.len() implies enumerated_partial(
                self@,
                (#[trigger] r@[k])@,
            ) by {
                assert(holds_str(c@, r@[k]@));
                let j = choose|j: int| 0 <= j < c@.len() && (#[trigger] c@[j])@ == r@[k]@;
                assert(normal_candidate(self@, c@[j]@) || drop_candidate(self@, c@[j]@));
            }
            assert forall|s: Seq<char>| enumerated_partial(self@, s) implies #[trigger] holds_str(
                r@,
                s,
            ) by {
                assert(holds_str(c@, s));
                let j = choose|j: int| 0 <= j < c@.len() && (#[trigger] c@[j])@ == s;
                assert(partial_pipeline_ok(self@, c@[j]@));
                assert(holds_str(r@, c@[j]@));
            }
        }
        r
    }

    /// The non-drop moves for the side to move that pass the eight
    /// board-local stages.
    pub(crate) fn enumerate_normal_partial(&self) -> (r: Vec<String>)
        requires
            self.wf(),
        ensures
            forall|k: int|
                0 <= k < r@.len() ==> enumerated_normal_partial(self@, (#[trigger] r@[k])@),
            forall|s: Seq<char>|
                enumerated_normal_partial(self@, s) ==> #[trigger] holds_str(r@, s),
    {
        let c = self.gen_candidates(false);
        let r = self.filter_partial(c);
        proof {
            reveal(enumerated_normal_partial);
            assert forall|k: int| 0 <= k < r@.len() implies enumerated_normal_partial(
                self@,
                (#[trigger] r@[k])@,
            ) by {
                assert(holds_str(c@, r@[k]@));
                let j = choose|j: int| 0 <= j < c@.len() && (#[trigger] c@[j])@ == r@[k]@;
                assert(normal_candidate(self@, c@[j]@));
            }
            assert forall|s: Seq<char>|
                enumerated_normal_partial(self@, s) implies #[trigger] holds_str(r@, s) by {
                assert(holds_str(c@, s));
                let j = choose|j: int| 0 <= j < c@.len() && (#[trigger] c@[j])@ == s;
                assert(partial_pipeline_ok(self@, c@[j]@));
                assert(holds_str(r@, c@[j]@));
            }
        }
        r
    }

    /// Whether the side to move is checkmated: every reply it has (checked
    /// without the two lookahead stages) leaves the opponent some non-drop
    /// counter-reply that takes its king.
    #[verifier::rlimit(100)]
    pub fn game_over(&self) -> (r: bool)
        requires
            self.wf(),
        ensures
            r == game_over_spec(self@),
    {
        let my_color = self.get_color();
        let moves = self.enumerate_partial();
        let mut i: usize = 0;
        while i < moves.len()
            invariant
                0 <= i <= moves@.len(),
                self.wf(),
                my_color == self.turn,
                forall|k: int|
                    0 <= k < moves@.len() ==> enumerated_partial(self@, (#[trigger] moves@[k])@),
                forall|s: Seq<char>| enumerated_partial(self@, s) ==> #[trigger] holds_str(
                    moves@,
                    s,
                ),
                forall|j: int|
                    0 <= j < i ==> opponent_takes_king(
                        play_spec(self@, (#[trigger] moves@[j])@),
                        self.turn,
                    ),
            decreases moves@.len() - i,
        {
            let mvs: &String = &moves[i];
            proof {
                reveal(enumerated_partial);
                assert(enumerated_partial(self@, mvs@));
                lemma_partial_playable(self@, mvs@);
            }
            let bn = self.play_move_unchecked(mvs.as_str());
            let omoves = bn.enumerate_normal_partial();
            let mut have = false;
            let mut k: usize = 0;
            while k < omoves.len()
                invariant
                    0 <= k <= omoves@.len(),
                    bn.wf(),
                    my_color == self.turn,
                    bn@ == play_spec(self@, moves@[i as int]@),
                    i < moves@.len(),
                    forall|k2: int|
                        0 <= k2 < omoves@.len() ==> enumerated_normal_partial(
                            bn@,
                            (#[trigger] omoves@[k2])@,
                        ),
                    forall|s: Seq<char>|
                        enumerated_normal_partial(bn@, s) ==> #[trigger] holds_str(omoves@, s),
                    have ==> opponent_takes_king(bn@, my_color),
                    !have ==> forall|k2: int|
                        0 <= k2 < k ==> play_spec(bn@, (#[trigger] omoves@[k2])@).spec_contains(
                            PieceType::King,
                            my_color,
                        ),
                decreases omoves@.len() - k,
            {
                let om: &String = &omoves[k];
                proof {
                    reveal(enumerated_normal_partial);
                    assert(enumerated_normal_partial(bn@, om@));
                    lemma_partial_playable(bn@, om@);
                }
                let fut = bn.play_move_unchecked(om.as_str());
                if !fut.contains(PieceType::King, my_color) {
                    have = true;
                    proof {
                        reveal(opponent_takes_king);
                        assert(!play_spec(bn@, om@).spec_contains(PieceType::King, my_color));
                        assert(opponent_takes_king(bn@, my_color));
                    }
                }
                k += 1;
            }
            if !have {
                proof {
                    reveal(opponent_takes_king);
                    reveal(game_over_spec);
                    if opponent_takes_king(bn@, my_color) {
                        let s = choose|s: Seq<char>|
                            #[trigger] enumerated_normal_partial(bn@, s) && !play_spec(
                                bn@,
                                s,
                            ).spec_contains(PieceType::King, my_color);
                        assert(holds_str(omoves@, s));
                        let k2 = choose|k2: int|
                            0 <= k2 < omoves@.len() && (#[trigger] omoves@[k2])@ == s;
                        assert(play_spec(bn@, omoves@[k2]@).spec_contains(
                            PieceType::King,
                            my_color,
                        ));
                        assert(false);
                    }
                    assert(enumerated_partial(self@, moves@[i as int]@));
                    assert(!game_over_spec(self@));
                }
                return false;
            }
            i += 1;
        }
        proof {
            reveal(game_over_spec);
            assert forall|s: Seq<char>| #[trigger] enumerated_partial(self@, s) implies
                opponent_takes_king(play_spec(self@, s), self.turn) by {
                assert(holds_str(moves@, s));
                let j = choose|j: int| 0 <= j < moves@.len() && (#[trigger] moves@[j])@ == s;
                assert(opponent_takes_king(play_spec(self@, moves@[j]@), self.turn));
            }
        }
        true
    }

    /// Check a candidate move against the full ten-stage pipeline without
    /// mutating anything: the sentinel tokens are accepted (restart only
    /// under the rule allowing it), any other string exactly when every
    /// stage passes; a rejection carries the first failing stage's error.
    pub fn check_move<'a>(&'a self, mv: &'a str) -> (r: Result<&'a str, InvalidMoveError>)
        requires
            self.wf(),
        ensures
            r is Ok <==> check_move_result(self@, mv@) is None,
            r is Ok ==> r->Ok_0@ == mv@,
            r is Err ==> Some(r->Err_0) == check_move_result(self@, mv@),
    {
        proof {
            reveal_strlit("restart");
            reveal_strlit("withdraw");
            assert("restart"@ =~= restart_chars());
            assert("withdraw"@ =~= withdraw_chars());
        }
        if str_eq(mv, "withdraw") {
            return Ok(mv);
        }
        if str_eq(mv, "restart") && self.rules.can_restart {
            return Ok(mv);
        }
        if let Err(e) = self.check_partial_pipeline(mv) {
            return Err(e);
        }
        if let Err(e) = check_uncover_check(mv, self) {
            return Err(e);
        }
        if let Err(e) = check_checkmate_by_pawn_drop(mv, self) {
            return Err(e);
        }
        Ok(mv)
    }

    /// Check a candidate move; this entry point runs the same full pipeline
    /// as `check_move`.
    pub fn check_move_partial<'a>(&'a self, mv: &'a str) -> (r: Result<&'a str, InvalidMoveError>)
        requires
            self.wf(),
        ensures
            r is Ok <==> check_move_result(self@, mv@) is None,
            r is Ok ==> r->Ok_0@ == mv@,
            r is Err ==> Some(r->Err_0) == check_move_result(self@, mv@),
    {
        self.check_move(mv)
    }

    /// Validate a move against the full pipeline and apply it. The caller
    /// must supply a move the full check accepts.
    pub fn play_move(&self, mv: &str) -> (r: Board)
        requires
            self.wf(),
            check_move_result(self@, mv@) is None,
        ensures
            r@ == play_spec(self@, mv@),
            r.wf(),
    {
        match self.check_move(mv) {
            Ok(_) => {},
            Err(_) => {
                proof {
                    assert(false);
                }
                return vstd::pervasive::unreached();
            },
        }
        proof {
            lemma_accepted_playable(self@, mv@);
        }
        self.play_move_unchecked(mv)
    }

    /// Keep the candidates that the full check accepts.
    fn filter_full(&self, cand: Vec<String>) -> (r: Vec<String>)
        requires
            self.wf(),
        ensures
            forall|k: int|
                0 <= k < r@.len() ==> check_move_result(self@, (#[trigger] r@[k])@) is None
                    && holds_str(cand@, r@[k]@),
            forall|j: int|
                0 <= j < cand@.len() && check_move_result(self@, (#[trigger] cand@[j])@) is None
                    ==> holds_str(r@, cand@[j]@),
    {
        let mut r: Vec<String> = Vec::new();
        let mut i: usize = 0;
        while i < cand.len()
            invariant
                0 <= i <= cand@.len(),
                self.wf(),
                forall|k: int|
                    0 <= k < r@.len() ==> check_move_result(self@, (#[trigger] r@[k])@) is None
                        && holds_str(cand@, r@[k]@),
                forall|j: int|
                    0 <= j < i && check_move_result(self@, (#[trigger] cand@[j])@) is None
                        ==> holds_str(r@, cand@[j]@),
            decreases cand@.len() - i,
        {
            let s: &String = &cand[i];
            let ok = self.check_move(s.as_str()).is_ok();
            if ok {
                let ghost prev = r@;
                r.push(s.clone());
                proof {
                    lemma_holds_str_extend(prev, r@);
                    assert((r@[prev.len() as int])@ == cand@[i as int]@);
                    assert(holds_str(cand@, r@[prev.len() as int]@)) by {
                        assert((cand@[i as int])@ == r@[prev.len() as int]@);
                    }
                    assert(holds_str(r@, cand@[i as int]@));
                }
            }
            i += 1;
        }
        r
    }

    /// All fully legal moves for the side to move, drops included; the
    /// order is arbitrary. An empty board yields no moves.
    pub fn iter_moves(&self) -> (r: Vec<String>)
        requires
            self.wf(),
        ensures
            forall|k: int| 0 <= k < r@.len() ==> enumerated_full(self@, (#[trigger] r@[k])@),
            forall|s: Seq<char>| enumerated_full(self@, s) ==> #[trigger] holds_str(r@, s),
            self@.pieces.len() == 0 ==> r@.len() == 0,
    {
        let c = self.gen_candidates(true);
        let r = self.filter_full(c);
        proof {
            reveal(enumerated_full);
            assert forall|k: int| 0 <= k < r@.len() implies enumerated_full(
                self@,
                (#[trigger] r@[k])@,
            ) by {
                assert(holds_str(c@, r@[k]@));
                let j = choose|j: int| 0 <= j < c@.len() && (#[trigger] c@[j])@ == r@[k]@;
                assert(normal_candidate(self@, c@[j]@) || drop_candidate(self@, c@[j]@));
            }
            assert forall|s: Seq<char>| enumerated_full(self@, s) implies #[trigger] holds_str(
                r@,
                s,
            ) by {
                assert(holds_str(c@, s));
                let j = choose|j: int| 0 <= j < c@.len() && (#[trigger] c@[j])@ == s;
                assert(check_move_result(self@, c@[j]@) is None);
                assert(holds_str(r@, c@[j]@));
            }
            if self@.pieces.len() == 0 && r@.len() > 0 {
                assert(enumerated_full(self@, r@[0]@));
                lemma_empty_board_no_moves(self@, r@[0]@);
            }
        }
        r
    }

    /// All moves for the side to move that pass the eight board-local
    /// stages, drops included; the two lookahead stages are skipped. The
    /// order is arbitrary.
    pub fn iter_moves_partial_check(&self) -> (r: Vec<String>)
        requires
            self.wf(),
        ensures
            forall|k: int| 0 <= k < r@.len() ==> enumerated_partial(self@, (#[trigger] r@[k])@),
            forall|s: Seq<char>| enumerated_partial(self@, s) ==> #[trigger] holds_str(r@, s),
    {
        self.enumerate_partial()
    }

    /// The non-drop moves for the side to move, checked against the full
    /// pipeline or only its eight board-local stages. The order is
    /// arbitrary.
    pub fn iter_normal_moves_only(&self, complete_check: bool) -> (r: Vec<String>)
        requires
            self.wf(),
        ensures
            complete_check ==> forall|k: int|
                0 <= k < r@.len() ==> enumerated_normal_full(self@, (#[trigger] r@[k])@),
            complete_check ==> forall|s: Seq<char>|
                enumerated_normal_full(self@, s) ==> #[trigger] holds_str(r@, s),
            !complete_check ==> forall|k: int|
                0 <= k < r@.len() ==> enumerated_normal_partial(self@, (#[trigger] r@[k])@),
            !complete_check ==> forall|s: Seq<char>|
                enumerated_normal_partial(self@, s) ==> #[trigger] holds_str(r@, s),
    {
        if !complete_check {
            return self.enumerate_normal_partial();
        }
        let c = self.gen_candidates(false);
        let r = self.filter_full(c);
        proof {
            reveal(enumerated_normal_full);
            assert forall|k: int| 0 <= k < r@.len() implies enumerated_normal_full(
                self@,
                (#[trigger] r@[k])@,
            ) by {
                assert(holds_str(c@, r@[k]@));
                let j = choose|j: int| 0 <= j < c@.len() && (#[trigger] c@[j])@ == r@[k]@;
                assert(normal_candidate(self@, c@[j]@));
            }
            assert forall|s: Seq<char>|
                enumerated_normal_full(self@, s) implies #[trigger] holds_str(r@, s) by {
                assert(holds_str(c@, s));
                let j = choose|j: int| 0 <= j < c@.len() && (#[trigger] c@[j])@ == s;
                assert(check_move_result(self@, c@[j]@) is None);
                assert(holds_str(r@, c@[j]@));
            }
        }
        r
    }

    /// Remove every piece, on board and in reserve, of the side to move.
    fn apply_withdraw(&self, Ghost(s): Ghost<Seq<char>>) -> (r: Board)
        requires
            self.wf(),
            s == withdraw_chars(),
        ensures
            r@ == play_spec(self@, s),
            r.wf(),
    {
        let ghost s0 = self.pieces@;
        let ghost pred = keeps_other_than(self.turn);
        let n = self.pieces.len();
        let mut out: Vec<Piece> = Vec::new();
        let mut i: usize = 0;
        while i < n
            invariant
                0 <= i <= n,
                n == s0.len(),
                s0 == self.pieces@,
                self.wf(),
                pred == keeps_other_than(self.turn),
                out@ == s0.take(i as int).filter(pred),
                out@.len() <= i,
                forall|a: int|
                    0 <= a < out@.len() ==> exists|bb: int|
                        0 <= bb < i && (#[trigger] out@[a]) == s0[bb],
                forall|a: int| 0 <= a < out@.len() ==> piece_ok(#[trigger] out@[a]),
                forall|a1: int, a2: int|
                    0 <= a1 < a2 < out@.len() && (#[trigger] out@[a1]).position is Some ==> (
                    out@[a1]).position != (#[trigger] out@[a2]).position,
            decreases n - i,
        {
            let ghost prev = out@;
            let p = self.pieces[i];
            proof {
                lemma_filter_take_step(s0, pred, i as int);
                assert(s0[i as int] == p);
            }
            if !(p.color == self.turn) {
                assert(pred(p));
                out.push(p);
                proof {
                    assert(out@ =~= s0.take(i as int + 1).filter(pred));
                    assert forall|a: int| 0 <= a < out@.len() implies exists|bb: int|
                        0 <= bb < i + 1 && (#[trigger] out@[a]) == s0[bb] by {
                        if a < prev.len() {
                            assert(out@[a] == prev[a]);
                            let bb = choose|bb: int| 0 <= bb < i && prev[a] == s0[bb];
                            assert(out@[a] == s0[bb]);
                        } else {
                            assert(out@[a] == s0[i as int]);
                        }
                    }
                    assert forall|a1: int, a2: int|
                        0 <= a1 < a2 < out@.len() && (#[trigger] out@[a1]).position is Some implies (
                    out@[a1]).position != (#[trigger] out@[a2]).position by {
                        if a2 < prev.len() {
                            assert(out@[a1] == prev[a1] && out@[a2] == prev[a2]);
                        } else {
                            assert(out@[a2] == s0[i as int]);
                            assert(out@[a1] == prev[a1]);
                            let bb = choose|bb: int| 0 <= bb < i && prev[a1] == s0[bb];
                            assert(s0[bb].position is Some ==> s0[bb].position != s0[i as int].position);
                        }
                    }
                }
            } else {
                assert(!pred(p));
                assert(out@ =~= s0.take(i as int + 1).filter(pred));
            }
            i += 1;
        }
        proof {
            assert(s0.take(n as int) =~= s0);
        }
        let r = Board { pieces: out, turn: self.turn, rules: self.rules };
        proof {
            reveal(play_spec);
            assert(r@ == play_spec(self@, s));
        }
        r
    }
}

/// The predicate selecting the pawns of side `c`.
pub open spec fn is_pawn_of(c: Color) -> spec_fn(Piece) -> bool {
    |p: Piece| p.piecetype == PieceType::Pawn && p.color == c
}

/// The predicate selecting the pieces other than pawns of side `c`.
pub open spec fn is_nonpawn_of(c: Color) -> spec_fn(Piece) -> bool {
    |p: Piece| p.piecetype != PieceType::Pawn && p.color == c
}

/// A fixed numbering of the eight piece types, used to walk them all.
pub open spec fn type_index(t: PieceType) -> int {
    match t {
        PieceType::Pawn => 0,
        PieceType::King => 1,
        PieceType::Rook => 2,
        PieceType::Bishop => 3,
        PieceType::Gold => 4,
        PieceType::Silver => 5,
        PieceType::Knight => 6,
        PieceType::Lance => 7,
    }
}

/// The piece type with the given number.
fn type_of_index(i: usize) -> (t: PieceType)
    requires
        i < 8,
    ensures
        type_index(t) == i,
{
    match i {
        0 => PieceType::Pawn,
        1 => PieceType::King,
        2 => PieceType::Rook,
        3 => PieceType::Bishop,
        4 => PieceType::Gold,
        5 => PieceType::Silver,
        6 => PieceType::Knight,
        _ => PieceType::Lance,
    }
}

/// The first index holding a piece on square `pos`, if any.
fn find_at(pieces: &Vec<Piece>, pos: Position) -> (r: Option<usize>)
    ensures
        match r {
            Some(i) => 0 <= i < pieces@.len() && pieces@[i as int].position == Some(pos) && (
            forall|j: int| 0 <= j < i ==> (#[trigger] pieces@[j]).position != Some(pos)),
            None => forall|j: int|
                0 <= j < pieces@.len() ==> (#[trigger] pieces@[j]).position != Some(pos),
        },
{
    let n = pieces.len();
    let mut i: usize = 0;
    while i < n
        invariant
            0 <= i <= n,
            n == pieces@.len(),
            forall|j: int| 0 <= j < i ==> (#[trigger] pieces@[j]).position != Some(pos),
        decreases n - i,
    {
        let p = pieces[i];
        if let Some(q) = p.position {
            if q == pos {
                return Some(i);
            }
        }
        i += 1;
    }
    None
}

/// The first index holding a reserve piece of the given type and side, if
/// any.
fn find_reserve(pieces: &Vec<Piece>, t: PieceType, c: Color) -> (r: Option<usize>)
    ensures
        match r {
            Some(i) => 0 <= i < pieces@.len() && is_reserve_of(t, c)(pieces@[i as int]) && (
            forall|j: int| 0 <= j < i ==> !is_reserve_of(t, c)(#[trigger] pieces@[j])),
            None => forall|j: int|
                0 <= j < pieces@.len() ==> !is_reserve_of(t, c)(#[trigger] pieces@[j]),
        },
{
    let n = pieces.len();
    let mut i: usize = 0;
    while i < n
        invariant
            0 <= i <= n,
            n == pieces@.len(),
            forall|j: int| 0 <= j < i ==> !is_reserve_of(t, c)(#[trigger] pieces@[j]),
        decreases n - i,
    {
        let p = pieces[i];
        if p.position.is_none() && p.piecetype == t && p.color == c {
            assert(is_reserve_of(t, c)(pieces@[i as int]));
            return Some(i);
        }
        assert(!is_reserve_of(t, c)(pieces@[i as int]));
        i += 1;
    }
    None
}

/// A piece as it stands at game start: unpromoted, on square `sq`.
pub open spec fn start_piece(c: Color, t: PieceType, sq: u16) -> Piece {
    Piece { color: c, piecetype: t, promoted: false, position: Some(Position(sq)) }
}

/// One side's standard starting layout on the low rows: nine pawns on the
/// third row, then lances, knights, silvers, golds, the king, the rook and
/// the bishop.
pub open spec fn start_layout(c: Color) -> Seq<Piece> {
    seq![
        start_piece(c, PieceType::Pawn, 18),
        start_piece(c, PieceType::Pawn, 19),
        start_piece(c, PieceType::Pawn, 20),
        start_piece(c, PieceType::Pawn, 21),
        start_piece(c, PieceType::Pawn, 22),
        start_piece(c, PieceType::Pawn, 23),
        start_piece(c, PieceType::Pawn, 24),
        start_piece(c, PieceType::Pawn, 25),
        start_piece(c, PieceType::Pawn, 26),
        start_piece(c, PieceType::Lance, 0),
        start_piece(c, PieceType::Lance, 8),
        start_piece(c, PieceType::Knight, 1),
        start_piece(c, PieceType::Knight, 7),
        start_piece(c, PieceType::Silver, 2),
        start_piece(c, PieceType::Silver, 6),
        start_piece(c, PieceType::Gold, 3),
        start_piece(c, PieceType::Gold, 5),
        start_piece(c, PieceType::King, 4),
        start_piece(c, PieceType::Rook, 16),
        start_piece(c, PieceType::Bishop, 10),
    ]
}

/// A piece with its square reflected through the board's center; reserve
/// pieces are unchanged.
pub open spec fn reflect_piece(p: Piece) -> Piece {
    match p.position {
        Some(q) => Piece {
            color: p.color,
            piecetype: p.piecetype,
            promoted: p.promoted,
            position: Some(Position((80 - q.0) as u16)),
        },
        None => p,
    }
}

/// The piece collection of the standard starting position.
pub open spec fn initial_pieces() -> Seq<Piece> {
    start_layout(Color::Black).map_values(|p: Piece| reflect_piece(p)) + start_layout(Color::White)
}

/// Facts about one side's starting layout: twenty well-formed, unpromoted
/// pieces of that side on squares 0 through 26, no two on the same square.
pub proof fn lemma_start_layout_props(c: Color)
    ensures
        start_layout(c).len() == 20,
        forall|k: int| 0 <= k < 20 ==> (#[trigger] start_layout(c)[k]).position is Some,
        forall|k: int| 0 <= k < 20 ==> ((#[trigger] start_layout(c)[k]).position->0).0 <= 26,
        forall|k: int|
            0 <= k < 20 ==> piece_ok(#[trigger] start_layout(c)[k]) && start_layout(c)[k].color == c
                && !start_layout(c)[k].promoted,
        forall|k1: int, k2: int|
            0 <= k1 < k2 < 20 ==> (#[trigger] start_layout(c)[k1]).position != (
            #[trigger] start_layout(c)[k2]).position,
{
}

/// The material sum of a piece sequence from the point of view of `turn`:
/// own pieces count positively, the opponent's negatively.
pub open spec fn board_value_seq(s: Seq<Piece>, turn: Color) -> int
    decreases s.len(),
{
    if s.len() == 0 {
        0
    } else {
        board_value_seq(s.drop_last(), turn) + if s.last().color == turn {
            piece_value(s.last())
        } else {
            -piece_value(s.last())
        }
    }
}

/// A captured piece as it reappears in the mover's reserve: flipped to the
/// mover's color, demoted, with no position.
pub open spec fn captured_piece(p: Piece, mover: Color) -> Piece {
    Piece { color: mover, piecetype: p.piecetype, promoted: false, position: None }
}

/// The piece collection after any opponent piece on `pos` is captured: the
/// occupant is removed and its reserve form appended.
pub open spec fn capture_at(s: Seq<Piece>, pos: Position, mover: Color) -> Seq<Piece> {
    if board_has_at(s, pos) && s[board_at_idx(s, pos)].color != mover {
        s.remove(board_at_idx(s, pos)).push(captured_piece(s[board_at_idx(s, pos)], mover))
    } else {
        s
    }
}

/// A piece as it stands after a normal move: relocated to the destination,
/// with promotion OR-ed on (promotion is monotonic).
pub open spec fn moved_piece(p: Piece, m: Movement) -> Piece {
    Piece {
        color: p.color,
        piecetype: p.piecetype,
        promoted: p.promoted || m.promotion,
        position: Some(m.end),
    }
}

/// The piece collection after a normal move: the destination's occupant (if
/// an opponent's) is captured, then the piece on the start square moves.
pub open spec fn play_normal_pieces(s0: Seq<Piece>, m: Movement, mover: Color) -> Seq<Piece> {
    let s1 = capture_at(s0, m.end, mover);
    let j = board_at_idx(s1, m.start->0);
    s1.update(j, moved_piece(s1[j], m))
}

/// The predicate selecting a reserve piece of type `t` and side `c`.
pub open spec fn is_reserve_of(t: PieceType, c: Color) -> spec_fn(Piece) -> bool {
    |p: Piece| p.position is None && p.piecetype == t && p.color == c
}

/// The first index of the sequence satisfying a predicate.
pub open spec fn first_idx_where(s: Seq<Piece>, pred: spec_fn(Piece) -> bool) -> int {
    choose|i: int|
        0 <= i < s.len() && pred(#[trigger] s[i]) && (forall|j: int|
            0 <= j < i ==> !pred(#[trigger] s[j]))
}

/// The piece collection after a drop: the first matching reserve piece of
/// the mover is placed, unpromoted, on the destination square.
pub open spec fn play_drop_pieces(s: Seq<Piece>, m: Movement, mover: Color) -> Seq<Piece> {
    let k = first_idx_where(s, is_reserve_of(m.piecetype, mover));
    s.update(
        k,
        Piece { color: mover, piecetype: m.piecetype, promoted: false, position: Some(m.end) },
    )
}

/// The predicate keeping the pieces that do not belong to side `c`.
pub open spec fn keeps_other_than(c: Color) -> spec_fn(Piece) -> bool {
    |p: Piece| p.color != c
}

/// A move can be applied without checking full legality: it is a sentinel
/// token, or it passes the syntax, in-board, start-existence and
/// destination-occupancy stages.
pub open spec fn playable(b: BoardV, s: Seq<char>) -> bool {
    ||| s == withdraw_chars()
    ||| (s == restart_chars() && b.rules.can_restart)
    ||| (syntax_ok(s) && in_board_ok(s) && start_ok(b, s) && destination_ok(b, s))
}

/// The board after a playable move is applied.
///
/// `restart` (allowed by the rules) resets the game, rules included;
/// `withdraw` removes every piece of the side to move and leaves the turn
/// with it; a drop places the first matching reserve piece; a normal move
/// captures any opponent piece on the destination and relocates the mover;
/// either of the latter two flips the turn.
#[verifier::opaque]
pub open spec fn play_spec(b: BoardV, s: Seq<char>) -> BoardV {
    if s == restart_chars() && b.rules.can_restart {
        BoardV { pieces: initial_pieces(), turn: Color::White, rules: default_rules() }
    } else if s == withdraw_chars() {
        BoardV { pieces: b.pieces.filter(keeps_other_than(b.turn)), turn: b.turn, rules: b.rules }
    } else {
        let m = parsed(s);
        if m.start is Some {
            BoardV {
                pieces: play_normal_pieces(b.pieces, m, b.turn),
                turn: other_color(b.turn),
                rules: b.rules,
            }
        } else {
            BoardV {
                pieces: play_drop_pieces(b.pieces, m, b.turn),
                turn: other_color(b.turn),
                rules: b.rules,
            }
        }
    }
}

/// The canonical drop movement of type `t` onto square `sq`.
pub open spec fn drop_movement(t: PieceType, sq: int) -> Movement {
    Movement {
        piecetype: t,
        start: None,
        end: Position(sq as u16),
        promotion: false,
        force_capture: false,
        withdraw: false,
        restart: false,
    }
}

/// Piece `i` of the side to move stands on the board and can reach offset
/// `o`.
pub open spec fn normal_gen_cond(b: BoardV, i: int, o: (i16, i16)) -> bool {
    &&& 0 <= i < b.pieces.len()
    &&& b.pieces[i].position is Some
    &&& b.pieces[i].color == b.turn
    &&& crate::piece::colored_offsets(
        b.pieces[i].piecetype,
        b.pieces[i].promoted,
        b.pieces[i].color,
    ).contains(o)
    &&& crate::piece::offset_ok(b.pieces[i].position->0, o)
}

/// The string is one of the candidates enumerating a board piece's moves:
/// for some piece of the side to move and some reachable offset of it, the
/// encoding of that move, promoting or not.
pub open spec fn normal_candidate(b: BoardV, s: Seq<char>) -> bool {
    exists|i: int, o: (i16, i16), pr: bool|
        #![trigger movement_chars(Movement::relative_movement(b.pieces[i], o, pr))]
        normal_gen_cond(b, i, o) && s == movement_chars(
            Movement::relative_movement(b.pieces[i], o, pr),
        )
}

/// The string is one of the candidates enumerating drops: for some piece
/// type in the side to move's reserve and some square, the encoding of that
/// drop.
pub open spec fn drop_candidate(b: BoardV, s: Seq<char>) -> bool {
    exists|t: PieceType, sq: int|
        #![trigger movement_chars(drop_movement(t, sq))]
        0 <= sq < 81 && b.spec_has_reserve(t, b.turn) && s == movement_chars(drop_movement(t, sq))
}

/// The string is a generated candidate that passes the eight board-local
/// stages of the pipeline.
#[verifier::opaque]
pub open spec fn enumerated_partial(b: BoardV, s: Seq<char>) -> bool {
    (normal_candidate(b, s) || drop_candidate(b, s)) && partial_pipeline_ok(b, s)
}

/// The string is a generated non-drop candidate that passes the eight
/// board-local stages of the pipeline.
#[verifier::opaque]
pub open spec fn enumerated_normal_partial(b: BoardV, s: Seq<char>) -> bool {
    normal_candidate(b, s) && partial_pipeline_ok(b, s)
}

/// Some sequence element views to the character sequence `s`.
pub open spec fn holds_str(l: Seq<String>, s: Seq<char>) -> bool {
    exists|k: int| 0 <= k < l.len() && (#[trigger] l[k])@ == s
}

/// A string list that extends another holds everything the shorter one
/// held.
pub proof fn lemma_holds_str_extend(l: Seq<String>, l2: Seq<String>)
    requires
        l.len() <= l2.len(),
        forall|k: int| 0 <= k < l.len() ==> l2[k] == #[trigger] l[k],
    ensures
        forall|s: Seq<char>| holds_str(l, s) ==> #[trigger] holds_str(l2, s),
{
    assert forall|s: Seq<char>| holds_str(l, s) implies #[trigger] holds_str(l2, s) by {
        let k = choose|k: int| 0 <= k < l.len() && (#[trigger] l[k])@ == s;
        assert(l2[k]@ == s);
    }
}

/// The opponent, to move on `after`, has an enumerated non-drop reply that
/// removes `victim`'s king from the board.
#[verifier::opaque]
pub open spec fn opponent_takes_king(after: BoardV, victim: Color) -> bool {
    exists|s: Seq<char>|
        #[trigger] enumerated_normal_partial(after, s) && !play_spec(after, s).spec_contains(
            PieceType::King,
            victim,
        )
}

/// The side to move is checkmated: every enumerated reply it has (checked
/// without the two lookahead stages) leaves the opponent some non-drop
/// counter-reply that removes the side to move's king. In particular, a
/// side with no reply at all, or with its king already captured, is lost.
#[verifier::opaque]
pub open spec fn game_over_spec(b: BoardV) -> bool {
    forall|s: Seq<char>|
        #[trigger] enumerated_partial(b, s) ==> opponent_takes_king(play_spec(b, s), b.turn)
}

/// An enumerated candidate that passes the board-local stages can be
/// applied without checking.
pub proof fn lemma_partial_playable(b: BoardV, s: Seq<char>)
    requires
        partial_pipeline_ok(b, s),
    ensures
        playable(b, s),
{
}

/// A board with no pieces at all enumerates no candidate move.
pub proof fn lemma_empty_board_no_moves(b: BoardV, s: Seq<char>)
    requires
        b.pieces.len() == 0,
    ensures
        !normal_candidate(b, s),
        !drop_candidate(b, s),
        !enumerated_partial(b, s),
{
    reveal(enumerated_partial);
    if normal_candidate(b, s) {
        let (i, o, pr) = choose|i: int, o: (i16, i16), pr: bool|
            #![trigger movement_chars(Movement::relative_movement(b.pieces[i], o, pr))]
            normal_gen_cond(b, i, o) && s == movement_chars(
                Movement::relative_movement(b.pieces[i], o, pr),
            );
        assert(false);
    }
    if drop_candidate(b, s) {
        let (t, sq) = choose|t: PieceType, sq: int|
            #![trigger movement_chars(drop_movement(t, sq))]
            0 <= sq < 81 && b.spec_has_reserve(t, b.turn) && s == movement_chars(
                drop_movement(t, sq),
            );
        let i = choose|i: int|
            0 <= i < b.pieces.len() && (#[trigger] b.pieces[i]).position is None
                && b.pieces[i].piecetype == t && b.pieces[i].color == b.turn;
        assert(false);
    }
}

/// The string is a generated candidate that the full move check accepts.
#[verifier::opaque]
pub open spec fn enumerated_full(b: BoardV, s: Seq<char>) -> bool {
    (normal_candidate(b, s) || drop_candidate(b, s)) && check_move_result(b, s) is None
}

/// The string is a generated non-drop candidate that the full move check
/// accepts.
#[verifier::opaque]
pub open spec fn enumerated_normal_full(b: BoardV, s: Seq<char>) -> bool {
    normal_candidate(b, s) && check_move_result(b, s) is None
}

/// Turn alternation: playing any move the full check accepts, other than
/// the sentinel tokens (which have their own turn effect), hands the turn
/// to the other side.
pub proof fn lemma_turn_alternation(b: BoardV, s: Seq<char>)
    requires
        check_move_result(b, s) is None,
        s != restart_chars(),
        s != withdraw_chars(),
    ensures
        play_spec(b, s).turn == other_color(b.turn),
{
    reveal(play_spec);
}

/// Capture symmetry: when a playable normal move lands on an opponent
/// piece, that piece reappears in the mover's reserve, demoted and flipped
/// to the mover's color; its old board form is gone, and the destination
/// square now holds a piece of the mover's side.
/// The sequence-level heart of capture symmetry: applying a normal move
/// whose destination holds an opponent piece puts that piece's reserve form
/// into the collection, removes its board form, and leaves a piece of the
/// mover's side on the destination.
proof fn lemma_capture_core(s0: Seq<Piece>, m: Movement, mover: Color)
    requires
        wf_pieces(s0),
        m.start is Some,
        board_has_at(s0, m.end),
        s0[board_at_idx(s0, m.end)].color != mover,
        board_has_at(s0, m.start->0),
        s0[board_at_idx(s0, m.start->0)].color == mover,
        m.start->0 != m.end,
    ensures
        play_normal_pieces(s0, m, mover).contains(
            captured_piece(s0[board_at_idx(s0, m.end)], mover),
        ),
        !play_normal_pieces(s0, m, mover).contains(s0[board_at_idx(s0, m.end)]),
        board_occupied(play_normal_pieces(s0, m, mover), m.end) is Some,
        (board_occupied(play_normal_pieces(s0, m, mover), m.end)->0).color == mover,
{
    let st = m.start->0;
    let victim = s0[board_at_idx(s0, m.end)];
    let s1 = capture_at(s0, m.end, mover);
    let n = s0.len() as int;
    lemma_capture_at(s0, m.end, mover);
    let j0 = board_at_idx(s0, m.end);
    assert(0 <= j0 < n && s0[j0].position == Some(m.end));
    assert(s1 == s0.remove(j0).push(captured_piece(victim, mover)));
    assert(s1[n - 1] == captured_piece(victim, mover));
    assert(board_has_at(s1, st));
    let jm = board_at_idx(s1, st);
    assert(0 <= jm < s1.len() && s1[jm].position == Some(st));
    let s2 = play_normal_pieces(s0, m, mover);
    assert(s2 == s1.update(jm, moved_piece(s1[jm], m)));
    // The reserve copy survives the mover's relocation.
    assert(jm != n - 1) by {
        assert(s1[n - 1].position is None);
    }
    assert(s2[n - 1] == captured_piece(victim, mover));
    assert(s2.contains(captured_piece(victim, mover)));
    // The mover has the mover's color.
    assert(s1[jm] == s0[board_at_idx(s0, st)]);
    let moved = moved_piece(s1[jm], m);
    assert(moved.color == mover);
    // The victim's old board form is gone.
    assert forall|i: int| 0 <= i < s2.len() implies s2[i] != victim by {
        if i == jm {
            assert(s2[i] == moved);
        } else {
            assert(s2[i] == s1[i]);
            assert(s1[i].position != Some(m.end));
        }
    }
    if s2.contains(victim) {
        let i = choose|i: int| 0 <= i < s2.len() && s2[i] == victim;
        assert(false);
    }
    // The destination square now holds the moved piece.
    assert(s2[jm].position == Some(m.end));
    assert(board_has_at(s2, m.end));
    let a = board_at_idx(s2, m.end);
    assert(0 <= a < s2.len() && s2[a].position == Some(m.end));
    if a != jm {
        assert(s2[a] == s1[a]);
        assert(s1[a].position != Some(m.end));
        assert(false);
    }
}

/// Capture symmetry: when a playable normal move lands on an opponent
/// piece, that piece reappears in the mover's reserve, demoted and flipped
/// to the mover's color; its old board form is gone, and the destination
/// square now holds a piece of the mover's side.
pub proof fn lemma_capture_symmetry(b: BoardV, s: Seq<char>)
    requires
        b.wf(),
        playable(b, s),
        s != restart_chars(),
        s != withdraw_chars(),
        parsed(s).start is Some,
        b.occ(parsed(s).end) is Some,
        (b.occ(parsed(s).end)->0).color != b.turn,
    ensures
        play_spec(b, s).pieces.contains(captured_piece(b.occ(parsed(s).end)->0, b.turn)),
        !play_spec(b, s).pieces.contains(b.occ(parsed(s).end)->0),
        play_spec(b, s).occ(parsed(s).end) is Some,
        (play_spec(b, s).occ(parsed(s).end)->0).color == b.turn,
{
    let m = parsed(s);
    let st = m.start->0;
    let s0 = b.pieces;
    assert(syntax_ok(s) && in_board_ok(s) && start_ok(b, s) && destination_ok(b, s));
    let im = choose|i: int|
        0 <= i < b.pieces.len() && (#[trigger] b.pieces[i]).color == b.turn && b.pieces[i].position
            == parsed(s).start && b.pieces[i].piecetype == parsed(s).piecetype;
    assert(s0[im].position == Some(st));
    assert(board_has_at(s0, st));
    let j0 = board_at_idx(s0, m.end);
    assert(board_has_at(s0, m.end));
    assert(0 <= j0 < s0.len() && s0[j0].position == Some(m.end));
    if st == m.end {
        if im != j0 {
            assert(false);
        }
        assert(false);
    }
    assert(s0[board_at_idx(s0, st)].color == b.turn) by {
        let ib = board_at_idx(s0, st);
        assert(0 <= ib < s0.len() && s0[ib].position == Some(st));
        if ib != im {
            assert(false);
        }
    }
    lemma_capture_core(s0, m, b.turn);
    assert(play_spec(b, s).pieces == play_normal_pieces(s0, m, b.turn)) by {
        reveal(play_spec);
    }
}

/// Every piece of the sequence is well formed and no two pieces share a
/// square.
pub open spec fn wf_pieces(s: Seq<Piece>) -> bool {
    &&& forall|i: int| 0 <= i < s.len() ==> piece_ok(#[trigger] s[i])
    &&& forall|i: int, j: int|
        0 <= i < j < s.len() && (#[trigger] s[i]).position is Some ==> (s[i]).position != (
        #[trigger] s[j]).position
}

/// Capturing on `pos` keeps the collection well formed, empties `pos`, and
/// leaves every other square's occupant unchanged.
pub proof fn lemma_capture_at(s: Seq<Piece>, pos: Position, mover: Color)
    requires
        wf_pieces(s),
        !(board_has_at(s, pos) && s[board_at_idx(s, pos)].color == mover),
    ensures
        wf_pieces(capture_at(s, pos, mover)),
        capture_at(s, pos, mover).len() == s.len(),
        forall|i: int|
            0 <= i < capture_at(s, pos, mover).len() ==> (#[trigger] capture_at(
                s,
                pos,
                mover,
            )[i]).position != Some(pos),
        forall|q: Position|
            q != pos ==> (board_has_at(capture_at(s, pos, mover), q) <==> #[trigger] board_has_at(
                s,
                q,
            )),
        forall|q: Position|
            q != pos && #[trigger] board_has_at(s, q) ==> capture_at(s, pos, mover)[board_at_idx(
                capture_at(s, pos, mover),
                q,
            )] == s[board_at_idx(s, q)],
{
    let c = capture_at(s, pos, mover);
    if board_has_at(s, pos) && s[board_at_idx(s, pos)].color != mover {
        let j = board_at_idx(s, pos);
        let n = s.len() as int;
        assert(0 <= j < n && s[j].position == Some(pos));
        assert(c == s.remove(j).push(captured_piece(s[j], mover)));
        assert(c.len() == n);
        // index mapping: c[k] == s[k] for k < j, c[k] == s[k + 1] for
        // j <= k < n - 1, and c[n - 1] is the reserve piece.
        assert(forall|k: int| 0 <= k < j ==> c[k] == s[k]);
        assert(forall|k: int| j <= k < n - 1 ==> c[k] == s[k + 1]);
        assert(c[n - 1] == captured_piece(s[j], mover));
        assert forall|i: int| 0 <= i < c.len() implies (#[trigger] c[i]).position != Some(pos) by {
            if i < n - 1 {
                let i0: int = if i < j {
                    i
                } else {
                    i + 1
                };
                assert(c[i] == s[i0]);
                if s[i0].position == Some(pos) {
                    if i0 < j {
                        assert(s[i0].position != s[j].position);
                    } else if i0 > j {
                        assert(s[j].position != s[i0].position);
                    }
                    assert(false);
                }
            }
        }
        assert forall|i: int, jj: int|
            0 <= i < jj < c.len() && (#[trigger] c[i]).position is Some implies (c[i]).position
            != (#[trigger] c[jj]).position by {
            if jj < n - 1 {
                let i0: int = if i < j {
                    i
                } else {
                    i + 1
                };
                let j0: int = if jj < j {
                    jj
                } else {
                    jj + 1
                };
                assert(c[i] == s[i0] && c[jj] == s[j0]);
                assert(i0 < j0);
            }
        }
        assert forall|q: Position| q != pos implies (board_has_at(c, q)
            <==> #[trigger] board_has_at(s, q)) by {
            if board_has_at(s, q) {
                let i0 = board_at_idx(s, q);
                assert(s[i0].position == Some(q));
                assert(i0 != j);
                let i: int = if i0 < j {
                    i0
                } else {
                    i0 - 1
                };
                assert(c[i] == s[i0]);
                assert(board_has_at(c, q));
            }
            if board_has_at(c, q) {
                let i = board_at_idx(c, q);
                assert(c[i].position == Some(q));
                assert(i < n - 1);
                let i0: int = if i < j {
                    i
                } else {
                    i + 1
                };
                assert(c[i] == s[i0]);
                assert(board_has_at(s, q));
            }
        }
        assert forall|q: Position| q != pos && #[trigger] board_has_at(s, q) implies c[board_at_idx(
            c,
            q,
        )] == s[board_at_idx(s, q)] by {
            let i0 = board_at_idx(s, q);
            assert(s[i0].position == Some(q));
            assert(i0 != j);
            let i: int = if i0 < j {
                i0
            } else {
                i0 - 1
            };
            assert(c[i] == s[i0]);
            assert(board_has_at(c, q));
            let a = board_at_idx(c, q);
            assert(c[a].position == Some(q));
            if a != i {
                // two distinct indices of c on one square
                if a < i {
                    assert((c[a]).position != (c[i]).position);
                } else {
                    assert((c[i]).position != (c[a]).position);
                }
                assert(false);
            }
        }
    } else {
        assert(c == s);
        if board_has_at(s, pos) {
            assert(false);
        } else {
            assert forall|i: int| 0 <= i < c.len() implies (#[trigger] c[i]).position != Some(
                pos,
            ) by {
                if c[i].position == Some(pos) {
                    assert(board_has_at(s, pos));
                }
            }
        }
    }
}

/// Filtering a one-longer prefix keeps the filtered prefix and appends the
/// new element exactly when it satisfies the predicate.
pub proof fn lemma_filter_take_step(s: Seq<Piece>, pred: spec_fn(Piece) -> bool, i: int)
    requires
        0 <= i < s.len(),
    ensures
        s.take(i + 1).filter(pred) == if pred(s[i]) {
            s.take(i).filter(pred).push(s[i])
        } else {
            s.take(i).filter(pred)
        },
{
    reveal(Seq::filter);
    assert(s.take(i + 1).drop_last() =~= s.take(i));
    assert(s.take(i + 1).last() == s[i]);
}

} // verus!
