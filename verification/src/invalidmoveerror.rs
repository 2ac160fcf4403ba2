//! The move-legality pipeline: an ordered, short-circuiting chain of
//! predicates, each consuming the board and a candidate move string and
//! either passing the string through or failing with a specific error.

use crate::board::{
    board_at_idx, board_has_at, enumerated_normal_partial, game_over_spec, holds_str,
    lemma_partial_playable, opponent_takes_king, play_spec, playable, Board, BoardV,
};
use crate::movement::{maybe_drop_chars, maybe_normal_chars, parse_movement, Movement};
use crate::piece::{
    colored_offsets, offset_ok, other_color, type_of_char, Color, PieceType,
};
use crate::position::{col_of, is_col_char, is_row_char, pos_ok, row_of, Position};
use vstd::prelude::*;

verus! {

/// The reasons the legality pipeline can reject a candidate move.
#[derive(Debug, Clone, Copy, PartialEq, Eq, Structural)]
pub enum InvalidMoveError {
    MoveSyntaxError,
    OutOfBoardMoveError,
    DestinationOccupiedError,
    NoPieceAtPositionError,
    NoPieceCapturedError,
    PieceHasNoSuchMoveError,
    NifuViolationError,
    NoMovePossibleAfterDropError,
    PromotionError,
    UncoverCheckError,
    CheckmateByPawnDropError,
}

/// The parsed form of a string known to parse.
pub open spec fn parsed(s: Seq<char>) -> Movement {
    parse_movement(s)->0
}

/// The move string passes the syntax stage: it has the shape of a drop or of
/// a normal move, and opens with a valid piece-type letter.
pub open spec fn syntax_ok(s: Seq<char>) -> bool {
    (maybe_drop_chars(s) || maybe_normal_chars(s)) && type_of_char(s[0]) is Some
}

/// Every coordinate the move references lies on the board.
pub open spec fn in_board_ok(s: Seq<char>) -> bool {
    &&& maybe_drop_chars(s) ==> is_col_char(s[2]) && is_row_char(s[3])
    &&& maybe_normal_chars(s) ==> is_col_char(s[1]) && is_row_char(s[2]) && is_col_char(s[4])
        && is_row_char(s[5])
}

/// A string that passes the syntax and in-board stages parses, is not a
/// sentinel token, and is a drop exactly when it has the drop shape.
pub proof fn lemma_grammar_parse(s: Seq<char>)
    requires
        syntax_ok(s),
        in_board_ok(s),
    ensures
        parse_movement(s) is Some,
        !parsed(s).restart,
        !parsed(s).withdraw,
        maybe_drop_chars(s) ==> parsed(s).start is None,
        maybe_normal_chars(s) ==> parsed(s).start is Some,
        crate::movement::wf_movement(parsed(s)),
{
    let r = crate::movement::restart_chars();
    let w = crate::movement::withdraw_chars();
    assert(r.len() == 7 && w.len() == 8);
    if s == r {
        assert(s[6] == 't' && s[3] == 't');
        assert(false);
    }
    if s == w {
        assert(false);
    }
    if maybe_drop_chars(s) {
        assert(parse_movement(s) is Some);
    } else {
        assert(maybe_normal_chars(s));
        assert(parse_movement(s) is Some);
    }
    crate::movement::lemma_parse_movement_wf(s);
}

/// A piece of the stated type and the side to move stands where the move
/// says it starts: on the stated square for a normal move, in the reserve
/// for a drop.
pub open spec fn start_ok(b: BoardV, s: Seq<char>) -> bool {
    exists|i: int|
        0 <= i < b.pieces.len() && (#[trigger] b.pieces[i]).color == b.turn && b.pieces[i].position
            == parsed(s).start && b.pieces[i].piecetype == parsed(s).piecetype
}

/// The destination square suits the move: empty for a drop; not a friendly
/// piece for a normal move, and an opponent piece exactly there when the
/// move asserts a capture.
pub open spec fn destination_ok(b: BoardV, s: Seq<char>) -> bool {
    let m = parsed(s);
    if m.start is None {
        b.occ(m.end) is None
    } else if m.force_capture {
        b.occ(m.end) is Some && (b.occ(m.end)->0).color != b.turn
    } else {
        !(b.occ(m.end) is Some && (b.occ(m.end)->0).color == b.turn)
    }
}

/// Both coordinates of the move change by at most one: a one-step move,
/// which never needs path verification.
pub open spec fn small_move_spec(a: Position, d: Position) -> bool {
    -1 <= row_of(d) - row_of(a) <= 1 && -1 <= col_of(d) - col_of(a) <= 1
}

/// The unit index step toward a destination whose file shifts by `dx` and
/// whose rank shifts by `dy`.
pub open spec fn unit_dir(dx: int, dy: int) -> int {
    (if dx > 0 {
        1int
    } else if dx < 0 {
        -1int
    } else {
        0int
    }) + 9 * (if dy > 0 {
        1int
    } else if dy < 0 {
        -1int
    } else {
        0int
    })
}

/// The number of unit steps of a straight or diagonal move.
pub open spec fn n_steps(dx: int, dy: int) -> int {
    if dx >= 0 && dx >= dy && dx >= -dy {
        dx
    } else if -dx >= 0 && -dx >= dy && -dx >= -dy {
        -dx
    } else if dy >= 0 {
        dy
    } else {
        -dy
    }
}

/// Every intermediate square on the straight walk from index `a` by `step`,
/// short of the destination `n` steps away, is empty.
pub open spec fn path_clear_spec(b: BoardV, a: int, step: int, n: int) -> bool {
    forall|k: int| 1 <= k < n ==> b.occ(Position(#[trigger] (a + k * step) as u16)) is None
}

/// The move's geometry is possible for the piece standing on its start
/// square: the (file, rank) shift appears in that piece's offset table, and
/// a sliding move of more than one step has an unobstructed path.
pub open spec fn possible_ok(b: BoardV, s: Seq<char>) -> bool {
    if maybe_drop_chars(s) {
        true
    } else {
        let m = parsed(s);
        let st = m.start->0;
        let piece = b.occ(st)->0;
        let dx = col_of(m.end) - col_of(st);
        let dy = row_of(m.end) - row_of(st);
        &&& colored_offsets(piece.piecetype, piece.promoted, piece.color).contains(
            (dx as i16, dy as i16),
        )
        &&& ((m.piecetype == PieceType::Rook || m.piecetype == PieceType::Bishop || m.piecetype
            == PieceType::Lance) && !small_move_spec(st, m.end) ==> path_clear_spec(
            b,
            st.0 as int,
            unit_dir(dx, dy),
            n_steps(dx, dy),
        ))
    }
}

/// No unpromoted pawn of the side to move already stands in the column a
/// pawn is being dropped into.
pub open spec fn nifu_ok(b: BoardV, s: Seq<char>) -> bool {
    let m = parsed(s);
    m.piecetype != PieceType::Pawn || m.start is Some || !(exists|i: int|
        0 <= i < b.pieces.len() && (#[trigger] b.pieces[i]).piecetype == PieceType::Pawn
            && b.pieces[i].color == b.turn && b.pieces[i].position is Some
            && !b.pieces[i].promoted && col_of(b.pieces[i].position->0) == col_of(m.end))
}

/// The farthest row from the side to move's point of view.
pub open spec fn last_row(c: Color) -> int {
    if c == Color::White {
        8
    } else {
        0
    }
}

/// The next-to-farthest row from the side to move's point of view.
pub open spec fn before_last_row(c: Color) -> int {
    if c == Color::White {
        7
    } else {
        1
    }
}

/// A dropped piece could still move afterwards: no Pawn or Lance drop on
/// the farthest row, no Knight drop on the farthest two rows.
pub open spec fn drop_mobility_ok(b: BoardV, s: Seq<char>) -> bool {
    if !maybe_drop_chars(s) {
        true
    } else {
        let m = parsed(s);
        let r = row_of(m.end);
        &&& !(m.piecetype == PieceType::Pawn && r == last_row(b.turn))
        &&& !(m.piecetype == PieceType::Lance && r == last_row(b.turn))
        &&& !(m.piecetype == PieceType::Knight && (r == last_row(b.turn) || r == before_last_row(
            b.turn,
        )))
    }
}

/// A row lies in the promotion zone: the three rows nearest the far edge
/// from the side to move's point of view.
pub open spec fn in_promotion_zone(r: int, c: Color) -> bool {
    if c == Color::White {
        6 <= r <= 8
    } else {
        0 <= r <= 2
    }
}

/// The move's promotion request is allowed: a drop never promotes; Gold and
/// King never promote; promotion may only be requested when an endpoint of
/// the move lies in the promotion zone; and an unpromoted Pawn, Lance or
/// Knight moving where it could never move again must promote.
pub open spec fn promotion_ok(b: BoardV, s: Seq<char>) -> bool {
    let m = parsed(s);
    if !maybe_normal_chars(s) {
        !m.promotion
    } else {
        let st = m.start->0;
        &&& !(m.promotion && (m.piecetype == PieceType::Gold || m.piecetype == PieceType::King))
        &&& (m.promotion ==> in_promotion_zone(row_of(m.end), b.turn) || in_promotion_zone(
            row_of(st),
            b.turn,
        ))
        &&& (!m.promotion ==> !(b.occ(st) is Some && !(b.occ(st)->0).promoted && ((m.piecetype
            == PieceType::Pawn && row_of(m.end) == last_row(b.turn)) || (m.piecetype
            == PieceType::Lance && row_of(m.end) == last_row(b.turn)) || (m.piecetype
            == PieceType::Knight && (row_of(m.end) == last_row(b.turn) || row_of(m.end)
            == before_last_row(b.turn))))))
    }
}

/// The candidate passes the eight board-local stages of the pipeline:
/// syntax, in-board, start existence, destination occupancy, geometry,
/// double-pawn, drop mobility and promotion legality. The two lookahead
/// stages (uncover-check and pawn-drop-checkmate) are not consulted.
pub open spec fn partial_pipeline_ok(b: BoardV, s: Seq<char>) -> bool {
    &&& syntax_ok(s)
    &&& in_board_ok(s)
    &&& start_ok(b, s)
    &&& destination_ok(b, s)
    &&& possible_ok(b, s)
    &&& nifu_ok(b, s)
    &&& drop_mobility_ok(b, s)
    &&& promotion_ok(b, s)
}

/// The error the destination stage reports when it fails: landing on (or
/// dropping onto) an occupied square names the occupied destination; a
/// capture asserted over an empty square names the missing capture.
pub open spec fn destination_error(b: BoardV, s: Seq<char>) -> InvalidMoveError {
    let m = parsed(s);
    if m.start is Some && b.occ(m.end) is Some && (b.occ(m.end)->0).color == b.turn {
        InvalidMoveError::DestinationOccupiedError
    } else if m.start is Some && m.force_capture {
        InvalidMoveError::NoPieceCapturedError
    } else {
        InvalidMoveError::DestinationOccupiedError
    }
}

/// The first failing stage among the eight board-local stages, with its
/// error, or `None` when all pass.
pub open spec fn partial_first_error(b: BoardV, s: Seq<char>) -> Option<InvalidMoveError> {
    if !syntax_ok(s) {
        Some(InvalidMoveError::MoveSyntaxError)
    } else if !in_board_ok(s) {
        Some(InvalidMoveError::OutOfBoardMoveError)
    } else if !start_ok(b, s) {
        Some(InvalidMoveError::NoPieceAtPositionError)
    } else if !destination_ok(b, s) {
        Some(destination_error(b, s))
    } else if !possible_ok(b, s) {
        Some(InvalidMoveError::PieceHasNoSuchMoveError)
    } else if !nifu_ok(b, s) {
        Some(InvalidMoveError::NifuViolationError)
    } else if !drop_mobility_ok(b, s) {
        Some(InvalidMoveError::NoMovePossibleAfterDropError)
    } else if !promotion_ok(b, s) {
        Some(InvalidMoveError::PromotionError)
    } else {
        None
    }
}

/// Unless the rules allow leaving one's own king capturable, a move is
/// illegal if, once played, the opponent has an enumerated non-drop reply
/// that removes the mover's king; taking the opponent's king is exempt.
pub open spec fn uncover_ok(b: BoardV, s: Seq<char>) -> bool {
    ||| b.rules.can_uncover_check
    ||| !b.spec_contains(PieceType::King, other_color(b.turn))
    ||| !opponent_takes_king(play_spec(b, s), b.turn)
}

/// A pawn drop directly in front of the opposing king must not deliver
/// checkmate.
pub open spec fn pawn_drop_mate_ok(b: BoardV, s: Seq<char>) -> bool {
    let m = parsed(s);
    let dir: int = if b.turn == Color::White {
        9
    } else {
        -9
    };
    let front = Position((m.end.0 + dir) as u16);
    ||| !(m.start is None && m.piecetype == PieceType::Pawn)
    ||| !(b.occ(front) is Some && (b.occ(front)->0).piecetype == PieceType::King && (b.occ(
        front,
    )->0).color != b.turn)
    ||| !game_over_spec(play_spec(b, s))
}

/// The first failing stage of the full ten-stage pipeline, with its error,
/// or `None` when every stage passes.
pub open spec fn full_first_error(b: BoardV, s: Seq<char>) -> Option<InvalidMoveError> {
    if partial_first_error(b, s) is Some {
        partial_first_error(b, s)
    } else if !uncover_ok(b, s) {
        Some(InvalidMoveError::UncoverCheckError)
    } else if !pawn_drop_mate_ok(b, s) {
        Some(InvalidMoveError::CheckmateByPawnDropError)
    } else {
        None
    }
}

/// What the full move check decides: the sentinel tokens are accepted
/// (restart only under the rule allowing it); any other string is accepted
/// exactly when every pipeline stage passes, and otherwise rejected with
/// the first failing stage's error.
pub open spec fn check_move_result(b: BoardV, s: Seq<char>) -> Option<InvalidMoveError> {
    if s == crate::movement::withdraw_chars() || (s == crate::movement::restart_chars()
        && b.rules.can_restart) {
        None
    } else {
        full_first_error(b, s)
    }
}

/// A move the full check accepts can be applied without checking.
pub proof fn lemma_accepted_playable(b: BoardV, s: Seq<char>)
    requires
        check_move_result(b, s) is None,
    ensures
        crate::board::playable(b, s),
{
}

/// Check that the move, once played, does not leave the mover's own king
/// capturable by an enumerated non-drop reply.
pub fn check_uncover_check<'a>(mv: &'a str, b: &'a Board) -> (r: Result<&'a str, InvalidMoveError>)
    requires
        b.wf(),
        partial_pipeline_ok(b@, mv@),
    ensures
        r is Ok <==> uncover_ok(b@, mv@),
        r is Ok ==> r->Ok_0@ == mv@,
        r is Err ==> r->Err_0 == InvalidMoveError::UncoverCheckError,
{
    if b.rules.can_uncover_check {
        return Ok(mv);
    }
    let my_color = b.get_color();
    let mut opponent_color = my_color;
    opponent_color.invert();
    if !b.contains(PieceType::King, opponent_color) {
        return Ok(mv);
    }
    proof {
        lemma_partial_playable(b@, mv@);
    }
    let after = b.play_move_unchecked(mv);
    let omoves = after.enumerate_normal_partial();
    let mut k: usize = 0;
    while k < omoves.len()
        invariant
            0 <= k <= omoves@.len(),
            after.wf(),
            after@ == play_spec(b@, mv@),
            my_color == b.turn,
            !b.rules.can_uncover_check,
            b@.spec_contains(PieceType::King, other_color(b.turn)),
            forall|k2: int|
                0 <= k2 < omoves@.len() ==> enumerated_normal_partial(
                    after@,
                    (#[trigger] omoves@[k2])@,
                ),
            forall|s: Seq<char>|
                enumerated_normal_partial(after@, s) ==> #[trigger] holds_str(omoves@, s),
            forall|k2: int|
                0 <= k2 < k ==> play_spec(after@, (#[trigger] omoves@[k2])@).spec_contains(
                    PieceType::King,
                    my_color,
                ),
        decreases omoves@.len() - k,
    {
        let om: &String = &omoves[k];
        proof {
            reveal(enumerated_normal_partial);
            assert(enumerated_normal_partial(after@, om@));
            lemma_partial_playable(after@, om@);
        }
        let fut = after.play_move_unchecked(om.as_str());
        if !fut.contains(PieceType::King, my_color) {
            proof {
                reveal(opponent_takes_king);
                assert(!play_spec(after@, om@).spec_contains(PieceType::King, my_color));
                assert(opponent_takes_king(after@, my_color));
            }
            return Err(InvalidMoveError::UncoverCheckError);
        }
        k += 1;
    }
    proof {
        reveal(opponent_takes_king);
        if opponent_takes_king(after@, my_color) {
            let s = choose|s: Seq<char>|
                #[trigger] enumerated_normal_partial(after@, s) && !play_spec(
                    after@,
                    s,
                ).spec_contains(PieceType::King, my_color);
            assert(holds_str(omoves@, s));
            let k2 = choose|k2: int| 0 <= k2 < omoves@.len() && (#[trigger] omoves@[k2])@ == s;
            assert(play_spec(after@, omoves@[k2]@).spec_contains(PieceType::King, my_color));
            assert(false);
        }
    }
    Ok(mv)
}

/// Check that a pawn dropped directly in front of the opposing king does
/// not deliver checkmate.
pub fn check_checkmate_by_pawn_drop<'a>(mv: &'a str, b: &'a Board) -> (r: Result<
    &'a str,
    InvalidMoveError,
>)
    requires
        b.wf(),
        partial_pipeline_ok(b@, mv@),
    ensures
        r is Ok <==> pawn_drop_mate_ok(b@, mv@),
        r is Ok ==> r->Ok_0@ == mv@,
        r is Err ==> r->Err_0 == InvalidMoveError::CheckmateByPawnDropError,
{
    proof {
        lemma_grammar_parse(mv@);
    }
    let m = parse_known(mv);
    if m.start.is_some() || !(m.piecetype == PieceType::Pawn) {
        return Ok(mv);
    }
    let dir: i32 = if b.get_turn() {
        9
    } else {
        -9
    };
    let front_i: i32 = m.end.0 as i32 + dir;
    let front = Position(front_i as u16);
    proof {
        assert(front == Position((parsed(mv@).end.0 + (if b.turn == Color::White {
            9int
        } else {
            -9int
        })) as u16));
    }
    let in_front = b.is_occupied_by(front);
    let threatens_king = match in_front {
        Some(p) => p.piecetype == PieceType::King && !(p.color == b.get_color()),
        None => false,
    };
    if !threatens_king {
        return Ok(mv);
    }
    proof {
        lemma_partial_playable(b@, mv@);
    }
    let after = b.play_move_unchecked(mv);
    if after.game_over() {
        Err(InvalidMoveError::CheckmateByPawnDropError)
    } else {
        Ok(mv)
    }
}

/// Parse a string already known to parse.
pub(crate) fn parse_known(mv: &str) -> (m: Movement)
    requires
        parse_movement(mv@) is Some,
    ensures
        m == parsed(mv@),
{
    match Movement::from_str(mv) {
        Ok(m) => m,
        Err(_) => {
            proof {
                assert(false);
            }
            vstd::pervasive::unreached()
        },
    }
}

/// Equality of two optional positions.
pub(crate) fn opt_pos_eq(a: Option<Position>, b: Option<Position>) -> (r: bool)
    ensures
        r == (a == b),
{
    match (a, b) {
        (None, None) => true,
        (Some(x), Some(y)) => x == y,
        _ => false,
    }
}

/// Check that the move string is syntactically correct.
pub fn check_syntax<'a>(mv: &'a str) -> (r: Result<&'a str, InvalidMoveError>)
    ensures
        r is Ok <==> syntax_ok(mv@),
        r is Ok ==> r->Ok_0@ == mv@,
        r is Err ==> r->Err_0 == InvalidMoveError::MoveSyntaxError,
{
    let n = mv.unicode_len();
    let shape: bool = if n == 4 {
        mv.get_char(1) == '*'
    } else if n == 6 {
        let j = mv.get_char(3);
        j == '-' || j == 'x'
    } else if n == 7 {
        let j = mv.get_char(3);
        mv.get_char(6) == '+' && (j == '-' || j == 'x')
    } else {
        false
    };
    if !shape {
        return Err(InvalidMoveError::MoveSyntaxError);
    }
    if PieceType::from_char(mv.get_char(0)).is_some() {
        Ok(mv)
    } else {
        Err(InvalidMoveError::MoveSyntaxError)
    }
}

/// Check that every square the move references fits on the board.
pub fn check_in_board<'a>(mv: &'a str) -> (r: Result<&'a str, InvalidMoveError>)
    ensures
        r is Ok <==> in_board_ok(mv@),
        r is Ok ==> r->Ok_0@ == mv@,
        r is Err ==> r->Err_0 == InvalidMoveError::OutOfBoardMoveError,
{
    let n = mv.unicode_len();
    let mut ok = true;
    if n == 4 && mv.get_char(1) == '*' {
        ok = col_char_ok(mv.get_char(2)) && row_char_ok(mv.get_char(3));
    }
    if (n == 6 || (n == 7 && mv.get_char(6) == '+')) && (mv.get_char(3) == '-' || mv.get_char(3)
        == 'x') {
        ok = ok && col_char_ok(mv.get_char(1)) && row_char_ok(mv.get_char(2)) && col_char_ok(
            mv.get_char(4),
        ) && row_char_ok(mv.get_char(5));
    }
    if ok {
        Ok(mv)
    } else {
        Err(InvalidMoveError::OutOfBoardMoveError)
    }
}

fn col_char_ok(c: char) -> (r: bool)
    ensures
        r == is_col_char(c),
{
    let v = c as u32;
    49 <= v && v <= 57
}

fn row_char_ok(c: char) -> (r: bool)
    ensures
        r == is_row_char(c),
{
    let v = c as u32;
    97 <= v && v <= 105
}

/// Check that a piece of the stated type and the side to move stands where
/// the move says it starts (for a drop: in the reserve).
pub fn check_start<'a>(mv: &'a str, b: &'a Board) -> (r: Result<&'a str, InvalidMoveError>)
    requires
        parse_movement(mv@) is Some,
    ensures
        r is Ok <==> start_ok(b@, mv@),
        r is Ok ==> r->Ok_0@ == mv@,
        r is Err ==> r->Err_0 == InvalidMoveError::NoPieceAtPositionError,
{
    let m = parse_known(mv);
    let n = b.pieces.len();
    let mut i: usize = 0;
    while i < n
        invariant
            0 <= i <= n,
            n == b.pieces@.len(),
            m == parsed(mv@),
            forall|j: int|
                0 <= j < i ==> !((#[trigger] b.pieces@[j]).color == b.turn && b.pieces@[j].position
                    == m.start && b.pieces@[j].piecetype == m.piecetype),
        decreases n - i,
    {
        let p = b.pieces[i];
        if p.color == b.turn && opt_pos_eq(p.position, m.start) && p.piecetype == m.piecetype {
            return Ok(mv);
        }
        i += 1;
    }
    Err(InvalidMoveError::NoPieceAtPositionError)
}

/// Check that the destination square suits the move: empty for a drop, not
/// a friendly piece otherwise, and holding an opponent piece when the move
/// asserts a capture.
pub fn check_destination<'a>(mv: &'a str, b: &'a Board) -> (r: Result<&'a str, InvalidMoveError>)
    requires
        b.wf(),
        parse_movement(mv@) is Some,
    ensures
        r is Ok <==> destination_ok(b@, mv@),
        r is Ok ==> r->Ok_0@ == mv@,
        r is Err ==> r->Err_0 == destination_error(b@, mv@),
{
    let m = parse_known(mv);
    let at_end = b.is_occupied_by(m.end);
    if m.start.is_none() {
        if at_end.is_none() {
            Ok(mv)
        } else {
            Err(InvalidMoveError::DestinationOccupiedError)
        }
    } else {
        match at_end {
            Some(p) if p.color == b.turn => Err(InvalidMoveError::DestinationOccupiedError),
            Some(_) => Ok(mv),
            None => {
                if m.force_capture {
                    Err(InvalidMoveError::NoPieceCapturedError)
                } else {
                    Ok(mv)
                }
            },
        }
    }
}

/// Check that the piece standing on the start square can move by the move's
/// geometry, including an unobstructed path for a sliding move of more than
/// one step.
pub fn check_possible_move<'a>(mv: &'a str, b: &'a Board) -> (r: Result<&'a str, InvalidMoveError>)
    requires
        b.wf(),
        syntax_ok(mv@),
        in_board_ok(mv@),
        start_ok(b@, mv@),
    ensures
        r is Ok <==> possible_ok(b@, mv@),
        r is Ok ==> r->Ok_0@ == mv@,
        r is Err ==> r->Err_0 == InvalidMoveError::PieceHasNoSuchMoveError,
{
    proof {
        lemma_grammar_parse(mv@);
    }
    let n = mv.unicode_len();
    if n == 4 {
        return Ok(mv);
    }
    let m = parse_known(mv);
    let st = match m.start {
        Some(q) => q,
        None => {
            proof {
                assert(false);
            }
            vstd::pervasive::unreached()
        },
    };
    let piece = match b.is_occupied_by(st) {
        Some(p) => p,
        None => {
            proof {
                let i = choose|i: int|
                    0 <= i < b.pieces@.len() && (#[trigger] b.pieces@[i]).color == b.turn
                        && b.pieces@[i].position == m.start && b.pieces@[i].piecetype
                        == m.piecetype;
                assert(board_has_at(b.pieces@, st));
                assert(false);
            }
            vstd::pervasive::unreached()
        },
    };
    let dx: i32 = (m.end.0 % 9) as i32 - (st.0 % 9) as i32;
    let dy: i32 = (m.end.0 / 9) as i32 - (st.0 / 9) as i32;
    let moves = piece.get_relative_moves();
    let delta: (i16, i16) = (dx as i16, dy as i16);
    let mut found = false;
    let mut i: usize = 0;
    while i < moves.len()
        invariant
            0 <= i <= moves@.len(),
            found <==> exists|j: int| 0 <= j < i && moves@[j] == delta,
        decreases moves@.len() - i,
    {
        let o = moves[i];
        if o.0 == delta.0 && o.1 == delta.1 {
            found = true;
            assert(moves@[i as int] == delta);
        }
        i += 1;
    }
    proof {
        assert(found <==> moves@.contains(delta));
        assert(offset_ok(st, delta));
        // The piece on the start square is the one the start stage found,
        // so it has the stated type.
        let i = choose|i: int|
            0 <= i < b.pieces@.len() && (#[trigger] b.pieces@[i]).color == b.turn
                && b.pieces@[i].position == m.start && b.pieces@[i].piecetype == m.piecetype;
        let j = board_at_idx(b.pieces@, st);
        assert(b.pieces@[i].position == Some(st));
        assert(board_has_at(b.pieces@, st));
        assert(0 <= j < b.pieces@.len() && b.pieces@[j].position == Some(st));
        if i != j {
            assert(false);
        }
        assert(piece.piecetype == m.piecetype);
    }
    if !found {
        return Err(InvalidMoveError::PieceHasNoSuchMoveError);
    }
    let small = small_move(st, m.end);
    let is_slider = match m.piecetype {
        PieceType::Rook | PieceType::Bishop | PieceType::Lance => true,
        _ => false,
    };
    if is_slider && !small {
        proof {
            lemma_slider_delta(piece.piecetype, piece.promoted, piece.color, delta);
            lemma_slider_path_range(st, m.end, dx as int, dy as int);
        }
        let step: i32 = unit_dir_exec(dx, dy);
        let steps: i32 = n_steps_exec(dx, dy);
        if !path_clear(b, st, step, steps) {
            return Err(InvalidMoveError::PieceHasNoSuchMoveError);
        }
    }
    Ok(mv)
}

/// Every offset of a sliding piece's table is a straight or diagonal line:
/// it decomposes exactly into a number of unit steps in one direction.
pub proof fn lemma_slider_delta(t: PieceType, promoted: bool, c: Color, o: (i16, i16))
    requires
        t == PieceType::Rook || t == PieceType::Bishop || t == PieceType::Lance,
        colored_offsets(t, promoted, c).contains(o),
    ensures
        o.0 as int + 9 * (o.1 as int) == n_steps(o.0 as int, o.1 as int) * unit_dir(
            o.0 as int,
            o.1 as int,
        ),
        1 <= n_steps(o.0 as int, o.1 as int) <= 8,
        -8 <= o.0 as int <= 8,
        -8 <= o.1 as int <= 8,
{
    let tbl = colored_offsets(t, promoted, c);
    let j = choose|j: int| 0 <= j < tbl.len() && tbl[j] == o;
    if c == Color::White {
        assert(tbl[j] == o);
    } else {
        let base = crate::piece::offsets_of(t, promoted);
        assert(tbl[j] == crate::piece::neg_offset(base[j]));
    }
    let dx = o.0 as int;
    let dy = o.1 as int;
    assert(dx == 0 || dy == 0 || dx == dy || dx == -dy);
    assert(!(dx == 0 && dy == 0));
    assert(-8 <= dx <= 8 && -8 <= dy <= 8);
    if dx == 0 {
        if dy > 0 {
            assert(n_steps(dx, dy) == dy && unit_dir(dx, dy) == 9);
        } else {
            assert(n_steps(dx, dy) == -dy && unit_dir(dx, dy) == -9);
        }
    } else if dy == 0 {
        if dx > 0 {
            assert(n_steps(dx, dy) == dx && unit_dir(dx, dy) == 1);
        } else {
            assert(n_steps(dx, dy) == -dx && unit_dir(dx, dy) == -1);
        }
    } else if dx == dy {
        if dx > 0 {
            assert(n_steps(dx, dy) == dx && unit_dir(dx, dy) == 10);
        } else {
            assert(n_steps(dx, dy) == -dx && unit_dir(dx, dy) == -10);
        }
    } else {
        assert(dx == -dy);
        if dx > 0 {
            assert(n_steps(dx, dy) == dx && unit_dir(dx, dy) == -8);
            assert(dx + 9 * dy == dx * -8);
        } else {
            assert(n_steps(dx, dy) == -dx && unit_dir(dx, dy) == 8);
            assert(dx + 9 * dy == (-dx) * 8);
        }
    }
}

/// The intermediate squares of a straight or diagonal move between two
/// board squares stay on the board.
pub proof fn lemma_slider_path_range(st: Position, end: Position, dx: int, dy: int)
    requires
        pos_ok(st),
        pos_ok(end),
        dx == col_of(end) - col_of(st),
        dy == row_of(end) - row_of(st),
        dx + 9 * dy == n_steps(dx, dy) * unit_dir(dx, dy),
    ensures
        forall|k: int| 1 <= k < n_steps(dx, dy) ==> 0 <= st.0 + #[trigger] (k * unit_dir(dx, dy))
            <= 80,
{
    let sp = unit_dir(dx, dy);
    let n = n_steps(dx, dy);
    assert(end.0 as int == st.0 as int + dx + 9 * dy);
    assert forall|k: int| 1 <= k < n implies 0 <= st.0 + #[trigger] (k * sp) <= 80 by {
        if sp == 10 {
            assert(0 <= st.0 + k * 10 <= 80);
        } else if sp == 9 {
            assert(0 <= st.0 + k * 9 <= 80);
        } else if sp == 8 {
            assert(0 <= st.0 + k * 8 <= 80);
        } else if sp == 1 {
            assert(0 <= st.0 + k * 1 <= 80);
        } else if sp == -1 {
            assert(0 <= st.0 + k * -1 <= 80);
        } else if sp == -8 {
            assert(0 <= st.0 + k * -8 <= 80);
        } else if sp == -9 {
            assert(0 <= st.0 + k * -9 <= 80);
        } else if sp == -10 {
            assert(0 <= st.0 + k * -10 <= 80);
        } else {
            assert(sp == 0);
            assert(dx == 0 && dy == 0);
            assert(n == 0);
            assert(false);
        }
    }
}

/// Whether a move goes only to an adjacent square, which never needs path
/// verification.
pub fn small_move(start: Position, end: Position) -> (r: bool)
    requires
        pos_ok(start),
        pos_ok(end),
    ensures
        r == small_move_spec(start, end),
{
    let dr: i32 = (end.0 / 9) as i32 - (start.0 / 9) as i32;
    let dc: i32 = (end.0 % 9) as i32 - (start.0 % 9) as i32;
    -1 <= dr && dr <= 1 && -1 <= dc && dc <= 1
}

fn unit_dir_exec(dx: i32, dy: i32) -> (r: i32)
    requires
        -8 <= dx <= 8,
        -8 <= dy <= 8,
    ensures
        r == unit_dir(dx as int, dy as int),
{
    let sx: i32 = if dx > 0 {
        1
    } else if dx < 0 {
        -1
    } else {
        0
    };
    let sy: i32 = if dy > 0 {
        1
    } else if dy < 0 {
        -1
    } else {
        0
    };
    sx + 9 * sy
}

fn n_steps_exec(dx: i32, dy: i32) -> (r: i32)
    requires
        -8 <= dx <= 8,
        -8 <= dy <= 8,
    ensures
        r == n_steps(dx as int, dy as int),
{
    let ax: i32 = if dx >= 0 {
        dx
    } else {
        -dx
    };
    let ay: i32 = if dy >= 0 {
        dy
    } else {
        -dy
    };
    if ax >= ay {
        ax
    } else {
        ay
    }
}

/// Walk unit steps from the start toward the destination `n` steps away and
/// report whether every intermediate square is empty.
fn path_clear(b: &Board, start: Position, step: i32, n: i32) -> (r: bool)
    requires
        b.wf(),
        pos_ok(start),
        -10 <= step <= 10,
        0 <= n <= 8,
        forall|k: int| 1 <= k < n ==> 0 <= start.0 + #[trigger] (k * step) <= 80,
    ensures
        r == path_clear_spec(b@, start.0 as int, step as int, n as int),
{
    let mut k: i32 = 1;
    while k < n
        invariant
            1 <= k,
            n <= 8,
            k <= if n >= 1 {
                n as int
            } else {
                1
            },
            b.wf(),
            pos_ok(start),
            -10 <= step <= 10,
            forall|j: int| 1 <= j < n ==> 0 <= start.0 + #[trigger] (j * step) <= 80,
            forall|j: int|
                1 <= j < k ==> b.occ(Position(#[trigger] ((start.0 as int + j * step) as u16))) is None,
        decreases n - k,
    {
        let sq: i32 = start.0 as i32 + k * step;
        assert(sq == start.0 + (k as int) * step);
        let p = Position(sq as u16);
        if b.is_occupied_by(p).is_some() {
            assert(!path_clear_spec(b@, start.0 as int, step as int, n as int));
            return false;
        }
        k += 1;
    }
    true
}

/// Check the double-pawn rule: a pawn drop into a column that already holds
/// an unpromoted pawn of the side to move is illegal.
pub fn check_nifu<'a>(mv: &'a str, b: &'a Board) -> (r: Result<&'a str, InvalidMoveError>)
    requires
        parse_movement(mv@) is Some,
    ensures
        r is Ok <==> nifu_ok(b@, mv@),
        r is Ok ==> r->Ok_0@ == mv@,
        r is Err ==> r->Err_0 == InvalidMoveError::NifuViolationError,
{
    let m = parse_known(mv);
    if !(m.piecetype == PieceType::Pawn) || m.start.is_some() {
        return Ok(mv);
    }
    let n = b.pieces.len();
    let mut i: usize = 0;
    while i < n
        invariant
            0 <= i <= n,
            n == b.pieces@.len(),
            m == parsed(mv@),
            m.piecetype == PieceType::Pawn,
            m.start is None,
            forall|j: int|
                0 <= j < i ==> !((#[trigger] b.pieces@[j]).piecetype == PieceType::Pawn
                    && b.pieces@[j].color == b.turn && b.pieces@[j].position is Some
                    && !b.pieces@[j].promoted && col_of(b.pieces@[j].position->0) == col_of(
                    m.end,
                )),
        decreases n - i,
    {
        let p = b.pieces[i];
        if p.piecetype == PieceType::Pawn && p.color == b.turn && !p.promoted {
            if let Some(q) = p.position {
                if q.0 % 9 == m.end.0 % 9 {
                    proof {
                        let wi = i as int;
                        assert(b.pieces@[wi].piecetype == PieceType::Pawn && b.pieces@[wi].color
                            == b.turn && b.pieces@[wi].position is Some && !b.pieces@[wi].promoted
                            && col_of(b.pieces@[wi].position->0) == col_of(m.end));
                        assert(exists|ii: int|
                            0 <= ii < b.pieces@.len() && (#[trigger] b.pieces@[ii]).piecetype
                                == PieceType::Pawn && b.pieces@[ii].color == b.turn
                                && b.pieces@[ii].position is Some && !b.pieces@[ii].promoted
                                && col_of(b.pieces@[ii].position->0) == col_of(parsed(mv@).end));
                        assert(!nifu_ok(b@, mv@));
                    }
                    return Err(InvalidMoveError::NifuViolationError);
                }
            }
        }
        i += 1;
    }
    Ok(mv)
}

/// Check that a dropped piece will still be able to move afterwards.
pub fn check_move_possible_after_drop<'a>(mv: &'a str, b: &'a Board) -> (r: Result<
    &'a str,
    InvalidMoveError,
>)
    requires
        parse_movement(mv@) is Some,
    ensures
        r is Ok <==> drop_mobility_ok(b@, mv@),
        r is Ok ==> r->Ok_0@ == mv@,
        r is Err ==> r->Err_0 == InvalidMoveError::NoMovePossibleAfterDropError,
{
    let n = mv.unicode_len();
    let is_drop = n == 4 && mv.get_char(1) == '*';
    if !is_drop {
        return Ok(mv);
    }
    let m = parse_known(mv);
    let row: u16 = m.end.0 / 9;
    let last: u16 = if b.get_turn() {
        8
    } else {
        0
    };
    let before_last: u16 = if b.get_turn() {
        7
    } else {
        1
    };
    if m.piecetype == PieceType::Pawn && row == last {
        Err(InvalidMoveError::NoMovePossibleAfterDropError)
    } else if m.piecetype == PieceType::Lance && row == last {
        Err(InvalidMoveError::NoMovePossibleAfterDropError)
    } else if m.piecetype == PieceType::Knight && (row == last || row == before_last) {
        Err(InvalidMoveError::NoMovePossibleAfterDropError)
    } else {
        Ok(mv)
    }
}

/// Check that the move's promotion request (or its absence) is allowed.
pub fn check_promotion<'a>(mv: &'a str, b: &'a Board) -> (r: Result<&'a str, InvalidMoveError>)
    requires
        b.wf(),
        parse_movement(mv@) is Some,
    ensures
        r is Ok <==> promotion_ok(b@, mv@),
        r is Ok ==> r->Ok_0@ == mv@,
        r is Err ==> r->Err_0 == InvalidMoveError::PromotionError,
{
    let m = parse_known(mv);
    let n = mv.unicode_len();
    let is_normal = (n == 6 || (n == 7 && mv.get_char(6) == '+')) && (mv.get_char(3) == '-'
        || mv.get_char(3) == 'x');
    if !is_normal {
        if m.promotion {
            return Err(InvalidMoveError::PromotionError);
        } else {
            return Ok(mv);
        }
    }
    let st = match m.start {
        Some(q) => q,
        None => {
            proof {
                assert(maybe_normal_chars(mv@));
                assert(!maybe_drop_chars(mv@));
                assert(false);
            }
            vstd::pervasive::unreached()
        },
    };
    if m.promotion && (m.piecetype == PieceType::Gold || m.piecetype == PieceType::King) {
        return Err(InvalidMoveError::PromotionError);
    }
    let end_row: u16 = m.end.0 / 9;
    let st_row: u16 = st.0 / 9;
    let white = b.get_turn();
    let zone_end: bool = if white {
        end_row >= 6
    } else {
        end_row <= 2
    };
    let zone_st: bool = if white {
        st_row >= 6
    } else {
        st_row <= 2
    };
    if m.promotion {
        if !zone_end && !zone_st {
            return Err(InvalidMoveError::PromotionError);
        }
        return Ok(mv);
    }
    let last: u16 = if white {
        8
    } else {
        0
    };
    let before_last: u16 = if white {
        7
    } else {
        1
    };
    if let Some(piece) = b.is_occupied_by(st) {
        if !piece.promoted {
            if (m.piecetype == PieceType::Pawn && end_row == last) || (m.piecetype
                == PieceType::Lance && end_row == last) || (m.piecetype == PieceType::Knight && (
            end_row == last || end_row == before_last)) {
                return Err(InvalidMoveError::PromotionError);
            }
        }
    }
    Ok(mv)
}

} // verus!
