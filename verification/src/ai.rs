//! A greedy move chooser: it ranks the fully legal moves by the static
//! material evaluation of the position each one produces, preferring drops,
//! and picks one with the greatest rank.

use crate::board::{
    board_value_seq, drop_candidate, enumerated_full, holds_str, lemma_partial_playable,
    normal_candidate, normal_gen_cond, play_spec, playable, Board, BoardV,
};
use crate::invalidmoveerror::{lemma_grammar_parse, parse_known, parsed, partial_pipeline_ok};
use crate::movement::{movement_chars, Movement};
use crate::piece::PieceType;
use vstd::prelude::*;

verus! {

/// The rank the greedy chooser maximizes: the material score of the
/// resulting position (held by the opponent, hence negated), plus a flat
/// bonus for drops so that reserve pieces come back into play.
pub open spec fn greedy_key(b: BoardV, s: Seq<char>) -> int {
    (if parsed(s).start is None {
        1000int
    } else {
        0int
    }) - board_value_seq(play_spec(b, s).pieces, play_spec(b, s).turn)
}

/// A move the full enumeration yields parses, passes the board-local
/// stages, and can be applied without checking.
pub proof fn lemma_enumerated_full_props(b: BoardV, s: Seq<char>)
    requires
        enumerated_full(b, s),
    ensures
        partial_pipeline_ok(b, s),
        playable(b, s),
        crate::movement::parse_movement(s) is Some,
{
    reveal(enumerated_full);
    let rc = crate::movement::restart_chars();
    let wc = crate::movement::withdraw_chars();
    if normal_candidate(b, s) {
        let (i, o, pr) = choose|i: int, o: (i16, i16), pr: bool|
            #![trigger movement_chars(Movement::relative_movement(b.pieces[i], o, pr))]
            normal_gen_cond(b, i, o) && s == movement_chars(
                Movement::relative_movement(b.pieces[i], o, pr),
            );
        let m = Movement::relative_movement(b.pieces[i], o, pr);
        assert(s[0] == crate::piece::type_char(m.piecetype));
        assert(s != rc && s != wc);
    } else {
        let (t, sq) = choose|t: PieceType, sq: int|
            #![trigger movement_chars(crate::board::drop_movement(t, sq))]
            0 <= sq < 81 && b.spec_has_reserve(t, b.turn) && s == movement_chars(
                crate::board::drop_movement(t, sq),
            );
        assert(s[0] == crate::piece::type_char(t));
        assert(s != rc && s != wc);
    }
    lemma_partial_playable(b, s);
    lemma_grammar_parse(s);
}

/// Compute the greedy rank of one accepted move.
fn greedy_key_exec(b: &Board, mv: &str) -> (k: i32)
    requires
        b.wf(),
        partial_pipeline_ok(b@, mv@),
    ensures
        k == greedy_key(b@, mv@),
{
    proof {
        lemma_partial_playable(b@, mv@);
        lemma_grammar_parse(mv@);
    }
    let m = parse_known(mv);
    let after = b.play_move_unchecked(mv);
    let v = after.value();
    let bonus: i32 = if m.start.is_none() {
        1000
    } else {
        0
    };
    bonus - v
}

/// Return a fully legal move whose greedy rank is maximal. The caller must
/// supply a board with at least one legal move.
pub fn greedy(b: &Board) -> (r: String)
    requires
        b.wf(),
        exists|s: Seq<char>| enumerated_full(b@, s),
    ensures
        enumerated_full(b@, r@),
        forall|s: Seq<char>| #[trigger] enumerated_full(b@, s) ==> greedy_key(b@, s) <= greedy_key(
            b@,
            r@,
        ),
{
    let moves = b.iter_moves();
    if moves.len() == 0 {
        proof {
            let s0 = choose|s: Seq<char>| enumerated_full(b@, s);
            assert(holds_str(moves@, s0));
            let k0 = choose|k: int| 0 <= k < moves@.len() && (#[trigger] moves@[k])@ == s0;
            assert(false);
        }
        return vstd::pervasive::unreached();
    }
    proof {
        assert(enumerated_full(b@, moves@[0]@));
        lemma_enumerated_full_props(b@, moves@[0]@);
    }
    let first: &String = &moves[0];
    let mut best_idx: usize = 0;
    let mut best_key: i32 = greedy_key_exec(b, first.as_str());
    let mut i: usize = 1;
    while i < moves.len()
        invariant
            1 <= i <= moves@.len(),
            b.wf(),
            0 <= best_idx < moves@.len(),
            forall|k: int| 0 <= k < moves@.len() ==> enumerated_full(b@, (#[trigger] moves@[k])@),
            forall|s: Seq<char>| enumerated_full(b@, s) ==> #[trigger] holds_str(moves@, s),
            best_key == greedy_key(b@, moves@[best_idx as int]@),
            forall|j: int| 0 <= j < i ==> greedy_key(b@, (#[trigger] moves@[j])@) <= best_key,
        decreases moves@.len() - i,
    {
        proof {
            assert(enumerated_full(b@, moves@[i as int]@));
            lemma_enumerated_full_props(b@, moves@[i as int]@);
        }
        let cur: &String = &moves[i];
        let k = greedy_key_exec(b, cur.as_str());
        if k > best_key {
            best_key = k;
            best_idx = i;
        }
        i += 1;
    }
    let r: String = moves[best_idx].clone();
    proof {
        assert(r@ == moves@[best_idx as int]@);
        assert forall|s: Seq<char>| #[trigger] enumerated_full(b@, s) implies greedy_key(b@, s)
            <= greedy_key(b@, r@) by {
            assert(holds_str(moves@, s));
            let j = choose|j: int| 0 <= j < moves@.len() && (#[trigger] moves@[j])@ == s;
            assert(greedy_key(b@, moves@[j]@) <= best_key);
        }
    }
    r
}

} // verus!
