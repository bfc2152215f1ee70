//! The search for a quiet position ends of itself: every capture takes a
//! piece off the board, so no more captures follow one another than there
//! are pieces but one.

use vstd::prelude::*;
use crate::bits::{isset, lemma_popcount, squares};
use crate::constants::eveluation_constants::QUIET_PLIES;
use crate::eveluation::evaluation;
use crate::pieces::pieces_controller::{MoveBitField, Position};
use crate::search_value::{quiet_over, quiet_value};

verus! {

/// The number of pieces on the board.
pub open spec fn men(pos: Position) -> nat {
    squares(pos.slot(14)).len()
}

/// A move that takes a piece leaves one piece fewer on the board, of two at
/// least.
pub proof fn lemma_capture_takes(pos: Position, mov: MoveBitField)
    requires
        pos.wf(),
        pos.admits(mov),
        mov.capture() || mov.enpassant(),
    ensures
        men(pos) >= 2,
        men(pos.moved(mov)) + 1 == men(pos),
        pos.moved(mov).wf(),
{
    pos.lemma_moved_wf(mov);
    let after = pos.moved(mov);
    let before_set = squares(pos.slot(14));
    let after_set = squares(after.slot(14));
    lemma_popcount(pos.slot(14));
    lemma_popcount(after.slot(14));
    let source = mov.source();
    let target = mov.target();
    assert forall|s: int| before_set.contains(s) == (0 <= s < 64 && pos.occupant(s) >= 0) by {
        if 0 <= s < 64 {
            assert(pos.sound_at(s));
            pos.lemma_occupant(s);
        }
    }
    assert forall|s: int|
        after_set.contains(s) == (0 <= s < 64 && pos.after_capture(mov, s) >= 0) by {
        if 0 <= s < 64 {
            assert(after.sound_at(s));
            after.lemma_occupant(s);
            assert(after.occupant(s) == pos.after_capture(mov, s));
        }
    }
    crate::pieces::move_bits::lemma_field_bounds(mov.0);
    if mov.enpassant() {
        let back = crate::pieces::pieces_controller::behind(pos.color, target);
        assert(before_set.contains(source) && before_set.contains(back));
        assert(!before_set.contains(target));
        assert(back != source);
        assert(after_set =~= before_set.remove(source).remove(back).insert(target));
    } else {
        assert(before_set.contains(source) && before_set.contains(target));
        assert(after_set =~= before_set.remove(source));
        assert(before_set.remove(source).contains(target));
    }
}

/// With one piece at most on the board no capture is there to follow.
pub proof fn lemma_no_capture(pos: Position, moves: Seq<MoveBitField>, plies: nat, floor: int)
    requires
        pos.wf(),
        forall|k: int| 0 <= k < moves.len() ==> pos.admits(#[trigger] moves[k]),
        men(pos) <= 1,
    ensures
        quiet_over(pos, moves, plies, floor) == floor,
    decreases moves.len(),
{
    if moves.len() > 0 && plies > 0 {
        let head = moves.drop_last();
        let last = moves.last();
        assert forall|k: int| 0 <= k < head.len() implies pos.admits(#[trigger] head[k]) by {
            assert(head[k] == moves[k]);
        }
        lemma_no_capture(pos, head, plies, floor);
        if last.capture() {
            assert(pos.admits(moves[moves.len() - 1]));
            lemma_capture_takes(pos, last);
        }
    }
}

/// With plies enough for the pieces on the board, more plies do not change
/// what the captures among the moves lead to.
pub proof fn lemma_quiet_over_plies(
    pos: Position,
    moves: Seq<MoveBitField>,
    a: nat,
    b: nat,
    floor: int,
)
    requires
        pos.wf(),
        forall|k: int| 0 <= k < moves.len() ==> pos.admits(#[trigger] moves[k]),
        a + 1 >= men(pos),
        b + 1 >= men(pos),
    ensures
        quiet_over(pos, moves, a, floor) == quiet_over(pos, moves, b, floor),
    decreases men(pos), 1nat, moves.len(),
{
    if a == 0 || b == 0 {
        lemma_no_capture(pos, moves, a, floor);
        lemma_no_capture(pos, moves, b, floor);
    } else if moves.len() > 0 {
        let head = moves.drop_last();
        let last = moves.last();
        assert forall|k: int| 0 <= k < head.len() implies pos.admits(#[trigger] head[k]) by {
            assert(head[k] == moves[k]);
        }
        lemma_quiet_over_plies(pos, head, a, b, floor);
        if last.capture() && pos.leaves_king_safe(last) {
            assert(pos.admits(moves[moves.len() - 1]));
            lemma_capture_takes(pos, last);
            lemma_quiet_value_plies(pos.moved(last), (a - 1) as nat, (b - 1) as nat);
        }
    }
}

/// With plies enough for the pieces on the board, more plies do not change
/// the value of a position once the captures have been played out.
pub proof fn lemma_quiet_value_plies(pos: Position, a: nat, b: nat)
    requires
        pos.wf(),
        a + 1 >= men(pos),
        b + 1 >= men(pos),
    ensures
        quiet_value(pos, a) == quiet_value(pos, b),
    decreases men(pos), 2nat, 0nat,
{
    assert forall|k: int| 0 <= k < pos.generated().len() implies pos.admits(
        #[trigger] pos.generated()[k],
    ) by {
        pos.lemma_generated_fit(k);
    }
    lemma_quiet_over_plies(pos, pos.generated(), a, b, evaluation(pos));
}

/// The plies that the search allows for captures are enough for every
/// sound position: with more of them it would find the same.
pub proof fn lemma_quiet_plies_enough(pos: Position, more: nat)
    requires
        pos.wf(),
        more >= QUIET_PLIES,
    ensures
        quiet_value(pos, more) == quiet_value(pos, QUIET_PLIES as nat),
{
    lemma_popcount(pos.slot(14));
    lemma_quiet_value_plies(pos, more, QUIET_PLIES as nat);
}

} // verus!
