//! Knight geometry: the eight jumps.

use vstd::prelude::*;
use crate::bits::{group_bits, isset};
use crate::board_components::{file_of, lemma_square_shift, rank_of, BitBoard, Square};
use crate::constants::board_constants::{
    lemma_edge_masks, A_FILE, BOTTOM_2_RANK, H_FILE, LEFT_2_FILE, RANK1, RANK8, RIGHT_2_FILE,
    TOP_2_RANK,
};
use crate::pieces::helper_functions::{guarded, guarded_step};

verus! {

/// `t` is a knight's jump away from `s`: two steps along one axis and one
/// along the other.
pub open spec fn knight_step(s: int, t: int) -> bool {
    &&& 0 <= s < 64
    &&& 0 <= t < 64
    &&& {
        let dr = rank_of(t) - rank_of(s);
        let df = file_of(t) - file_of(s);
        ||| (dr == 2 || dr == -2) && (df == 1 || df == -1)
        ||| (dr == 1 || dr == -1) && (df == 2 || df == -2)
    }
}

/// The squares a knight on `s` attacks: each of the eight jumps, unless the
/// edge of the board is in its way.
pub open spec fn knight_mask(s: int) -> u64 {
    guarded(s, TOP_2_RANK | A_FILE, 15) | guarded(s, TOP_2_RANK | H_FILE, 17) | guarded(
        s,
        RIGHT_2_FILE | RANK8,
        10,
    ) | guarded(s, RIGHT_2_FILE | RANK1, -6) | guarded(s, BOTTOM_2_RANK | H_FILE, -15) | guarded(
        s,
        BOTTOM_2_RANK | A_FILE,
        -17,
    ) | guarded(s, LEFT_2_FILE | RANK1, -10) | guarded(s, LEFT_2_FILE | RANK8, 6)
}

/// The squares of the knight's mask are those a jump away from its square.
pub proof fn lemma_knight_mask(s: int)
    requires
        0 <= s < 64,
    ensures
        forall|t: int| isset(knight_mask(s), t) == knight_step(s, t),
{
    lemma_edge_masks();
    broadcast use group_bits;

    assert forall|t: int| isset(knight_mask(s), t) == knight_step(s, t) by {
        lemma_square_shift(s, 2, -1, t);
        lemma_square_shift(s, 2, 1, t);
        lemma_square_shift(s, 1, 2, t);
        lemma_square_shift(s, -1, 2, t);
        lemma_square_shift(s, -2, 1, t);
        lemma_square_shift(s, -2, -1, t);
        lemma_square_shift(s, -1, -2, t);
        lemma_square_shift(s, 1, -2, t);
    }
}

/// A knight's jump leads back by a knight's jump.
pub proof fn lemma_knight_step_mutual(s: int, t: int)
    ensures
        knight_step(s, t) == knight_step(t, s),
{
}

/// The squares a knight on `square` attacks.
pub fn mask_knight_attacks(square: Square) -> (r: BitBoard)
    requires
        square.on_board(),
    ensures
        r.0 == knight_mask(square@),
{
    proof {
        lemma_edge_masks();
        broadcast use group_bits;

    }
    let up_left = guarded_step(square, TOP_2_RANK | A_FILE, 15);
    let up_right = guarded_step(square, TOP_2_RANK | H_FILE, 17);
    let right_up = guarded_step(square, RIGHT_2_FILE | RANK8, 10);
    let right_down = guarded_step(square, RIGHT_2_FILE | RANK1, -6);
    let down_right = guarded_step(square, BOTTOM_2_RANK | H_FILE, -15);
    let down_left = guarded_step(square, BOTTOM_2_RANK | A_FILE, -17);
    let left_down = guarded_step(square, LEFT_2_FILE | RANK1, -10);
    let left_up = guarded_step(square, LEFT_2_FILE | RANK8, 6);
    BitBoard(
        up_left | up_right | right_up | right_down | down_right | down_left | left_down | left_up,
    )
}

} // verus!
