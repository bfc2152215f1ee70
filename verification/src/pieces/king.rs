//! King geometry: the eight neighbouring squares.

use vstd::prelude::*;
use crate::bits::{group_bits, isset};
use crate::board_components::{file_of, lemma_square_shift, rank_of, BitBoard, Square};
use crate::constants::board_constants::{lemma_edge_masks, A_FILE, H_FILE, RANK1, RANK8};
use crate::pieces::helper_functions::{guarded, guarded_step};

verus! {

/// `t` is a neighbour of `s`: one step away along a rank, a file or a
/// diagonal.
pub open spec fn king_step(s: int, t: int) -> bool {
    &&& 0 <= s < 64
    &&& 0 <= t < 64
    &&& t != s
    &&& -1 <= rank_of(t) - rank_of(s) <= 1
    &&& -1 <= file_of(t) - file_of(s) <= 1
}

/// The squares a king on `s` attacks: each of the eight steps, unless the
/// edge of the board is in its way.
pub open spec fn king_mask(s: int) -> u64 {
    guarded(s, RANK8, 8) | guarded(s, RANK8 | H_FILE, 9) | guarded(s, H_FILE, 1) | guarded(
        s,
        RANK1 | H_FILE,
        -7,
    ) | guarded(s, RANK1, -8) | guarded(s, RANK1 | A_FILE, -9) | guarded(s, A_FILE, -1) | guarded(
        s,
        RANK8 | A_FILE,
        7,
    )
}

/// The squares of the king's mask are the neighbours of its square.
pub proof fn lemma_king_mask(s: int)
    requires
        0 <= s < 64,
    ensures
        forall|t: int| isset(king_mask(s), t) == king_step(s, t),
{
    lemma_edge_masks();
    broadcast use group_bits;

    assert forall|t: int| isset(king_mask(s), t) == king_step(s, t) by {
        lemma_square_shift(s, 1, 0, t);
        lemma_square_shift(s, 1, 1, t);
        lemma_square_shift(s, 0, 1, t);
        lemma_square_shift(s, -1, 1, t);
        lemma_square_shift(s, -1, 0, t);
        lemma_square_shift(s, -1, -1, t);
        lemma_square_shift(s, 0, -1, t);
        lemma_square_shift(s, 1, -1, t);
    }
}

/// A king's step leads back by a king's step.
pub proof fn lemma_king_step_mutual(s: int, t: int)
    ensures
        king_step(s, t) == king_step(t, s),
{
}

/// The squares a king on `square` attacks.
pub fn mask_king_attacks(square: Square) -> (r: BitBoard)
    requires
        square.on_board(),
    ensures
        r.0 == king_mask(square@),
{
    proof {
        lemma_edge_masks();
        broadcast use group_bits;

    }
    let north = guarded_step(square, RANK8, 8);
    let north_east = guarded_step(square, RANK8 | H_FILE, 9);
    let east = guarded_step(square, H_FILE, 1);
    let south_east = guarded_step(square, RANK1 | H_FILE, -7);
    let south = guarded_step(square, RANK1, -8);
    let south_west = guarded_step(square, RANK1 | A_FILE, -9);
    let west = guarded_step(square, A_FILE, -1);
    let north_west = guarded_step(square, RANK8 | A_FILE, 7);
    BitBoard(north | north_east | east | south_east | south | south_west | west | north_west)
}

} // verus!
