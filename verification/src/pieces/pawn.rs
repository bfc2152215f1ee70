//! Pawn geometry: the two capture squares ahead of a pawn.

use vstd::prelude::*;
use crate::bits::{group_bits, isset};
use crate::board_components::{file_of, lemma_square_shift, rank_of, BitBoard, Color, Square};
use crate::constants::board_constants::{lemma_edge_masks, A_FILE, H_FILE, RANK1, RANK8};
use crate::pieces::helper_functions::{guarded, guarded_step};

verus! {

/// The rank step of a pawn of the given colour.
pub open spec fn forward(side: Color) -> int {
    match side {
        Color::White => 1,
        Color::Black => -1,
    }
}

/// A pawn of colour `side` on `s` attacks `t`: one rank ahead, one file to
/// either side.
pub open spec fn pawn_step(side: Color, s: int, t: int) -> bool {
    &&& 0 <= s < 64
    &&& 0 <= t < 64
    &&& rank_of(t) == rank_of(s) + forward(side)
    &&& (file_of(t) == file_of(s) + 1 || file_of(t) == file_of(s) - 1)
}

/// The squares a pawn of colour `side` on `s` attacks.
pub open spec fn pawn_mask(side: Color, s: int) -> u64 {
    match side {
        Color::White => guarded(s, RANK8 | A_FILE, 7) | guarded(s, RANK8 | H_FILE, 9),
        Color::Black => guarded(s, RANK1 | A_FILE, -9) | guarded(s, RANK1 | H_FILE, -7),
    }
}

/// The squares of the pawn's mask are the two it attacks.
pub proof fn lemma_pawn_mask(side: Color, s: int)
    requires
        0 <= s < 64,
    ensures
        forall|t: int| isset(pawn_mask(side, s), t) == pawn_step(side, s, t),
{
    lemma_edge_masks();
    broadcast use group_bits;

    assert forall|t: int| isset(pawn_mask(side, s), t) == pawn_step(side, s, t) by {
        lemma_square_shift(s, 1, -1, t);
        lemma_square_shift(s, 1, 1, t);
        lemma_square_shift(s, -1, -1, t);
        lemma_square_shift(s, -1, 1, t);
    }
}

/// A pawn of one colour on `s` attacks `t` exactly when a pawn of the other
/// colour on `t` attacks `s`.
pub proof fn lemma_pawn_step_mirror(side: Color, s: int, t: int)
    ensures
        pawn_step(side, s, t) == pawn_step(
            match side {
                Color::White => Color::Black,
                Color::Black => Color::White,
            },
            t,
            s,
        ),
{
}

/// The squares a pawn of colour `side` on `square` attacks.
pub fn mask_pawn_attacks(side: Color, square: Square) -> (r: BitBoard)
    requires
        square.on_board(),
    ensures
        r.0 == pawn_mask(side, square@),
{
    proof {
        lemma_edge_masks();
        broadcast use group_bits;

    }
    match side {
        Color::White => {
            let left = guarded_step(square, RANK8 | A_FILE, 7);
            let right = guarded_step(square, RANK8 | H_FILE, 9);
            BitBoard(left | right)
        },
        Color::Black => {
            let left = guarded_step(square, RANK1 | A_FILE, -9);
            let right = guarded_step(square, RANK1 | H_FILE, -7);
            BitBoard(left | right)
        },
    }
}

} // verus!
