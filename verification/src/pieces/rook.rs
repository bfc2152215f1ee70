//! Rook geometry: the four orthogonal rays.

use vstd::prelude::*;
use crate::board_components::{file_of, rank_of, BitBoard, Square};
use crate::pieces::helper_functions::{
    inner_ray, lemma_ray_relevant, lemma_subset_or, ray, ray_attacks, ray_mask,
};

verus! {

/// The squares a rook on `s` attacks when the squares of `occ` are occupied.
pub open spec fn rook_attacks(s: int, occ: u64) -> u64 {
    ray(rank_of(s), file_of(s), 0, 1, occ, 7) | ray(rank_of(s), file_of(s), 0, -1, occ, 7) | ray(
        rank_of(s),
        file_of(s),
        1,
        0,
        occ,
        7,
    ) | ray(rank_of(s), file_of(s), -1, 0, occ, 7)
}

/// The squares whose occupancy decides what a rook on `s` attacks.
pub open spec fn rook_mask(s: int) -> u64 {
    inner_ray(rank_of(s), file_of(s), 0, 1, 7) | inner_ray(rank_of(s), file_of(s), 0, -1, 7)
        | inner_ray(rank_of(s), file_of(s), 1, 0, 7) | inner_ray(rank_of(s), file_of(s), -1, 0, 7)
}

/// The squares whose occupancy decides what a rook on `square` attacks: its
/// rank and file without their last squares.
pub fn mask_rook_attacks(square: Square) -> (r: BitBoard)
    requires
        square.on_board(),
    ensures
        r.0 == rook_mask(square@),
{
    let east = ray_mask(square, 0, 1);
    let west = ray_mask(square, 0, -1);
    let north = ray_mask(square, 1, 0);
    let south = ray_mask(square, -1, 0);
    BitBoard(east.0 | west.0 | north.0 | south.0)
}

/// The squares a rook on `square` attacks over the blockers given, found by
/// walking its rank and file.
pub fn rook_attacks_on_fly(square: Square, blockers: BitBoard) -> (r: BitBoard)
    requires
        square.on_board(),
    ensures
        r.0 == rook_attacks(square@, blockers.0),
{
    let east = ray_attacks(square, 0, 1, blockers);
    let west = ray_attacks(square, 0, -1, blockers);
    let north = ray_attacks(square, 1, 0, blockers);
    let south = ray_attacks(square, -1, 0, blockers);
    BitBoard(east.0 | west.0 | north.0 | south.0)
}

/// Only the blockers on the relevant squares matter to a rook.
pub proof fn lemma_rook_relevant(s: int, occ: u64)
    ensures
        rook_attacks(s, occ) == rook_attacks(s, occ & rook_mask(s)),
{
    let r = rank_of(s);
    let f = file_of(s);
    let m = rook_mask(s);
    lemma_subset_or(
        inner_ray(r, f, 0, 1, 7),
        inner_ray(r, f, 0, -1, 7),
        inner_ray(r, f, 1, 0, 7),
        inner_ray(r, f, -1, 0, 7),
    );
    lemma_ray_relevant(r, f, 0, 1, occ, m, 7);
    lemma_ray_relevant(r, f, 0, -1, occ, m, 7);
    lemma_ray_relevant(r, f, 1, 0, occ, m, 7);
    lemma_ray_relevant(r, f, -1, 0, occ, m, 7);
}

} // verus!
