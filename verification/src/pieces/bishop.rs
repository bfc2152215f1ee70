//! Bishop geometry: the four diagonal rays.

use vstd::prelude::*;
use crate::board_components::{file_of, rank_of, BitBoard, Square};
use crate::pieces::helper_functions::{
    inner_ray, lemma_ray_relevant, lemma_subset_or, ray, ray_attacks, ray_mask,
};

verus! {

/// The squares a bishop on `s` attacks when the squares of `occ` are occupied.
pub open spec fn bishop_attacks(s: int, occ: u64) -> u64 {
    ray(rank_of(s), file_of(s), 1, 1, occ, 7) | ray(rank_of(s), file_of(s), -1, -1, occ, 7) | ray(
        rank_of(s),
        file_of(s),
        1,
        -1,
        occ,
        7,
    ) | ray(rank_of(s), file_of(s), -1, 1, occ, 7)
}

/// The squares whose occupancy decides what a bishop on `s` attacks.
pub open spec fn bishop_mask(s: int) -> u64 {
    inner_ray(rank_of(s), file_of(s), 1, 1, 7) | inner_ray(rank_of(s), file_of(s), -1, -1, 7)
        | inner_ray(rank_of(s), file_of(s), 1, -1, 7) | inner_ray(rank_of(s), file_of(s), -1, 1, 7)
}

/// The squares whose occupancy decides what a bishop on `square` attacks:
/// its diagonals without their last squares.
pub fn mask_bishop_attacks(square: Square) -> (r: BitBoard)
    requires
        square.on_board(),
    ensures
        r.0 == bishop_mask(square@),
{
    let north_east = ray_mask(square, 1, 1);
    let south_west = ray_mask(square, -1, -1);
    let north_west = ray_mask(square, 1, -1);
    let south_east = ray_mask(square, -1, 1);
    BitBoard(north_east.0 | south_west.0 | north_west.0 | south_east.0)
}

/// The squares a bishop on `square` attacks over the blockers given, found
/// by walking its four diagonals.
pub fn bishop_attacks_on_fly(square: Square, blocker: BitBoard) -> (r: BitBoard)
    requires
        square.on_board(),
    ensures
        r.0 == bishop_attacks(square@, blocker.0),
{
    let north_east = ray_attacks(square, 1, 1, blocker);
    let south_west = ray_attacks(square, -1, -1, blocker);
    let north_west = ray_attacks(square, 1, -1, blocker);
    let south_east = ray_attacks(square, -1, 1, blocker);
    BitBoard(north_east.0 | south_west.0 | north_west.0 | south_east.0)
}

/// Only the blockers on the relevant squares matter to a bishop.
pub proof fn lemma_bishop_relevant(s: int, occ: u64)
    ensures
        bishop_attacks(s, occ) == bishop_attacks(s, occ & bishop_mask(s)),
{
    let r = rank_of(s);
    let f = file_of(s);
    let m = bishop_mask(s);
    lemma_subset_or(
        inner_ray(r, f, 1, 1, 7),
        inner_ray(r, f, -1, -1, 7),
        inner_ray(r, f, 1, -1, 7),
        inner_ray(r, f, -1, 1, 7),
    );
    lemma_ray_relevant(r, f, 1, 1, occ, m, 7);
    lemma_ray_relevant(r, f, -1, -1, occ, m, 7);
    lemma_ray_relevant(r, f, 1, -1, occ, m, 7);
    lemma_ray_relevant(r, f, -1, 1, occ, m, 7);
}

} // verus!
