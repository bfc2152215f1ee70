//! Rays over the board and the enumeration of occupancy subsets: what the
//! slider tables are built from.

use vstd::prelude::*;
use crate::bits::{
    drop_lowest, group_bits, isset, lemma_double, lemma_ext, lemma_lowest, lemma_or_laws,
    lemma_two_pow_monotonic, lowest, popcount, single, two_pow,
};
use crate::board_components::{file_of, on_board, rank_of, square_at, BitBoard, Square};

verus! {

/// The squares seen from rank `r`, file `f` looking along `(dr, df)` for at
/// most `n` steps: each square in turn, up to and including the first
/// occupied one.
pub open spec fn ray(r: int, f: int, dr: int, df: int, occ: u64, n: nat) -> u64
    decreases n,
{
    if n == 0 || !on_board(r + dr, f + df) {
        0
    } else {
        let t = square_at(r + dr, f + df);
        if isset(occ, t) {
            single(t)
        } else {
            single(t) | ray(r + dr, f + df, dr, df, occ, (n - 1) as nat)
        }
    }
}

/// The squares of the ray from `(r, f)` along `(dr, df)` that have a further
/// square of the board behind them: the squares where a blocker changes what
/// is seen.
pub open spec fn inner_ray(r: int, f: int, dr: int, df: int, n: nat) -> u64
    decreases n,
{
    if n == 0 || !on_board(r + dr, f + df) || !on_board(r + 2 * dr, f + 2 * df) {
        0
    } else {
        single(square_at(r + dr, f + df)) | inner_ray(r + dr, f + df, dr, df, (n - 1) as nat)
    }
}

/// A step of one square at most along each axis.
pub open spec fn unit_step(dr: int, df: int) -> bool {
    -1 <= dr <= 1 && -1 <= df <= 1
}

/// Walks one ray over the given blockers.
pub fn ray_attacks(square: Square, dr: i8, df: i8, blockers: BitBoard) -> (r: BitBoard)
    requires
        square.on_board(),
        unit_step(dr as int, df as int),
    ensures
        r.0 == ray(rank_of(square@), file_of(square@), dr as int, df as int, blockers.0, 7),
{
    let mut rank: i8 = (square.0 / 8) as i8;
    let mut file: i8 = (square.0 % 8) as i8;
    let mut attacks: u64 = 0;
    let mut left: u8 = 7;
    let mut blocked: bool = false;
    let ghost total = ray(rank as int, file as int, dr as int, df as int, blockers.0, 7);
    proof {
        lemma_or_laws(total, 0, 0);
    }
    while left > 0 && !blocked
        invariant
            on_board(rank as int, file as int),
            unit_step(dr as int, df as int),
            left <= 7,
            total == attacks | (if blocked {
                0
            } else {
                ray(rank as int, file as int, dr as int, df as int, blockers.0, left as nat)
            }),
        decreases left as int + (if blocked { 0int } else { 1int }),
    {
        let ghost rest = ray(
            rank as int + dr,
            file as int + df,
            dr as int,
            df as int,
            blockers.0,
            (left - 1) as nat,
        );
        proof {
            let t = square_at(rank as int + dr, file as int + df);
            lemma_or_laws(attacks, single(t), rest);
            lemma_or_laws(attacks | single(t), 0, 0);
        }
        let next_rank: i8 = rank + dr;
        let next_file: i8 = file + df;
        if next_rank < 0 || next_rank > 7 || next_file < 0 || next_file > 7 {
            blocked = true;
        } else {
            let target: u8 = (next_rank * 8 + next_file) as u8;
            attacks = attacks | (1u64 << (target as u64));
            if (blockers.0 >> (target as u64)) & 1 == 1 {
                blocked = true;
            } else {
                rank = next_rank;
                file = next_file;
                left = left - 1;
            }
        }
    }
    proof {
        lemma_or_laws(attacks, 0, 0);
    }
    BitBoard(attacks)
}

/// The squares from `square` along one direction up to the edge of the
/// board, the edge included.
pub fn mask_direction(square: Square, dr: i8, df: i8) -> (r: BitBoard)
    requires
        square.on_board(),
        unit_step(dr as int, df as int),
    ensures
        r.0 == ray(rank_of(square@), file_of(square@), dr as int, df as int, 0, 7),
{
    ray_attacks(square, dr, df, BitBoard(0))
}

/// Walks one ray over the empty board and keeps the squares that have a
/// further square behind them.
pub fn ray_mask(square: Square, dr: i8, df: i8) -> (r: BitBoard)
    requires
        square.on_board(),
        unit_step(dr as int, df as int),
    ensures
        r.0 == inner_ray(rank_of(square@), file_of(square@), dr as int, df as int, 7),
{
    let mut rank: i8 = (square.0 / 8) as i8;
    let mut file: i8 = (square.0 % 8) as i8;
    let mut mask: u64 = 0;
    let mut left: u8 = 7;
    let mut done: bool = false;
    let ghost total = inner_ray(rank as int, file as int, dr as int, df as int, 7);
    proof {
        lemma_or_laws(total, 0, 0);
    }
    while left > 0 && !done
        invariant
            on_board(rank as int, file as int),
            unit_step(dr as int, df as int),
            left <= 7,
            total == mask | (if done {
                0
            } else {
                inner_ray(rank as int, file as int, dr as int, df as int, left as nat)
            }),
        decreases left as int + (if done { 0int } else { 1int }),
    {
        let ghost rest = inner_ray(
            rank as int + dr,
            file as int + df,
            dr as int,
            df as int,
            (left - 1) as nat,
        );
        proof {
            let t = square_at(rank as int + dr, file as int + df);
            lemma_or_laws(mask, single(t), rest);
            lemma_or_laws(mask | single(t), 0, 0);
        }
        let next_rank: i8 = rank + dr;
        let next_file: i8 = file + df;
        let after_rank: i8 = next_rank + dr;
        let after_file: i8 = next_file + df;
        if next_rank < 0 || next_rank > 7 || next_file < 0 || next_file > 7 || after_rank < 0
            || after_rank > 7 || after_file < 0 || after_file > 7 {
            done = true;
        } else {
            let target: u8 = (next_rank * 8 + next_file) as u8;
            mask = mask | (1u64 << (target as u64));
            rank = next_rank;
            file = next_file;
            left = left - 1;
        }
    }
    proof {
        lemma_or_laws(mask, 0, 0);
    }
    BitBoard(mask)
}

/// The square `delta` indices away from `s`, as a mask; the empty mask
/// where `s` lies on `edge`.
pub open spec fn guarded(s: int, edge: u64, delta: int) -> u64 {
    if isset(edge, s) {
        0
    } else {
        single(s + delta)
    }
}

/// The square `delta` indices away from `square`, as a mask; the empty mask
/// where `square` lies on `edge`.
pub fn guarded_step(square: Square, edge: u64, delta: i8) -> (r: u64)
    requires
        square.on_board(),
        !isset(edge, square@) ==> 0 <= square@ + delta < 64,
    ensures
        r == guarded(square@, edge, delta as int),
{
    if (edge >> (square.0 as u64)) & 1 == 1 {
        0
    } else {
        let target: u8 = (square.0 as i8 + delta) as u8;
        1u64 << (target as u64)
    }
}

/// Each of four masks lies within their union.
pub proof fn lemma_subset_or(a: u64, b: u64, c: u64, d: u64)
    ensures
        forall|s: int| isset(a, s) ==> isset(a | b | c | d, s),
        forall|s: int| isset(b, s) ==> isset(a | b | c | d, s),
        forall|s: int| isset(c, s) ==> isset(a | b | c | d, s),
        forall|s: int| isset(d, s) ==> isset(a | b | c | d, s),
{
    broadcast use group_bits;

}

/// Blockers outside the inner squares of a ray do not change what is seen
/// along it.
pub proof fn lemma_ray_relevant(r: int, f: int, dr: int, df: int, occ: u64, mask: u64, n: nat)
    requires
        forall|s: int| isset(inner_ray(r, f, dr, df, n), s) ==> isset(mask, s),
    ensures
        ray(r, f, dr, df, occ, n) == ray(r, f, dr, df, occ & mask, n),
    decreases n,
{
    broadcast use group_bits;

    if n == 0 || !on_board(r + dr, f + df) {
    } else {
        let t = square_at(r + dr, f + df);
        if on_board(r + 2 * dr, f + 2 * df) {
            assert(isset(inner_ray(r, f, dr, df, n), t));
            assert forall|s: int|
                isset(inner_ray(r + dr, f + df, dr, df, (n - 1) as nat), s) implies isset(
                mask,
                s,
            ) by {
                assert(isset(inner_ray(r, f, dr, df, n), s));
            }
            lemma_ray_relevant(r + dr, f + df, dr, df, occ, mask, (n - 1) as nat);
        } else {
            assert(ray(r + dr, f + df, dr, df, occ, (n - 1) as nat) == 0);
            assert(ray(r + dr, f + df, dr, df, occ & mask, (n - 1) as nat) == 0);
            lemma_or_laws(single(t), 0, 0);
        }
    }
}

/// The subset of `mask` that `index` selects: bit `i` of `index` decides
/// whether the `i`-th lowest square of `mask` is taken.
pub open spec fn occupancy(mask: u64, index: u64) -> u64
    decreases mask,
    via occupancy_decreases
{
    if mask == 0 {
        0
    } else {
        (if index & 1 == 1 {
            single(lowest(mask))
        } else {
            0
        }) | occupancy(drop_lowest(mask), index >> 1)
    }
}

/// A mask without its lowest square is a smaller number.
#[via_fn]
proof fn occupancy_decreases(mask: u64, index: u64) {
    if mask != 0 {
        lemma_lowest(mask);
    }
}

/// The index that selects the squares of `occ` among those of `mask`.
pub open spec fn index_of(mask: u64, occ: u64) -> nat
    decreases mask,
    via index_of_decreases
{
    if mask == 0 {
        0
    } else {
        (if isset(occ, lowest(mask)) {
            1nat
        } else {
            0nat
        }) + 2 * index_of(drop_lowest(mask), occ)
    }
}

/// A mask without its lowest square is a smaller number.
#[via_fn]
proof fn index_of_decreases(mask: u64, occ: u64) {
    if mask != 0 {
        lemma_lowest(mask);
    }
}

/// The subset of the squares of `bitboard` that `index` selects.
pub fn get_possible_occupancy(bitboard: BitBoard, index: u64) -> (r: BitBoard)
    ensures
        r.0 == occupancy(bitboard.0, index),
{
    let mut occupancy_board: u64 = 0;
    let mut rest = bitboard;
    let mut bits: u64 = index;
    proof {
        lemma_or_laws(occupancy(bitboard.0, index), 0, 0);
    }
    while rest.0 != 0
        invariant
            occupancy(bitboard.0, index) == occupancy_board | occupancy(rest.0, bits),
        decreases rest.0,
    {
        let ghost before = rest.0;
        let ghost tail = occupancy(drop_lowest(before), bits >> 1);
        proof {
            lemma_lowest(before);
            lemma_or_laws(occupancy_board, single(lowest(before)), tail);
            lemma_or_laws(occupancy_board, 0, tail);
            lemma_or_laws(tail, 0, 0);
        }
        let square = rest.pop_square();
        if bits & 1 == 1 {
            occupancy_board = occupancy_board | (1u64 << (square.0 as u64));
        }
        bits = bits >> 1;
    }
    proof {
        lemma_or_laws(occupancy_board, 0, 0);
    }
    BitBoard(occupancy_board)
}

/// Every subset of a mask is selected by an index below two to the power of
/// the mask's size.
pub proof fn lemma_index_of(mask: u64, occ: u64)
    requires
        popcount(mask) <= 62,
    ensures
        index_of(mask, occ) < two_pow(popcount(mask)),
        two_pow(popcount(mask)) <= 0x4000_0000_0000_0000,
        occupancy(mask, index_of(mask, occ) as u64) == occ & mask,
    decreases mask,
{
    broadcast use group_bits;

    lemma_two_pow_62();
    lemma_two_pow_monotonic(popcount(mask), 62);
    if mask == 0 {
        lemma_ext(occ & mask, 0);
    } else {
        lemma_lowest(mask);
        let rest = drop_lowest(mask);
        let low = lowest(mask);
        lemma_index_of(rest, occ);
        lemma_two_pow_monotonic(popcount(rest), 62);
        let sub = index_of(rest, occ) as u64;
        lemma_double(sub);
        let index = index_of(mask, occ) as u64;
        assert(index >> 1 == sub);
        assert(occupancy(rest, index >> 1) == occ & rest);
        lemma_ext(occupancy(mask, index), occ & mask);
    }
}

/// Two to the power 62, written out.
pub proof fn lemma_two_pow_62()
    ensures
        two_pow(62) == 0x4000_0000_0000_0000,
{
    crate::bits::lemma_shl_two_pow(62);
    assert(1u64 << 62 == 0x4000_0000_0000_0000) by (bit_vector);
}

} // verus!
