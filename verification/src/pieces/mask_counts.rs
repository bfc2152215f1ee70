//! How many relevant squares a slider has on each square: as many as lie
//! strictly between it and the edges of the board along its lines.

use vstd::prelude::*;
use crate::bits::{
    group_bits, isset, lemma_or_laws, lemma_popcount, lemma_two_pow_monotonic, popcount, single,
    squares, two_pow,
};
use crate::board_components::{file_of, on_board, rank_of, square_at};
use crate::constants::board_constants::{
    bishop_relevant_count, inner_count, least, rook_relevant_count,
};
use crate::pieces::bishop::bishop_mask;
use crate::pieces::helper_functions::{inner_ray, ray, unit_step};
use crate::pieces::rook::rook_mask;
use crate::pieces::sight::{lemma_ray_distance, lemma_ray_then_line, lemma_unit_times};

verus! {

/// The number of squares of two masks that share no square is the sum of
/// their numbers.
pub proof fn lemma_popcount_disjoint(a: u64, b: u64)
    requires
        forall|x: int| !(isset(a, x) && isset(b, x)),
    ensures
        popcount(a | b) == popcount(a) + popcount(b),
{
    broadcast use group_bits;

    lemma_popcount(a);
    lemma_popcount(b);
    lemma_popcount(a | b);
    assert(squares(a | b) =~= squares(a) + squares(b));
    assert(squares(a).disjoint(squares(b))) by {
        assert forall|x: int| !(squares(a).contains(x) && squares(b).contains(x)) by {}
    }
    vstd::set_lib::lemma_set_disjoint_lens(squares(a), squares(b));
}

/// A mask of one square has one square.
pub proof fn lemma_popcount_single(t: int)
    requires
        0 <= t < 64,
    ensures
        popcount(single(t)) == 1,
{
    broadcast use group_bits;

    lemma_popcount(single(t));
    assert(squares(single(t)) =~= Set::<int>::empty().insert(t));
}

/// The squares of the inner part of a ray are squares of the ray over the
/// empty board.
pub proof fn lemma_inner_in_ray(r: int, f: int, dr: int, df: int, n: nat, x: int)
    requires
        isset(inner_ray(r, f, dr, df, n), x),
    ensures
        isset(ray(r, f, dr, df, 0, n), x),
    decreases n,
{
    broadcast use group_bits;

    if n > 0 && on_board(r + dr, f + df) && on_board(r + 2 * dr, f + 2 * df) {
        if x != square_at(r + dr, f + df) {
            lemma_inner_in_ray(r + dr, f + df, dr, df, (n - 1) as nat, x);
        }
    }
}

/// How many steps lie ahead of a coordinate before the edge of the board,
/// for a step of one at most; seven where the step leaves the coordinate as
/// it is.
pub open spec fn room(c: int, d: int) -> int {
    if d == 1 {
        7 - c
    } else if d == -1 {
        c
    } else {
        7
    }
}

/// The inner part of a ray has as many squares as lie strictly between its
/// start and the edge of the board, or as many as its reach allows.
pub proof fn lemma_inner_ray_count(r: int, f: int, dr: int, df: int, n: nat)
    requires
        on_board(r, f),
        unit_step(dr, df),
        dr != 0 || df != 0,
    ensures
        popcount(inner_ray(r, f, dr, df, n)) == least(
            n as int,
            inner_count(least(room(r, dr), room(f, df))),
        ),
    decreases n,
{
    broadcast use group_bits;

    if n > 0 && on_board(r + dr, f + df) && on_board(r + 2 * dr, f + 2 * df) {
        let t = square_at(r + dr, f + df);
        let rest = inner_ray(r + dr, f + df, dr, df, (n - 1) as nat);
        lemma_inner_ray_count(r + dr, f + df, dr, df, (n - 1) as nat);
        lemma_popcount_single(t);
        assert forall|x: int| !(isset(single(t), x) && isset(rest, x)) by {
            if isset(rest, x) {
                lemma_inner_in_ray(r + dr, f + df, dr, df, (n - 1) as nat, x);
                let k = lemma_ray_distance(r + dr, f + df, dr, df, 0, (n - 1) as nat, x);
                lemma_unit_times(dr, k);
                lemma_unit_times(df, k);
            }
        }
        lemma_popcount_disjoint(single(t), rest);
    } else {
        assert(popcount(0) == 0);
    }
}

/// The inner parts of two rays from one square in different directions
/// share no square.
pub proof fn lemma_inner_rays_apart(s: int, dr: int, df: int, er: int, ef: int)
    requires
        0 <= s < 64,
        unit_step(dr, df),
        unit_step(er, ef),
        dr != 0 || df != 0,
        er != 0 || ef != 0,
        dr != er || df != ef,
    ensures
        forall|x: int|
            !(isset(inner_ray(rank_of(s), file_of(s), dr, df, 7), x) && isset(
                inner_ray(rank_of(s), file_of(s), er, ef, 7),
                x,
            )),
{
    broadcast use group_bits;

    assert forall|x: int|
        !(isset(inner_ray(rank_of(s), file_of(s), dr, df, 7), x) && isset(
            inner_ray(rank_of(s), file_of(s), er, ef, 7),
            x,
        )) by {
        if isset(inner_ray(rank_of(s), file_of(s), dr, df, 7), x) && isset(
            inner_ray(rank_of(s), file_of(s), er, ef, 7),
            x,
        ) {
            lemma_inner_in_ray(rank_of(s), file_of(s), dr, df, 7, x);
            lemma_inner_in_ray(rank_of(s), file_of(s), er, ef, 7, x);
            lemma_ray_then_line(s, dr, df, 0, x);
            lemma_ray_then_line(s, er, ef, 0, x);
        }
    }
}

/// The number of squares of four masks of which no two share a square is
/// the sum of their numbers.
pub proof fn lemma_popcount_four(a: u64, b: u64, c: u64, d: u64)
    requires
        forall|x: int| !(isset(a, x) && isset(b, x)),
        forall|x: int| !(isset(a, x) && isset(c, x)),
        forall|x: int| !(isset(a, x) && isset(d, x)),
        forall|x: int| !(isset(b, x) && isset(c, x)),
        forall|x: int| !(isset(b, x) && isset(d, x)),
        forall|x: int| !(isset(c, x) && isset(d, x)),
    ensures
        popcount(a | b | c | d) == popcount(a) + popcount(b) + popcount(c) + popcount(d),
{
    broadcast use group_bits;

    lemma_popcount_disjoint(a, b);
    lemma_popcount_disjoint(a | b, c);
    lemma_popcount_disjoint(a | b | c, d);
}

/// A rook has as many relevant squares as lie strictly between it and the
/// edges of the board on its rank and file.
pub proof fn lemma_rook_mask_count(s: int)
    requires
        0 <= s < 64,
    ensures
        popcount(rook_mask(s)) == rook_relevant_count(s),
        10 <= popcount(rook_mask(s)) <= 12,
{
    let (r, f) = (rank_of(s), file_of(s));
    lemma_inner_ray_count(r, f, 0, 1, 7);
    lemma_inner_ray_count(r, f, 0, -1, 7);
    lemma_inner_ray_count(r, f, 1, 0, 7);
    lemma_inner_ray_count(r, f, -1, 0, 7);
    lemma_inner_rays_apart(s, 0, 1, 0, -1);
    lemma_inner_rays_apart(s, 0, 1, 1, 0);
    lemma_inner_rays_apart(s, 0, 1, -1, 0);
    lemma_inner_rays_apart(s, 0, -1, 1, 0);
    lemma_inner_rays_apart(s, 0, -1, -1, 0);
    lemma_inner_rays_apart(s, 1, 0, -1, 0);
    lemma_popcount_four(
        inner_ray(r, f, 0, 1, 7),
        inner_ray(r, f, 0, -1, 7),
        inner_ray(r, f, 1, 0, 7),
        inner_ray(r, f, -1, 0, 7),
    );
}

/// A bishop has as many relevant squares as lie strictly between it and
/// the edges of the board on its diagonals.
pub proof fn lemma_bishop_mask_count(s: int)
    requires
        0 <= s < 64,
    ensures
        popcount(bishop_mask(s)) == bishop_relevant_count(s),
        5 <= popcount(bishop_mask(s)) <= 9,
{
    let (r, f) = (rank_of(s), file_of(s));
    lemma_inner_ray_count(r, f, 1, 1, 7);
    lemma_inner_ray_count(r, f, -1, -1, 7);
    lemma_inner_ray_count(r, f, 1, -1, 7);
    lemma_inner_ray_count(r, f, -1, 1, 7);
    lemma_inner_rays_apart(s, 1, 1, -1, -1);
    lemma_inner_rays_apart(s, 1, 1, 1, -1);
    lemma_inner_rays_apart(s, 1, 1, -1, 1);
    lemma_inner_rays_apart(s, -1, -1, 1, -1);
    lemma_inner_rays_apart(s, -1, -1, -1, 1);
    lemma_inner_rays_apart(s, 1, -1, -1, 1);
    lemma_popcount_four(
        inner_ray(r, f, 1, 1, 7),
        inner_ray(r, f, -1, -1, 7),
        inner_ray(r, f, 1, -1, 7),
        inner_ray(r, f, -1, 1, 7),
    );
}

} // verus!
