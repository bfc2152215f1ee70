//! What the rays mean on the board: a slider attacks the squares on its
//! lines up to the first piece in its way, and so one square sees another
//! exactly when the other sees it.

use vstd::prelude::*;
use crate::bits::{group_bits, isset};
use crate::board_components::{file_of, on_board, rank_of, square_at};
use crate::pieces::bishop::bishop_attacks;
use crate::pieces::helper_functions::{ray, unit_step};
use crate::pieces::queen::queen_attacks;
use crate::pieces::rook::rook_attacks;

verus! {

/// The squares from one to `k - 1` steps away from rank `r`, file `f`
/// along `(dr, df)` are free of the pieces of `occ`.
pub open spec fn clear_way(r: int, f: int, dr: int, df: int, occ: u64, k: int) -> bool {
    forall|j: int| 1 <= j < k ==> !isset(occ, #[trigger] square_at(r + j * dr, f + j * df))
}

/// The square `k` steps along the ray is on it, where it is on the board,
/// within reach, and the way to it is clear.
pub proof fn lemma_ray_hit(r: int, f: int, dr: int, df: int, occ: u64, n: nat, k: int)
    requires
        on_board(r, f),
        unit_step(dr, df),
        1 <= k <= n,
        on_board(r + k * dr, f + k * df),
        clear_way(r, f, dr, df, occ, k),
    ensures
        isset(ray(r, f, dr, df, occ, n), square_at(r + k * dr, f + k * df)),
    decreases n,
{
    broadcast use group_bits;

    lemma_steps(r, f, dr, df, k);
    let u = square_at(r + dr, f + df);
    if k > 1 {
        assert(square_at(r + 1 * dr, f + 1 * df) == u);
        assert(!isset(occ, u));
        assert(clear_way(r + dr, f + df, dr, df, occ, k - 1)) by {
            assert forall|j: int| 1 <= j < k - 1 implies !isset(
                occ,
                #[trigger] square_at(r + dr + j * dr, f + df + j * df),
            ) by {
                lemma_step_shift(r, f, dr, df, j);
                assert(!isset(occ, square_at(r + (j + 1) * dr, f + (j + 1) * df)));
            }
        }
        lemma_step_shift(r, f, dr, df, k - 1);
        lemma_ray_hit(r + dr, f + df, dr, df, occ, (n - 1) as nat, k - 1);
    }
}

/// Going `j` steps from the next square is going `j + 1` steps from this
/// one.
pub proof fn lemma_step_shift(r: int, f: int, dr: int, df: int, j: int)
    ensures
        r + dr + j * dr == r + (j + 1) * dr,
        f + df + j * df == f + (j + 1) * df,
{
    assert(dr + j * dr == (j + 1) * dr) by (nonlinear_arith);
    assert(df + j * df == (j + 1) * df) by (nonlinear_arith);
}

/// Where a square some steps along a line is on the board, so are the
/// squares before it; and a whole number of steps and zero steps are what
/// they should be.
pub proof fn lemma_steps(r: int, f: int, dr: int, df: int, k: int)
    requires
        on_board(r, f),
        unit_step(dr, df),
        1 <= k,
        on_board(r + k * dr, f + k * df),
    ensures
        on_board(r + dr, f + df),
        1 * dr == dr,
        1 * df == df,
        forall|j: int| 0 <= j <= k ==> on_board(r + #[trigger] (j * dr), f + j * df),
{
    assert forall|j: int| 0 <= j <= k implies on_board(r + #[trigger] (j * dr), f + j * df) by {
        lemma_step_between(r, dr, j, k);
        lemma_step_between(f, df, j, k);
    }
    assert(on_board(r + 1 * dr, f + 1 * df));
}

/// A coordinate between the start and the end of a walk lies between
/// theirs.
pub proof fn lemma_step_between(r: int, dr: int, j: int, k: int)
    requires
        0 <= r < 8,
        -1 <= dr <= 1,
        0 <= j <= k,
        0 <= r + k * dr < 8,
    ensures
        0 <= r + j * dr < 8,
{
    if dr == 1 {
        assert(j * dr == j && k * dr == k) by (nonlinear_arith)
            requires
                dr == 1,
        ;
    } else if dr == 0 {
        assert(j * dr == 0 && k * dr == 0) by (nonlinear_arith)
            requires
                dr == 0,
        ;
    } else {
        assert(j * dr == -j && k * dr == -k) by (nonlinear_arith)
            requires
                dr == -1,
        ;
    }
}

/// A square of a ray lies some steps along it, within reach, with the way
/// to it clear.
pub proof fn lemma_ray_distance(r: int, f: int, dr: int, df: int, occ: u64, n: nat, t: int) -> (k:
    int)
    requires
        on_board(r, f),
        unit_step(dr, df),
        isset(ray(r, f, dr, df, occ, n), t),
    ensures
        1 <= k <= n,
        on_board(r + k * dr, f + k * df),
        t == square_at(r + k * dr, f + k * df),
        clear_way(r, f, dr, df, occ, k),
    decreases n,
{
    broadcast use group_bits;

    let u = square_at(r + dr, f + df);
    assert(1 * dr == dr && 1 * df == df);
    if t == u {
        1
    } else {
        let k = lemma_ray_distance(r + dr, f + df, dr, df, occ, (n - 1) as nat, t);
        lemma_step_shift(r, f, dr, df, k);
        assert(clear_way(r, f, dr, df, occ, k + 1)) by {
            assert forall|j: int| 1 <= j < k + 1 implies !isset(
                occ,
                #[trigger] square_at(r + j * dr, f + j * df),
            ) by {
                if j > 1 {
                    lemma_step_shift(r, f, dr, df, j - 1);
                    assert(!isset(occ, square_at(r + dr + (j - 1) * dr, f + df + (j - 1) * df)));
                }
            }
        }
        k + 1
    }
}

/// The square `x` lies on the line from `s` to `t`, strictly between
/// them, the line being a rank, a file or a diagonal.
pub open spec fn between(s: int, t: int, x: int) -> bool {
    let (sr, sf) = (rank_of(s), file_of(s));
    let (tr, tf) = (rank_of(t), file_of(t));
    let (xr, xf) = (rank_of(x), file_of(x));
    &&& 0 <= x < 64
    &&& x != s
    &&& x != t
    &&& (sr <= xr <= tr || tr <= xr <= sr)
    &&& (sf <= xf <= tf || tf <= xf <= sf)
    &&& {
        ||| sr == tr && xr == sr
        ||| sf == tf && xf == sf
        ||| tr - sr == tf - sf && xr - sr == xf - sf
        ||| tr - sr == sf - tf && xr - sr == sf - xf
    }
}

/// No piece of `occ` stands strictly between `s` and `t`.
pub open spec fn open_line(s: int, t: int, occ: u64) -> bool {
    forall|x: int| #[trigger] between(s, t, x) ==> !isset(occ, x)
}

/// `t` is on a rank or file of `s`, another square than `s`.
pub open spec fn straight(s: int, t: int) -> bool {
    &&& 0 <= s < 64
    &&& 0 <= t < 64
    &&& s != t
    &&& (rank_of(s) == rank_of(t) || file_of(s) == file_of(t))
}

/// `t` is on a diagonal of `s`, another square than `s`.
pub open spec fn diagonal(s: int, t: int) -> bool {
    &&& 0 <= s < 64
    &&& 0 <= t < 64
    &&& s != t
    &&& (rank_of(t) - rank_of(s) == file_of(t) - file_of(s) || rank_of(t) - rank_of(s) == file_of(
        s,
    ) - file_of(t))
}

/// The step of one square from `a` towards `b` along one coordinate.
pub open spec fn toward(a: int, b: int) -> int {
    if b > a {
        1
    } else if b < a {
        -1
    } else {
        0
    }
}

/// A square strictly between two squares of a line lies some steps along
/// the line, fewer than the far one.
pub proof fn lemma_between_index(s: int, t: int, x: int, dr: int, df: int, k: int) -> (j: int)
    requires
        0 <= s < 64,
        0 <= t < 64,
        unit_step(dr, df),
        dr != 0 || df != 0,
        k >= 1,
        rank_of(t) == rank_of(s) + k * dr,
        file_of(t) == file_of(s) + k * df,
        between(s, t, x),
    ensures
        1 <= j < k,
        x == square_at(rank_of(s) + j * dr, file_of(s) + j * df),
{
    let (r, f) = (rank_of(s), file_of(s));
    let (xr, xf) = (rank_of(x), file_of(x));
    lemma_unit_times(dr, k);
    lemma_unit_times(df, k);
    let j = if dr == 1 {
        xr - r
    } else if dr == -1 {
        r - xr
    } else if df == 1 {
        xf - f
    } else {
        f - xf
    };
    lemma_unit_times(dr, j);
    lemma_unit_times(df, j);
    assert(x == 8 * xr + xf);
    assert(s == 8 * r + f);
    assert(t == 8 * rank_of(t) + file_of(t));
    j
}

/// The square some steps along a line, fewer than a far square of the
/// line, lies strictly between the start and the far square.
pub proof fn lemma_index_between(s: int, t: int, dr: int, df: int, k: int, j: int)
    requires
        0 <= s < 64,
        0 <= t < 64,
        unit_step(dr, df),
        dr != 0 || df != 0,
        rank_of(t) == rank_of(s) + k * dr,
        file_of(t) == file_of(s) + k * df,
        1 <= j < k,
    ensures
        between(s, t, square_at(rank_of(s) + j * dr, file_of(s) + j * df)),
{
    let (r, f) = (rank_of(s), file_of(s));
    lemma_unit_times(dr, k);
    lemma_unit_times(df, k);
    lemma_unit_times(dr, j);
    lemma_unit_times(df, j);
    let x = square_at(r + j * dr, f + j * df);
    assert(0 <= r + j * dr < 8 && 0 <= f + j * df < 8);
    assert(rank_of(x) == r + j * dr && file_of(x) == f + j * df);
    assert(s == 8 * r + f);
    assert(t == 8 * rank_of(t) + file_of(t));
}

/// A square of a ray lies along it with an open line to it.
pub proof fn lemma_ray_then_line(s: int, dr: int, df: int, occ: u64, t: int)
    requires
        0 <= s < 64,
        0 <= t < 64,
        unit_step(dr, df),
        dr != 0 || df != 0,
        isset(ray(rank_of(s), file_of(s), dr, df, occ, 7), t),
    ensures
        straight(s, t) || diagonal(s, t),
        dr == 0 || df == 0 ==> straight(s, t),
        dr != 0 && df != 0 ==> diagonal(s, t),
        toward(rank_of(s), rank_of(t)) == dr,
        toward(file_of(s), file_of(t)) == df,
        open_line(s, t, occ),
{
    let (r, f) = (rank_of(s), file_of(s));
    let k = lemma_ray_distance(r, f, dr, df, occ, 7, t);
    lemma_unit_times(dr, k);
    lemma_unit_times(df, k);
    assert(rank_of(t) == r + k * dr && file_of(t) == f + k * df);
    assert(s == 8 * r + f);
    assert forall|x: int| #[trigger] between(s, t, x) implies !isset(occ, x) by {
        let j = lemma_between_index(s, t, x, dr, df, k);
        assert(!isset(occ, square_at(r + j * dr, f + j * df)));
    }
}

/// A square that lies along a ray with an open line to it is a square of
/// the ray.
pub proof fn lemma_line_then_ray(s: int, dr: int, df: int, occ: u64, t: int)
    requires
        0 <= s < 64,
        0 <= t < 64,
        unit_step(dr, df),
        dr != 0 || df != 0,
        straight(s, t) || diagonal(s, t),
        toward(rank_of(s), rank_of(t)) == dr,
        toward(file_of(s), file_of(t)) == df,
        open_line(s, t, occ),
    ensures
        isset(ray(rank_of(s), file_of(s), dr, df, occ, 7), t),
{
    let (r, f) = (rank_of(s), file_of(s));
    let (tr, tf) = (rank_of(t), file_of(t));
    let k = if dr == 1 {
        tr - r
    } else if dr == -1 {
        r - tr
    } else if df == 1 {
        tf - f
    } else {
        f - tf
    };
    lemma_unit_times(dr, k);
    lemma_unit_times(df, k);
    assert(1 <= k <= 7);
    assert(tr == r + k * dr && tf == f + k * df);
    assert(t == 8 * tr + tf);
    assert(clear_way(r, f, dr, df, occ, k)) by {
        assert forall|j: int| 1 <= j < k implies !isset(
            occ,
            #[trigger] square_at(r + j * dr, f + j * df),
        ) by {
            lemma_index_between(s, t, dr, df, k, j);
        }
    }
    lemma_ray_hit(r, f, dr, df, occ, 7, k);
}

/// A ray holds a square exactly when the square lies along it with an open
/// line to it.
pub proof fn lemma_ray_sees(s: int, dr: int, df: int, occ: u64, t: int)
    requires
        0 <= s < 64,
        0 <= t < 64,
        unit_step(dr, df),
        dr != 0 || df != 0,
    ensures
        isset(ray(rank_of(s), file_of(s), dr, df, occ, 7), t) <==> {
            &&& (straight(s, t) || diagonal(s, t))
            &&& toward(rank_of(s), rank_of(t)) == dr
            &&& toward(file_of(s), file_of(t)) == df
            &&& open_line(s, t, occ)
        },
{
    if isset(ray(rank_of(s), file_of(s), dr, df, occ, 7), t) {
        lemma_ray_then_line(s, dr, df, occ, t);
    }
    if (straight(s, t) || diagonal(s, t)) && toward(rank_of(s), rank_of(t)) == dr && toward(
        file_of(s),
        file_of(t),
    ) == df && open_line(s, t, occ) {
        lemma_line_then_ray(s, dr, df, occ, t);
    }
}

/// A number times a step of one at most.
pub proof fn lemma_unit_times(d: int, k: int)
    requires
        -1 <= d <= 1,
    ensures
        d == 1 ==> k * d == k && d * k == k,
        d == 0 ==> k * d == 0 && d * k == 0,
        d == -1 ==> k * d == -k && d * k == -k,
{
    assert(d == 1 ==> k * d == k && d * k == k) by (nonlinear_arith);
    assert(d == 0 ==> k * d == 0 && d * k == 0) by (nonlinear_arith);
    assert(d == -1 ==> k * d == -k && d * k == -k) by (nonlinear_arith);
}

/// A rook attacks the squares of its rank and file to which the line is
/// open.
pub proof fn lemma_rook_sees(s: int, occ: u64, t: int)
    requires
        0 <= s < 64,
        0 <= t < 64,
    ensures
        isset(rook_attacks(s, occ), t) <==> straight(s, t) && open_line(s, t, occ),
{
    broadcast use group_bits;

    lemma_ray_sees(s, 0, 1, occ, t);
    lemma_ray_sees(s, 0, -1, occ, t);
    lemma_ray_sees(s, 1, 0, occ, t);
    lemma_ray_sees(s, -1, 0, occ, t);
}

/// A bishop attacks the squares of its diagonals to which the line is
/// open.
pub proof fn lemma_bishop_sees(s: int, occ: u64, t: int)
    requires
        0 <= s < 64,
        0 <= t < 64,
    ensures
        isset(bishop_attacks(s, occ), t) <==> diagonal(s, t) && open_line(s, t, occ),
{
    broadcast use group_bits;

    lemma_ray_sees(s, 1, 1, occ, t);
    lemma_ray_sees(s, -1, -1, occ, t);
    lemma_ray_sees(s, 1, -1, occ, t);
    lemma_ray_sees(s, -1, 1, occ, t);
}

/// A queen attacks the squares of its ranks, files and diagonals to which
/// the line is open.
pub proof fn lemma_queen_sees(s: int, occ: u64, t: int)
    requires
        0 <= s < 64,
        0 <= t < 64,
    ensures
        isset(queen_attacks(s, occ), t) <==> (straight(s, t) || diagonal(s, t)) && open_line(
            s,
            t,
            occ,
        ),
{
    broadcast use group_bits;

    lemma_rook_sees(s, occ, t);
    lemma_bishop_sees(s, occ, t);
}

/// The line from one square to another is open exactly when the line back
/// is.
pub proof fn lemma_open_line_back(s: int, t: int, occ: u64)
    ensures
        open_line(s, t, occ) == open_line(t, s, occ),
{
    assert forall|x: int| between(s, t, x) == between(t, s, x) by {}
    if open_line(s, t, occ) {
        assert forall|x: int| #[trigger] between(t, s, x) implies !isset(occ, x) by {
            assert(between(s, t, x));
        }
    }
    if open_line(t, s, occ) {
        assert forall|x: int| #[trigger] between(s, t, x) implies !isset(occ, x) by {
            assert(between(t, s, x));
        }
    }
}

/// A slider on one square attacks another exactly when, standing on the
/// other, it would attack the first.
pub proof fn lemma_sight_mutual(s: int, t: int, occ: u64)
    requires
        0 <= s < 64,
        0 <= t < 64,
    ensures
        isset(rook_attacks(s, occ), t) == isset(rook_attacks(t, occ), s),
        isset(bishop_attacks(s, occ), t) == isset(bishop_attacks(t, occ), s),
{
    lemma_rook_sees(s, occ, t);
    lemma_rook_sees(t, occ, s);
    lemma_bishop_sees(s, occ, t);
    lemma_bishop_sees(t, occ, s);
    lemma_open_line_back(s, t, occ);
}

} // verus!
