//! The numbers the evaluation and the ordering of moves work with.

use vstd::prelude::*;

verus! {

/// The score of a move that is the most recent killer move of its ply.
pub const FIRST_KILLER_SCORE: u64 = 9000;

/// The score of a move that is the second killer move of its ply.
pub const SECOND_KILLER_SCORE: u64 = 8000;

/// The score of a capture: ten thousand for each step of the victim's kind
/// from pawn up, and on top of it the more the lesser the attacker's kind.
/// Both pieces are given by their places among the slots.
pub open spec fn mmv_lva_score(attacker: int, victim: int) -> int {
    (victim % 6 + 1) * 10000 + (5 - attacker % 6)
}

/// The score of the capture of the piece at place `victim` by the piece at
/// place `attacker`.
pub fn mmv_lva(attacker: usize, victim: usize) -> (r: u64)
    ensures
        r == mmv_lva_score(attacker as int, victim as int),
        10000 <= r <= 60005,
{
    ((victim % 6 + 1) * 10000 + (5 - attacker % 6)) as u64
}

/// The bound that stands for "better than any score" in the search.
pub const INFINITY_SCORE: isize = 1000000;

/// The score of being mated, before the depth left is taken off it.
pub const MATE_SCORE: isize = 50000;

/// The depth beyond which the search does not go.
pub const MAX_DEPTH: isize = 64;

/// How many captures in a row the search for a quiet position follows.
pub const QUIET_PLIES: usize = 64;

/// The material worth of each kind of piece.
pub const PAWN_SCORE: isize = 100;

pub const KNIGHT_SCORE: isize = 300;

pub const BISHOP_SCORE: isize = 350;

pub const ROOK_SCORE: isize = 500;

pub const QUEEN_SCORE: isize = 1000;

/// What a white pawn is worth on each square beyond its material, first rank first.
pub const PAWN_SQUARE_SCORE: [isize; 64] = [
    0, 0, 0, 0, 0, 0, 0, 0,
    0, 0, 0, -10, -10, 0, 0, 0,
    0, 0, 0, 5, 5, 0, 0, 0,
    5, 5, 10, 20, 20, 5, 5, 5,
    10, 10, 10, 20, 20, 10, 10, 10,
    20, 20, 20, 30, 30, 30, 20, 20,
    30, 30, 30, 40, 40, 30, 30, 30,
    90, 90, 90, 90, 90, 90, 90, 90,
];

/// What a white knight is worth on each square beyond its material.
pub const KNIGHT_SQUARE_SCORE: [isize; 64] = [
    -5, -10, 0, 0, 0, 0, -10, -5,
    -5, 0, 0, 0, 0, 0, 0, -5,
    -5, 5, 20, 10, 10, 20, 5, -5,
    -5, 10, 20, 30, 30, 20, 10, -5,
    -5, 10, 20, 30, 30, 20, 10, -5,
    -5, 5, 20, 20, 20, 20, 5, -5,
    -5, 0, 0, 10, 10, 0, 0, -5,
    -5, 0, 0, 0, 0, 0, 0, -5,
];

/// What a white bishop is worth on each square beyond its material.
pub const BISHOP_SQUARE_SCORE: [isize; 64] = [
    0, 0, -10, 0, 0, -10, 0, 0,
    0, 30, 0, 0, 0, 0, 30, 0,
    0, 10, 0, 0, 0, 0, 10, 0,
    0, 0, 10, 20, 20, 10, 0, 0,
    0, 0, 10, 20, 20, 10, 0, 0,
    0, 0, 0, 10, 10, 0, 0, 0,
    0, 0, 0, 0, 0, 0, 0, 0,
    0, 0, 0, 0, 0, 0, 0, 0,
];

/// What a white rook is worth on each square beyond its material.
pub const ROOK_SQUARE_SCORE: [isize; 64] = [
    0, 0, 0, 20, 20, 0, 0, 0,
    0, 0, 10, 20, 20, 10, 0, 0,
    0, 0, 10, 20, 20, 10, 0, 0,
    0, 0, 10, 20, 20, 10, 0, 0,
    0, 0, 10, 20, 20, 10, 0, 0,
    0, 0, 10, 20, 20, 10, 0, 0,
    50, 50, 50, 50, 50, 50, 50, 50,
    50, 50, 50, 50, 50, 50, 50, 50,
];

/// What the white king is worth on each square.
pub const KING_SQUARE_SCORE: [isize; 64] = [
    0, 0, 5, 0, -15, 0, 10, 0,
    0, 5, 5, -5, -5, 0, 5, 0,
    0, 0, 5, 10, 10, 5, 0, 0,
    0, 5, 10, 20, 20, 10, 5, 0,
    0, 5, 10, 20, 20, 10, 5, 0,
    0, 5, 5, 10, 10, 5, 5, 0,
    0, 0, 5, 5, 5, 5, 0, 0,
    0, 0, 0, 0, 0, 0, 0, 0,
];

/// What a white piece of kind `kind` (0 pawn to 5 king) is worth on `s`:
/// its material and what its square adds. The queen has only material, the
/// king only its square.
pub open spec fn piece_value(kind: int, s: int) -> int {
    if kind == 0 {
        PAWN_SCORE + PAWN_SQUARE_SCORE[s]
    } else if kind == 1 {
        KNIGHT_SCORE + KNIGHT_SQUARE_SCORE[s]
    } else if kind == 2 {
        BISHOP_SCORE + BISHOP_SQUARE_SCORE[s]
    } else if kind == 3 {
        ROOK_SCORE + ROOK_SQUARE_SCORE[s]
    } else if kind == 4 {
        QUEEN_SCORE as int
    } else {
        KING_SQUARE_SCORE[s] as int
    }
}

/// What a white piece of kind `kind` is worth on the square with index
/// `square`.
pub fn value_of_piece(kind: usize, square: u8) -> (r: isize)
    requires
        square < 64,
    ensures
        r == piece_value(kind as int, square as int),
        -1100 <= r <= 1100,
{
    let s = square as usize;
    proof {
        lemma_square_scores(square as int);
    }
    if kind == 0 {
        PAWN_SCORE + PAWN_SQUARE_SCORE[s]
    } else if kind == 1 {
        KNIGHT_SCORE + KNIGHT_SQUARE_SCORE[s]
    } else if kind == 2 {
        BISHOP_SCORE + BISHOP_SQUARE_SCORE[s]
    } else if kind == 3 {
        ROOK_SCORE + ROOK_SQUARE_SCORE[s]
    } else if kind == 4 {
        QUEEN_SCORE
    } else {
        KING_SQUARE_SCORE[s]
    }
}

/// No square adds or takes more than a hundred.
pub proof fn lemma_square_scores(s: int)
    requires
        0 <= s < 64,
    ensures
        -100 <= PAWN_SQUARE_SCORE[s] <= 100,
        -100 <= KNIGHT_SQUARE_SCORE[s] <= 100,
        -100 <= BISHOP_SQUARE_SCORE[s] <= 100,
        -100 <= ROOK_SQUARE_SCORE[s] <= 100,
        -100 <= KING_SQUARE_SCORE[s] <= 100,
{
    let r = s / 8;
    let f = s % 8;
    assert(s == 8 * r + f);
    if r == 0 {
    } else if r == 1 {
    } else if r == 2 {
    } else if r == 3 {
    } else if r == 4 {
    } else if r == 5 {
    } else if r == 6 {
    } else {
    }
}

} // verus!
