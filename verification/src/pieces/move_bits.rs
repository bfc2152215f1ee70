//! The fixed-width encoding of a move: which bits hold which field, and
//! what writing one field does to the others.

use vstd::prelude::*;

verus! {

/// Bits 0 to 5: the source square.
pub open spec fn source_bits(x: u64) -> u64 {
    x & 0x3f
}

/// Bits 6 to 11: the target square.
pub open spec fn target_bits(x: u64) -> u64 {
    (x & 0xfc0) >> 6
}

/// Bits 12 to 15: the moving piece.
pub open spec fn piece_bits(x: u64) -> u64 {
    (x & 0xf000) >> 12
}

/// Bits 16 to 19: the piece a pawn is promoted to; zero for none.
pub open spec fn promoted_bits(x: u64) -> u64 {
    (x & 0xf0000) >> 16
}

/// Bit 20: the move takes a piece.
pub open spec fn capture_bit(x: u64) -> bool {
    x & 0x100000 != 0
}

/// Bit 21: the move is a pawn's push of two squares.
pub open spec fn double_bit(x: u64) -> bool {
    x & 0x200000 != 0
}

/// Bit 22: the move takes a pawn in passing.
pub open spec fn enpassant_bit(x: u64) -> bool {
    x & 0x400000 != 0
}

/// Bit 23: the move castles.
pub open spec fn castling_bit(x: u64) -> bool {
    x & 0x800000 != 0
}

/// Bits 24 to 39: the ordering score.
pub open spec fn score_bits(x: u64) -> u64 {
    (x >> 24) & 0xffff
}

/// Everything but the score: what makes two moves the same move.
pub open spec fn identity_bits(x: u64) -> u64 {
    x & 0xffffff
}

pub const CAPTURE_FLAG: u64 = 0x100000;

pub const DOUBLE_FLAG: u64 = 0x200000;

pub const ENPASSANT_FLAG: u64 = 0x400000;

pub const CASTLING_FLAG: u64 = 0x800000;

/// The encoding of a move of piece `p` from `s` to `t`, with no promotion,
/// no flag and no score.
pub open spec fn new_bits(s: u64, t: u64, p: u64) -> u64 {
    s | (t << 6) | (p << 12)
}

/// `x` with the promoted piece `q` in place of what stood there.
pub open spec fn with_promoted(x: u64, q: u64) -> u64 {
    (x & !0xf0000u64) | (q << 16)
}

/// `x` with the flag `flag` set.
pub open spec fn with_flag(x: u64, flag: u64) -> u64 {
    x | flag
}

/// `x` with the score `score` in place of what stood there.
pub open spec fn with_score(x: u64, score: u64) -> u64 {
    (x & 0xffffff) | (score << 24)
}

/// Two encodings agree in every field but, possibly, the score.
pub open spec fn same_fields(x: u64, y: u64) -> bool {
    &&& source_bits(x) == source_bits(y)
    &&& target_bits(x) == target_bits(y)
    &&& piece_bits(x) == piece_bits(y)
    &&& promoted_bits(x) == promoted_bits(y)
    &&& capture_bit(x) == capture_bit(y)
    &&& double_bit(x) == double_bit(y)
    &&& enpassant_bit(x) == enpassant_bit(y)
    &&& castling_bit(x) == castling_bit(y)
}

/// The fields of a freshly encoded move.
pub proof fn lemma_new_bits(s: u64, t: u64, p: u64)
    by (bit_vector)
    requires
        s < 64,
        t < 64,
        p < 16,
    ensures
        source_bits(new_bits(s, t, p)) == s,
        target_bits(new_bits(s, t, p)) == t,
        piece_bits(new_bits(s, t, p)) == p,
        promoted_bits(new_bits(s, t, p)) == 0,
        !capture_bit(new_bits(s, t, p)),
        !double_bit(new_bits(s, t, p)),
        !enpassant_bit(new_bits(s, t, p)),
        !castling_bit(new_bits(s, t, p)),
        score_bits(new_bits(s, t, p)) == 0,
{
}

/// Writing the promoted piece changes no other field.
pub proof fn lemma_with_promoted(x: u64, q: u64)
    by (bit_vector)
    requires
        q < 16,
    ensures
        source_bits(with_promoted(x, q)) == source_bits(x),
        target_bits(with_promoted(x, q)) == target_bits(x),
        piece_bits(with_promoted(x, q)) == piece_bits(x),
        promoted_bits(with_promoted(x, q)) == q,
        capture_bit(with_promoted(x, q)) == capture_bit(x),
        double_bit(with_promoted(x, q)) == double_bit(x),
        enpassant_bit(with_promoted(x, q)) == enpassant_bit(x),
        castling_bit(with_promoted(x, q)) == castling_bit(x),
        score_bits(with_promoted(x, q)) == score_bits(x),
{
}

/// Setting a flag changes no other field.
pub proof fn lemma_with_flag(x: u64, f: u64)
    by (bit_vector)
    requires
        f == 0x100000 || f == 0x200000 || f == 0x400000 || f == 0x800000,
    ensures
        source_bits(with_flag(x, f)) == source_bits(x),
        target_bits(with_flag(x, f)) == target_bits(x),
        piece_bits(with_flag(x, f)) == piece_bits(x),
        promoted_bits(with_flag(x, f)) == promoted_bits(x),
        capture_bit(with_flag(x, f)) == (capture_bit(x) || f == 0x100000),
        double_bit(with_flag(x, f)) == (double_bit(x) || f == 0x200000),
        enpassant_bit(with_flag(x, f)) == (enpassant_bit(x) || f == 0x400000),
        castling_bit(with_flag(x, f)) == (castling_bit(x) || f == 0x800000),
        score_bits(with_flag(x, f)) == score_bits(x),
{
}

/// Writing the score changes no other field.
pub proof fn lemma_with_score(x: u64, c: u64)
    by (bit_vector)
    requires
        c <= 0xffff,
    ensures
        same_fields(with_score(x, c), x),
        score_bits(with_score(x, c)) == c,
        identity_bits(with_score(x, c)) == identity_bits(x),
{
}

/// A move encoded from squares, pieces and flags holds no score: its bits
/// are those that tell which move it is.
pub proof fn lemma_unscored(s: u64, t: u64, p: u64, q: u64, f: u64, g: u64)
    by (bit_vector)
    requires
        s < 64,
        t < 64,
        p < 16,
        q < 16,
        f <= 0xffffff,
        g <= 0xffffff,
    ensures
        identity_bits(new_bits(s, t, p)) == new_bits(s, t, p),
        identity_bits(with_flag(new_bits(s, t, p), f)) == with_flag(new_bits(s, t, p), f),
        identity_bits(with_flag(with_flag(new_bits(s, t, p), f), g)) == with_flag(
            with_flag(new_bits(s, t, p), f),
            g,
        ),
        identity_bits(with_promoted(new_bits(s, t, p), q)) == with_promoted(new_bits(s, t, p), q),
        identity_bits(with_flag(with_promoted(new_bits(s, t, p), q), f)) == with_flag(
            with_promoted(new_bits(s, t, p), q),
            f,
        ),
{
}

/// The range of each field.
pub proof fn lemma_field_bounds(x: u64)
    by (bit_vector)
    ensures
        source_bits(x) < 64,
        target_bits(x) < 64,
        piece_bits(x) < 16,
        promoted_bits(x) < 16,
        score_bits(x) <= 0xffff,
{
}

/// Two encodings are the same move exactly when they agree in every field
/// but the score.
pub proof fn lemma_identity(x: u64, y: u64)
    by (bit_vector)
    ensures
        identity_bits(x) == identity_bits(y) <==> same_fields(x, y),
{
}

} // verus!
