//! Bit-level facts about 64-bit masks, stated once so that the rest of the
//! crate can reason about boards as sets of squares.

use vstd::prelude::*;
use vstd::std_specs::bits::{axiom_u64_trailing_zeros, u64_trailing_zeros};

verus! {

/// Bit `s` of `b` is set. Written over `u64` so that the bit-vector solver
/// can unfold it.
pub open spec fn bit(b: u64, s: u64) -> bool {
    s < 64 && (b >> s) & 1 == 1
}

/// Square `s` belongs to the mask `b`.
pub open spec fn isset(b: u64, s: int) -> bool {
    0 <= s < 64 && bit(b, s as u64)
}

/// The set of squares of a mask.
pub open spec fn squares(b: u64) -> Set<int> {
    Set::new(|s: int| isset(b, s))
}

/// The mask with the single square `s`, or the empty mask when `s` is off
/// the board.
pub open spec fn single(s: int) -> u64 {
    if 0 <= s < 64 {
        1u64 << (s as u64)
    } else {
        0
    }
}

/// The mask `b` without its lowest square.
pub open spec fn drop_lowest(b: u64) -> u64 {
    if b == 0 {
        0
    } else {
        b & ((b - 1) as u64)
    }
}

/// The lowest square of `b` (64 when `b` is empty).
pub open spec fn lowest(b: u64) -> int {
    u64_trailing_zeros(b) as int
}

/// Number of squares in a mask.
pub open spec fn popcount(b: u64) -> nat
    decreases b,
    via popcount_decreases
{
    if b == 0 {
        0
    } else {
        1 + popcount(drop_lowest(b))
    }
}

/// A mask without its lowest square is a smaller number.
#[via_fn]
proof fn popcount_decreases(b: u64) {
    bv_consts();
}

/// What the bitwise operators do to each bit.
proof fn bv_ops(a: u64, b: u64)
    by (bit_vector)
    ensures
        forall|s: u64| #[trigger] bit(a | b, s) == (bit(a, s) || bit(b, s)),
        forall|s: u64| #[trigger] bit(a & b, s) == (bit(a, s) && bit(b, s)),
        forall|s: u64| #[trigger] bit(a ^ b, s) == (bit(a, s) != bit(b, s)),
        forall|s: u64| s < 64 ==> #[trigger] bit(!a, s) == !bit(a, s),
        a ^ b == 0 ==> a == b,
{
}

/// The bits of the empty mask and of a mask of one square, and that dropping
/// the lowest square makes a mask smaller.
proof fn bv_consts()
    by (bit_vector)
    ensures
        forall|s: u64| !#[trigger] bit(0, s),
        forall|s: u64, t: u64| s < 64 ==> (#[trigger] bit(1u64 << s, t) <==> t == s),
        forall|b: u64| b != 0 ==> #[trigger] (b & ((b - 1) as u64)) < b,
{
}

/// What the shifts do to each bit.
proof fn bv_shifts(a: u64, k: u64)
    by (bit_vector)
    requires
        k < 64,
    ensures
        forall|s: u64| #[trigger] bit(a << k, s) == (k <= s && s < 64 && bit(a, (s - k) as u64)),
        forall|s: u64| #[trigger] bit(a >> k, s) == (s < 64 - k && bit(a, (s + k) as u64)),
{
}

/// Doubling and halving of indices, and the size of what a right shift
/// leaves.
proof fn bv_index()
    by (bit_vector)
    ensures
        forall|x: u64|
            x < 0x4000_0000_0000_0000 ==> #[trigger] ((2 * x) as u64) & 1 == 0 && ((2 * x) as u64)
                >> 1 == x,
        forall|x: u64|
            x < 0x4000_0000_0000_0000 ==> #[trigger] ((2 * x + 1) as u64) & 1 == 1 && ((2 * x
                + 1) as u64) >> 1 == x,
        forall|b: u64| b < 63 ==> #[trigger] (1u64 << ((b + 1) as u64)) == 2 * (1u64 << b),
        forall|x: u64, b: u64| 1 <= b < 64 ==> #[trigger] (x >> ((64 - b) as u64)) < (1u64 << b),
        forall|x: u64| x & 1 == 0 || x & 1 == 1,
        1u64 << 0 == 1,
{
}

/// Dropping the lowest square is flipping its bit.
proof fn bv_lowest(a: u64, t: u64)
    by (bit_vector)
    requires
        t < 64,
        (a >> t) & 1 == 1,
        a << ((64 - t) as u64) == 0,
    ensures
        a & ((a - 1) as u64) == a ^ (1u64 << t),
{
}

/// The squares of `a | b` are those of `a` and those of `b`.
pub broadcast proof fn lemma_isset_or(a: u64, b: u64, s: int)
    ensures
        #[trigger] isset(a | b, s) == (isset(a, s) || isset(b, s)),
{
    bv_ops(a, b);
}

/// The squares of `a & b` are those that `a` and `b` share.
pub broadcast proof fn lemma_isset_and(a: u64, b: u64, s: int)
    ensures
        #[trigger] isset(a & b, s) == (isset(a, s) && isset(b, s)),
{
    bv_ops(a, b);
}

/// The squares of `a ^ b` are those of one of `a` and `b` only.
pub broadcast proof fn lemma_isset_xor(a: u64, b: u64, s: int)
    ensures
        #[trigger] isset(a ^ b, s) == (isset(a, s) != isset(b, s)),
{
    bv_ops(a, b);
}

/// The squares of `!a` are those of the board that `a` lacks.
pub broadcast proof fn lemma_isset_not(a: u64, s: int)
    ensures
        #[trigger] isset(!a, s) == (0 <= s < 64 && !isset(a, s)),
{
    bv_ops(a, a);
}

/// The empty mask has no square.
pub broadcast proof fn lemma_isset_zero(s: int)
    ensures
        !#[trigger] isset(0, s),
{
    bv_consts();
}

/// The mask of one square has that square and no other.
pub broadcast proof fn lemma_isset_single(s: int, t: int)
    ensures
        #[trigger] isset(single(s), t) == (0 <= s < 64 && t == s),
{
    bv_consts();
    if 0 <= s < 64 && 0 <= t < 64 {
        assert(bit(1u64 << (s as u64), t as u64) <==> t as u64 == s as u64);
    }
}

/// A left shift moves every square up by the shift.
pub broadcast proof fn lemma_isset_shl(a: u64, k: u64, s: int)
    requires
        k < 64,
    ensures
        #[trigger] isset(a << k, s) == (k <= s < 64 && isset(a, s - k)),
{
    bv_shifts(a, k);
    if 0 <= s < 64 {
        assert(bit(a << k, s as u64) == (k <= s as u64 && (s as u64) < 64 && bit(
            a,
            (s as u64 - k) as u64,
        )));
    }
}

/// A right shift moves every square down by the shift.
pub broadcast proof fn lemma_isset_shr(a: u64, k: u64, s: int)
    requires
        k < 64,
    ensures
        #[trigger] isset(a >> k, s) == (0 <= s < 64 - k && isset(a, s + k)),
{
    bv_shifts(a, k);
    if 0 <= s < 64 {
        assert(bit(a >> k, s as u64) == ((s as u64) < 64 - k && bit(a, (s as u64 + k) as u64)));
    }
}

/// Two masks with the same squares are the same mask.
pub proof fn lemma_ext(a: u64, b: u64)
    requires
        forall|s: int| 0 <= s < 64 ==> isset(a, s) == isset(b, s),
    ensures
        a == b,
{
    let d = a ^ b;
    bv_ops(a, b);
    axiom_u64_trailing_zeros(d);
    if d != 0 {
        let t = u64_trailing_zeros(d) as u64;
        assert(bit(a ^ b, t));
        assert(isset(a, t as int) == isset(b, t as int));
        assert(false);
    }
}

/// What the lowest square of a non-empty mask is, and what is left without it.
pub proof fn lemma_lowest(b: u64)
    requires
        b != 0,
    ensures
        0 <= lowest(b) < 64,
        isset(b, lowest(b)),
        forall|s: int| 0 <= s < lowest(b) ==> !isset(b, s),
        drop_lowest(b) == b ^ single(lowest(b)),
        drop_lowest(b) < b,
        forall|s: int| #[trigger] isset(drop_lowest(b), s) == (isset(b, s) && s != lowest(b)),
{
    axiom_u64_trailing_zeros(b);
    let t = u64_trailing_zeros(b) as u64;
    bv_lowest(b, t);
    bv_consts();
    assert(drop_lowest(b) == b & ((b - 1) as u64));
    assert forall|s: int| 0 <= s < lowest(b) implies !isset(b, s) by {
        let j = s as u64;
        assert((b >> j) & 1u64 == 0u64);
    }
    assert forall|s: int| #[trigger] isset(drop_lowest(b), s) == (isset(b, s) && s != lowest(b)) by {
        lemma_isset_xor(b, single(lowest(b)), s);
        lemma_isset_single(lowest(b), s);
    }
}

pub broadcast group group_bits {
    lemma_isset_or,
    lemma_isset_and,
    lemma_isset_xor,
    lemma_isset_not,
    lemma_isset_zero,
    lemma_isset_single,
    lemma_isset_shl,
    lemma_isset_shr,
}

/// Whether the square with index `square` belongs to the mask.
pub fn test_bit(mask: u64, square: u8) -> (r: bool)
    requires
        square < 64,
    ensures
        r == isset(mask, square as int),
{
    (mask >> (square as u64)) & 1 == 1
}

/// A mask is empty exactly when it has no square.
pub proof fn lemma_nonzero(m: u64)
    ensures
        m != 0 <==> exists|t: int| 0 <= t < 64 && isset(m, t),
{
    if m != 0 {
        lemma_lowest(m);
        assert(0 <= lowest(m) < 64 && isset(m, lowest(m)));
    } else {
        bv_consts();
    }
}

/// Two to the power `n`.
pub open spec fn two_pow(n: nat) -> nat
    decreases n,
{
    if n == 0 {
        1
    } else {
        2 * two_pow((n - 1) as nat)
    }
}

/// Powers of two grow with the exponent.
pub proof fn lemma_two_pow_monotonic(a: nat, b: nat)
    requires
        a <= b,
    ensures
        two_pow(a) <= two_pow(b),
        two_pow(a) >= 1,
    decreases b,
{
    if a < b {
        lemma_two_pow_monotonic(a, (b - 1) as nat);
    } else if a > 0 {
        lemma_two_pow_monotonic((a - 1) as nat, (a - 1) as nat);
    }
}

/// A one shifted left by `b` is two to the power `b`.
pub proof fn lemma_shl_two_pow(b: nat)
    requires
        b < 64,
    ensures
        (1u64 << (b as u64)) == two_pow(b),
    decreases b,
{
    bv_index();
    if b > 0 {
        lemma_shl_two_pow((b - 1) as nat);
        let c = (b - 1) as u64;
        assert((1u64 << ((c + 1) as u64)) == 2 * (1u64 << c));
    }
}

/// What is left of a product after the shift that keeps its `b` highest bits
/// is below two to the power `b`.
pub proof fn lemma_high_bits_bound(x: u64, b: nat)
    requires
        1 <= b < 64,
    ensures
        (x >> ((64 - b) as u64)) < two_pow(b),
{
    bv_index();
    lemma_shl_two_pow(b);
    let c = b as u64;
    assert((x >> ((64 - c) as u64)) < (1u64 << c));
}

/// Doubling an index, with or without one added, and what its lowest bit and
/// its other bits then are.
pub proof fn lemma_double(x: u64)
    requires
        x < 0x4000_0000_0000_0000,
    ensures
        ((2 * x) as u64) & 1 == 0,
        ((2 * x) as u64) >> 1 == x,
        ((2 * x + 1) as u64) & 1 == 1,
        ((2 * x + 1) as u64) >> 1 == x,
{
    bv_index();
    assert(((2 * x) as u64) & 1 == 0 && ((2 * x) as u64) >> 1 == x);
    assert(((2 * x + 1) as u64) & 1 == 1 && ((2 * x + 1) as u64) >> 1 == x);
}

/// `|` on masks is associative and commutative, with the empty mask as unit.
pub proof fn lemma_or_laws(a: u64, b: u64, c: u64)
    ensures
        a | (b | c) == (a | b) | c,
        a | b == b | a,
        a | 0 == a,
        0 | a == a,
        a | a == a,
{
    broadcast use group_bits;

    lemma_ext(a | (b | c), (a | b) | c);
    lemma_ext(a | b, b | a);
    lemma_ext(a | 0, a);
    lemma_ext(0 | a, a);
    lemma_ext(a | a, a);
}

/// The squares of a mask are finitely many, and `popcount` counts them.
pub proof fn lemma_popcount(b: u64)
    ensures
        squares(b).finite(),
        squares(b).len() == popcount(b),
        popcount(b) <= 64,
    decreases b,
{
    broadcast use group_bits;

    if b == 0 {
        assert(squares(b) =~= Set::<int>::empty());
    } else {
        lemma_lowest(b);
        let r = drop_lowest(b);
        lemma_popcount(r);
        assert(squares(b) =~= squares(r).insert(lowest(b)));
        vstd::set_lib::lemma_int_range(0, 64);
        assert(squares(b).subset_of(vstd::set_lib::set_int_range(0, 64)));
        vstd::set_lib::lemma_len_subset(squares(b), vstd::set_lib::set_int_range(0, 64));
    }
}

} // verus!
