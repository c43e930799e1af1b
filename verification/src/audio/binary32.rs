//! Single-precision arithmetic, carried out on integers.
//!
//! A sound card may hand over IEEE 754 `binary32` samples, and interpolating
//! between two samples is done at that precision. Everything here computes
//! what that arithmetic gives, to the bit, with the rounding made explicit:
//! every intermediate result is rounded to 24 significant bits, ties to even.

use vstd::arithmetic::div_mod::*;
use vstd::arithmetic::mul::*;
use vstd::arithmetic::power2::*;
use vstd::prelude::*;

verus! {

/// An IEEE 754 `binary32` value, held as its bits.
#[derive(Debug, Clone, Copy, PartialEq, Eq, Structural)]
pub struct Binary32 {
    pub bits: u32,
}

/// The number of bits it takes to write a number down.
pub open spec fn bit_len(n: nat) -> nat
    decreases n,
{
    if n == 0 {
        0
    } else {
        1 + bit_len(n / 2)
    }
}

/// The whole number nearest to `n / unit`, the even one of two as near.
pub open spec fn nearest_even(n: nat, unit: nat) -> nat {
    let floor = n / unit;
    let rest = n % unit;
    if 2 * rest < unit || (2 * rest == unit && floor % 2 == 0) {
        floor
    } else {
        floor + 1
    }
}

/// The whole number nearest to `n / unit`, the larger one of two as near.
pub open spec fn half_away(n: nat, unit: nat) -> nat {
    (2 * n + unit) / (2 * unit)
}

/// The number nearest to `n` with no more than 24 significant bits.
pub open spec fn significant(n: nat) -> nat {
    if bit_len(n) <= 24 {
        n
    } else {
        let unit = pow2((bit_len(n) - 24) as nat);
        nearest_even(n, unit) * unit
    }
}

/// The least scale, from `k` on, at which `a * 2^scale / b` has 24 bits before
/// the point.
pub open spec fn quotient_scale(a: nat, b: nat, k: nat) -> nat
    decreases
            (if a * pow2(k) >= b * pow2(23) {
                0
            } else {
                b * pow2(23) - a * pow2(k)
            }),
{
    if a == 0 || a * pow2(k) >= b * pow2(23) {
        k
    } else {
        proof {
            lemma_pow2_unfold((k + 1) as nat);
            lemma_mul_is_associative(a as int, pow2(k) as int, 2);
            lemma_pow2_pos(k);
            lemma_mul_strictly_positive(a as int, pow2(k) as int);
        }
        quotient_scale(a, b, k + 1)
    }
}

pub open spec fn magnitude(n: int) -> nat {
    if n < 0 {
        (-n) as nat
    } else {
        n as nat
    }
}

/// A signed number of units, rounded to 24 significant bits and from there to
/// the nearest whole number, halves away from zero.
pub open spec fn to_whole(sum: int, unit: nat) -> int {
    let rounded = half_away(significant(magnitude(sum)), unit) as int;
    if sum < 0 { -rounded } else { rounded }
}

/// `before + (after - before) * (quotient / 2^k)`, rounded to the nearest whole
/// number, where the product and the sum are each rounded to 24 significant
/// bits.
pub open spec fn blend(before: int, after: int, quotient: nat, k: nat) -> int {
    let step = significant(magnitude(after - before) * quotient);
    let sum = before * pow2(k) + (if after < before { -step } else { step as int });
    to_whole(sum, pow2(k))
}

/// `before + (after - before) * (fraction / rate)`, rounded to the nearest
/// whole number, halves away from zero, where the two conversions, the
/// quotient, the product and the sum are each rounded to 24 significant bits.
pub open spec fn interpolated(before: int, after: int, fraction: nat, rate: nat) -> int {
    let a = significant(fraction);
    let b = significant(rate);
    let k = quotient_scale(a, b, 23);
    blend(before, after, nearest_even(a * pow2(k), b), k)
}

/// Whether the value is not a number.
pub open spec fn is_nan(value: Binary32) -> bool {
    value.bits % 0x8000_0000 > 0x7f80_0000
}

/// The bits of the value without its sign.
pub open spec fn unsigned_bits(value: Binary32) -> nat {
    (value.bits % 0x8000_0000) as nat
}

/// The exponent `e` of a magnitude below one, which is `m * 2^(e - 150)` for
/// the `m` of [`fraction_of`].
pub open spec fn exponent_of(unsigned: nat) -> nat {
    if unsigned < 0x80_0000 { 1 } else { unsigned / 0x80_0000 }
}

/// The significand `m` of a magnitude: see [`exponent_of`].
pub open spec fn fraction_of(unsigned: nat) -> nat {
    if unsigned < 0x80_0000 { unsigned } else { unsigned % 0x80_0000 + 0x80_0000 }
}

/// The sixteen-bit sample a `binary32` sample stands for: the value clamped to
/// `-1.0..=1.0`, times 32767 (rounded to 24 significant bits), rounded to the
/// nearest whole number, halves away from zero. What is not a number is
/// silence.
pub open spec fn pcm16_of(value: Binary32) -> int {
    let unsigned = unsigned_bits(value);
    if is_nan(value) {
        0
    } else {
        let loudness: int = if unsigned >= 0x3f80_0000 {
            32767
        } else {
            half_away(
                significant(fraction_of(unsigned) * 32767),
                pow2((150 - exponent_of(unsigned)) as nat),
            ) as int
        };
        if value.bits >= 0x8000_0000 { -loudness } else { loudness }
    }
}

/// A number lies between the powers of two that its length names.
proof fn lemma_bit_len(n: nat)
    ensures
        n < pow2(bit_len(n)),
        n > 0 ==> bit_len(n) > 0 && pow2((bit_len(n) - 1) as nat) <= n,
    decreases n,
{
    lemma2_to64();
    if n > 0 {
        let half = n / 2;
        lemma_bit_len(half);
        lemma_pow2_unfold(bit_len(n));
        if half > 0 {
            lemma_pow2_unfold(bit_len(half));
        }
    }
}

/// A number below a power of two is no longer than the power's exponent.
proof fn lemma_bit_len_below(n: nat, k: nat)
    requires
        n < pow2(k),
    ensures
        bit_len(n) <= k,
{
    lemma_bit_len(n);
    if bit_len(n) > k {
        let len = (bit_len(n) - 1) as nat;
        if k < len {
            lemma_pow2_strictly_increases(k, len);
        }
    }
}

/// A longer number is a larger one.
proof fn lemma_bit_len_monotone(a: nat, b: nat)
    requires
        a <= b,
    ensures
        bit_len(a) <= bit_len(b),
{
    lemma_bit_len(b);
    lemma_bit_len_below(a, bit_len(b));
}

/// Rounding to the nearest whole number crosses no whole number.
proof fn lemma_nearest_even_bounds(n: nat, unit: nat, limit: nat)
    requires
        unit > 0,
    ensures
        n <= limit * unit ==> nearest_even(n, unit) <= limit,
        limit * unit <= n ==> limit <= nearest_even(n, unit),
{
    let floor = n / unit;
    lemma_fundamental_div_mod(n as int, unit as int);
    lemma_mod_bound(n as int, unit as int);
    assert(n == floor * unit + n % unit) by {
        lemma_mul_is_commutative(floor as int, unit as int);
    }
    if n <= limit * unit {
        if floor > limit {
            lemma_mul_strict_inequality(limit as int, floor as int, unit as int);
        }
    }
    if limit * unit <= n {
        if floor < limit {
            lemma_mul_inequality((floor + 1) as int, limit as int, unit as int);
            lemma_mul_is_distributive_add_other_way(unit as int, floor as int, 1);
        }
    }
}

/// Rounding to the nearest whole number keeps the order.
proof fn lemma_nearest_even_monotone(a: nat, b: nat, unit: nat)
    requires
        unit > 0,
        a <= b,
    ensures
        nearest_even(a, unit) <= nearest_even(b, unit),
{
    lemma_div_is_ordered(a as int, b as int, unit as int);
    lemma_fundamental_div_mod(a as int, unit as int);
    lemma_fundamental_div_mod(b as int, unit as int);
}

/// A multiple is its own nearest.
proof fn lemma_nearest_even_exact(quotient: nat, unit: nat)
    requires
        unit > 0,
    ensures
        nearest_even(quotient * unit, unit) == quotient,
{
    lemma_div_multiples_vanish(quotient as int, unit as int);
    lemma_mod_multiples_basic(quotient as int, unit as int);
    lemma_mul_is_commutative(quotient as int, unit as int);
}

/// A rounded number has the length of the number, or is the next power of two.
proof fn lemma_significant_bounds(n: nat)
    ensures
        significant(n) <= pow2(bit_len(n)),
        n > 0 ==> bit_len(n) > 0 && pow2((bit_len(n) - 1) as nat) <= significant(n),
{
    lemma_bit_len(n);
    if bit_len(n) > 24 {
        let len = bit_len(n);
        let unit = pow2((len - 24) as nat);
        lemma_pow2_pos((len - 24) as nat);
        lemma_pow2_adds(24, (len - 24) as nat);
        lemma_pow2_adds(23, (len - 24) as nat);
        lemma_nearest_even_bounds(n, unit, pow2(24));
        lemma_nearest_even_bounds(n, unit, pow2(23));
        lemma_mul_inequality(nearest_even(n, unit) as int, pow2(24) as int, unit as int);
        lemma_mul_inequality(pow2(23) as int, nearest_even(n, unit) as int, unit as int);
    }
}

/// Rounding to 24 significant bits keeps the order.
pub proof fn rounding_keeps_the_order(a: nat, b: nat)
    requires
        a <= b,
    ensures
        significant(a) <= significant(b),
{
    lemma_bit_len_monotone(a, b);
    lemma_significant_bounds(a);
    lemma_significant_bounds(b);
    if bit_len(a) < bit_len(b) {
        let len = (bit_len(b) - 1) as nat;
        if bit_len(a) < len {
            lemma_pow2_strictly_increases(bit_len(a), len);
        }
    } else if bit_len(a) > 24 {
        let unit = pow2((bit_len(a) - 24) as nat);
        lemma_pow2_pos((bit_len(a) - 24) as nat);
        lemma_nearest_even_monotone(a, b, unit);
        lemma_mul_inequality(
            nearest_even(a, unit) as int,
            nearest_even(b, unit) as int,
            unit as int,
        );
    }
}

/// The length of a number times a power of two.
proof fn lemma_bit_len_shift(n: nat, k: nat)
    requires
        n > 0,
    ensures
        bit_len(n * pow2(k)) == bit_len(n) + k,
    decreases k,
{
    lemma2_to64();
    if k > 0 {
        let rest = (k - 1) as nat;
        lemma_bit_len_shift(n, rest);
        lemma_pow2_unfold(k);
        lemma_pow2_pos(rest);
        let product = n * pow2(rest);
        lemma_mul_strictly_positive(n as int, pow2(rest) as int);
        lemma_mul_is_associative(n as int, pow2(rest) as int, 2);
        assert(n * pow2(k) == 2 * product);
        assert((2 * product) / 2 == product);
        assert(bit_len((2 * product) as nat) == 1 + bit_len(product));
    } else {
        assert(n * pow2(0) == n);
    }
}

/// A number of no more than 24 bits, times a power of two, needs no rounding.
pub proof fn short_numbers_are_exact(n: nat, k: nat)
    requires
        n <= pow2(24),
    ensures
        significant(n * pow2(k)) == n * pow2(k),
{
    if n == 0 {
        lemma_mul_basics(pow2(k) as int);
    } else if n == pow2(24) {
        // The one number of 25 bits among them is a power of two itself.
        lemma_pow2_adds(24, k);
        lemma_pow2_adds(1, (23 + k) as nat);
        lemma_bit_len_shift(1, (24 + k) as nat);
        lemma2_to64();
        assert(bit_len(1) == 1) by {
            assert(bit_len(0) == 0);
        }
        let whole = n * pow2(k);
        assert(whole == 1 * pow2((24 + k) as nat));
        assert(bit_len(whole) == 25 + k);
        let unit = pow2((k + 1) as nat);
        lemma_pow2_pos((k + 1) as nat);
        lemma_pow2_adds(23, (k + 1) as nat);
        assert(whole == pow2(23) * unit);
        lemma_nearest_even_exact(pow2(23), unit);
    } else {
        lemma_bit_len_shift(n, k);
        lemma_bit_len_below(n, 24);
        let whole = n * pow2(k);
        if bit_len(whole) > 24 {
            let excess = (bit_len(whole) - 24) as nat;
            let spare = (k - excess) as nat;
            lemma_pow2_adds(spare, excess);
            lemma_pow2_pos(excess);
            lemma_mul_is_associative(n as int, pow2(spare) as int, pow2(excess) as int);
            assert(whole == (n * pow2(spare)) * pow2(excess));
            lemma_nearest_even_exact(n * pow2(spare), pow2(excess));
        }
    }
}

/// Rounding halves away from zero crosses no whole number.
proof fn lemma_half_away_bounds(n: nat, unit: nat, limit: nat)
    requires
        unit > 0,
    ensures
        n <= limit * unit ==> half_away(n, unit) <= limit,
        limit * unit <= n ==> limit <= half_away(n, unit),
{
    let double = 2 * unit;
    assert(limit * double == 2 * (limit * unit)) by {
        lemma_mul_is_associative(limit as int, unit as int, 2);
        lemma_mul_is_commutative(unit as int, 2);
    }
    if n <= limit * unit {
        // (2n + unit) < (limit + 1) * 2 * unit
        lemma_mul_is_distributive_add_other_way(double as int, limit as int, 1);
        assert((2 * n + unit) < (limit + 1) * double);
        lemma_mul_is_commutative((limit + 1) as int, double as int);
        lemma_multiply_divide_lt((2 * n + unit) as int, double as int, (limit + 1) as int);
    }
    if limit * unit <= n {
        lemma_multiply_divide_le(limit as int * double as int, double as int, limit as int);
        lemma_div_is_ordered(limit as int * double as int, (2 * n + unit) as int, double as int);
        lemma_div_multiples_vanish(limit as int, double as int);
        lemma_mul_is_commutative(limit as int, double as int);
    }
}

/// The scale of a quotient starts where the search starts.
proof fn lemma_quotient_scale(a: nat, b: nat, k: nat)
    requires
        0 < a <= b,
        b <= 0x1_0000_0000,
        23 <= k <= 55,
        k == 23 || a * pow2((k - 1) as nat) < b * pow2(23),
    ensures
        23 <= quotient_scale(a, b, k) <= 55,
        a * pow2(quotient_scale(a, b, k)) >= b * pow2(23),
    decreases 56 - k,
{
    if a * pow2(k) < b * pow2(23) {
        lemma2_to64();
        if k == 55 {
            lemma_pow2_adds(32, 23);
            lemma_mul_inequality(1, a as int, pow2(55) as int);
            lemma_mul_inequality(b as int, 0x1_0000_0000, pow2(23) as int);
            assert(pow2(32) == 0x1_0000_0000);
            assert(false);
        }
        lemma_quotient_scale(a, b, k + 1);
    }
}

/// What the pieces of an interpolation are bounded by.
proof fn lemma_interpolation_pieces(before: int, after: int, fraction: nat, rate: nat)
    requires
        -0x8000 <= before < 0x8000,
        -0x8000 <= after < 0x8000,
        0 < fraction <= rate <= 0xffff_ffff,
    ensures
        ({
            let a = significant(fraction);
            let b = significant(rate);
            let k = quotient_scale(a, b, 23);
            let quotient = nearest_even(a * pow2(k), b);
            let step = significant(magnitude(after - before) * quotient);
            &&& 0 < a <= b <= 0x1_0000_0000
            &&& 23 <= k <= 55
            &&& quotient <= pow2(k)
            &&& magnitude(after - before) * quotient <= magnitude(after - before) * pow2(k)
            &&& step <= magnitude(after - before) * pow2(k)
        }),
{
    let a = significant(fraction);
    let b = significant(rate);
    let k = quotient_scale(a, b, 23);
    lemma2_to64();
    rounding_keeps_the_order(fraction, rate);
    rounding_keeps_the_order(1, fraction);
    short_numbers_are_exact(1, 0);
    rounding_keeps_the_order(rate, 0x1_0000_0000);
    short_numbers_are_exact(1, 32);
    assert(a > 0);
    assert(b <= 0x1_0000_0000);
    lemma_quotient_scale(a, b, 23);
    lemma_mul_inequality(a as int, b as int, pow2(k) as int);
    lemma_mul_is_commutative(b as int, pow2(k) as int);
    lemma_nearest_even_bounds(a * pow2(k), b, pow2(k));
    let quotient = nearest_even(a * pow2(k), b);
    let delta = magnitude(after - before);
    lemma_mul_inequality(quotient as int, pow2(k) as int, delta as int);
    lemma_mul_is_commutative(quotient as int, delta as int);
    lemma_mul_is_commutative(pow2(k) as int, delta as int);
    rounding_keeps_the_order(delta * quotient, delta * pow2(k));
    short_numbers_are_exact(delta, k);
}

/// An interpolated sample never leaves the range its two neighbours span.
pub proof fn interpolation_stays_between(before: int, after: int, fraction: nat, rate: nat)
    requires
        -0x8000 <= before < 0x8000,
        -0x8000 <= after < 0x8000,
        0 < fraction <= rate <= 0xffff_ffff,
    ensures
        before <= after ==> before <= interpolated(before, after, fraction, rate) <= after,
        after <= before ==> after <= interpolated(before, after, fraction, rate) <= before,
{
    let a = significant(fraction);
    let b = significant(rate);
    let k = quotient_scale(a, b, 23);
    let unit = pow2(k);
    let quotient = nearest_even(a * unit, b);
    let step = significant(magnitude(after - before) * quotient);
    let sum = before * unit + (if after < before { -step } else { step as int });
    lemma_interpolation_pieces(before, after, fraction, rate);
    lemma_pow2_pos(k);
    lemma2_to64();
    let low = if before <= after { before } else { after };
    let high = if before <= after { after } else { before };
    lemma_mul_is_distributive_sub_other_way(unit as int, after, before);
    assert(low * unit <= sum <= high * unit) by {
        if after < before {
            assert(magnitude(after - before) * unit == -((after - before) * unit)) by {
                lemma_mul_unary_negation(after - before, unit as int);
            }
        }
    }
    let size = magnitude(sum);
    if sum >= 0 {
        assert(high >= 0) by {
            if high < 0 {
                lemma_mul_strict_inequality(high, 0, unit as int);
            }
        }
        rounding_keeps_the_order(size, (high * unit) as nat);
        short_numbers_are_exact(high as nat, k);
        lemma_half_away_bounds(significant(size), unit, high as nat);
        if low >= 0 {
            lemma_mul_nonnegative(low, unit as int);
            rounding_keeps_the_order((low * unit) as nat, size);
            short_numbers_are_exact(low as nat, k);
            lemma_half_away_bounds(significant(size), unit, low as nat);
        }
    } else {
        assert(low < 0) by {
            if low >= 0 {
                lemma_mul_nonnegative(low, unit as int);
            }
        }
        let deepest = (-low) as nat;
        lemma_mul_unary_negation(low, unit as int);
        rounding_keeps_the_order(size, deepest * unit);
        short_numbers_are_exact(deepest, k);
        lemma_half_away_bounds(significant(size), unit, deepest);
        if high < 0 {
            let shallowest = (-high) as nat;
            lemma_mul_unary_negation(high, unit as int);
            rounding_keeps_the_order(shallowest * unit, size);
            short_numbers_are_exact(shallowest, k);
            lemma_half_away_bounds(significant(size), unit, shallowest);
        }
    }
}

/// A common factor plays no part in a division, and is left in the remainder.
proof fn lemma_common_factor(n: nat, unit: nat, factor: nat)
    requires
        unit > 0,
        factor > 0,
    ensures
        (n * factor) / (unit * factor) == n / unit,
        (n * factor) % (unit * factor) == (n % unit) * factor,
        unit * factor > 0,
{
    let q = n / unit;
    let r = n % unit;
    lemma_fundamental_div_mod(n as int, unit as int);
    assert(unit * factor > 0) by (nonlinear_arith)
        requires
            unit > 0,
            factor > 0,
    ;
    assert(n * factor == q * (unit * factor) + r * factor) by (nonlinear_arith)
        requires
            n == unit * q + r,
    ;
    assert(0 <= r * factor < unit * factor) by (nonlinear_arith)
        requires
            0 <= r < unit,
            factor > 0,
    ;
    lemma_fundamental_div_mod_converse(
        (n * factor) as int,
        (unit * factor) as int,
        q as int,
        (r * factor) as int,
    );
}

/// Rounding to the nearest whole number ignores a common factor.
proof fn lemma_nearest_even_scaled(n: nat, unit: nat, factor: nat)
    requires
        unit > 0,
        factor > 0,
    ensures
        nearest_even(n * factor, unit * factor) == nearest_even(n, unit),
{
    lemma_common_factor(n, unit, factor);
    let rest = n % unit;
    assert(2 * (rest * factor) < unit * factor <==> 2 * rest < unit) by (nonlinear_arith)
        requires
            factor > 0,
    ;
    assert(2 * (rest * factor) == unit * factor <==> 2 * rest == unit) by (nonlinear_arith)
        requires
            factor > 0,
    ;
}

/// Rounding halves away from zero ignores a common factor.
proof fn lemma_half_away_scaled(n: nat, unit: nat, factor: nat)
    requires
        unit > 0,
        factor > 0,
    ensures
        half_away(n * factor, unit * factor) == half_away(n, unit),
{
    lemma_common_factor((2 * n + unit) as nat, (2 * unit) as nat, factor);
    assert((2 * n + unit) * factor == 2 * (n * factor) + unit * factor) by (nonlinear_arith);
    assert((2 * unit) * factor == 2 * (unit * factor)) by (nonlinear_arith);
}

/// Rounding halves away from zero keeps the order.
proof fn lemma_half_away_monotone(a: nat, b: nat, unit: nat)
    requires
        unit > 0,
        a <= b,
    ensures
        half_away(a, unit) <= half_away(b, unit),
{
    lemma_div_is_ordered((2 * a + unit) as int, (2 * b + unit) as int, (2 * unit) as int);
}

/// Rounding to 24 significant bits is the same at every scale.
proof fn lemma_significant_scaled(n: nat, k: nat)
    ensures
        significant(n * pow2(k)) == significant(n) * pow2(k),
{
    lemma_pow2_pos(k);
    if bit_len(n) <= 24 {
        lemma_bit_len(n);
        if bit_len(n) < 24 {
            lemma_pow2_strictly_increases(bit_len(n), 24);
        }
        short_numbers_are_exact(n, k);
    } else {
        let excess = (bit_len(n) - 24) as nat;
        let unit = pow2(excess);
        lemma_bit_len(n);
        lemma_bit_len_shift(n, k);
        lemma_pow2_adds(excess, k);
        lemma_pow2_pos(excess);
        lemma_nearest_even_scaled(n, unit, pow2(k));
        lemma_mul_is_associative(nearest_even(n, unit) as int, unit as int, pow2(k) as int);
    }
}

/// Rounding a signed number of units is the same at every scale.
proof fn lemma_to_whole_scaled(sum: int, unit: nat, k: nat)
    requires
        unit > 0,
    ensures
        to_whole(sum * pow2(k), unit * pow2(k)) == to_whole(sum, unit),
{
    let factor = pow2(k);
    lemma_pow2_pos(k);
    assert(magnitude(sum * factor) == magnitude(sum) * factor && (sum * factor < 0 <==> sum < 0))
        by (nonlinear_arith)
        requires
            factor > 0,
    ;
    lemma_significant_scaled(magnitude(sum), k);
    lemma_half_away_scaled(significant(magnitude(sum)), unit, factor);
}

/// Rounding a signed number of units keeps the order.
proof fn lemma_to_whole_monotone(a: int, b: int, unit: nat)
    requires
        unit > 0,
        a <= b,
    ensures
        to_whole(a, unit) <= to_whole(b, unit),
{
    if a < 0 && b < 0 {
        rounding_keeps_the_order(magnitude(b), magnitude(a));
        lemma_half_away_monotone(significant(magnitude(b)), significant(magnitude(a)), unit);
    } else if a >= 0 {
        rounding_keeps_the_order(magnitude(a), magnitude(b));
        lemma_half_away_monotone(significant(magnitude(a)), significant(magnitude(b)), unit);
    }
}

/// Writing a quotient down at a finer scale changes nothing.
proof fn lemma_blend_scaled(before: int, after: int, quotient: nat, k: nat, finer: nat)
    ensures
        blend(before, after, quotient * pow2(finer), k + finer) == blend(
            before,
            after,
            quotient,
            k,
        ),
{
    let factor = pow2(finer);
    let delta = magnitude(after - before);
    lemma_pow2_pos(finer);
    lemma_pow2_pos(k);
    lemma_pow2_adds(k, finer);
    lemma_mul_is_associative(delta as int, quotient as int, factor as int);
    lemma_significant_scaled(delta * quotient, finer);
    let step = significant(delta * quotient);
    let signed = if after < before { -step } else { step as int };
    lemma_mul_unary_negation(step as int, factor as int);
    lemma_mul_is_associative(before, pow2(k) as int, factor as int);
    lemma_mul_is_distributive_add_other_way(factor as int, before * pow2(k), signed);
    lemma_to_whole_scaled(before * pow2(k) + signed, pow2(k), finer);
}

/// A larger share of the way up leads no lower.
proof fn lemma_blend_monotone(before: int, after: int, smaller: nat, larger: nat, k: nat)
    requires
        before <= after,
        smaller <= larger,
    ensures
        blend(before, after, smaller, k) <= blend(before, after, larger, k),
{
    let delta = magnitude(after - before);
    lemma_pow2_pos(k);
    lemma_mul_inequality(smaller as int, larger as int, delta as int);
    lemma_mul_is_commutative(smaller as int, delta as int);
    lemma_mul_is_commutative(larger as int, delta as int);
    rounding_keeps_the_order(delta * smaller, delta * larger);
    lemma_to_whole_monotone(
        before * pow2(k) + significant(delta * smaller),
        before * pow2(k) + significant(delta * larger),
        pow2(k),
    );
}

/// At its scale, a quotient has 24 bits, or is the next power of two.
proof fn lemma_quotient_bounds(a: nat, b: nat)
    requires
        0 < a <= b <= 0x1_0000_0000,
    ensures
        ({
            let k = quotient_scale(a, b, 23);
            let quotient = nearest_even(a * pow2(k), b);
            &&& 23 <= k <= 55
            &&& pow2(23) <= quotient
            &&& quotient <= pow2(k)
            &&& k > 23 ==> quotient <= pow2(24)
        }),
{
    let k = quotient_scale(a, b, 23);
    lemma_quotient_scale(a, b, 23);
    lemma_pow2_pos(k);
    lemma_mul_inequality(a as int, b as int, pow2(k) as int);
    lemma_mul_is_commutative(b as int, pow2(k) as int);
    lemma_mul_is_commutative(b as int, pow2(23) as int);
    lemma_nearest_even_bounds(a * pow2(k), b, pow2(k));
    lemma_nearest_even_bounds(a * pow2(k), b, pow2(23));
    if k > 23 {
        lemma_scale_is_least(a, b, 23);
        lemma_pow2_unfold(k);
        lemma_pow2_unfold(24);
        lemma_mul_is_associative(a as int, pow2((k - 1) as nat) as int, 2);
        lemma_mul_is_associative(b as int, pow2(23) as int, 2);
        assert(a * pow2(k) <= pow2(24) * b) by {
            lemma_mul_is_commutative(b as int, pow2(24) as int);
        }
        lemma_nearest_even_bounds(a * pow2(k), b, pow2(24));
    }
}

/// One scale less than a quotient's is too small.
proof fn lemma_scale_is_least(a: nat, b: nat, k: nat)
    requires
        0 < a <= b <= 0x1_0000_0000,
        quotient_scale(a, b, k) > k,
    ensures
        a * pow2((quotient_scale(a, b, k) - 1) as nat) < b * pow2(23),
    decreases
            (if a * pow2(k) >= b * pow2(23) {
                0
            } else {
                b * pow2(23) - a * pow2(k)
            }),
{
    if quotient_scale(a, b, (k + 1) as nat) > k + 1 {
        lemma_pow2_unfold((k + 1) as nat);
        lemma_mul_is_associative(a as int, pow2(k) as int, 2);
        lemma_pow2_pos(k);
        lemma_mul_strictly_positive(a as int, pow2(k) as int);
        lemma_scale_is_least(a, b, (k + 1) as nat);
    } else {
        lemma_scale_from(a, b, (k + 1) as nat);
    }
}

/// A larger number needs no larger scale.
proof fn lemma_scale_monotone(a: nat, c: nat, b: nat)
    requires
        0 < a <= c <= b <= 0x1_0000_0000,
    ensures
        quotient_scale(c, b, 23) <= quotient_scale(a, b, 23),
{
    let k = quotient_scale(a, b, 23);
    let j = quotient_scale(c, b, 23);
    lemma_quotient_scale(a, b, 23);
    lemma_quotient_scale(c, b, 23);
    if j > k {
        lemma_scale_is_least(c, b, 23);
        if k < j - 1 {
            lemma_pow2_strictly_increases(k, (j - 1) as nat);
        }
        lemma_mul_upper_bound(a as int, c as int, pow2(k) as int, pow2((j - 1) as nat) as int);
    }
}

/// Further along between two samples which rise, an interpolated sample is no
/// lower.
pub proof fn interpolation_rises(before: int, after: int, fraction: nat, further: nat, rate: nat)
    requires
        before <= after,
        0 < fraction <= further <= rate <= 0xffff_ffff,
    ensures
        interpolated(before, after, fraction, rate) <= interpolated(before, after, further, rate),
{
    let a = significant(fraction);
    let c = significant(further);
    let b = significant(rate);
    lemma2_to64();
    rounding_keeps_the_order(1, fraction);
    short_numbers_are_exact(1, 0);
    rounding_keeps_the_order(fraction, further);
    rounding_keeps_the_order(further, rate);
    rounding_keeps_the_order(rate, 0x1_0000_0000);
    short_numbers_are_exact(1, 32);
    let k = quotient_scale(a, b, 23);
    let j = quotient_scale(c, b, 23);
    let p = nearest_even(a * pow2(k), b);
    let q = nearest_even(c * pow2(j), b);
    lemma_quotient_bounds(a, b);
    lemma_quotient_bounds(c, b);
    lemma_scale_monotone(a, c, b);
    let finer = (k - j) as nat;
    lemma_blend_scaled(before, after, q, j, finer);
    lemma_pow2_pos(finer);
    assert(p <= q * pow2(finer)) by {
        if finer == 0 {
            lemma_mul_inequality(a as int, c as int, pow2(k) as int);
            lemma_nearest_even_monotone(a * pow2(k), c * pow2(k), b);
            lemma_mul_basics(q as int);
        } else {
            lemma_pow2_unfold(24);
            lemma_pow2_unfold(1);
            if finer > 1 {
                lemma_pow2_strictly_increases(1, finer);
            }
            lemma_mul_upper_bound(pow2(23) as int, q as int, 2, pow2(finer) as int);
        }
    }
    lemma_blend_monotone(before, after, p, q * pow2(finer), k);
}

/// The nearest whole number is within half a unit.
proof fn lemma_nearest_even_error(n: nat, unit: nat)
    requires
        unit > 0,
    ensures
        -(unit as int) <= 2 * (nearest_even(n, unit) * unit - n) <= unit,
{
    let floor = n / unit;
    lemma_fundamental_div_mod(n as int, unit as int);
    lemma_mod_bound(n as int, unit as int);
    lemma_mul_is_commutative(floor as int, unit as int);
    lemma_mul_is_distributive_add_other_way(unit as int, floor as int, 1);
}

/// The nearest whole number, halves away from zero, is within half a unit.
proof fn lemma_half_away_error(n: nat, unit: nat)
    requires
        unit > 0,
    ensures
        -(unit as int) <= 2 * (half_away(n, unit) * unit - n) <= unit,
{
    let double = 2 * unit;
    let whole = half_away(n, unit);
    lemma_fundamental_div_mod((2 * n + unit) as int, double as int);
    lemma_mod_bound((2 * n + unit) as int, double as int);
    assert(double * whole == 2 * (whole * unit)) by (nonlinear_arith)
        requires
            double == 2 * unit,
    ;
}

/// Rounding to 24 significant bits is off by no more than one part in `2^24`.
proof fn lemma_significant_error(n: nat)
    ensures
        -(n as int) <= 0x100_0000 * (significant(n) - n) <= n,
{
    if bit_len(n) > 24 {
        let excess = (bit_len(n) - 24) as nat;
        let unit = pow2(excess);
        lemma_pow2_pos(excess);
        lemma_bit_len(n);
        lemma_small_powers();
        lemma_pow2_adds(23, excess);
        lemma_nearest_even_error(n, unit);
    }
}

/// How far a quotient, times the rate, is from the fraction.
proof fn lemma_quotient_error(fraction: nat, rate: nat)
    requires
        0 < fraction <= rate <= 0xffff_ffff,
    ensures
        ({
            let a = significant(fraction);
            let b = significant(rate);
            let k = quotient_scale(a, b, 23);
            let unit = pow2(k);
            let error = nearest_even(a * unit, b) * rate - fraction * unit;
            -(rate * unit) <= 0x20_0000 * error <= rate * unit
        }),
{
    let a = significant(fraction);
    let b = significant(rate);
    let k = quotient_scale(a, b, 23);
    let unit = pow2(k);
    let quotient = nearest_even(a * unit, b);
    lemma2_to64();
    rounding_keeps_the_order(1, fraction);
    short_numbers_are_exact(1, 0);
    rounding_keeps_the_order(fraction, rate);
    rounding_keeps_the_order(rate, 0x1_0000_0000);
    short_numbers_are_exact(1, 32);
    lemma_quotient_bounds(a, b);
    lemma_small_powers();
    if k > 23 {
        lemma_pow2_strictly_increases(23, k);
    }
    lemma_nearest_even_error(a * unit, b);
    lemma_significant_error(fraction);
    lemma_significant_error(rate);
    let short = quotient * b - a * unit;
    let drift = a * rate - fraction * b;
    let error = quotient * rate - fraction * unit;
    assert(error * b == rate * short + unit * drift) by (nonlinear_arith)
        requires
            short == quotient * b - a * unit,
            drift == a * rate - fraction * b,
            error == quotient * rate - fraction * unit,
    ;
    let off_a = a - fraction;
    let off_b = b - rate;
    assert(drift == off_a * rate - fraction * off_b) by (nonlinear_arith)
        requires
            drift == a * rate - fraction * b,
            off_a == a - fraction,
            off_b == b - rate,
    ;
    let product = fraction * rate;
    assert(-product <= 0x100_0000 * (off_a * rate) <= product) by (nonlinear_arith)
        requires
            -fraction <= 0x100_0000 * off_a <= fraction,
            product == fraction * rate,
            rate > 0,
    ;
    assert(-product <= 0x100_0000 * (fraction * off_b) <= product) by (nonlinear_arith)
        requires
            -rate <= 0x100_0000 * off_b <= rate,
            product == fraction * rate,
            fraction > 0,
    ;
    assert(-(2 * product) <= 0x100_0000 * drift <= 2 * product);
    // The rate is at most twice its rounding.
    assert(rate <= 2 * b);
    assert(product <= 2 * (b * rate)) by (nonlinear_arith)
        requires
            product == fraction * rate,
            fraction <= rate <= 2 * b,
    ;
    assert(-(unit * (4 * (b * rate))) <= 0x100_0000 * (unit * drift) <= unit * (4 * (b * rate)))
        by (nonlinear_arith)
        requires
            -(4 * (b * rate)) <= 0x100_0000 * drift <= 4 * (b * rate),
            unit > 0,
    ;
    assert(-(rate * b) <= 2 * (rate * short) <= rate * b) by (nonlinear_arith)
        requires
            -b <= 2 * short <= b,
            rate > 0,
    ;
    let whole = b * rate;
    assert(rate * b == whole) by (nonlinear_arith)
        requires
            whole == b * rate,
    ;
    assert(0x80_0000 * whole <= unit * whole) by (nonlinear_arith)
        requires
            unit >= 0x80_0000,
            whole >= 0,
    ;
    assert(unit * (4 * whole) == 4 * (unit * whole)) by (nonlinear_arith);
    // 2^24 * error * b is within (1 + 4) * unit * b * rate.
    assert(-(8 * (unit * whole)) <= 0x100_0000 * (error * b) <= 8 * (unit * whole));
    assert(-(rate * unit) <= 0x20_0000 * error <= rate * unit) by (nonlinear_arith)
        requires
            -(8 * (unit * whole)) <= 0x100_0000 * (error * b) <= 8 * (unit * whole),
            whole == b * rate,
            b > 0,
    ;
}

/// An interpolated sample is less than one away from the exact value between
/// its neighbours: `before + (after - before) * fraction / rate`.
pub proof fn interpolation_is_close(before: int, after: int, fraction: nat, rate: nat)
    requires
        -0x8000 <= before < 0x8000,
        -0x8000 <= after < 0x8000,
        0 < fraction <= rate <= 0xffff_ffff,
    ensures
        ({
            let off = (interpolated(before, after, fraction, rate) - before) * rate - (after
                - before) * fraction;
            -rate < off < rate
        }),
{
    let a = significant(fraction);
    let b = significant(rate);
    let k = quotient_scale(a, b, 23);
    let unit = pow2(k);
    let quotient = nearest_even(a * unit, b);
    let delta = magnitude(after - before);
    let exact = delta * quotient;
    let step = significant(exact);
    let signed = if after < before { -step } else { step as int };
    let sum = before * unit + signed;
    let size = magnitude(sum);
    let rounded = significant(size);
    let whole = half_away(rounded, unit);
    lemma_small_powers();
    lemma_pow2_pos(k);
    lemma_interpolation_pieces(before, after, fraction, rate);
    lemma_quotient_error(fraction, rate);
    lemma_significant_error(exact);
    lemma_significant_error(size);
    lemma_half_away_error(rounded, unit);
    let reach = unit * rate;
    assert(rate * unit == reach) by (nonlinear_arith)
        requires
            reach == unit * rate,
    ;
    assert(reach > 0) by (nonlinear_arith)
        requires
            reach == unit * rate,
            unit > 0,
            rate > 0,
    ;
    // The step, against the exact one.
    let error = quotient * rate - fraction * unit;
    let missed = step * rate - delta * (fraction * unit);
    assert(exact * rate == delta * (quotient * rate)) by (nonlinear_arith)
        requires
            exact == delta * quotient,
    ;
    assert(delta * (quotient * rate) - delta * (fraction * unit) == delta * error) by (nonlinear_arith)
        requires
            error == quotient * rate - fraction * unit,
    ;
    assert(-(0xffff * reach) <= 0x20_0000 * (delta * error) <= 0xffff * reach) by (nonlinear_arith)
        requires
            -reach <= 0x20_0000 * error <= reach,
            0 <= delta <= 0xffff,
            reach > 0,
    ;
    assert(exact <= 0xffff * unit) by (nonlinear_arith)
        requires
            exact <= delta * unit,
            delta <= 0xffff,
            unit > 0,
    ;
    assert(-(0xffff * reach) <= 0x100_0000 * (step * rate - exact * rate) <= 0xffff * reach)
        by (nonlinear_arith)
        requires
            -exact <= 0x100_0000 * (step - exact) <= exact,
            exact <= 0xffff * unit,
            reach == unit * rate,
            rate > 0,
    ;
    assert(-reach <= 16 * missed <= reach);
    // The sum, against the exact one.
    assert(-(0x8000 * unit) <= sum <= 0x8000 * unit) by {
        lemma_sum_spans(before, after, unit, step);
    }
    let sum_off = sum * rate - (before * reach + (after - before) * (fraction * unit));
    assert(before * unit * rate == before * reach) by (nonlinear_arith)
        requires
            reach == unit * rate,
    ;
    assert(sum * rate == before * unit * rate + signed * rate) by (nonlinear_arith)
        requires
            sum == before * unit + signed,
    ;
    assert(sum_off == missed || sum_off == -missed) by {
        if after < before {
            assert(signed * rate == -(step * rate)) by (nonlinear_arith)
                requires
                    signed == -step,
            ;
            assert((after - before) * (fraction * unit) == -(delta * (fraction * unit)))
                by (nonlinear_arith)
                requires
                    delta == -(after - before),
            ;
        }
    }
    // The rounded sum, against the sum.
    let sample = interpolated(before, after, fraction, rate);
    let round_off = sample * unit - sum;
    assert(sample * unit == if sum < 0 { -(whole * unit) } else { (whole * unit) as int }) by {
        lemma_mul_unary_negation(whole as int, unit as int);
    }
    assert(-(0x8000 * unit) <= 0x100_0000 * (rounded - size) <= 0x8000 * unit);
    assert(-(258 * unit) <= 512 * round_off <= 258 * unit);
    assert(-(258 * reach) <= 512 * (round_off * rate) <= 258 * reach) by (nonlinear_arith)
        requires
            -(258 * unit) <= 512 * round_off <= 258 * unit,
            reach == unit * rate,
            rate > 0,
    ;
    // Both together, and the unit divided out.
    let off = (sample - before) * rate - (after - before) * fraction;
    assert(off * unit == round_off * rate + sum_off) by (nonlinear_arith)
        requires
            off == (sample - before) * rate - (after - before) * fraction,
            round_off == sample * unit - sum,
            sum_off == sum * rate - (before * reach + (after - before) * (fraction * unit)),
            reach == unit * rate,
    ;
    assert(-reach < off * unit < reach);
    assert(-rate < off < rate) by (nonlinear_arith)
        requires
            -reach < off * unit < reach,
            reach == unit * rate,
            unit > 0,
    ;
}

/// The sum an interpolation comes to stays between its ends.
proof fn lemma_sum_spans(before: int, after: int, unit: nat, step: nat)
    requires
        -0x8000 <= before < 0x8000,
        -0x8000 <= after < 0x8000,
        unit > 0,
        step <= magnitude(after - before) * unit,
    ensures
        ({
            let sum = before * unit + (if after < before { -step } else { step as int });
            -(0x8000 * unit) <= sum <= 0x8000 * unit
        }),
{
    let delta = magnitude(after - before);
    assert(-(0x8000 * unit) <= before * unit <= 0x8000 * unit && -(0x8000 * unit) <= after * unit
        <= 0x8000 * unit) by (nonlinear_arith)
        requires
            -0x8000 <= before < 0x8000,
            -0x8000 <= after < 0x8000,
            unit > 0,
    ;
    if after < before {
        assert(delta * unit == before * unit - after * unit) by (nonlinear_arith)
            requires
                delta == before - after,
        ;
    } else {
        assert(delta * unit == after * unit - before * unit) by (nonlinear_arith)
            requires
                delta == after - before,
        ;
    }
}

/// Two to the power of `k`.
fn power_of_two(k: u32) -> (power: u128)
    requires
        k <= 100,
    ensures
        power == pow2(k as nat),
{
    let mut power: u128 = 1;
    proof {
        lemma2_to64();
    }
    for i in 0..k
        invariant
            k <= 100,
            power == pow2(i as nat),
    {
        proof {
            lemma_pow2_strictly_increases(i as nat, 100);
            lemma_pow2_unfold((i + 1) as nat);
            lemma_small_powers();
        }
        power = power * 2;
    }
    power
}

/// The powers of two which bound what is computed with here.
proof fn lemma_small_powers()
    ensures
        pow2(100) == 0x10_0000_0000_0000_0000_0000_0000,
        pow2(128) == 0x1_0000_0000_0000_0000_0000_0000_0000_0000int,
        pow2(24) == 0x100_0000,
        pow2(23) == 0x80_0000,
{
    lemma2_to64();
    lemma2_to64_rest();
    lemma_pow2_adds(64, 36);
    lemma_pow2_adds(64, 64);
}

/// The number of bits it takes to write a number down.
fn length_in_bits(n: u128) -> (len: u32)
    ensures
        len == bit_len(n as nat),
        len <= 128,
{
    let mut rest = n;
    let mut len: u32 = 0;
    proof {
        lemma_small_powers();
        lemma_bit_len_below(n as nat, 128);
    }
    while rest > 0
        invariant
            len + bit_len(rest as nat) == bit_len(n as nat),
            bit_len(n as nat) <= 128,
        decreases rest,
    {
        rest = rest / 2;
        len = len + 1;
    }
    len
}

/// The whole number nearest to `n / unit`, the even one of two as near.
fn to_nearest_even(n: u128, unit: u128) -> (nearest: u128)
    requires
        0 < unit <= pow2(100),
        n <= pow2(100),
    ensures
        nearest == nearest_even(n as nat, unit as nat),
{
    proof {
        lemma_small_powers();
        lemma_div_is_ordered_by_denominator(n as int, 1, unit as int);
    }
    let floor: u128 = n / unit;
    let rest: u128 = n % unit;
    if 2 * rest < unit || (2 * rest == unit && floor % 2 == 0) {
        floor
    } else {
        floor + 1
    }
}

/// The whole number nearest to `n / unit`, the larger one of two as near.
fn to_half_away(n: u128, unit: u128) -> (nearest: u128)
    requires
        0 < unit <= pow2(100),
        n <= pow2(100),
    ensures
        nearest == half_away(n as nat, unit as nat),
{
    proof {
        lemma_small_powers();
    }
    (2 * n + unit) / (2 * unit)
}

/// The number nearest to `n` with no more than 24 significant bits.
fn to_significant(n: u128) -> (rounded: u128)
    requires
        n < pow2(100),
    ensures
        rounded == significant(n as nat),
        rounded <= pow2(100),
{
    proof {
        lemma_bit_len_below(n as nat, 100);
        lemma_significant_bounds(n as nat);
        if bit_len(n as nat) < 100 {
            lemma_pow2_strictly_increases(bit_len(n as nat), 100);
        }
        lemma_small_powers();
    }
    let len = length_in_bits(n);
    if len <= 24 {
        n
    } else {
        let unit = power_of_two(len - 24);
        proof {
            lemma_pow2_pos((len - 24) as nat);
            lemma_pow2_strictly_increases((len - 24) as nat, 100);
        }
        let nearest = to_nearest_even(n, unit);
        nearest * unit
    }
}

/// The sample between two neighbours, at `fraction / rate` of the way.
pub fn interpolate(before: i16, after: i16, fraction: u32, rate: u32) -> (sample: i16)
    requires
        0 < fraction <= rate,
    ensures
        sample == interpolated(before as int, after as int, fraction as nat, rate as nat),
        before <= after ==> before <= sample <= after,
        after <= before ==> after <= sample <= before,
{
    proof {
        lemma_small_powers();
        lemma_interpolation_pieces(before as int, after as int, fraction as nat, rate as nat);
        interpolation_stays_between(before as int, after as int, fraction as nat, rate as nat);
    }
    let a = to_significant(fraction as u128);
    let b = to_significant(rate as u128);
    let (scale, unit) = scale_of(a, b);
    let ghost k = scale as nat;
    proof {
        lemma_pow2_pos(k);
        lemma_pow2_strictly_increases(k, 56);
        lemma2_to64_rest();
        lemma_mul_upper_bound(a as int, 0x1_0000_0000, unit as int, pow2(56) as int);
    }
    let quotient = to_nearest_even(a * unit, b);
    let delta: u128 = if after < before {
        (before as i32 - after as i32) as u128
    } else {
        (after as i32 - before as i32) as u128
    };
    proof {
        lemma_mul_upper_bound(delta as int, 0xffff, unit as int, pow2(56) as int);
        lemma_mul_upper_bound(delta as int, 0xffff, quotient as int, pow2(56) as int);
    }
    let step = to_significant(delta * quotient);
    proof {
        lemma_mul_upper_bound(0x8000, 0x8000, unit as int, pow2(56) as int);
        lemma_mul_inequality(before as int, 0x8000, unit as int);
        lemma_mul_inequality(-0x8000, before as int, unit as int);
    }
    let start: i128 = before as i128 * unit as i128;
    let sum: i128 = if after < before {
        start - step as i128
    } else {
        start + step as i128
    };
    let size: u128 = if sum < 0 {
        (-sum) as u128
    } else {
        sum as u128
    };
    let rounded = to_half_away(to_significant(size), unit);
    proof {
        assert(sum == before * pow2(k) + (if after < before { -step } else { step as int }));
        assert(size == magnitude(sum as int));
    }
    if sum < 0 {
        (-(rounded as i128)) as i16
    } else {
        rounded as i16
    }
}

/// The scale of a quotient, and two to its power.
fn scale_of(a: u128, b: u128) -> (scaled: (u32, u128))
    requires
        0 < a <= b <= 0x1_0000_0000,
    ensures
        scaled.0 == quotient_scale(a as nat, b as nat, 23),
        scaled.1 == pow2(scaled.0 as nat),
        23 <= scaled.0 <= 55,
{
    proof {
        lemma_small_powers();
        lemma2_to64_rest();
        lemma_quotient_scale(a as nat, b as nat, 23);
    }
    let mut k: u32 = 23;
    let mut unit: u128 = 0x80_0000;
    let target: u128 = b * 0x80_0000;
    assert(unit <= 0x80_0000_0000_0000);
    assert(a * unit <= 0x1_0000_0000 * 0x100_0000_0000_0000) by {
        lemma_mul_upper_bound(a as int, 0x1_0000_0000, unit as int, 0x100_0000_0000_0000);
    }
    while a * unit < target
        invariant
            0 < a <= b <= 0x1_0000_0000,
            target == b * pow2(23),
            unit == pow2(k as nat),
            23 <= k <= quotient_scale(a as nat, b as nat, 23) <= 55,
            quotient_scale(a as nat, b as nat, 23) == quotient_scale(a as nat, b as nat, k as nat),
            a * unit <= 0x1_0000_0000 * 0x100_0000_0000_0000,
        decreases 56 - k,
    {
        proof {
            lemma_scale_goes_on(a as nat, b as nat, k as nat);
            lemma_pow2_unfold((k + 1) as nat);
            lemma2_to64_rest();
            lemma_small_powers();
            lemma_pow2_strictly_increases(k as nat, 56);
        }
        k = k + 1;
        unit = unit * 2;
        proof {
            if k < 56 {
                lemma_pow2_strictly_increases(k as nat, 56);
            }
            lemma_mul_upper_bound(a as int, 0x1_0000_0000, unit as int, 0x100_0000_0000_0000);
        }
    }
    (k, unit)
}

/// Where a scale is too small, the next one is tried.
proof fn lemma_scale_goes_on(a: nat, b: nat, k: nat)
    requires
        0 < a,
        a * pow2(k) < b * pow2(23),
        quotient_scale(a, b, k) <= 55,
    ensures
        quotient_scale(a, b, k) == quotient_scale(a, b, (k + 1) as nat),
        k + 1 <= quotient_scale(a, b, k),
{
    lemma_scale_from(a, b, (k + 1) as nat);
}

/// The scale found is never below the one the search starts from.
proof fn lemma_scale_from(a: nat, b: nat, k: nat)
    ensures
        k <= quotient_scale(a, b, k),
    decreases
            (if a * pow2(k) >= b * pow2(23) {
                0
            } else {
                b * pow2(23) - a * pow2(k)
            }),
{
    if a != 0 && a * pow2(k) < b * pow2(23) {
        lemma_pow2_unfold((k + 1) as nat);
        lemma_mul_is_associative(a as int, pow2(k) as int, 2);
        lemma_pow2_pos(k);
        lemma_mul_strictly_positive(a as int, pow2(k) as int);
        lemma_scale_from(a, b, (k + 1) as nat);
    }
}

impl Binary32 {
    /// The sixteen-bit sample this sample stands for; see [`pcm16_of`].
    pub fn to_pcm16(self) -> (sample: i16)
        ensures
            sample == pcm16_of(self),
    {
        let unsigned: u32 = self.bits % 0x8000_0000;
        if unsigned > 0x7f80_0000 {
            return 0;
        }
        let loudness: i16 = if unsigned >= 0x3f80_0000 {
            32767
        } else {
            let exponent: u32 = if unsigned < 0x80_0000 {
                1
            } else {
                unsigned / 0x80_0000
            };
            let fraction: u32 = if unsigned < 0x80_0000 {
                unsigned
            } else {
                unsigned % 0x80_0000 + 0x80_0000
            };
            let shift: u32 = 150 - exponent;
            proof {
                lemma_small_powers();
                lemma2_to64();
                lemma2_to64_rest();
                lemma_scaled_sample(fraction as nat, shift as nat);
            }
            let product: u128 = to_significant(fraction as u128 * 32767);
            if shift > 60 {
                0
            } else {
                proof {
                    lemma_pow2_pos(shift as nat);
                    lemma_pow2_strictly_increases(shift as nat, 100);
                }
                to_half_away(product, power_of_two(shift)) as i16
            }
        };
        if self.bits >= 0x8000_0000 {
            -loudness
        } else {
            loudness
        }
    }
}

/// A magnitude below one, scaled, stays within a sample; a tiny one vanishes.
proof fn lemma_scaled_sample(fraction: nat, shift: nat)
    requires
        fraction < 0x100_0000,
        24 <= shift,
    ensures
        half_away(significant(fraction * 32767), pow2(shift)) <= 32767,
        shift > 60 ==> half_away(significant(fraction * 32767), pow2(shift)) == 0,
{
    let unit = pow2(shift);
    lemma_small_powers();
    lemma2_to64();
    lemma2_to64_rest();
    lemma_pow2_pos(shift);
    lemma_pow2_pos((shift - 24) as nat);
    lemma_pow2_adds(24, (shift - 24) as nat);
    rounding_keeps_the_order(fraction * 32767, 0x100_0000 * 32767);
    short_numbers_are_exact(32767, 24);
    let product = significant(fraction * 32767);
    assert(32767 * unit >= 32767 * 0x100_0000) by {
        lemma_mul_inequality(1, pow2((shift - 24) as nat) as int, 0x100_0000);
    }
    lemma_half_away_bounds(product, unit, 32767);
    if shift > 60 {
        lemma_pow2_strictly_increases(60, shift);
        assert(2 * product + unit < 2 * unit);
        lemma_basic_div((2 * product + unit) as int, (2 * unit) as int);
    }
}

/// The size of a value which is a number, counted in the `2^-150` every one of
/// them is a multiple of. An infinity is larger than every other.
pub open spec fn scaled_size(value: Binary32) -> nat {
    let unsigned = unsigned_bits(value);
    fraction_of(unsigned) * pow2(exponent_of(unsigned))
}

/// A value which is a number, counted in `2^-150`.
pub open spec fn scaled_value(value: Binary32) -> int {
    if value.bits >= 0x8000_0000 {
        -(scaled_size(value) as int)
    } else {
        scaled_size(value) as int
    }
}

/// The value with its sign turned.
pub open spec fn negated(value: Binary32) -> Binary32 {
    Binary32 {
        bits: if value.bits >= 0x8000_0000 {
            (value.bits - 0x8000_0000) as u32
        } else {
            (value.bits + 0x8000_0000) as u32
        },
    }
}

/// The sample a size stands for.
spec fn loudness(size: nat) -> nat {
    if size >= pow2(150) {
        32767
    } else {
        half_away(significant(size * 32767), pow2(150))
    }
}

/// The sample a value stands for depends on its size and its sign alone.
proof fn lemma_loudness(value: Binary32)
    requires
        !is_nan(value),
    ensures
        pcm16_of(value) == if value.bits >= 0x8000_0000 {
            -loudness(scaled_size(value))
        } else {
            loudness(scaled_size(value)) as int
        },
        loudness(scaled_size(value)) <= 32767,
        scaled_size(value) == 0 ==> loudness(scaled_size(value)) == 0,
{
    let unsigned = unsigned_bits(value);
    let e = exponent_of(unsigned);
    let m = fraction_of(unsigned);
    let size = m * pow2(e);
    lemma_small_powers();
    lemma_pow2_pos(e);
    lemma_pow2_pos(150);
    if unsigned >= 0x3f80_0000 {
        if e > 127 {
            lemma_pow2_strictly_increases(127, e);
        }
        lemma_pow2_adds(23, 127);
        lemma_mul_upper_bound(pow2(23) as int, m as int, pow2(127) as int, pow2(e) as int);
    } else {
        let shift = (150 - e) as nat;
        lemma_pow2_adds(shift, e);
        lemma_pow2_pos(shift);
        if e < 126 {
            lemma_pow2_strictly_increases(e, 126);
        }
        lemma_pow2_adds(24, 126);
        assert(size < pow2(150)) by (nonlinear_arith)
            requires
                size == m * pow2(e),
                m < pow2(24),
                pow2(e) <= pow2(126),
                pow2(e) > 0,
                pow2(24) * pow2(126) == pow2(150),
        ;
        lemma_significant_scaled(m * 32767, e);
        assert((m * 32767) * pow2(e) == size * 32767) by (nonlinear_arith)
            requires
                size == m * pow2(e),
        ;
        lemma_half_away_scaled(significant(m * 32767), pow2(shift), pow2(e));
        lemma_scaled_sample(m, shift);
        if size == 0 {
            lemma_mul_basics(32767);
            short_numbers_are_exact(0, 0);
            lemma_half_away_bounds(0, pow2(150), 0);
        }
    }
}

/// Converting a sample keeps the order: a value which is no larger than another
/// stands for a sample which is no larger.
pub proof fn conversion_keeps_the_order(x: Binary32, y: Binary32)
    requires
        !is_nan(x),
        !is_nan(y),
        scaled_value(x) <= scaled_value(y),
    ensures
        pcm16_of(x) <= pcm16_of(y),
{
    lemma_loudness(x);
    lemma_loudness(y);
    let a = scaled_size(x);
    let b = scaled_size(y);
    lemma_pow2_pos(150);
    if a <= b {
        lemma_loudness_rises(a, b);
    } else {
        lemma_loudness_rises(b, a);
    }
}

/// A larger size stands for no smaller sample.
proof fn lemma_loudness_rises(a: nat, b: nat)
    requires
        a <= b,
        b < pow2(150) || loudness(a) <= 32767,
    ensures
        loudness(a) <= loudness(b),
{
    lemma_pow2_pos(150);
    if b < pow2(150) {
        rounding_keeps_the_order(a * 32767, b * 32767);
        lemma_half_away_monotone(significant(a * 32767), significant(b * 32767), pow2(150));
    }
}

/// Converting a sample is odd: the sign of the value is the sign of the sample.
pub proof fn conversion_is_odd(value: Binary32)
    ensures
        pcm16_of(negated(value)) == -pcm16_of(value),
        !is_nan(value) ==> scaled_value(negated(value)) == -scaled_value(value),
{
    assert(unsigned_bits(negated(value)) == unsigned_bits(value));
}

/// No value stands for the one sample which has no counterpart, `-32768`.
pub proof fn conversion_is_symmetric(value: Binary32)
    ensures
        -32767 <= pcm16_of(value) <= 32767,
{
    if !is_nan(value) {
        lemma_loudness(value);
    }
}

/// Converting a sample keeps its value: one between `-1.0` and `1.0` comes to
/// less than one away from 32767 times as much, one beyond to the loudest
/// sample on its side, and what is not a number to silence.
pub proof fn conversion_is_close(value: Binary32)
    ensures
        is_nan(value) ==> pcm16_of(value) == 0,
        !is_nan(value) && scaled_size(value) <= pow2(150) ==> -(pow2(150) as int) < pcm16_of(value)
            * pow2(150) - scaled_value(value) * 32767 < pow2(150),
        !is_nan(value) && scaled_value(value) >= pow2(150) ==> pcm16_of(value) == 32767,
        !is_nan(value) && scaled_value(value) <= -(pow2(150) as int) ==> pcm16_of(value) == -32767,
{
    if !is_nan(value) {
        lemma_loudness(value);
        let one = pow2(150);
        let size = scaled_size(value);
        let loud = loudness(size);
        lemma_pow2_pos(150);
        if size < one {
            let n = size * 32767;
            let rounded = significant(n);
            lemma_significant_error(n);
            lemma_half_away_error(rounded, one);
            let off = loud * one - n;
            assert(-(one as int) < off < one) by {
                let first = 2 * (rounded - n);
                let second = 2 * (loud * one - rounded);
                assert(n < 32767 * one);
                assert(-(one as int) < first < one);
                assert(2 * off == first + second);
            }
            lemma_mul_unary_negation(loud as int, one as int);
            lemma_mul_unary_negation(size as int, 32767);
        } else if size == one {
            lemma_mul_is_commutative(one as int, 32767);
            lemma_mul_unary_negation(32767, one as int);
            lemma_mul_unary_negation(one as int, 32767);
        }
    }
}

} // verus!
