//! Division-free modular reduction over Z_Q: Barrett reduction, Montgomery
//! reduction, and Montgomery multiplication (`fqmul`).
//!
//! Every function here carries an exact contract: the result is congruent to
//! the mathematical value modulo Q, together with a tight range bound.

use vstd::prelude::*;
use vstd::arithmetic::div_mod::{
    lemma_fundamental_div_mod, lemma_mod_division_less_than_divisor, lemma_mod_multiples_vanish,
    lemma_mul_mod_noop_right, lemma_small_mod, lemma_sub_mod_noop,
};
use crate::mod_q;

verus! {

/// For operands bounded in absolute value, the product is bounded by the
/// product of the bounds.
pub proof fn lemma_abs_mul_le(x: int, y: int, bx: int, by: int)
    requires
        -bx <= x <= bx,
        -by <= y <= by,
        0 <= bx,
        0 <= by,
    ensures
        -bx * by <= x * y <= bx * by,
{
    assert(-bx * by <= x * y <= bx * by) by (nonlinear_arith)
        requires
            -bx <= x <= bx,
            -by <= y <= by,
            0 <= bx,
            0 <= by,
    ;
}

/// Barrett reduction: returns the unique representative of `a` modulo Q
/// in the centered range [-(Q-1)/2, (Q-1)/2], computed without dividing
/// by Q (fixed-point multiplication by round(2^26 / Q), then a shift
/// down by 2^26, then one subtraction of a multiple of Q).
pub fn barrett_reduce(a: i16) -> (r: i16)
    ensures
        -1664 <= r <= 1664,
        mod_q(r as int) == mod_q(a as int),
{
    // 20159 == round(2^26 / Q); the offset 2^25 turns the floor into a
    // round-to-nearest, and the extra 2^30 keeps the numerator non-negative.
    let n: u32 = (20159 * (a as i32) + 33554432 + 1073741824) as u32;
    let q: u32 = n / 67108864;
    let t: i32 = q as i32 - 16;
    let r32: i32 = (a as i32) - t * 3329;
    proof {
        lemma_fundamental_div_mod(n as int, 67108864);
        lemma_mod_division_less_than_divisor(n as int, 67108864);
        // 2^26 * t <= 20159 * a + 2^25 < 2^26 * (t + 1), so t is within
        // one of a/Q and |a - t*Q| <= (Q-1)/2 follows linearly.
        lemma_mod_multiples_vanish(-(t as int), a as int, 3329);
    }
    r32 as i16
}

/// Montgomery reduction: for `a` with |a| <= i32::MAX - 2^15 * Q, returns
/// the 16-bit integer congruent to a * R^-1 modulo Q, where R = 2^16.
///
/// The contract pins the result exactly up to the standard slack: there is
/// an m with |m| <= 2^15 such that 2^16 * r == a - Q * m, stated below as
/// a congruence plus a window of width 2 * Q * 2^15 around `a`.
pub fn montgomery_reduce(a: i32) -> (r: i16)
    requires
        -2038398975 <= a <= 2038398975,
    ensures
        mod_q((r as int) * 65536) == mod_q(a as int),
        a - 109084672 <= (r as int) * 65536 <= a + 109084672,
{
    // x == a mod 2^16, computed on the non-negative shift a + 2^31.
    let b: u64 = ((a as i64) + 2147483648) as u64;
    let x: u64 = b % 65536;
    // mu == a * QINV mod 2^16, with QINV == 62209 == Q^-1 mod 2^16.
    let mu: u64 = (x * 62209) % 65536;
    // m is mu brought into the signed window [-2^15, 2^15).
    let hi: u64 = mu / 32768;
    let m: i64 = (mu as i64) - 65536 * (hi as i64);
    // a - m * Q is divisible by 2^16; the quotient is the result.
    let t: i64 = (a as i64) - m * 3329;
    let tu: u64 = (t + 2147483648) as u64;
    let ru: u64 = tu / 65536;
    let r64: i64 = (ru as i64) - 32768;
    proof {
        lemma_mod_division_less_than_divisor(b as int, 65536);
        lemma_mod_division_less_than_divisor((x * 62209) as int, 65536);
        // x == a % 2^16
        lemma_mod_multiples_vanish(32768, a as int, 65536);
        // mu == (a * 62209) % 2^16
        lemma_mul_mod_noop_right(62209, a as int, 65536);
        assert(mu == (62209 * (a as int)) % 65536);
        // hi is 0 or 1, so m is mu shifted into [-2^15, 2^15)
        lemma_fundamental_div_mod(mu as int, 32768);
        lemma_mod_division_less_than_divisor(mu as int, 32768);
        assert(-32768 <= m <= 32767);
        // m == mu (mod 2^16), hence Q * m == Q * QINV * a == a (mod 2^16)
        lemma_mod_multiples_vanish(-(hi as int), mu as int, 65536);
        lemma_small_mod(mu as nat, 65536);
        lemma_mul_mod_noop_right(3329, m as int, 65536);
        lemma_mul_mod_noop_right(3329, 62209 * (a as int), 65536);
        assert(3329 * (62209 * (a as int)) == 65536 * (3160 * (a as int)) + (a as int));
        lemma_mod_multiples_vanish(3160 * (a as int), a as int, 65536);
        assert((3329 * (m as int)) % 65536 == (a as int) % 65536);
        // so t == a - Q * m is divisible by 2^16
        lemma_sub_mod_noop(a as int, 3329 * (m as int), 65536);
        assert((t as int) % 65536 == 0int % 65536);
        assert((t as int) % 65536 == 0);
        // and so is its non-negative shift tu
        lemma_mod_multiples_vanish(32768, t as int, 65536);
        lemma_fundamental_div_mod(tu as int, 65536);
        // 2^16 * r64 == t == a - Q * m exactly
        assert(65536 * (r64 as int) == t as int);
        // congruence modulo Q
        lemma_mod_multiples_vanish(-(m as int), a as int, 3329);
    }
    r64 as i16
}

/// Montgomery multiplication with a canonical second factor: for any `a`
/// and |b| < (Q+1)/2, returns r congruent to a * b * R^-1 modulo Q with
/// |r| < Q (in fact |r| <= 2496).
pub fn fqmul(a: i16, b: i16) -> (r: i16)
    requires
        -1664 <= b <= 1664,
    ensures
        -2496 <= r <= 2496,
        mod_q((r as int) * 65536) == mod_q((a as int) * (b as int)),
        (a as int) * (b as int) - 109084672 <= (r as int) * 65536
            <= (a as int) * (b as int) + 109084672,
{
    proof {
        lemma_abs_mul_le(a as int, b as int, 32768, 1664);
    }
    let prod: i32 = (a as i32) * (b as i32);
    montgomery_reduce(prod)
}

/// Montgomery multiplication of two arbitrary 16-bit factors; the product
/// always lies inside Montgomery reduction's input window. The result is
/// congruent to a * b * R^-1 modulo Q and lies within the standard slack
/// window around a * b / 2^16.
pub(crate) fn fqmul_wide(a: i16, b: i16) -> (r: i16)
    ensures
        mod_q((r as int) * 65536) == mod_q((a as int) * (b as int)),
        (a as int) * (b as int) - 109084672 <= (r as int) * 65536
            <= (a as int) * (b as int) + 109084672,
{
    proof {
        lemma_abs_mul_le(a as int, b as int, 32768, 32768);
    }
    let prod: i32 = (a as i32) * (b as i32);
    montgomery_reduce(prod)
}

} // verus!

verus! {

/// The defining law of Montgomery reduction, in its general form: a result
/// congruent to a * R^-1 * R is congruent to a itself, so any value the
/// contract of `montgomery_reduce` admits for input a * 2^16 is congruent
/// to a modulo Q.
pub proof fn lemma_montgomery_unscale(r: int, a: int)
    requires
        mod_q(r * 65536) == mod_q(a * 65536),
    ensures
        mod_q(r) == mod_q(a),
{
    crate::lemma_unmont(r, a * 65536);
    assert((a * 65536) * 169 == 3329 * (3327 * a) + a) by (nonlinear_arith);
    lemma_mod_multiples_vanish(3327 * a, a, 3329);
}

} // verus!
