//! Verified computational core of the ML-KEM-512 key-encapsulation mechanism:
//! modular arithmetic over Z_3329, the number-theoretic transform, polynomial
//! and vector algebra, encoding and compression, and the IND-CPA scheme
//! wrapped by the implicit-rejection KEM transform.

use vstd::prelude::*;

pub mod params;
pub mod reduce;
pub mod zetas;
pub mod poly;
pub mod ntt;
pub mod basemul;
pub mod codec;
pub mod symmetric;
pub mod sampler;
pub mod polyvec;
pub mod error;
pub mod indcpa;
pub mod kem;

verus! {

/// The unique representative of `a` modulo Q that lies in [0, Q).
pub open spec fn mod_q(a: int) -> int {
    a % (params::Q as int)
}

/// The representative is canonical: 0 <= mod_q(a) < Q.
pub proof fn lemma_mod_q_bounds(a: int)
    ensures
        0 <= mod_q(a) < 3329,
{
    vstd::arithmetic::div_mod::lemma_mod_division_less_than_divisor(a, 3329);
}

/// A value already in [0, Q) is its own representative.
pub proof fn lemma_mod_q_small(a: int)
    requires
        0 <= a < 3329,
    ensures
        mod_q(a) == a,
{
    vstd::arithmetic::div_mod::lemma_small_mod(a as nat, 3329);
}

/// Congruent values stay congruent under multiplication by a common factor.
pub proof fn lemma_cong_mul(a: int, b: int, c: int)
    requires
        mod_q(a) == mod_q(b),
    ensures
        mod_q(a * c) == mod_q(b * c),
{
    vstd::arithmetic::div_mod::lemma_mul_mod_noop_left(a, c, 3329);
    vstd::arithmetic::div_mod::lemma_mul_mod_noop_left(b, c, 3329);
}

/// Congruent values stay congruent under addition.
pub proof fn lemma_cong_add(a: int, b: int, c: int, d: int)
    requires
        mod_q(a) == mod_q(b),
        mod_q(c) == mod_q(d),
    ensures
        mod_q(a + c) == mod_q(b + d),
{
    vstd::arithmetic::div_mod::lemma_add_mod_noop(a, c, 3329);
    vstd::arithmetic::div_mod::lemma_add_mod_noop(b, d, 3329);
}

/// Congruent values stay congruent under subtraction.
pub proof fn lemma_cong_sub(a: int, b: int, c: int, d: int)
    requires
        mod_q(a) == mod_q(b),
        mod_q(c) == mod_q(d),
    ensures
        mod_q(a - c) == mod_q(b - d),
{
    vstd::arithmetic::div_mod::lemma_sub_mod_noop(a, c, 3329);
    vstd::arithmetic::div_mod::lemma_sub_mod_noop(b, d, 3329);
}

/// Multiplying by congruent constants gives congruent products.
pub proof fn lemma_mul_const_cong(x: int, c1: int, c2: int)
    requires
        mod_q(c1) == mod_q(c2),
    ensures
        mod_q(x * c1) == mod_q(x * c2),
{
    vstd::arithmetic::div_mod::lemma_mul_mod_noop_right(x, c1, 3329);
    vstd::arithmetic::div_mod::lemma_mul_mod_noop_right(x, c2, 3329);
}

/// Removing the Montgomery factor: if r * R is congruent to x then r itself
/// is congruent to x * R^-1, with R = 2^16 and R^-1 = 169 modulo Q.
pub proof fn lemma_unmont(r: int, x: int)
    requires
        mod_q(r * 65536) == mod_q(x),
    ensures
        mod_q(r) == mod_q(x * 169),
{
    // 65536 * 169 == 3329 * 3327 + 1, so r * 65536 * 169 == r modulo Q
    assert(r * 65536 * 169 == 3329 * (3327 * r) + r) by (nonlinear_arith);
    vstd::arithmetic::div_mod::lemma_mod_multiples_vanish(3327 * r, r, 3329);
    lemma_cong_mul(r * 65536, x, 169);
    assert(mod_q((r * 65536) * 169) == mod_q(x * 169));
}

} // verus!
