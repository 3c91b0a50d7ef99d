//! Pointwise base multiplication in the NTT domain: the ring product splits
//! into 128 independent multiplications of degree-1 polynomials modulo
//! X^2 - zeta, realized with Montgomery multiplication and an optional
//! cache of the twiddled odd coefficients.

use vstd::prelude::*;
use crate::{lemma_cong_add, lemma_cong_mul, mod_q, lemma_unmont};
use crate::poly::{abs_bounded, ints, Poly};
use crate::reduce::{fqmul, fqmul_wide, lemma_abs_mul_le};
use crate::zetas::{zeta_m, ZETAS};

verus! {

/// The plain-domain twiddle of the degree-1 group `g`: groups alternate the
/// sign of ZETAS[64 + g/2], and the factor 169 removes the Montgomery form.
pub open spec fn bz(g: int) -> int {
    if g % 2 == 0 {
        zeta_m(64 + g / 2) * 169
    } else {
        -(zeta_m(64 + g / 2) * 169)
    }
}

/// The base product of two NTT-domain polynomials, canonical and carrying
/// one Montgomery factor R^-1 = 169, exactly as the executable pipeline
/// produces it: group g of the result is
/// (a0*b0 + a1*b1*zeta_g, a0*b1 + a1*b0) * R^-1.
pub open spec fn basemul_spec(a: Seq<int>, b: Seq<int>) -> Seq<int> {
    Seq::new(256, |i: int| {
        let g = i / 2;
        if i % 2 == 0 {
            mod_q((a[2 * g] * b[2 * g] + a[2 * g + 1] * b[2 * g + 1] * bz(g)) * 169)
        } else {
            mod_q((a[2 * g] * b[2 * g + 1] + a[2 * g + 1] * b[2 * g]) * 169)
        }
    })
}

/// Cache of the twiddled odd coefficients of a right-hand operand, one
/// entry per degree-1 group.
#[derive(Clone, Copy, PartialEq, Eq, Debug)]
pub struct PolyMulCache {
    /// One twiddled coefficient per degree-1 group.
    pub coeffs: [i16; 128],
}

impl View for PolyMulCache {
    type V = Seq<i16>;

    #[verifier::inline]
    open spec fn view(&self) -> Seq<i16> {
        self.coeffs@
    }
}

impl PolyMulCache {
    /// An all-zero cache, to be filled by `poly_mulcache_compute`.
    pub fn new() -> (r: Self)
        ensures
            r@.len() == 128,
    {
        PolyMulCache { coeffs: [0i16; 128] }
    }
}

/// The cache entry for group g of `b` holds b[2g+1] * zeta_g, with zeta in
/// the plain domain.
pub open spec fn mulcache_ok(cache: Seq<i16>, b: Seq<i16>) -> bool {
    &&& forall|g: int| 0 <= g < 128
        ==> mod_q(#[trigger] cache[g] as int) == mod_q((b[2 * g + 1] as int) * bz(g))
    &&& forall|g: int| 0 <= g < 128 ==> -2496 <= #[trigger] cache[g] <= 2496
}

/// Precompute the twiddled odd coefficients of `p` so that repeated base
/// multiplications against `p` reuse them.
#[verifier::rlimit(60)]
pub fn poly_mulcache_compute(cache: &mut PolyMulCache, p: &Poly)
    ensures
        mulcache_ok(final(cache)@, p@),
{
    for g in 0..128usize
        invariant
            forall|j: int| 0 <= j < g
                ==> mod_q(#[trigger] cache@[j] as int) == mod_q((p@[2 * j + 1] as int) * bz(j)),
            forall|j: int| 0 <= j < g ==> -2496 <= #[trigger] cache@[j] <= 2496,
    {
        let zi: usize = 64 + g / 2;
        let zeta: i16 = ZETAS[zi];
        proof {
            crate::zetas::lemma_zetas_canonical(zi as int);
        }
        let c: i16 = p.coeffs[2 * g + 1];
        let w: i16 = if g % 2 == 0 {
            fqmul(c, zeta)
        } else {
            fqmul(c, -zeta)
        };
        cache.coeffs[g] = w;
        proof {
            if g % 2 == 0 {
                lemma_unmont(w as int, (c as int) * (zeta as int));
                assert((c as int) * (zeta as int) * 169 == (c as int) * ((zeta as int) * 169))
                    by (nonlinear_arith);
            } else {
                lemma_unmont(w as int, (c as int) * (-zeta as int));
                assert((c as int) * (-zeta as int) * 169 == (c as int) * (-((zeta as int)
                    * 169))) by (nonlinear_arith);
            }
        }
    }
}

/// Base multiplication r = a o b in the NTT domain, using the cache of b's
/// twiddled odd coefficients. The left operand is bounded by the 12-bit
/// packing limit, the right by the forward transform's output bound.
pub fn poly_basemul_montgomery_cached(r: &mut Poly, a: &Poly, b: &Poly, cache: &PolyMulCache)
    requires
        abs_bounded(a@, 4095),
        abs_bounded(b@, 20800),
        mulcache_ok(cache@, b@),
    ensures
        forall|i: int| 0 <= i < 256
            ==> mod_q(#[trigger] final(r)@[i] as int) == basemul_spec(ints(a@), ints(b@))[i],
        abs_bounded(final(r)@, 5932),
{
    for g in 0..128usize
        invariant
            abs_bounded(a@, 4095),
            abs_bounded(b@, 20800),
            mulcache_ok(cache@, b@),
            forall|i: int| 0 <= i < 2 * g
                ==> mod_q(#[trigger] r@[i] as int) == basemul_spec(ints(a@), ints(b@))[i],
            forall|i: int| 0 <= i < 2 * g ==> -5932 <= #[trigger] r@[i] <= 5932,
    {
        let a0: i16 = a.coeffs[2 * g];
        let a1: i16 = a.coeffs[2 * g + 1];
        let b0: i16 = b.coeffs[2 * g];
        let b1: i16 = b.coeffs[2 * g + 1];
        let cb: i16 = cache.coeffs[g];
        let w0: i16 = fqmul_wide(a0, b0);
        let w1: i16 = fqmul_wide(a1, cb);
        let w2: i16 = fqmul_wide(a0, b1);
        let w3: i16 = fqmul_wide(a1, b0);
        proof {
            lemma_abs_mul_le(a0 as int, b0 as int, 4095, 20800);
            lemma_abs_mul_le(a1 as int, cb as int, 4095, 2496);
            lemma_abs_mul_le(a0 as int, b1 as int, 4095, 20800);
            lemma_abs_mul_le(a1 as int, b0 as int, 4095, 20800);
        }
        let c0: i16 = w0 + w1;
        let c1: i16 = w2 + w3;
        r.coeffs[2 * g] = c0;
        r.coeffs[2 * g + 1] = c1;
        proof {
            let gi = g as int;
            let ia = ints(a@);
            let ib = ints(b@);
            // even slot: w0 == a0*b0*169, w1 == a1*cb*169 == a1*b1*bz*169
            lemma_unmont(w0 as int, (a0 as int) * (b0 as int));
            lemma_unmont(w1 as int, (a1 as int) * (cb as int));
            lemma_cong_mul(cb as int, (b1 as int) * bz(gi), a1 as int);
            assert(mod_q((a1 as int) * (cb as int)) == mod_q((a1 as int) * ((b1 as int) * bz(
                gi,
            )))) by {
                assert((cb as int) * (a1 as int) == (a1 as int) * (cb as int))
                    by (nonlinear_arith);
                assert(((b1 as int) * bz(gi)) * (a1 as int) == (a1 as int) * ((b1 as int) * bz(
                    gi,
                ))) by (nonlinear_arith);
            }
            lemma_cong_mul(
                (a1 as int) * (cb as int),
                (a1 as int) * ((b1 as int) * bz(gi)),
                169,
            );
            lemma_cong_add(
                (w0 as int),
                (a0 as int) * (b0 as int) * 169,
                (w1 as int),
                (a1 as int) * ((b1 as int) * bz(gi)) * 169,
            );
            assert(ia[2 * gi] == a0 as int && ia[2 * gi + 1] == a1 as int && ib[2 * gi]
                == b0 as int && ib[2 * gi + 1] == b1 as int);
            assert((a0 as int) * (b0 as int) * 169 + (a1 as int) * ((b1 as int) * bz(gi)) * 169
                == ((a0 as int) * (b0 as int) + (a1 as int) * (b1 as int) * bz(gi)) * 169)
                by (nonlinear_arith);
            // odd slot: w2 == a0*b1*169, w3 == a1*b0*169
            lemma_unmont(w2 as int, (a0 as int) * (b1 as int));
            lemma_unmont(w3 as int, (a1 as int) * (b0 as int));
            lemma_cong_add(
                (w2 as int),
                (a0 as int) * (b1 as int) * 169,
                (w3 as int),
                (a1 as int) * (b0 as int) * 169,
            );
            assert((a0 as int) * (b1 as int) * 169 + (a1 as int) * (b0 as int) * 169 == ((
            a0 as int) * (b1 as int) + (a1 as int) * (b0 as int)) * 169) by (nonlinear_arith);
            assert(basemul_spec(ia, ib)[2 * gi] == mod_q((ia[2 * gi] * ib[2 * gi] + ia[2 * gi
                + 1] * ib[2 * gi + 1] * bz(gi)) * 169)) by {
                assert((2 * gi) % 2 == 0 && (2 * gi) / 2 == gi);
            }
            assert(basemul_spec(ia, ib)[2 * gi + 1] == mod_q((ia[2 * gi] * ib[2 * gi + 1] + ia[2
                * gi + 1] * ib[2 * gi]) * 169)) by {
                assert((2 * gi + 1) % 2 == 1 && (2 * gi + 1) / 2 == gi);
            }
        }
    }
}

} // verus!

verus! {

/// Every entry of a base product is canonical.
pub proof fn lemma_basemul_spec_canonical(a: Seq<int>, b: Seq<int>)
    ensures
        forall|i: int| 0 <= i < 256 ==> 0 <= #[trigger] basemul_spec(a, b)[i] < 3329,
{
    assert forall|i: int| 0 <= i < 256 implies 0 <= #[trigger] basemul_spec(a, b)[i] < 3329 by {
        let g = i / 2;
        if i % 2 == 0 {
            crate::lemma_mod_q_bounds((a[2 * g] * b[2 * g] + a[2 * g + 1] * b[2 * g + 1] * bz(g))
                * 169);
        } else {
            crate::lemma_mod_q_bounds((a[2 * g] * b[2 * g + 1] + a[2 * g + 1] * b[2 * g]) * 169);
        }
    }
}

} // verus!

verus! {

impl Poly {
    /// Method form of the multiplication-cache precomputation.
    pub fn poly_mulcache_compute(&self, cache: &mut PolyMulCache)
        ensures
            mulcache_ok(final(cache)@, self@),
    {
        poly_mulcache_compute(cache, self);
    }
}

} // verus!
