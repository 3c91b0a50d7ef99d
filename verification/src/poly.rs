//! Polynomials of the ring R_q = Z_q[X]/(X^N + 1): the coefficient type,
//! coefficient-wise algebra, canonical reduction, and conversion to the
//! Montgomery domain.

use vstd::prelude::*;
use crate::{lemma_mod_q_small, lemma_mul_const_cong, lemma_unmont, mod_q};
use crate::reduce::{barrett_reduce, fqmul};

verus! {

/// A polynomial of the ring, as its N = 256 signed 16-bit coefficients.
/// Whether a value is in the normal or the Montgomery/NTT domain is a
/// property the caller tracks; the operations here never convert implicitly.
#[derive(Clone, Copy, PartialEq, Eq, Debug)]
pub struct Poly {
    /// Coefficients of the polynomial.
    pub coeffs: [i16; 256],
}

impl View for Poly {
    type V = Seq<i16>;

    #[verifier::inline]
    open spec fn view(&self) -> Seq<i16> {
        self.coeffs@
    }
}

/// The coefficients as mathematical integers.
pub open spec fn ints(s: Seq<i16>) -> Seq<int> {
    Seq::new(s.len(), |i: int| s[i] as int)
}

/// Every entry of `s` lies within [-b, b].
pub open spec fn abs_bounded(s: Seq<i16>, b: int) -> bool {
    forall|i: int| 0 <= i < s.len() ==> -b <= #[trigger] s[i] <= b
}

/// Every entry of `s` is a canonical representative in [0, Q).
pub open spec fn canonical(s: Seq<i16>) -> bool {
    forall|i: int| 0 <= i < s.len() ==> 0 <= #[trigger] s[i] < 3329
}

impl Poly {
    /// The zero polynomial.
    pub fn new() -> (r: Self)
        ensures
            r@.len() == 256,
            forall|i: int| 0 <= i < 256 ==> r@[i] == 0,
    {
        Poly { coeffs: [0i16; 256] }
    }

    /// Maps a centered representative to the canonical one in [0, Q),
    /// branch-free (no data-dependent control flow on the sign).
    pub fn scalar_signed_to_unsigned_q(c: i16) -> (r: u16)
        requires
            -3329 <= c < 3329,
        ensures
            r as int == mod_q(c as int),
    {
        let shifted: u32 = ((c as i32) + 3329) as u32;
        let r: u32 = shifted % 3329;
        proof {
            vstd::arithmetic::div_mod::lemma_mod_multiples_vanish(1, c as int, 3329);
            if c >= 0 {
                lemma_mod_q_small(c as int);
            } else {
                lemma_mod_q_small(c as int + 3329);
                vstd::arithmetic::div_mod::lemma_small_mod((c + 3329) as nat, 3329);
            }
        }
        r as u16
    }

    /// Coefficient-wise addition with no intermediate reduction; the caller
    /// guarantees the headroom.
    pub fn poly_add(&mut self, other: &Poly)
        requires
            forall|i: int| 0 <= i < 256
                ==> -32768 <= #[trigger] old(self)@[i] + other@[i] <= 32767,
        ensures
            forall|i: int| 0 <= i < 256
                ==> final(self)@[i] == old(self)@[i] + other@[i],
    {
        for j in 0..256usize
            invariant
                forall|i: int| 0 <= i < 256
                    ==> -32768 <= #[trigger] old(self)@[i] + other@[i] <= 32767,
                forall|i: int| j <= i < 256 ==> self@[i] == old(self)@[i],
                forall|i: int| 0 <= i < j
                    ==> #[trigger] self@[i] == old(self)@[i] + other@[i],
        {
            self.coeffs[j] = self.coeffs[j] + other.coeffs[j];
        }
    }

    /// Coefficient-wise subtraction with no intermediate reduction.
    pub fn poly_sub(&mut self, other: &Poly)
        requires
            forall|i: int| 0 <= i < 256
                ==> -32768 <= #[trigger] old(self)@[i] - other@[i] <= 32767,
        ensures
            forall|i: int| 0 <= i < 256
                ==> final(self)@[i] == old(self)@[i] - other@[i],
    {
        for j in 0..256usize
            invariant
                forall|i: int| 0 <= i < 256
                    ==> -32768 <= #[trigger] old(self)@[i] - other@[i] <= 32767,
                forall|i: int| j <= i < 256 ==> self@[i] == old(self)@[i],
                forall|i: int| 0 <= i < j
                    ==> #[trigger] self@[i] == old(self)@[i] - other@[i],
        {
            self.coeffs[j] = self.coeffs[j] - other.coeffs[j];
        }
    }
}

/// Barrett-reduce every coefficient and map it to the canonical range [0, Q).
pub fn poly_reduce(r: &mut Poly)
    ensures
        forall|i: int| 0 <= i < 256
            ==> #[trigger] final(r)@[i] == mod_q(old(r)@[i] as int),
        canonical(final(r)@),
{
    for j in 0..256usize
        invariant
            forall|i: int| j <= i < 256 ==> r@[i] == old(r)@[i],
            forall|i: int| 0 <= i < j ==> #[trigger] r@[i] == mod_q(old(r)@[i] as int),
            forall|i: int| 0 <= i < j ==> 0 <= #[trigger] r@[i] < 3329,
    {
        let t: i16 = barrett_reduce(r.coeffs[j]);
        let u: u16 = Poly::scalar_signed_to_unsigned_q(t);
        r.coeffs[j] = u as i16;
        proof {
            lemma_mod_q_small(u as int);
        }
    }
}

/// Multiply every coefficient by 2^32 mod Q (in Montgomery-reduced form,
/// the constant 1353), bringing a normal-domain polynomial into Montgomery
/// representation.
pub fn poly_tomont(r: &mut Poly)
    ensures
        forall|i: int| 0 <= i < 256
            ==> mod_q(#[trigger] final(r)@[i] as int) == mod_q(old(r)@[i] * 65536),
        abs_bounded(final(r)@, 2496),
{
    for j in 0..256usize
        invariant
            forall|i: int| j <= i < 256 ==> r@[i] == old(r)@[i],
            forall|i: int| 0 <= i < j
                ==> mod_q(#[trigger] r@[i] as int) == mod_q(old(r)@[i] * 65536),
            forall|i: int| 0 <= i < j ==> -2496 <= #[trigger] r@[i] <= 2496,
    {
        let c: i16 = r.coeffs[j];
        let m: i16 = fqmul(c, 1353);
        r.coeffs[j] = m;
        proof {
            lemma_unmont(m as int, (c as int) * 1353);
            // 1353 * 169 == 65536 modulo Q
            assert((c as int) * 1353 * 169 == (c as int) * 228657) by (nonlinear_arith);
            lemma_mul_const_cong(c as int, 228657, 65536);
        }
    }
}

} // verus!

verus! {

impl Poly {
    /// Method form of the Montgomery-domain conversion.
    pub fn poly_tomont(&mut self)
        ensures
            forall|i: int| 0 <= i < 256
                ==> mod_q(#[trigger] final(self)@[i] as int) == mod_q(old(self)@[i] * 65536),
            abs_bounded(final(self)@, 2496),
    {
        poly_tomont(self);
    }

    /// Method form of the canonical reduction.
    pub fn poly_reduce(&mut self)
        ensures
            forall|i: int| 0 <= i < 256
                ==> #[trigger] final(self)@[i] == mod_q(old(self)@[i] as int),
            canonical(final(self)@),
    {
        poly_reduce(self);
    }

    /// Method form of one butterfly block of the forward transform.
    pub fn ntt_butterfly_block(&mut self, zeta: i16, start: usize, len: usize)
        requires
            -1664 <= zeta <= 1664,
            1 <= len,
            start + 2 * len <= 256,
            forall|i: int| start <= i < start + 2 * len
                ==> -30271 <= #[trigger] old(self)@[i] <= 30271,
        ensures
            forall|j: int| #![trigger final(self)@[j]] start <= j < start + len ==> {
                &&& -2496 <= final(self)@[j] - old(self)@[j] <= 2496
                &&& mod_q(final(self)@[j] - old(self)@[j])
                    == mod_q(old(self)@[j + len] * zeta * 169)
                &&& final(self)@[j + len] == old(self)@[j] - (final(self)@[j] - old(self)@[j])
            },
            forall|i: int| (0 <= i < start || start + 2 * len <= i < 256)
                ==> final(self)@[i] == old(self)@[i],
    {
        crate::ntt::ntt_butterfly_block(self, zeta, start, len);
    }

    /// Method form of one forward layer.
    pub fn ntt_layer(&mut self, layer: usize)
        requires
            1 <= layer <= 7,
            abs_bounded(old(self)@, 27775),
        ensures
            forall|i: int| 0 <= i < 256
                ==> mod_q(#[trigger] final(self)@[i] as int)
                    == crate::ntt::ct_layer_spec(
                    ints(old(self)@),
                    crate::ntt::layer_len(layer as int),
                )[i],
            crate::ntt::ct_layer_writes(
                old(self)@,
                final(self)@,
                crate::ntt::layer_len(layer as int),
                256,
            ),
            abs_bounded(final(self)@, 30271),
    {
        crate::ntt::ntt_layer(self, layer, Ghost(27775));
    }

    /// Method form of the full forward transform.
    pub fn poly_ntt(&mut self)
        requires
            abs_bounded(old(self)@, 3328),
        ensures
            forall|i: int| 0 <= i < 256
                ==> mod_q(#[trigger] final(self)@[i] as int)
                    == crate::ntt::ntt_spec(ints(old(self)@))[i],
            abs_bounded(final(self)@, 20800),
    {
        crate::ntt::poly_ntt(self);
    }

    /// Method form of the full inverse transform with Montgomery scaling.
    pub fn poly_invntt_tomont(&mut self)
        ensures
            forall|i: int| 0 <= i < 256
                ==> mod_q(#[trigger] final(self)@[i] as int)
                    == crate::ntt::invntt_spec(ints(old(self)@))[i],
            abs_bounded(final(self)@, 2496),
    {
        crate::ntt::invntt_tomont(self);
    }
}

} // verus!
