//! Rank-K vectors of polynomials (K = 2): componentwise algebra, the
//! accumulated base multiplication, serialization and compression.

use vstd::prelude::*;
use crate::{lemma_cong_add, mod_q};
use crate::basemul::{
    basemul_spec, poly_basemul_montgomery_cached, poly_mulcache_compute, PolyMulCache,
};
use crate::codec::{
    compress_poly_du, compress_seq, decompress_poly_du, decompress_spec, frombytes_spec,
    pack10_spec, poly_frombytes, poly_tobytes, tobytes_spec, unpack10_spec,
};
use crate::ntt::{invntt_spec, invntt_tomont, ntt_spec, poly_ntt};
use crate::poly::{abs_bounded, canonical, ints, poly_reduce, Poly};

verus! {

/// A vector of exactly K = 2 polynomials.
#[derive(Clone, Copy, PartialEq, Eq, Debug)]
pub struct PolyVec {
    /// The two component polynomials.
    pub vec: [Poly; 2],
}

impl PolyVec {
    /// The zero vector.
    pub fn new() -> (r: Self)
        ensures
            forall|i: int| 0 <= i < 256 ==> #[trigger] r.vec[0]@[i] == 0,
            forall|i: int| 0 <= i < 256 ==> #[trigger] r.vec[1]@[i] == 0,
    {
        PolyVec { vec: [Poly::new(), Poly::new()] }
    }

    /// Componentwise addition, with the same headroom obligation as the
    /// polynomial addition.
    pub fn polyvec_add(&mut self, other: &PolyVec)
        requires
            forall|i: int| 0 <= i < 256
                ==> -32768 <= #[trigger] old(self).vec[0]@[i] + other.vec[0]@[i] <= 32767,
            forall|i: int| 0 <= i < 256
                ==> -32768 <= #[trigger] old(self).vec[1]@[i] + other.vec[1]@[i] <= 32767,
        ensures
            forall|i: int| 0 <= i < 256
                ==> #[trigger] final(self).vec[0]@[i] == old(self).vec[0]@[i]
                    + other.vec[0]@[i],
            forall|i: int| 0 <= i < 256
                ==> #[trigger] final(self).vec[1]@[i] == old(self).vec[1]@[i]
                    + other.vec[1]@[i],
    {
        let mut p0 = self.vec[0];
        p0.poly_add(&other.vec[0]);
        self.vec[0] = p0;
        let mut p1 = self.vec[1];
        p1.poly_add(&other.vec[1]);
        self.vec[1] = p1;
    }

    /// Barrett-reduce every coefficient of both components.
    pub fn polyvec_reduce(&mut self)
        ensures
            forall|i: int| 0 <= i < 256
                ==> #[trigger] final(self).vec[0]@[i] == mod_q(old(self).vec[0]@[i] as int),
            forall|i: int| 0 <= i < 256
                ==> #[trigger] final(self).vec[1]@[i] == mod_q(old(self).vec[1]@[i] as int),
            canonical(final(self).vec[0]@),
            canonical(final(self).vec[1]@),
    {
        let mut p0 = self.vec[0];
        poly_reduce(&mut p0);
        self.vec[0] = p0;
        let mut p1 = self.vec[1];
        poly_reduce(&mut p1);
        self.vec[1] = p1;
    }

    /// Forward NTT of both components.
    pub fn polyvec_ntt(&mut self)
        requires
            abs_bounded(old(self).vec[0]@, 3328),
            abs_bounded(old(self).vec[1]@, 3328),
        ensures
            forall|i: int| 0 <= i < 256
                ==> mod_q(#[trigger] final(self).vec[0]@[i] as int)
                    == ntt_spec(ints(old(self).vec[0]@))[i],
            forall|i: int| 0 <= i < 256
                ==> mod_q(#[trigger] final(self).vec[1]@[i] as int)
                    == ntt_spec(ints(old(self).vec[1]@))[i],
            abs_bounded(final(self).vec[0]@, 20800),
            abs_bounded(final(self).vec[1]@, 20800),
    {
        let mut p0 = self.vec[0];
        poly_ntt(&mut p0);
        self.vec[0] = p0;
        let mut p1 = self.vec[1];
        poly_ntt(&mut p1);
        self.vec[1] = p1;
    }

    /// Inverse NTT (with the Montgomery output scaling) of both components.
    pub fn polyvec_invntt_tomont(&mut self)
        ensures
            forall|i: int| 0 <= i < 256
                ==> mod_q(#[trigger] final(self).vec[0]@[i] as int)
                    == invntt_spec(ints(old(self).vec[0]@))[i],
            forall|i: int| 0 <= i < 256
                ==> mod_q(#[trigger] final(self).vec[1]@[i] as int)
                    == invntt_spec(ints(old(self).vec[1]@))[i],
            abs_bounded(final(self).vec[0]@, 2496),
            abs_bounded(final(self).vec[1]@, 2496),
    {
        let mut p0 = self.vec[0];
        invntt_tomont(&mut p0);
        self.vec[0] = p0;
        let mut p1 = self.vec[1];
        invntt_tomont(&mut p1);
        self.vec[1] = p1;
    }

    /// Serialize both components as 12-bit packed coefficients (2 * 384
    /// bytes appended to `out`).
    pub fn polyvec_tobytes(&self, out: &mut Vec<u8>)
        requires
            forall|i: int| 0 <= i < 256 ==> 0 <= #[trigger] self.vec[0]@[i] < 4096,
            forall|i: int| 0 <= i < 256 ==> 0 <= #[trigger] self.vec[1]@[i] < 4096,
        ensures
            final(out)@.len() == old(out)@.len() + 768,
            forall|i: int| 0 <= i < old(out)@.len()
                ==> #[trigger] final(out)@[i] == old(out)@[i],
            forall|i: int| 0 <= i < 384
                ==> #[trigger] final(out)@[old(out)@.len() + i] as int
                    == tobytes_spec(ints(self.vec[0]@))[i],
            forall|i: int| 0 <= i < 384
                ==> #[trigger] final(out)@[old(out)@.len() + 384 + i] as int
                    == tobytes_spec(ints(self.vec[1]@))[i],
    {
        poly_tobytes(&self.vec[0], out);
        poly_tobytes(&self.vec[1], out);
    }

    /// Read a vector back from 2 * 384 packed bytes at `off`, checking the
    /// 12-bit limit of every coefficient.
    pub fn polyvec_frombytes(bytes: &Vec<u8>, off: usize) -> (r: PolyVec)
        requires
            off + 768 <= bytes@.len(),
        ensures
            forall|i: int| 0 <= i < 256
                ==> #[trigger] r.vec[0]@[i] as int == frombytes_spec(bytes@, off as int)[i],
            forall|i: int| 0 <= i < 256
                ==> #[trigger] r.vec[1]@[i] as int == frombytes_spec(
                    bytes@,
                    off as int + 384,
                )[i],
            forall|i: int| 0 <= i < 256 ==> 0 <= #[trigger] r.vec[0]@[i] < 4096,
            forall|i: int| 0 <= i < 256 ==> 0 <= #[trigger] r.vec[1]@[i] < 4096,
    {
        let blen: usize = bytes.len();
        let p0 = poly_frombytes(bytes, off);
        let p1 = poly_frombytes(bytes, off + 384);
        PolyVec { vec: [p0, p1] }
    }

    /// Compress and serialize the vector with d_u = 10 bits per coefficient
    /// (2 * 320 bytes appended to `out`).
    pub fn polyvec_compress(&self, out: &mut Vec<u8>)
        requires
            canonical(self.vec[0]@),
            canonical(self.vec[1]@),
        ensures
            final(out)@.len() == old(out)@.len() + 640,
            forall|i: int| 0 <= i < old(out)@.len()
                ==> #[trigger] final(out)@[i] == old(out)@[i],
            forall|i: int| 0 <= i < 320
                ==> #[trigger] final(out)@[old(out)@.len() + i] as int
                    == pack10_spec(compress_seq(ints(self.vec[0]@), 10))[i],
            forall|i: int| 0 <= i < 320
                ==> #[trigger] final(out)@[old(out)@.len() + 320 + i] as int
                    == pack10_spec(compress_seq(ints(self.vec[1]@), 10))[i],
    {
        compress_poly_du(&self.vec[0], out);
        compress_poly_du(&self.vec[1], out);
    }

    /// Read a compressed vector back from 2 * 320 bytes at `off` and
    /// decompress it to canonical coefficients.
    pub fn polyvec_decompress(bytes: &Vec<u8>, off: usize) -> (r: PolyVec)
        requires
            off + 640 <= bytes@.len(),
        ensures
            forall|i: int| 0 <= i < 256
                ==> #[trigger] r.vec[0]@[i] as int == decompress_spec(
                    unpack10_spec(bytes@, off as int)[i],
                    10,
                ),
            forall|i: int| 0 <= i < 256
                ==> #[trigger] r.vec[1]@[i] as int == decompress_spec(
                    unpack10_spec(bytes@, off as int + 320)[i],
                    10,
                ),
            canonical(r.vec[0]@),
            canonical(r.vec[1]@),
    {
        let blen: usize = bytes.len();
        let p0 = decompress_poly_du(bytes, off);
        let p1 = decompress_poly_du(bytes, off + 320);
        PolyVec { vec: [p0, p1] }
    }
}

/// The inner product of two vectors in the NTT domain, as the sum of the
/// two base products (still carrying one Montgomery factor).
pub open spec fn basemul_acc_spec(
    a0: Seq<i16>,
    a1: Seq<i16>,
    b0: Seq<i16>,
    b1: Seq<i16>,
) -> Seq<int> {
    Seq::new(
        256,
        |i: int| mod_q(basemul_spec(ints(a0), ints(b0))[i] + basemul_spec(ints(a1), ints(b1))[i]),
    )
}

/// r = a^T o b: base-multiply componentwise in the NTT domain and
/// accumulate. The caches of b's components are computed here.
pub fn polyvec_basemul_acc_montgomery(r: &mut Poly, a: &PolyVec, b: &PolyVec)
    requires
        abs_bounded(a.vec[0]@, 4095),
        abs_bounded(a.vec[1]@, 4095),
        abs_bounded(b.vec[0]@, 20800),
        abs_bounded(b.vec[1]@, 20800),
    ensures
        forall|i: int| 0 <= i < 256
            ==> mod_q(#[trigger] final(r)@[i] as int)
                == basemul_acc_spec(a.vec[0]@, a.vec[1]@, b.vec[0]@, b.vec[1]@)[i],
        abs_bounded(final(r)@, 11864),
{
    let mut cache0 = PolyMulCache::new();
    poly_mulcache_compute(&mut cache0, &b.vec[0]);
    let mut cache1 = PolyMulCache::new();
    poly_mulcache_compute(&mut cache1, &b.vec[1]);
    let mut t0 = Poly::new();
    poly_basemul_montgomery_cached(&mut t0, &a.vec[0], &b.vec[0], &cache0);
    let mut t1 = Poly::new();
    poly_basemul_montgomery_cached(&mut t1, &a.vec[1], &b.vec[1], &cache1);
    t0.poly_add(&t1);
    *r = t0;
    proof {
        let sp = basemul_acc_spec(a.vec[0]@, a.vec[1]@, b.vec[0]@, b.vec[1]@);
        crate::basemul::lemma_basemul_spec_canonical(ints(a.vec[0]@), ints(b.vec[0]@));
        crate::basemul::lemma_basemul_spec_canonical(ints(a.vec[1]@), ints(b.vec[1]@));
        assert forall|i: int| 0 <= i < 256 implies mod_q(#[trigger] final(r)@[i] as int)
            == sp[i] by {
            crate::lemma_mod_q_small(basemul_spec(ints(a.vec[0]@), ints(b.vec[0]@))[i]);
            crate::lemma_mod_q_small(basemul_spec(ints(a.vec[1]@), ints(b.vec[1]@))[i]);
            lemma_cong_add(
                t0@[i] - t1@[i],
                basemul_spec(ints(a.vec[0]@), ints(b.vec[0]@))[i],
                t1@[i] as int,
                basemul_spec(ints(a.vec[1]@), ints(b.vec[1]@))[i],
            );
            vstd::arithmetic::div_mod::lemma_mod_twice(
                basemul_spec(ints(a.vec[0]@), ints(b.vec[0]@))[i] + basemul_spec(
                    ints(a.vec[1]@),
                    ints(b.vec[1]@),
                )[i],
                3329,
            );
        }
    }
}

} // verus!

verus! {

/// Serialization round trip at the vector level: reading back the 12-bit
/// packing of any vector with coefficients below 4096 recovers both
/// components exactly, so deserialization inverts serialization on every
/// valid vector.
pub proof fn lemma_polyvec_bytes_roundtrip(p0: Seq<int>, p1: Seq<int>, b: Seq<u8>)
    requires
        p0.len() == 256,
        p1.len() == 256,
        forall|i: int| 0 <= i < 256 ==> 0 <= #[trigger] p0[i] < 4096,
        forall|i: int| 0 <= i < 256 ==> 0 <= #[trigger] p1[i] < 4096,
        b.len() == 768,
        forall|i: int| 0 <= i < 384 ==> b[i] as int == #[trigger] tobytes_spec(p0)[i],
        forall|i: int| 0 <= i < 384 ==> b[384 + i] as int == #[trigger] tobytes_spec(p1)[i],
    ensures
        forall|i: int| 0 <= i < 256 ==> #[trigger] frombytes_spec(b, 0)[i] == p0[i],
        forall|i: int| 0 <= i < 256 ==> #[trigger] frombytes_spec(b, 384)[i] == p1[i],
{
    assert forall|i: int| 0 <= i < 384 implies b[0 + i] as int == #[trigger] tobytes_spec(
        p0,
    )[i] by {
        assert(b[i] as int == tobytes_spec(p0)[i]);
    }
    crate::codec::lemma_tobytes_frombytes(p0, b, 0);
    crate::codec::lemma_tobytes_frombytes(p1, b, 384);
}

} // verus!
