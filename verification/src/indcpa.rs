//! The IND-CPA public-key scheme: key generation, encryption and
//! decryption, each pinned to an exact byte-level specification built from
//! the named hash outputs and the spec-level transforms.

use vstd::prelude::*;
use crate::{lemma_cong_mul, mod_q};
use crate::basemul::basemul_spec;
use crate::codec::{
    compress_poly_dv, compress_seq, decompress_poly_dv, decompress_spec, frombytes_spec,
    msgbyte_upto, pack10_spec, poly_frommsg, poly_tomsg, tobytes_spec, unpack10_spec,
};
use crate::error::KemError;
use crate::ntt::{invntt_spec, invntt_tomont, ntt_spec, poly_ntt};
use crate::poly::{abs_bounded, canonical, ints, poly_reduce, poly_tomont, Poly};
use crate::polyvec::{polyvec_basemul_acc_montgomery, PolyVec};
use crate::sampler::{cbd_spec, poly_cbd_eta1, poly_cbd_eta2, rej_acc, uniform_from_bytes};
use crate::symmetric::{sha3_512_of, shake128_of, shake256_of, MLKEMHashes};

verus! {

/// The matrix seed: first half of G(seed).
pub open spec fn kg_rho(seed: Seq<u8>) -> Seq<u8> {
    sha3_512_of(seed).subrange(0, 32)
}

/// The noise seed: second half of G(seed).
pub open spec fn kg_sigma(seed: Seq<u8>) -> Seq<u8> {
    sha3_512_of(seed).subrange(32, 64)
}

/// One uniform matrix entry: rejection sampling over the XOF stream of
/// rho with the two counter bytes appended. None when the fixed XOF budget
/// carries fewer than 256 candidates below Q.
pub open spec fn gen_poly_spec(rho: Seq<u8>, b1: u8, b2: u8) -> Option<Seq<int>> {
    let acc = rej_acc(shake128_of(rho.push(b1).push(b2), 840), 560);
    if acc.len() == 256 {
        Some(acc)
    } else {
        None
    }
}

/// Centered binomial noise of width eta_1 under nonce `n`.
pub open spec fn noise_eta1(key: Seq<u8>, n: u8) -> Seq<int> {
    cbd_spec(shake256_of(key.push(n), 192), 3)
}

/// Centered binomial noise of width eta_2 under nonce `n`.
pub open spec fn noise_eta2(key: Seq<u8>, n: u8) -> Seq<int> {
    cbd_spec(shake256_of(key.push(n), 128), 2)
}

/// Coefficient-wise canonical sum.
pub open spec fn add_reduce(a: Seq<int>, b: Seq<int>) -> Seq<int> {
    Seq::new(256, |k: int| mod_q(a[k] + b[k]))
}

/// Coefficient-wise canonical sum of three addends.
pub open spec fn add3_reduce(a: Seq<int>, b: Seq<int>, c: Seq<int>) -> Seq<int> {
    Seq::new(256, |k: int| mod_q(a[k] + b[k] + c[k]))
}

/// Coefficient-wise canonical multiplication by R = 2^16 (the to-Montgomery
/// scaling followed by reduction).
pub open spec fn scale_reduce(a: Seq<int>) -> Seq<int> {
    Seq::new(256, |k: int| mod_q(a[k] * 65536))
}

/// All four matrix entries can be sampled within the XOF budget.
pub open spec fn kg_ok(seed: Seq<u8>) -> bool {
    &&& gen_poly_spec(kg_rho(seed), 0, 0) is Some
    &&& gen_poly_spec(kg_rho(seed), 1, 0) is Some
    &&& gen_poly_spec(kg_rho(seed), 0, 1) is Some
    &&& gen_poly_spec(kg_rho(seed), 1, 1) is Some
}

/// Component j of the secret vector in the NTT domain, canonical.
pub open spec fn kg_shat(seed: Seq<u8>, j: u8) -> Seq<int> {
    ntt_spec(noise_eta1(kg_sigma(seed), j))
}

/// Component i of the error vector in the NTT domain, canonical.
pub open spec fn kg_ehat(seed: Seq<u8>, i: u8) -> Seq<int> {
    ntt_spec(noise_eta2(kg_sigma(seed), (2 + i) as u8))
}

/// Component i of the public vector t = A o s + e in the NTT domain.
pub open spec fn kg_t(seed: Seq<u8>, i: u8) -> Seq<int> {
    let a0 = gen_poly_spec(kg_rho(seed), 0, i)->Some_0;
    let a1 = gen_poly_spec(kg_rho(seed), 1, i)->Some_0;
    add_reduce(
        scale_reduce(
            add_reduce(
                basemul_spec(a0, kg_shat(seed, 0)),
                basemul_spec(a1, kg_shat(seed, 1)),
            ),
        ),
        kg_ehat(seed, i),
    )
}

/// Copy `base` and append one nonce byte.
pub(crate) fn with_nonce(base: &Vec<u8>, n: u8) -> (r: Vec<u8>)
    ensures
        r@ == base@.push(n),
{
    let mut r: Vec<u8> = Vec::new();
    let n0: usize = base.len();
    for i in 0..n0
        invariant
            n0 == base@.len(),
            r@.len() == i,
            forall|k: int| 0 <= k < i ==> #[trigger] r@[k] == base@[k],
    {
        r.push(base[i]);
    }
    r.push(n);
    proof {
        assert(r@ =~= base@.push(n));
    }
    r
}

/// Append the whole of `src` to `dst`.
pub(crate) fn append_bytes(dst: &mut Vec<u8>, src: &Vec<u8>)
    ensures
        final(dst)@ == old(dst)@ + src@,
{
    let n0: usize = src.len();
    for i in 0..n0
        invariant
            n0 == src@.len(),
            dst@.len() == old(dst)@.len() + i,
            forall|k: int| 0 <= k < old(dst)@.len() ==> #[trigger] dst@[k] == old(dst)@[k],
            forall|k: int| 0 <= k < i
                ==> #[trigger] dst@[old(dst)@.len() + k] == src@[k],
    {
        dst.push(src[i]);
    }
    proof {
        assert forall|j: int| 0 <= j < dst@.len() implies dst@[j] == (old(dst)@ + src@)[j] by {
            if j >= old(dst)@.len() {
                let k = j - old(dst)@.len();
                assert(dst@[old(dst)@.len() + k] == src@[k]);
            }
        }
        assert(dst@ =~= old(dst)@ + src@);
    }
}

/// Sample one uniform NTT-domain polynomial from the XOF stream of `rho`
/// with two counter bytes.
pub(crate) fn gen_poly(rho: &Vec<u8>, b1: u8, b2: u8) -> (r: Option<Poly>)
    ensures
        r is Some <==> gen_poly_spec(rho@, b1, b2) is Some,
        r is Some ==> forall|i: int| 0 <= i < 256
            ==> #[trigger] r->Some_0@[i] as int == gen_poly_spec(rho@, b1, b2)->Some_0[i],
        r is Some ==> canonical(r->Some_0@),
{
    let t = with_nonce(rho, b1);
    let input = with_nonce(&t, b2);
    let buf = MLKEMHashes::xof(input.as_slice());
    uniform_from_bytes(&buf)
}

/// Sample, transform and canonicalize one noise polynomial of width eta_1.
fn sample_ntt_eta1(key: &Vec<u8>, n: u8) -> (r: Poly)
    ensures
        forall|i: int| 0 <= i < 256
            ==> #[trigger] r@[i] as int == ntt_spec(noise_eta1(key@, n))[i],
        canonical(r@),
{
    let input = with_nonce(key, n);
    let buf = MLKEMHashes::prf_eta1(input.as_slice());
    let mut p = poly_cbd_eta1(&buf);
    let ghost pcbd = p@;
    proof {
        assert(ints(pcbd) =~= noise_eta1(key@, n));
    }
    poly_ntt(&mut p);
    poly_reduce(&mut p);
    p
}

/// Sample, transform and canonicalize one noise polynomial of width eta_2.
fn sample_ntt_eta2(key: &Vec<u8>, n: u8) -> (r: Poly)
    ensures
        forall|i: int| 0 <= i < 256
            ==> #[trigger] r@[i] as int == ntt_spec(noise_eta2(key@, n))[i],
        canonical(r@),
{
    let input = with_nonce(key, n);
    let buf = MLKEMHashes::prf_eta2(input.as_slice());
    let mut p = poly_cbd_eta2(&buf);
    let ghost pcbd = p@;
    proof {
        assert(ints(pcbd) =~= noise_eta2(key@, n));
    }
    poly_ntt(&mut p);
    poly_reduce(&mut p);
    p
}

/// Accumulated base multiplication r = a^T o b followed by reduction to
/// canonical coefficients: exactly the canonical sum of the two base
/// products.
fn basemul_acc_reduced(a: &PolyVec, b: &PolyVec) -> (r: Poly)
    requires
        abs_bounded(a.vec[0]@, 4095),
        abs_bounded(a.vec[1]@, 4095),
        abs_bounded(b.vec[0]@, 20800),
        abs_bounded(b.vec[1]@, 20800),
    ensures
        forall|i: int| 0 <= i < 256
            ==> #[trigger] r@[i] as int == add_reduce(
                basemul_spec(ints(a.vec[0]@), ints(b.vec[0]@)),
                basemul_spec(ints(a.vec[1]@), ints(b.vec[1]@)),
            )[i],
        canonical(r@),
{
    let mut acc = Poly::new();
    polyvec_basemul_acc_montgomery(&mut acc, a, b);
    poly_reduce(&mut acc);
    proof {
        assert forall|i: int| 0 <= i < 256 implies #[trigger] acc@[i] as int == add_reduce(
            basemul_spec(ints(a.vec[0]@), ints(b.vec[0]@)),
            basemul_spec(ints(a.vec[1]@), ints(b.vec[1]@)),
        )[i] by {
            vstd::arithmetic::div_mod::lemma_mod_twice(
                basemul_spec(ints(a.vec[0]@), ints(b.vec[0]@))[i] + basemul_spec(
                    ints(a.vec[1]@),
                    ints(b.vec[1]@),
                )[i],
                3329,
            );
        }
    }
    acc
}

/// IND-CPA key generation: derive (rho, sigma) from the seed, expand the
/// matrix A from rho, sample s and e from sigma, and form t = A o s + e in
/// the NTT domain. The public key is t serialized followed by rho; the
/// secret key is s serialized. Fails only when the fixed XOF budget cannot
/// supply a matrix entry, which correct hashes make vanishingly rare.
pub fn indcpa_keygen(seed: &Vec<u8>) -> (r: Result<(Vec<u8>, Vec<u8>), KemError>)
    requires
        seed@.len() == 32,
    ensures
        r is Ok <==> kg_ok(seed@),
        r is Err ==> r->Err_0 == KemError::InternalError,
        r is Ok ==> ({
            let pk = (r->Ok_0).0;
            let sk = (r->Ok_0).1;
            &&& pk@.len() == 800
            &&& sk@.len() == 768
            &&& (forall|i: int| 0 <= i < 384
                ==> #[trigger] pk@[i] as int == tobytes_spec(kg_t(seed@, 0))[i])
            &&& (forall|i: int| 0 <= i < 384
                ==> #[trigger] pk@[384 + i] as int == tobytes_spec(kg_t(seed@, 1))[i])
            &&& (forall|i: int| 0 <= i < 32 ==> #[trigger] pk@[768 + i] == kg_rho(seed@)[i])
            &&& (forall|i: int| 0 <= i < 384
                ==> #[trigger] sk@[i] as int == tobytes_spec(kg_shat(seed@, 0))[i])
            &&& (forall|i: int| 0 <= i < 384
                ==> #[trigger] sk@[384 + i] as int == tobytes_spec(kg_shat(seed@, 1))[i])
        }),
{
    let (rho, sigma) = MLKEMHashes::g(seed.as_slice());
    // matrix A, entry (i, j) from counter bytes (j, i)
    let a00 = match gen_poly(&rho, 0, 0) {
        Some(p) => p,
        None => {
            return Err(KemError::InternalError);
        },
    };
    let a01 = match gen_poly(&rho, 1, 0) {
        Some(p) => p,
        None => {
            return Err(KemError::InternalError);
        },
    };
    let a10 = match gen_poly(&rho, 0, 1) {
        Some(p) => p,
        None => {
            return Err(KemError::InternalError);
        },
    };
    let a11 = match gen_poly(&rho, 1, 1) {
        Some(p) => p,
        None => {
            return Err(KemError::InternalError);
        },
    };
    let s0 = sample_ntt_eta1(&sigma, 0);
    let s1 = sample_ntt_eta1(&sigma, 1);
    let e0 = sample_ntt_eta2(&sigma, 2);
    let e1 = sample_ntt_eta2(&sigma, 3);
    let svec = PolyVec { vec: [s0, s1] };
    let row0 = PolyVec { vec: [a00, a01] };
    let row1 = PolyVec { vec: [a10, a11] };
    let mut t0 = basemul_acc_reduced(&row0, &svec);
    let mut t1 = basemul_acc_reduced(&row1, &svec);
    let ghost acc0 = ints(t0@);
    let ghost acc1 = ints(t1@);
    poly_tomont(&mut t0);
    poly_reduce(&mut t0);
    poly_tomont(&mut t1);
    poly_reduce(&mut t1);
    proof {
        assert forall|i: int| 0 <= i < 256 implies #[trigger] t0@[i] as int == scale_reduce(
            acc0,
        )[i] && t1@[i] as int == scale_reduce(acc1)[i] by {
            lemma_cong_mul(acc0[i], acc0[i], 65536);
            lemma_cong_mul(acc1[i], acc1[i], 65536);
        }
    }
    let ghost tm0 = ints(t0@);
    let ghost tm1 = ints(t1@);
    t0.poly_add(&e0);
    poly_reduce(&mut t0);
    t1.poly_add(&e1);
    poly_reduce(&mut t1);
    proof {
        assert(ints(t0@) =~= add_reduce(tm0, ints(e0@)));
        assert(ints(t1@) =~= add_reduce(tm1, ints(e1@)));
        // tie every intermediate to its seed-level specification
        assert(ints(s0@) =~= kg_shat(seed@, 0));
        assert(ints(s1@) =~= kg_shat(seed@, 1));
        assert(ints(e0@) =~= kg_ehat(seed@, 0));
        assert(ints(e1@) =~= kg_ehat(seed@, 1));
        assert(ints(a00@) =~= gen_poly_spec(kg_rho(seed@), 0, 0)->Some_0);
        assert(ints(a01@) =~= gen_poly_spec(kg_rho(seed@), 1, 0)->Some_0);
        assert(ints(a10@) =~= gen_poly_spec(kg_rho(seed@), 0, 1)->Some_0);
        assert(ints(a11@) =~= gen_poly_spec(kg_rho(seed@), 1, 1)->Some_0);
        assert(acc0 =~= add_reduce(
            basemul_spec(ints(a00@), ints(s0@)),
            basemul_spec(ints(a01@), ints(s1@)),
        ));
        assert(acc1 =~= add_reduce(
            basemul_spec(ints(a10@), ints(s0@)),
            basemul_spec(ints(a11@), ints(s1@)),
        ));
        assert(ints(t0@) =~= kg_t(seed@, 0));
        assert(ints(t1@) =~= kg_t(seed@, 1));
    }
    let tvec = PolyVec { vec: [t0, t1] };
    let mut pk: Vec<u8> = Vec::new();
    tvec.polyvec_tobytes(&mut pk);
    let ghost pkpre = pk@;
    append_bytes(&mut pk, &rho);
    let mut sk: Vec<u8> = Vec::new();
    svec.polyvec_tobytes(&mut sk);
    proof {
        assert(pk@.len() == 800);
        assert forall|i: int| 0 <= i < 384 implies #[trigger] pk@[i] as int == tobytes_spec(
            kg_t(seed@, 0),
        )[i] by {
            assert(pkpre[0 + i] as int == tobytes_spec(ints(t0@))[i]);
            assert(pk@[i] == pkpre[i]);
        }
        assert forall|i: int| 0 <= i < 384 implies #[trigger] pk@[384 + i] as int
            == tobytes_spec(kg_t(seed@, 1))[i] by {
            assert(pkpre[0 + 384 + i] as int == tobytes_spec(ints(t1@))[i]);
            assert(pk@[384 + i] == pkpre[384 + i]);
        }
        assert forall|i: int| 0 <= i < 32 implies #[trigger] pk@[768 + i] == kg_rho(
            seed@,
        )[i] by {
            assert(pk@[pkpre.len() + i] == rho@[i]);
        }
        assert forall|i: int| 0 <= i < 384 implies #[trigger] sk@[i] as int == tobytes_spec(
            kg_shat(seed@, 0),
        )[i] by {
            assert(sk@[0 + i] as int == tobytes_spec(ints(s0@))[i]);
        }
        assert forall|i: int| 0 <= i < 384 implies #[trigger] sk@[384 + i] as int
            == tobytes_spec(kg_shat(seed@, 1))[i] by {
            assert(sk@[0 + 384 + i] as int == tobytes_spec(ints(s1@))[i]);
        }
    }
    Ok((pk, sk))
}

} // verus!

verus! {

/// Coefficient-wise canonical difference.
pub open spec fn sub_reduce(a: Seq<int>, b: Seq<int>) -> Seq<int> {
    Seq::new(256, |k: int| mod_q(a[k] - b[k]))
}

/// The message expanded to a polynomial: each bit scaled by round(Q/2).
pub open spec fn msgpoly_spec(msg: Seq<u8>) -> Seq<int> {
    Seq::new(256, |k: int| crate::codec::msg_bit(msg, k) * 1665)
}

/// The matrix seed carried at the tail of a public key.
pub open spec fn pk_rho(pk: Seq<u8>) -> Seq<u8> {
    pk.subrange(768, 800)
}

/// Component i of the deserialized public vector t.
pub open spec fn pk_that(pk: Seq<u8>, i: int) -> Seq<int> {
    frombytes_spec(pk, 384 * i)
}

/// All four transposed matrix entries can be sampled from the key's seed.
pub open spec fn enc_ok(pk: Seq<u8>) -> bool {
    &&& gen_poly_spec(pk_rho(pk), 0, 0) is Some
    &&& gen_poly_spec(pk_rho(pk), 0, 1) is Some
    &&& gen_poly_spec(pk_rho(pk), 1, 0) is Some
    &&& gen_poly_spec(pk_rho(pk), 1, 1) is Some
}

/// Entry (i, j) of the transposed matrix A^T, from counter bytes (i, j).
pub open spec fn enc_at(pk: Seq<u8>, i: u8, j: u8) -> Seq<int> {
    gen_poly_spec(pk_rho(pk), i, j)->Some_0
}

/// Component j of the encryption randomness vector in the NTT domain.
pub open spec fn enc_rhat(coins: Seq<u8>, j: u8) -> Seq<int> {
    ntt_spec(noise_eta1(coins, j))
}

/// Component i of the ciphertext vector u = A^T o r + e1, canonical.
pub open spec fn enc_u(pk: Seq<u8>, coins: Seq<u8>, i: u8) -> Seq<int> {
    add_reduce(
        invntt_spec(
            add_reduce(
                basemul_spec(enc_at(pk, i, 0), enc_rhat(coins, 0)),
                basemul_spec(enc_at(pk, i, 1), enc_rhat(coins, 1)),
            ),
        ),
        noise_eta1(coins, (2 + i) as u8),
    )
}

/// The ciphertext polynomial v = t^T o r + e2 + decompress_1(msg).
pub open spec fn enc_v(pk: Seq<u8>, coins: Seq<u8>, msg: Seq<u8>) -> Seq<int> {
    add3_reduce(
        invntt_spec(
            add_reduce(
                basemul_spec(pk_that(pk, 0), enc_rhat(coins, 0)),
                basemul_spec(pk_that(pk, 1), enc_rhat(coins, 1)),
            ),
        ),
        noise_eta2(coins, 4),
        msgpoly_spec(msg),
    )
}

/// Copy `len` bytes of `v` starting at `start`.
pub(crate) fn sub_bytes(v: &Vec<u8>, start: usize, len: usize) -> (r: Vec<u8>)
    requires
        start + len <= v@.len(),
    ensures
        r@ == v@.subrange(start as int, start as int + len),
{
    let mut r: Vec<u8> = Vec::new();
    let vlen: usize = v.len();
    for i in 0..len
        invariant
            start + len <= vlen,
            vlen == v@.len(),
            r@.len() == i,
            forall|k: int| 0 <= k < i ==> #[trigger] r@[k] == v@[start + k],
    {
        r.push(v[start + i]);
    }
    proof {
        assert(r@ =~= v@.subrange(start as int, start as int + len));
    }
    r
}

/// IND-CPA encryption: expand the transposed matrix from the key's seed,
/// sample the randomness vector and errors from `coins`, and compress
/// u = A^T o r + e1 and v = t^T o r + e2 + decompress_1(msg) into the
/// ciphertext. Deterministic given `coins`.
pub fn indcpa_encrypt(pk: &Vec<u8>, msg: &Vec<u8>, coins: &Vec<u8>) -> (r: Result<
    Vec<u8>,
    KemError,
>)
    ensures
        r is Ok <==> (pk@.len() == 800 && msg@.len() == 32 && coins@.len() == 32 && enc_ok(
            pk@,
        )),
        pk@.len() != 800 ==> r == Err::<Vec<u8>, KemError>(KemError::InvalidKey),
        pk@.len() == 800 && (msg@.len() != 32 || coins@.len() != 32) ==> r == Err::<
            Vec<u8>,
            KemError,
        >(KemError::InvalidInput),
        pk@.len() == 800 && msg@.len() == 32 && coins@.len() == 32 && !enc_ok(pk@) ==> r
            == Err::<Vec<u8>, KemError>(KemError::InternalError),
        r is Ok ==> ({
            let ct = r->Ok_0;
            &&& ct@.len() == 768
            &&& (forall|i: int| 0 <= i < 320
                ==> #[trigger] ct@[i] as int
                    == pack10_spec(compress_seq(enc_u(pk@, coins@, 0), 10))[i])
            &&& (forall|i: int| 0 <= i < 320
                ==> #[trigger] ct@[320 + i] as int
                    == pack10_spec(compress_seq(enc_u(pk@, coins@, 1), 10))[i])
            &&& (forall|j: int| 0 <= j < 128
                ==> #[trigger] ct@[640 + j] as int
                    == compress_seq(enc_v(pk@, coins@, msg@), 4)[2 * j] + 16 * compress_seq(
                    enc_v(pk@, coins@, msg@),
                    4,
                )[2 * j + 1])
        }),
{
    if pk.len() != 800 {
        return Err(KemError::InvalidKey);
    }
    if msg.len() != 32 || coins.len() != 32 {
        return Err(KemError::InvalidInput);
    }
    let rho = sub_bytes(pk, 768, 32);
    let that = PolyVec::polyvec_frombytes(pk, 0);
    let at00 = match gen_poly(&rho, 0, 0) {
        Some(p) => p,
        None => {
            return Err(KemError::InternalError);
        },
    };
    let at01 = match gen_poly(&rho, 0, 1) {
        Some(p) => p,
        None => {
            return Err(KemError::InternalError);
        },
    };
    let at10 = match gen_poly(&rho, 1, 0) {
        Some(p) => p,
        None => {
            return Err(KemError::InternalError);
        },
    };
    let at11 = match gen_poly(&rho, 1, 1) {
        Some(p) => p,
        None => {
            return Err(KemError::InternalError);
        },
    };
    let r0 = sample_ntt_eta1(coins, 0);
    let r1 = sample_ntt_eta1(coins, 1);
    let rvec = PolyVec { vec: [r0, r1] };
    let e1in0 = MLKEMHashes::prf_eta1(with_nonce(coins, 2).as_slice());
    let e10 = poly_cbd_eta1(&e1in0);
    let e1in1 = MLKEMHashes::prf_eta1(with_nonce(coins, 3).as_slice());
    let e11 = poly_cbd_eta1(&e1in1);
    let e2in = MLKEMHashes::prf_eta2(with_nonce(coins, 4).as_slice());
    let e2 = poly_cbd_eta2(&e2in);
    let mpoly = poly_frommsg(msg);
    // u_i = invntt(A^T_i o r) + e1_i, canonical
    let atrow0 = PolyVec { vec: [at00, at01] };
    let atrow1 = PolyVec { vec: [at10, at11] };
    let mut u0 = basemul_acc_reduced(&atrow0, &rvec);
    let mut u1 = basemul_acc_reduced(&atrow1, &rvec);
    let ghost uacc0 = ints(u0@);
    let ghost uacc1 = ints(u1@);
    invntt_tomont(&mut u0);
    poly_reduce(&mut u0);
    invntt_tomont(&mut u1);
    poly_reduce(&mut u1);
    let ghost uinv0 = ints(u0@);
    let ghost uinv1 = ints(u1@);
    u0.poly_add(&e10);
    poly_reduce(&mut u0);
    u1.poly_add(&e11);
    poly_reduce(&mut u1);
    // v = invntt(t^T o r) + e2 + decompress_1(msg), canonical
    let mut v = basemul_acc_reduced(&that, &rvec);
    let ghost vacc = ints(v@);
    invntt_tomont(&mut v);
    poly_reduce(&mut v);
    let ghost vinv = ints(v@);
    v.poly_add(&e2);
    v.poly_add(&mpoly);
    poly_reduce(&mut v);
    proof {
        assert(rho@ =~= pk_rho(pk@));
        assert(ints(r0@) =~= enc_rhat(coins@, 0));
        assert(ints(r1@) =~= enc_rhat(coins@, 1));
        assert(ints(at00@) =~= enc_at(pk@, 0, 0));
        assert(ints(at01@) =~= enc_at(pk@, 0, 1));
        assert(ints(at10@) =~= enc_at(pk@, 1, 0));
        assert(ints(at11@) =~= enc_at(pk@, 1, 1));
        assert(ints(that.vec[0]@) =~= pk_that(pk@, 0));
        assert(ints(that.vec[1]@) =~= pk_that(pk@, 1));
        assert(atrow0.vec[0] == at00 && atrow0.vec[1] == at01);
        assert(atrow1.vec[0] == at10 && atrow1.vec[1] == at11);
        assert(rvec.vec[0] == r0 && rvec.vec[1] == r1);
        assert(uacc0 =~= add_reduce(
            basemul_spec(ints(at00@), ints(r0@)),
            basemul_spec(ints(at01@), ints(r1@)),
        ));
        assert(uacc1 =~= add_reduce(
            basemul_spec(ints(at10@), ints(r0@)),
            basemul_spec(ints(at11@), ints(r1@)),
        ));
        assert(vacc =~= add_reduce(
            basemul_spec(ints(that.vec[0]@), ints(r0@)),
            basemul_spec(ints(that.vec[1]@), ints(r1@)),
        ));
        assert(uinv0 =~= invntt_spec(uacc0));
        assert(uinv1 =~= invntt_spec(uacc1));
        assert(vinv =~= invntt_spec(vacc));
        assert(uinv0 =~= invntt_spec(
            add_reduce(
                basemul_spec(enc_at(pk@, 0, 0), enc_rhat(coins@, 0)),
                basemul_spec(enc_at(pk@, 0, 1), enc_rhat(coins@, 1)),
            ),
        ));
        assert(uinv1 =~= invntt_spec(
            add_reduce(
                basemul_spec(enc_at(pk@, 1, 0), enc_rhat(coins@, 0)),
                basemul_spec(enc_at(pk@, 1, 1), enc_rhat(coins@, 1)),
            ),
        ));
        assert(ints(e10@) =~= noise_eta1(coins@, 2));
        assert(ints(e11@) =~= noise_eta1(coins@, 3));
        assert(ints(u0@) =~= enc_u(pk@, coins@, 0));
        assert(ints(u1@) =~= enc_u(pk@, coins@, 1));
        assert(vinv =~= invntt_spec(
            add_reduce(
                basemul_spec(pk_that(pk@, 0), enc_rhat(coins@, 0)),
                basemul_spec(pk_that(pk@, 1), enc_rhat(coins@, 1)),
            ),
        ));
        assert(ints(e2@) =~= noise_eta2(coins@, 4));
        assert(ints(mpoly@) =~= msgpoly_spec(msg@));
        assert(ints(v@) =~= enc_v(pk@, coins@, msg@));
    }
    let uvec = PolyVec { vec: [u0, u1] };
    let mut ct: Vec<u8> = Vec::new();
    uvec.polyvec_compress(&mut ct);
    let ghost ctpre = ct@;
    compress_poly_dv(&v, &mut ct);
    proof {
        assert forall|i: int| 0 <= i < 320 implies #[trigger] ct@[i] as int == pack10_spec(
            compress_seq(enc_u(pk@, coins@, 0), 10),
        )[i] by {
            assert(ctpre[0 + i] as int == pack10_spec(compress_seq(ints(u0@), 10))[i]);
            assert(ct@[i] == ctpre[i]);
        }
        assert forall|i: int| 0 <= i < 320 implies #[trigger] ct@[320 + i] as int
            == pack10_spec(compress_seq(enc_u(pk@, coins@, 1), 10))[i] by {
            assert(ctpre[0 + 320 + i] as int == pack10_spec(compress_seq(ints(u1@), 10))[i]);
            assert(ct@[320 + i] == ctpre[320 + i]);
        }
        assert forall|j: int| 0 <= j < 128 implies #[trigger] ct@[640 + j] as int
            == compress_seq(enc_v(pk@, coins@, msg@), 4)[2 * j] + 16 * compress_seq(
            enc_v(pk@, coins@, msg@),
            4,
        )[2 * j + 1] by {
            assert(ct@[ctpre.len() + j] as int == compress_seq(ints(v@), 4)[2 * j] + 16
                * compress_seq(ints(v@), 4)[2 * j + 1]);
        }
    }
    Ok(ct)
}

/// Component j of the secret vector read back from a secret key.
pub open spec fn sk_shat(sk: Seq<u8>, j: int) -> Seq<int> {
    frombytes_spec(sk, 384 * j)
}

/// Component i of the decompressed ciphertext vector u.
pub open spec fn dec_u(ct: Seq<u8>, i: int) -> Seq<int> {
    Seq::new(256, |k: int| decompress_spec(unpack10_spec(ct, 320 * i)[k], 10))
}

/// The decompressed ciphertext polynomial v.
pub open spec fn dec_v(ct: Seq<u8>) -> Seq<int> {
    Seq::new(
        256,
        |k: int|
            if k % 2 == 0 {
                decompress_spec((ct[640 + k / 2] as int) % 16, 4)
            } else {
                decompress_spec((ct[640 + k / 2] as int) / 16, 4)
            },
    )
}

/// The recovered message polynomial v - invntt(s^T o ntt(u)), canonical.
pub open spec fn dec_mpoly(sk: Seq<u8>, ct: Seq<u8>) -> Seq<int> {
    sub_reduce(
        dec_v(ct),
        invntt_spec(
            add_reduce(
                basemul_spec(sk_shat(sk, 0), ntt_spec(dec_u(ct, 0))),
                basemul_spec(sk_shat(sk, 1), ntt_spec(dec_u(ct, 1))),
            ),
        ),
    )
}

/// IND-CPA decryption: decompress u and v, compute v - s^T o u through the
/// transform, and compress each coefficient to one message bit.
pub fn indcpa_decrypt(sk: &Vec<u8>, ct: &Vec<u8>) -> (r: Result<Vec<u8>, KemError>)
    ensures
        r is Ok <==> (sk@.len() == 768 && ct@.len() == 768),
        sk@.len() != 768 ==> r == Err::<Vec<u8>, KemError>(KemError::InvalidKey),
        sk@.len() == 768 && ct@.len() != 768 ==> r == Err::<Vec<u8>, KemError>(
            KemError::InvalidInput,
        ),
        r is Ok ==> ({
            let msg = r->Ok_0;
            &&& msg@.len() == 32
            &&& (forall|j: int| 0 <= j < 32
                ==> #[trigger] msg@[j] as int == msgbyte_upto(dec_mpoly(sk@, ct@), j, 8))
        }),
{
    if sk.len() != 768 {
        return Err(KemError::InvalidKey);
    }
    if ct.len() != 768 {
        return Err(KemError::InvalidInput);
    }
    let shat = PolyVec::polyvec_frombytes(sk, 0);
    let u = PolyVec::polyvec_decompress(ct, 0);
    let v = decompress_poly_dv(ct, 640);
    let mut uh0 = u.vec[0];
    let ghost u0pre = ints(uh0@);
    poly_ntt(&mut uh0);
    poly_reduce(&mut uh0);
    let mut uh1 = u.vec[1];
    let ghost u1pre = ints(uh1@);
    poly_ntt(&mut uh1);
    poly_reduce(&mut uh1);
    let uvec = PolyVec { vec: [uh0, uh1] };
    let mut mp = basemul_acc_reduced(&shat, &uvec);
    let ghost macc = ints(mp@);
    invntt_tomont(&mut mp);
    poly_reduce(&mut mp);
    let mut w = v;
    w.poly_sub(&mp);
    poly_reduce(&mut w);
    proof {
        assert(ints(shat.vec[0]@) =~= sk_shat(sk@, 0));
        assert(ints(shat.vec[1]@) =~= sk_shat(sk@, 1));
        assert(u0pre =~= dec_u(ct@, 0));
        assert(u1pre =~= dec_u(ct@, 1));
        assert(ints(uh0@) =~= ntt_spec(dec_u(ct@, 0)));
        assert(ints(uh1@) =~= ntt_spec(dec_u(ct@, 1)));
        assert(macc =~= add_reduce(
            basemul_spec(sk_shat(sk@, 0), ntt_spec(dec_u(ct@, 0))),
            basemul_spec(sk_shat(sk@, 1), ntt_spec(dec_u(ct@, 1))),
        ));
        assert forall|k: int| 0 <= k < 256 implies ints(v@)[k] == dec_v(ct@)[k] by {
            vstd::arithmetic::div_mod::lemma_fundamental_div_mod(k, 2);
            vstd::arithmetic::div_mod::lemma_mod_division_less_than_divisor(k, 2);
            let j = k / 2;
            if k % 2 == 0 {
                assert(v@[2 * j] as int == decompress_spec((ct@[640 + j] as int) % 16, 4));
            } else {
                assert(v@[2 * j + 1] as int == decompress_spec((ct@[640 + j] as int) / 16, 4));
            }
        }
        assert(ints(v@) =~= dec_v(ct@));
        assert(ints(w@) =~= dec_mpoly(sk@, ct@));
    }
    let msg = poly_tomsg(&w);
    proof {
        assert forall|j: int| 0 <= j < 32 implies #[trigger] msg@[j] as int == msgbyte_upto(
            dec_mpoly(sk@, ct@),
            j,
            8,
        ) by {
            assert(msg@[j] as int == msgbyte_upto(ints(w@), j, 8));
        }
    }
    Ok(msg)
}

} // verus!
