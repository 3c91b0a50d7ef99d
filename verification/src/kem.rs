//! The IND-CCA2 key-encapsulation mechanism: the Fujisaki–Okamoto style
//! transform with implicit rejection around the IND-CPA scheme. An invalid
//! ciphertext never surfaces as an error or a distinguishable code path:
//! decapsulation re-encrypts, compares in constant time, and derives the
//! shared secret from either the recovered key or the rejection value by
//! the same computation.

use vstd::prelude::*;
use crate::codec::{compress_seq, msgbyte_upto, pack10_spec};
use crate::error::KemError;
use crate::indcpa::{
    append_bytes, dec_mpoly, enc_ok, enc_u, enc_v, indcpa_decrypt, indcpa_encrypt,
    indcpa_keygen, kg_ok, kg_rho, kg_shat, kg_t, sub_bytes,
};
use crate::symmetric::{sha3_256_of, sha3_512_of, shake256_of, MLKEMHashes};

verus! {

/// The ciphertext bytes that encrypting `msg` under `pk` with `coins`
/// produces.
pub open spec fn enc_ct_spec(pk: Seq<u8>, msg: Seq<u8>, coins: Seq<u8>) -> Seq<u8> {
    Seq::new(
        768,
        |i: int|
            if i < 320 {
                pack10_spec(compress_seq(enc_u(pk, coins, 0), 10))[i] as u8
            } else if i < 640 {
                pack10_spec(compress_seq(enc_u(pk, coins, 1), 10))[i - 320] as u8
            } else {
                (compress_seq(enc_v(pk, coins, msg), 4)[2 * (i - 640)] + 16 * compress_seq(
                    enc_v(pk, coins, msg),
                    4,
                )[2 * (i - 640) + 1]) as u8
            },
    )
}

/// The message bytes that decrypting `ct` under the IND-CPA key `skc`
/// recovers.
pub open spec fn dec_msg_spec(skc: Seq<u8>, ct: Seq<u8>) -> Seq<u8> {
    Seq::new(32, |j: int| msgbyte_upto(dec_mpoly(skc, ct), j, 8) as u8)
}

/// Sum of squared byte differences: zero exactly on equal buffers, and
/// computed without data-dependent control flow.
fn bytes_diff_acc(a: &Vec<u8>, b: &Vec<u8>) -> (acc: u32)
    requires
        a@.len() == b@.len(),
        a@.len() <= 768,
    ensures
        acc == 0 <==> a@ == b@,
{
    let n: usize = a.len();
    let mut acc: u32 = 0;
    for i in 0..n
        invariant
            n == a@.len(),
            a@.len() == b@.len(),
            a@.len() <= 768,
            acc <= 65025 * i,
            (acc == 0) <==> (forall|k: int| 0 <= k < i ==> #[trigger] a@[k] == b@[k]),
    {
        let d: i32 = (a[i] as i32) - (b[i] as i32);
        proof {
            assert(d * d >= 0 && d * d <= 65025 && (d * d == 0 <==> d == 0))
                by (nonlinear_arith)
                requires
                    -255 <= d <= 255,
            ;
        }
        acc = acc + ((d * d) as u32);
    }
    proof {
        if acc == 0 {
            assert(a@ =~= b@);
        }
    }
    acc
}

/// Select one of two 32-byte keys by whether `acc` is zero, branch-free:
/// each output byte is an arithmetic blend of the two candidates.
fn select_key(acc: u32, kt: &Vec<u8>, kf: &Vec<u8>) -> (r: Vec<u8>)
    requires
        kt@.len() == 32,
        kf@.len() == 32,
    ensures
        acc == 0 ==> r@ == kt@,
        acc != 0 ==> r@ == kf@,
        r@.len() == 32,
{
    let eq: u64 = (4294967296u64 - (acc as u64)) / 4294967296u64;
    proof {
        vstd::arithmetic::div_mod::lemma_fundamental_div_mod(
            4294967296 - (acc as u64) as int,
            4294967296,
        );
        assert(acc == 0 ==> eq == 1);
        assert(acc != 0 ==> eq == 0);
    }
    let mut r: Vec<u8> = Vec::new();
    for i in 0..32usize
        invariant
            kt@.len() == 32,
            kf@.len() == 32,
            eq <= 1,
            acc == 0 ==> eq == 1,
            acc != 0 ==> eq == 0,
            r@.len() == i,
            forall|k: int| 0 <= k < i
                ==> #[trigger] r@[k] == (if eq == 1 {
                    kt@[k]
                } else {
                    kf@[k]
                }),
    {
        let a: u64 = kt[i] as u64;
        let b: u64 = kf[i] as u64;
        proof {
            if eq == 1 {
                assert(a * eq == a && b * (1 - eq) == 0);
            } else {
                assert(a * eq == 0 && b * (1 - eq) == b);
            }
        }
        let blend: u64 = a * eq + b * (1 - eq);
        r.push(blend as u8);
    }
    proof {
        if acc == 0 {
            assert(r@ =~= kt@);
        } else {
            assert(r@ =~= kf@);
        }
    }
    r
}

/// KEM key pair generation from two fresh 32-byte seeds: the first drives
/// the IND-CPA key generation, the second becomes the implicit-rejection
/// value z. The secret key is sk_cpa || pk || H(pk) || z.
pub fn keypair(seed1: &Vec<u8>, seed2: &Vec<u8>) -> (r: Result<(Vec<u8>, Vec<u8>), KemError>)
    ensures
        r is Ok <==> (seed1@.len() == 32 && seed2@.len() == 32 && kg_ok(seed1@)),
        (seed1@.len() != 32 || seed2@.len() != 32) ==> r == Err::<
            (Vec<u8>, Vec<u8>),
            KemError,
        >(KemError::InvalidInput),
        r is Ok ==> ({
            let pk = (r->Ok_0).0;
            let sk = (r->Ok_0).1;
            &&& pk@.len() == 800
            &&& sk@.len() == 1632
            &&& (forall|i: int| 0 <= i < 384
                ==> #[trigger] pk@[i] as int == crate::codec::tobytes_spec(
                    kg_t(seed1@, 0),
                )[i])
            &&& (forall|i: int| 0 <= i < 384
                ==> #[trigger] pk@[384 + i] as int == crate::codec::tobytes_spec(
                    kg_t(seed1@, 1),
                )[i])
            &&& (forall|i: int| 0 <= i < 32
                ==> #[trigger] pk@[768 + i] == kg_rho(seed1@)[i])
            &&& (forall|i: int| 0 <= i < 384
                ==> #[trigger] sk@[i] as int == crate::codec::tobytes_spec(
                    kg_shat(seed1@, 0),
                )[i])
            &&& (forall|i: int| 0 <= i < 384
                ==> #[trigger] sk@[384 + i] as int == crate::codec::tobytes_spec(
                    kg_shat(seed1@, 1),
                )[i])
            &&& sk@.subrange(768, 1568) == pk@
            &&& sk@.subrange(1568, 1600) == sha3_256_of(pk@)
            &&& sk@.subrange(1600, 1632) == seed2@
        }),
{
    if seed1.len() != 32 || seed2.len() != 32 {
        return Err(KemError::InvalidInput);
    }
    let (pk, skc) = match indcpa_keygen(seed1) {
        Ok(kp) => kp,
        Err(e) => {
            return Err(e);
        },
    };
    let hpk = MLKEMHashes::h(pk.as_slice());
    let mut sk = skc;
    append_bytes(&mut sk, &pk);
    append_bytes(&mut sk, &hpk);
    append_bytes(&mut sk, seed2);
    proof {
        assert(sk@.subrange(768, 1568) =~= pk@);
        assert(sk@.subrange(1568, 1600) =~= sha3_256_of(pk@));
        assert(sk@.subrange(1600, 1632) =~= seed2@);
    }
    Ok((pk, sk))
}

/// The shared-key half of G(H(pk) || m).
pub open spec fn encaps_kbar(pk: Seq<u8>, m: Seq<u8>) -> Seq<u8> {
    sha3_512_of(sha3_256_of(pk) + m).subrange(0, 32)
}

/// The encryption-coins half of G(H(pk) || m).
pub open spec fn encaps_coins(pk: Seq<u8>, m: Seq<u8>) -> Seq<u8> {
    sha3_512_of(sha3_256_of(pk) + m).subrange(32, 64)
}

/// Encapsulation: derive (kbar, r) = G(H(pk) || m) from the fresh message
/// m, encrypt m under coins r, and bind the ciphertext into the shared
/// secret ss = J(kbar || ct).
#[verifier::rlimit(100)]
pub fn encapsulate(pk: &Vec<u8>, m: &Vec<u8>) -> (r: Result<(Vec<u8>, Vec<u8>), KemError>)
    ensures
        r is Ok <==> (pk@.len() == 800 && m@.len() == 32 && enc_ok(pk@)),
        pk@.len() != 800 ==> r == Err::<(Vec<u8>, Vec<u8>), KemError>(KemError::InvalidKey),
        pk@.len() == 800 && m@.len() != 32 ==> r == Err::<(Vec<u8>, Vec<u8>), KemError>(
            KemError::InvalidInput,
        ),
        r is Ok ==> ({
            let ct = (r->Ok_0).0;
            let ss = (r->Ok_0).1;
            &&& ct@.len() == 768
            &&& ct@ == enc_ct_spec(pk@, m@, encaps_coins(pk@, m@))
            &&& ss@.len() == 32
            &&& ss@ == shake256_of(encaps_kbar(pk@, m@) + ct@, 32)
        }),
{
    if pk.len() != 800 {
        return Err(KemError::InvalidKey);
    }
    if m.len() != 32 {
        return Err(KemError::InvalidInput);
    }
    let hpk = MLKEMHashes::h(pk.as_slice());
    let mut gin = hpk;
    append_bytes(&mut gin, m);
    let (kbar, coins) = MLKEMHashes::g(gin.as_slice());
    let ct = match indcpa_encrypt(pk, m, &coins) {
        Ok(c) => c,
        Err(e) => {
            return Err(e);
        },
    };
    proof {
        assert(gin@ == sha3_256_of(pk@) + m@);
        assert(coins@ == encaps_coins(pk@, m@));
        assert(kbar@ == encaps_kbar(pk@, m@));
        assert forall|i: int| 0 <= i < 768 implies ct@[i] == enc_ct_spec(
            pk@,
            m@,
            coins@,
        )[i] by {
            if i < 320 {
                assert(ct@[i] as int == pack10_spec(compress_seq(enc_u(pk@, coins@, 0), 10))[i]);
            } else if i < 640 {
                let k = i - 320;
                assert(ct@[320 + k] as int == pack10_spec(
                    compress_seq(enc_u(pk@, coins@, 1), 10),
                )[k]);
                assert(ct@[i] == ct@[320 + k]);
            } else {
                let j = i - 640;
                assert(ct@[640 + j] as int == compress_seq(enc_v(pk@, coins@, m@), 4)[2 * j] + 16
                    * compress_seq(enc_v(pk@, coins@, m@), 4)[2 * j + 1]);
                assert(ct@[i] == ct@[640 + j]);
            }
        }
        assert(ct@ =~= enc_ct_spec(pk@, m@, coins@));
    }
    let mut jin = kbar;
    append_bytes(&mut jin, &ct);
    let ss = MLKEMHashes::j(jin.as_slice());
    Ok((ct, ss))
}

/// Decapsulation with implicit rejection: decrypt, re-encrypt
/// deterministically, compare the ciphertexts in constant time, and derive
/// the shared secret from the recovered key on a match and from the hidden
/// rejection value z otherwise — by the same derivation either way.
/// Decapsulation of a well-formed secret key and a 768-byte ciphertext
/// always returns 32 bytes; tampering changes which value is hashed, never
/// the shape of the computation.
#[verifier::rlimit(100)]
pub fn decapsulate(sk: &Vec<u8>, ct: &Vec<u8>) -> (r: Result<Vec<u8>, KemError>)
    ensures
        sk@.len() != 1632 ==> r == Err::<Vec<u8>, KemError>(KemError::InvalidKey),
        sk@.len() == 1632 && ct@.len() != 768 ==> r == Err::<Vec<u8>, KemError>(
            KemError::InvalidInput,
        ),
        r is Ok <==> (sk@.len() == 1632 && ct@.len() == 768 && enc_ok(
            sk@.subrange(768, 1568),
        )),
        r is Ok ==> ({
            let ss = r->Ok_0;
            let skc = sk@.subrange(0, 768);
            let pk = sk@.subrange(768, 1568);
            let hpk = sk@.subrange(1568, 1600);
            let z = sk@.subrange(1600, 1632);
            let m2 = dec_msg_spec(skc, ct@);
            let kbar2 = sha3_512_of(hpk + m2).subrange(0, 32);
            let coins2 = sha3_512_of(hpk + m2).subrange(32, 64);
            let ct2 = enc_ct_spec(pk, m2, coins2);
            &&& ss@.len() == 32
            &&& (ct2 == ct@ ==> ss@ == shake256_of(kbar2 + ct@, 32))
            &&& (ct2 != ct@ ==> ss@ == shake256_of(z + ct@, 32))
        }),
{
    if sk.len() != 1632 {
        return Err(KemError::InvalidKey);
    }
    if ct.len() != 768 {
        return Err(KemError::InvalidInput);
    }
    let skc = sub_bytes(sk, 0, 768);
    let pk = sub_bytes(sk, 768, 800);
    let hpk = sub_bytes(sk, 1568, 32);
    let z = sub_bytes(sk, 1600, 32);
    let m2 = match indcpa_decrypt(&skc, ct) {
        Ok(m) => m,
        Err(_) => {
            return Err(KemError::InternalError);
        },
    };
    proof {
        assert(m2@ =~= dec_msg_spec(sk@.subrange(0, 768), ct@));
    }
    let mut gin = hpk;
    append_bytes(&mut gin, &m2);
    let (kbar2, coins2) = MLKEMHashes::g(gin.as_slice());
    let ct2 = match indcpa_encrypt(&pk, &m2, &coins2) {
        Ok(c) => c,
        Err(e) => {
            return Err(e);
        },
    };
    proof {
        assert(gin@ == sk@.subrange(1568, 1600) + m2@);
        assert(kbar2@ == sha3_512_of(sk@.subrange(1568, 1600) + dec_msg_spec(
            sk@.subrange(0, 768),
            ct@,
        )).subrange(0, 32));
        assert(coins2@ == sha3_512_of(sk@.subrange(1568, 1600) + dec_msg_spec(
            sk@.subrange(0, 768),
            ct@,
        )).subrange(32, 64));
        assert forall|i: int| 0 <= i < 768 implies ct2@[i] == enc_ct_spec(
            pk@,
            m2@,
            coins2@,
        )[i] by {
            if i < 320 {
                assert(ct2@[i] as int == pack10_spec(
                    compress_seq(enc_u(pk@, coins2@, 0), 10),
                )[i]);
            } else if i < 640 {
                let k = i - 320;
                assert(ct2@[320 + k] as int == pack10_spec(
                    compress_seq(enc_u(pk@, coins2@, 1), 10),
                )[k]);
                assert(ct2@[i] == ct2@[320 + k]);
            } else {
                let j = i - 640;
                assert(ct2@[640 + j] as int == compress_seq(enc_v(pk@, coins2@, m2@), 4)[2 * j]
                    + 16 * compress_seq(enc_v(pk@, coins2@, m2@), 4)[2 * j + 1]);
                assert(ct2@[i] == ct2@[640 + j]);
            }
        }
        assert(ct2@ =~= enc_ct_spec(pk@, m2@, coins2@));
        assert(ct2@ == enc_ct_spec(
            sk@.subrange(768, 1568),
            dec_msg_spec(sk@.subrange(0, 768), ct@),
            coins2@,
        ));
    }
    let acc = bytes_diff_acc(&ct2, ct);
    let key0 = select_key(acc, &kbar2, &z);
    let mut jin = key0;
    append_bytes(&mut jin, ct);
    let ss = MLKEMHashes::j(jin.as_slice());
    Ok(ss)
}

} // verus!

verus! {

/// Decapsulation is total on honestly generated keys: for the secret key
/// that `keypair` returns, the embedded public key carries the same matrix
/// seed that key generation succeeded with, so re-encryption inside
/// decapsulation can never fall short of matrix candidates. Together with
/// the contract of `decapsulate`, every 768-byte ciphertext - tampered or
/// not - decapsulates to exactly 32 bytes without an error.
pub proof fn lemma_decapsulation_total(seed1: Seq<u8>, pk: Seq<u8>, sk: Seq<u8>)
    requires
        sha3_512_of(seed1).len() == 64,  // the hash capability's digest length
        pk.len() == 800,
        kg_ok(seed1),
        forall|i: int| 0 <= i < 32 ==> #[trigger] pk[768 + i] == kg_rho(seed1)[i],
        sk.len() == 1632,
        sk.subrange(768, 1568) == pk,
    ensures
        enc_ok(sk.subrange(768, 1568)),
{
    assert(crate::indcpa::pk_rho(pk) =~= kg_rho(seed1)) by {
        assert forall|i: int| 0 <= i < 32 implies crate::indcpa::pk_rho(pk)[i] == kg_rho(
            seed1,
        )[i] by {
            assert(pk[768 + i] == kg_rho(seed1)[i]);
        }
    }
}

} // verus!
