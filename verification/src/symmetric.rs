//! The hash and XOF capability the scheme consumes: SHA3-256 (H), SHA3-512
//! (G), SHAKE256 (J and the PRF), and SHAKE128 (the matrix XOF), provided
//! by the sha3 crate behind four trusted wrappers. Each digest is named by
//! an uninterpreted function of the input alone: the library's contracts
//! speak of those names, and nothing else is assumed of the hashes.

use vstd::prelude::*;
use sha3::digest::{ExtendableOutput, Update, XofReader};
use sha3::{Digest, Sha3_256, Sha3_512, Shake128, Shake256};

verus! {

/// The SHA3-256 digest of a byte string; 32 bytes.
pub uninterp spec fn sha3_256_of(s: Seq<u8>) -> Seq<u8>;

/// The SHA3-512 digest of a byte string; 64 bytes.
pub uninterp spec fn sha3_512_of(s: Seq<u8>) -> Seq<u8>;

/// The first `n` bytes of the SHAKE256 output stream on a byte string.
pub uninterp spec fn shake256_of(s: Seq<u8>, n: nat) -> Seq<u8>;

/// The first `n` bytes of the SHAKE128 output stream on a byte string.
pub uninterp spec fn shake128_of(s: Seq<u8>, n: nat) -> Seq<u8>;

/// Relies on sha3::Sha3_256: a 32-byte digest determined by the input alone.
#[verifier::external_body]
fn sha3_256_raw(input: &[u8]) -> (r: Vec<u8>)
    ensures
        r@ == sha3_256_of(input@),
        r@.len() == 32,
{
    Sha3_256::digest(input).to_vec()
}

/// Relies on sha3::Sha3_512: a 64-byte digest determined by the input alone.
#[verifier::external_body]
fn sha3_512_raw(input: &[u8]) -> (r: Vec<u8>)
    ensures
        r@ == sha3_512_of(input@),
        r@.len() == 64,
{
    Sha3_512::digest(input).to_vec()
}

/// Relies on sha3::Shake256: an extendable output determined by the input
/// alone, read here to exactly `outlen` bytes.
#[verifier::external_body]
fn shake256_raw(input: &[u8], outlen: usize) -> (r: Vec<u8>)
    ensures
        r@ == shake256_of(input@, outlen as nat),
        r@.len() == outlen,
{
    let mut hasher = Shake256::default();
    hasher.update(input);
    let mut reader = hasher.finalize_xof();
    let mut out = vec![0u8; outlen];
    reader.read(&mut out);
    out
}

/// Relies on sha3::Shake128: an extendable output determined by the input
/// alone, read here to exactly `outlen` bytes.
#[verifier::external_body]
fn shake128_raw(input: &[u8], outlen: usize) -> (r: Vec<u8>)
    ensures
        r@ == shake128_of(input@, outlen as nat),
        r@.len() == outlen,
{
    let mut hasher = Shake128::default();
    hasher.update(input);
    let mut reader = hasher.finalize_xof();
    let mut out = vec![0u8; outlen];
    reader.read(&mut out);
    out
}

/// Number of SHAKE128 bytes drawn for one uniform polynomial: five full
/// SHAKE128 blocks, enough that falling short of 256 accepted candidates
/// has negligible probability.
pub const XOF_BYTES: usize = 840;

/// The symmetric primitives of the scheme, in the standard's naming.
pub struct MLKEMHashes;

impl MLKEMHashes {
    /// H: SHA3-256, 32 bytes.
    pub fn h(input: &[u8]) -> (r: Vec<u8>)
        ensures
            r@ == sha3_256_of(input@),
            r@.len() == 32,
    {
        sha3_256_raw(input)
    }

    /// G: SHA3-512 split into two 32-byte halves.
    pub fn g(input: &[u8]) -> (r: (Vec<u8>, Vec<u8>))
        ensures
            r.0@ == sha3_512_of(input@).subrange(0, 32),
            r.1@ == sha3_512_of(input@).subrange(32, 64),
            r.0@.len() == 32,
            r.1@.len() == 32,
    {
        let d = sha3_512_raw(input);
        let mut lo: Vec<u8> = Vec::new();
        let mut hi: Vec<u8> = Vec::new();
        for i in 0..32usize
            invariant
                d@ == sha3_512_of(input@),
                d@.len() == 64,
                lo@.len() == i,
                forall|k: int| 0 <= k < i ==> #[trigger] lo@[k] == d@[k],
        {
            lo.push(d[i]);
        }
        for i in 0..32usize
            invariant
                d@ == sha3_512_of(input@),
                d@.len() == 64,
                hi@.len() == i,
                forall|k: int| 0 <= k < i ==> #[trigger] hi@[k] == d@[32 + k],
        {
            hi.push(d[32 + i]);
        }
        proof {
            assert(lo@ =~= sha3_512_of(input@).subrange(0, 32));
            assert(hi@ =~= sha3_512_of(input@).subrange(32, 64));
        }
        (lo, hi)
    }

    /// J: SHAKE256 read to 32 bytes.
    pub fn j(input: &[u8]) -> (r: Vec<u8>)
        ensures
            r@ == shake256_of(input@, 32),
            r@.len() == 32,
    {
        shake256_raw(input, 32)
    }

    /// PRF with eta_1 = 3: SHAKE256 read to eta_1 * N / 4 = 192 bytes, the
    /// input of the wider centered binomial sampling.
    pub fn prf_eta1(input: &[u8]) -> (r: Vec<u8>)
        ensures
            r@ == shake256_of(input@, 192),
            r@.len() == 192,
    {
        shake256_raw(input, 192)
    }

    /// PRF with eta_2 = 2: SHAKE256 read to eta_2 * N / 4 = 128 bytes, the
    /// input of the narrower centered binomial sampling.
    pub fn prf_eta2(input: &[u8]) -> (r: Vec<u8>)
        ensures
            r@ == shake256_of(input@, 128),
            r@.len() == 128,
    {
        shake256_raw(input, 128)
    }

    /// XOF: SHAKE128 read to the fixed budget for one uniform polynomial.
    pub fn xof(input: &[u8]) -> (r: Vec<u8>)
        ensures
            r@ == shake128_of(input@, XOF_BYTES as nat),
            r@.len() == XOF_BYTES,
    {
        shake128_raw(input, XOF_BYTES)
    }
}

} // verus!
