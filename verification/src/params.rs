//! Public parameters of the ML-KEM-512 parameter set.

use vstd::prelude::*;

verus! {

/// Dimension of the polynomial ring R_q = Z_q[X]/(X^N + 1). Always 256 for ML-KEM.
pub const N: usize = 256;
/// Modulus Q. Always 3329 for ML-KEM.
pub const Q: usize = 3329;
/// (Q + 1) / 2, bound for centered (signed canonical) representatives.
pub const Q_HALF: usize = 1665;
/// Limit for 12-bit unsigned integers, relevant for coefficient packing.
pub const UINT12_LIMIT: usize = 4096;

/// Size in bytes of hashes, seeds, and implicit rejection values.
pub const SYMBYTES: usize = 32;
/// Size in bytes of the shared secret output by the KEM.
pub const SSBYTES: usize = 32;

/// Size in bytes of a serialized polynomial (N * 12 / 8).
pub const POLYBYTES: usize = 384;

/// Dimension K of vectors and matrices for ML-KEM-512.
pub const K: usize = 2;
/// Noise parameter eta_1 for the secret vector `s` and error `e1`.
pub const ETA1: usize = 3;
/// Noise parameter eta_2 for the error vector `e` and ciphertext error `e2`.
pub const ETA2: usize = 2;
/// Compression parameter d_u for the ciphertext vector `u`.
pub const DU: usize = 10;
/// Compression parameter d_v for the ciphertext polynomial `v`.
pub const DV: usize = 4;
/// Size in bytes of a compressed polynomial for `v` (d_v = 4 bits per coefficient).
pub const POLYCOMPRESSEDBYTES_DV: usize = 128;
/// Size in bytes of a compressed polynomial for `u` entries (d_u = 10 bits per coefficient).
pub const POLYCOMPRESSEDBYTES_DU: usize = 320;

/// Size in bytes of a serialized polynomial vector.
pub const POLYVECBYTES: usize = 768;
/// Size in bytes of the compressed polynomial vector `u`.
pub const POLYVECCOMPRESSEDBYTES_DU: usize = 640;

/// Size in bytes of the message carried by the IND-CPA scheme.
pub const INDCPA_MSGBYTES: usize = 32;
/// Size in bytes of the IND-CPA public key (serialized vector `t` + seed `rho`).
pub const INDCPA_PUBLICKEYBYTES: usize = 800;
/// Size in bytes of the IND-CPA secret key (serialized vector `s`).
pub const INDCPA_SECRETKEYBYTES: usize = 768;
/// Size in bytes of the IND-CPA ciphertext (compressed `u` + compressed `v`).
pub const INDCPA_BYTES: usize = 768;

/// Size in bytes of the KEM public key.
pub const KEM_PUBLICKEYBYTES: usize = 800;
/// Size in bytes of the KEM ciphertext.
pub const KEM_CIPHERTEXTBYTES: usize = 768;
/// Size in bytes of the KEM secret key
/// (IND-CPA sk + IND-CPA pk + H(pk) + implicit rejection value `z`).
pub const KEM_SECRETKEYBYTES: usize = 1632;

} // verus!
