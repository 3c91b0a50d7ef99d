use mlkem::codec::{
    compress, decompress, poly_frombytes, poly_frommsg, poly_tobytes, poly_tomsg,
};
use mlkem::poly::Poly;
use mlkem::polyvec::PolyVec;
use mlkem::sampler::{poly_cbd_eta1, poly_cbd_eta2, uniform_from_bytes};
use mlkem::symmetric::MLKEMHashes;
use mlkem::basemul::{poly_basemul_montgomery_cached, PolyMulCache};

fn pattern_poly(limit: i16, salt: i16) -> Poly {
    let mut p = Poly { coeffs: [0i16; 256] };
    for i in 0..256 {
        p.coeffs[i] = ((i as i16).wrapping_mul(31).wrapping_add(salt)).rem_euclid(limit);
    }
    p
}

#[test]
fn serialization_roundtrip() {
    // deserialize(serialize(v)) == v for 12-bit coefficients
    let v = PolyVec {
        vec: [pattern_poly(4096, 7), pattern_poly(4096, 1001)],
    };
    let mut bytes: Vec<u8> = Vec::new();
    v.polyvec_tobytes(&mut bytes);
    assert_eq!(bytes.len(), 768);
    let w = PolyVec::polyvec_frombytes(&bytes, 0);
    assert_eq!(v.vec[0].coeffs, w.vec[0].coeffs);
    assert_eq!(v.vec[1].coeffs, w.vec[1].coeffs);
}

#[test]
fn poly_serialization_roundtrip() {
    let p = pattern_poly(4096, 123);
    let mut bytes: Vec<u8> = Vec::new();
    poly_tobytes(&p, &mut bytes);
    assert_eq!(bytes.len(), 384);
    let q = poly_frombytes(&bytes, 0);
    assert_eq!(p.coeffs, q.coeffs);
}

#[test]
fn compression_roundtrip_error_bound() {
    // |decompress_d(compress_d(x)) - x| mod± Q <= round(Q / 2^(d+1))
    for &(d, bound) in [(1usize, 832i32), (4, 104), (10, 2)].iter() {
        for x in 0u16..3329 {
            let y = decompress(compress(x, d), d);
            let e = (y as i32 - x as i32).rem_euclid(3329);
            let dist = e.min(3329 - e);
            assert!(
                dist <= bound,
                "d={} x={} y={} dist={} bound={}",
                d,
                x,
                y,
                dist,
                bound
            );
        }
    }
}

#[test]
fn compression_exact_values() {
    // round(x * 2^d / Q) mod 2^d on a few concrete points
    assert_eq!(compress(0, 10), 0);
    assert_eq!(compress(1665, 1), 1);
    assert_eq!(compress(832, 1), 0);
    assert_eq!(compress(3328, 1), 0); // rounds to 2 which wraps to 0
    assert_eq!(decompress(1, 1), 1665);
    assert_eq!(decompress(0, 1), 0);
    // round(1 * Q / 1024) = round(3.25) = 3
    assert_eq!(decompress(1, 10), 3);
}

#[test]
fn message_roundtrip() {
    let msg: Vec<u8> = (0u8..32).map(|b| b.wrapping_mul(37).wrapping_add(5)).collect();
    let p = poly_frommsg(&msg);
    for i in 0..256 {
        let bit = (msg[i / 8] >> (i % 8)) & 1;
        assert_eq!(p.coeffs[i], bit as i16 * 1665);
    }
    let back = poly_tomsg(&p);
    assert_eq!(back, msg);
}

#[test]
fn cbd_sampling_range() {
    // centered binomial values lie in [-eta, eta] mapped into [0, Q)
    let buf1 = MLKEMHashes::prf_eta1(b"cbd test input one");
    let p1 = poly_cbd_eta1(&buf1);
    for &c in p1.coeffs.iter() {
        assert!(c >= 0 && c < 3329);
        assert!(c <= 3 || c >= 3329 - 3, "eta1 coefficient out of range: {}", c);
    }
    let buf2 = MLKEMHashes::prf_eta2(b"cbd test input two");
    let p2 = poly_cbd_eta2(&buf2);
    for &c in p2.coeffs.iter() {
        assert!(c >= 0 && c < 3329);
        assert!(c <= 2 || c >= 3329 - 2, "eta2 coefficient out of range: {}", c);
    }
}

#[test]
fn uniform_sampling_canonical() {
    let buf = MLKEMHashes::xof(b"uniform sampling test seed");
    assert_eq!(buf.len(), 840);
    let p = uniform_from_bytes(&buf).expect("the XOF budget should suffice");
    for &c in p.coeffs.iter() {
        assert!(c >= 0 && c < 3329);
    }
}

#[test]
fn basemul_commutes_mod_q() {
    // a o b and b o a agree modulo Q (both carry the same Montgomery factor)
    let a = pattern_poly(3329, 17);
    let b = pattern_poly(3329, 999);
    let mut cb = PolyMulCache::new();
    a.poly_mulcache_compute(&mut cb);
    let mut r1 = Poly { coeffs: [0i16; 256] };
    poly_basemul_montgomery_cached(&mut r1, &b, &a, &cb);
    let mut ca = PolyMulCache::new();
    b.poly_mulcache_compute(&mut ca);
    let mut r2 = Poly { coeffs: [0i16; 256] };
    poly_basemul_montgomery_cached(&mut r2, &a, &b, &ca);
    for i in 0..256 {
        assert_eq!(
            (r1.coeffs[i] as i32).rem_euclid(3329),
            (r2.coeffs[i] as i32).rem_euclid(3329)
        );
    }
}

#[test]
fn signed_to_unsigned_boundary() {
    // the full centered input range maps to the canonical representative
    assert_eq!(Poly::scalar_signed_to_unsigned_q(-3329), 0);
    assert_eq!(Poly::scalar_signed_to_unsigned_q(-1), 3328);
    assert_eq!(Poly::scalar_signed_to_unsigned_q(0), 0);
    assert_eq!(Poly::scalar_signed_to_unsigned_q(3328), 3328);
}
