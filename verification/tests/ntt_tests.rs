use mlkem::ntt::{invntt_tomont, poly_ntt};
use mlkem::params::Q;
use mlkem::poly::{poly_tomont, Poly};
use rand::{Rng, SeedableRng};
use rand_chacha::ChaCha20Rng;

/// Generate a random polynomial with coefficients in [-Q/2, Q/2)
fn random_poly(rng: &mut impl Rng) -> Poly {
    let mut p = Poly { coeffs: [0i16; 256] };
    for c in p.coeffs.iter_mut() {
        // uniform random in [-Q/2, Q/2)
        *c = rng.random_range(-(Q as i16) / 2..(Q as i16) / 2);
    }
    p
}

#[test]
fn test_poly_ntt() {
    let mut rng = ChaCha20Rng::seed_from_u64(0x5eed_u64);
    let mut poly = random_poly(&mut rng);
    let expect = poly.clone();
    println!("poly: {:?}\n", poly.coeffs);
    poly_ntt(&mut poly);
    println!("ntt poly: {:?}", poly.coeffs);
    let _ = expect;
}

#[test]
fn roundtrip_ntt_invntt() {
    let mut rng = ChaCha20Rng::seed_from_u64(0x5eed_u64);
    for i in 0..1000 {
        let mut poly = random_poly(&mut rng);
        let mut expect = poly.clone();
        poly_ntt(&mut poly);
        invntt_tomont(&mut poly);
        poly_tomont(&mut expect);
        for (&a, &b) in expect.coeffs.iter().zip(poly.coeffs.iter()) {
            assert_eq!((i32::from(a) - i32::from(b)).rem_euclid(Q as i32), 0);
        }
        println!("test {} passed", i);
    }
}
