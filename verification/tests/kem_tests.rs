use mlkem::indcpa::{indcpa_decrypt, indcpa_encrypt, indcpa_keygen};
use mlkem::kem::{decapsulate, encapsulate, keypair};
use mlkem::error::KemError;

fn seed(b: u8) -> Vec<u8> {
    vec![b; 32]
}

#[test]
fn kem_end_to_end() {
    // fixed seed triple: keypair -> encapsulate -> decapsulate agree
    let (pk, sk) = keypair(&seed(0x11), &seed(0x22)).unwrap();
    assert_eq!(pk.len(), 800);
    assert_eq!(sk.len(), 1632);
    let m = seed(0x33);
    let (ct, ss_encap) = encapsulate(&pk, &m).unwrap();
    assert_eq!(ct.len(), 768);
    assert_eq!(ss_encap.len(), 32);
    let ss_decap = decapsulate(&sk, &ct).unwrap();
    assert_eq!(ss_decap.len(), 32);
    assert_eq!(ss_encap, ss_decap);
}

#[test]
fn kem_distinct_messages_distinct_secrets() {
    let (pk, sk) = keypair(&seed(0x44), &seed(0x55)).unwrap();
    let (ct1, ss1) = encapsulate(&pk, &seed(0x01)).unwrap();
    let (ct2, ss2) = encapsulate(&pk, &seed(0x02)).unwrap();
    assert_ne!(ct1, ct2);
    assert_ne!(ss1, ss2);
    assert_eq!(decapsulate(&sk, &ct1).unwrap(), ss1);
    assert_eq!(decapsulate(&sk, &ct2).unwrap(), ss2);
}

#[test]
fn kem_tamper_resistance() {
    // flipping a single bit of a valid ciphertext never reproduces the
    // original shared secret, and decapsulation still returns 32 bytes
    let (pk, sk) = keypair(&seed(0x66), &seed(0x77)).unwrap();
    let m = seed(0x88);
    let (ct, ss) = encapsulate(&pk, &m).unwrap();
    let total_bits = ct.len() * 8;
    let mut bit = 0usize;
    while bit < total_bits {
        let mut tampered = ct.clone();
        tampered[bit / 8] ^= 1u8 << (bit % 8);
        let ss2 = decapsulate(&sk, &tampered).unwrap();
        assert_eq!(ss2.len(), 32);
        assert_ne!(ss2, ss, "bit flip at {} reproduced the shared secret", bit);
        bit += 97;
    }
}

#[test]
fn kem_input_validation() {
    let (pk, sk) = keypair(&seed(0x99), &seed(0xaa)).unwrap();
    assert_eq!(
        keypair(&vec![0u8; 31], &seed(1)).unwrap_err(),
        KemError::InvalidInput
    );
    assert_eq!(
        encapsulate(&vec![0u8; 10], &seed(1)).unwrap_err(),
        KemError::InvalidKey
    );
    assert_eq!(
        encapsulate(&pk, &vec![0u8; 5]).unwrap_err(),
        KemError::InvalidInput
    );
    assert_eq!(
        decapsulate(&vec![0u8; 7], &vec![0u8; 768]).unwrap_err(),
        KemError::InvalidKey
    );
    assert_eq!(
        decapsulate(&sk, &vec![0u8; 767]).unwrap_err(),
        KemError::InvalidInput
    );
}

#[test]
fn indcpa_roundtrip() {
    // the base scheme decrypts its own encryptions for a fixed seed triple
    let (pk, sk) = indcpa_keygen(&seed(0x10)).unwrap();
    assert_eq!(pk.len(), 800);
    assert_eq!(sk.len(), 768);
    let msg: Vec<u8> = (0u8..32).collect();
    let ct = indcpa_encrypt(&pk, &msg, &seed(0x20)).unwrap();
    assert_eq!(ct.len(), 768);
    let dec = indcpa_decrypt(&sk, &ct).unwrap();
    assert_eq!(dec, msg);
}

#[test]
fn indcpa_deterministic() {
    // encryption is deterministic given the coins
    let (pk, _sk) = indcpa_keygen(&seed(0x30)).unwrap();
    let msg = seed(0x40);
    let c1 = indcpa_encrypt(&pk, &msg, &seed(0x50)).unwrap();
    let c2 = indcpa_encrypt(&pk, &msg, &seed(0x50)).unwrap();
    let c3 = indcpa_encrypt(&pk, &msg, &seed(0x51)).unwrap();
    assert_eq!(c1, c2);
    assert_ne!(c1, c3);
}
