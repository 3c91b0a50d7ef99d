use mlkem::symmetric::MLKEMHashes;

#[test]
fn test_h_function() {
    // Test vector
    let input = b"test input for H function";
    let hash = MLKEMHashes::h(input);

    // Verify output size
    assert_eq!(hash.len(), 32);

    // Verify deterministic behavior
    let hash2 = MLKEMHashes::h(input);
    assert_eq!(hash, hash2);

    // Verify different inputs produce different outputs
    let different_input = b"different test input";
    let different_hash = MLKEMHashes::h(different_input);
    assert_ne!(hash, different_hash);
}

#[test]
fn test_g_function() {
    // Test vector
    let input = b"test input for G function";
    let (k, r) = MLKEMHashes::g(input);

    // Verify output sizes
    assert_eq!(k.len(), 32);
    assert_eq!(r.len(), 32);

    // Verify deterministic behavior
    let (k2, r2) = MLKEMHashes::g(input);
    assert_eq!(k, k2);
    assert_eq!(r, r2);

    // Verify different inputs produce different outputs
    let different_input = b"different test input";
    let (different_k, different_r) = MLKEMHashes::g(different_input);
    assert!(k != different_k || r != different_r);
}

#[test]
fn test_j_function() {
    // Test vector
    let input = b"test input for J function";
    let output = MLKEMHashes::j(input);

    // Verify output size
    assert_eq!(output.len(), 32);

    // Verify deterministic behavior
    let output2 = MLKEMHashes::j(input);
    assert_eq!(output, output2);

    // Verify different inputs produce different outputs
    let different_input = b"different test input";
    let different_output = MLKEMHashes::j(different_input);
    assert_ne!(output, different_output);
}

#[test]
fn test_prf_eta1() {
    // Test vector
    let input = b"test input for PRF eta1";
    let output = MLKEMHashes::prf_eta1(input);

    // Verify output size: eta_1 * N / 4 bytes
    assert_eq!(output.len(), 192);

    // Verify deterministic behavior
    let output2 = MLKEMHashes::prf_eta1(input);
    assert_eq!(output, output2);

    // Verify different inputs produce different outputs
    let different_input = b"different test input";
    let different_output = MLKEMHashes::prf_eta1(different_input);
    assert_ne!(output, different_output);
}

#[test]
fn test_prf_eta2() {
    // Test vector
    let input = b"test input for PRF eta2";
    let output = MLKEMHashes::prf_eta2(input);

    // Verify output size: eta_2 * N / 4 bytes
    assert_eq!(output.len(), 128);

    // Verify deterministic behavior
    let output2 = MLKEMHashes::prf_eta2(input);
    assert_eq!(output, output2);

    // Verify different inputs produce different outputs
    let different_input = b"different test input";
    let different_output = MLKEMHashes::prf_eta2(different_input);
    assert_ne!(output, different_output);
}

#[test]
fn test_known_vectors() {
    // This test would contain known test vectors from the ML-KEM specification
    // For example, from FIPS 203 test vectors if available
}
