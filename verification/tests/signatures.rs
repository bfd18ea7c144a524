use webhook_verify::compute_signature;

#[test]
fn known_hmac_sha256_vector() {
    // Widely published HMAC-SHA256 test vector.
    let sig = compute_signature("The quick brown fox jumps over the lazy dog", "key");
    assert_eq!(
        sig,
        "f7bc83f430538424b13298e6aa6fb143ef4d59a14946175997479dbc2d1a3cd8"
    );
}

#[test]
fn known_hmac_sha256_vector_short_key() {
    // RFC 4231 test case 2.
    let sig = compute_signature("what do ya want for nothing?", "Jefe");
    assert_eq!(
        sig,
        "5bdcc146bf60754e6a042426089575c75a003f089d2739839dec58b964ec3843"
    );
}

#[test]
fn signature_is_sixty_four_lowercase_hex_chars() {
    let sig = compute_signature("payload", "secret");
    assert_eq!(sig.len(), 64);
    assert!(sig.chars().all(|c| c.is_ascii_hexdigit() && !c.is_ascii_uppercase()));
}

#[test]
fn signature_computation_is_deterministic() {
    let first = compute_signature("1700000000.sample payload", "really secure secret");
    let second = compute_signature("1700000000.sample payload", "really secure secret");
    assert_eq!(first, second);
}

#[test]
fn signature_matches_direct_hmac_computation() {
    // Cross-check against the hmac and hex crates called directly.
    let mut mac = <hmac::Hmac<sha2::Sha256> as hmac::KeyInit>::new_from_slice(b"secret")
        .expect("HMAC accepts keys of any length");
    hmac::Mac::update(&mut mac, b"payload");
    let expected = hex::encode(hmac::Mac::finalize(mac).into_bytes().as_slice());
    assert_eq!(compute_signature("payload", "secret"), expected);
}

#[test]
fn empty_key_and_empty_payload_are_accepted() {
    let sig = compute_signature("", "");
    assert_eq!(sig.len(), 64);
}
