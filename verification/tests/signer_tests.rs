use mail_forge::signer::{generate_auth, generate_signature};

// HMAC-SHA256 test vectors from RFC 4231, with the data split into the
// timestamp and token halves that the signer concatenates.

#[test]
fn test_signature_matches_rfc4231_case_1() {
    let key = String::from_utf8(vec![0x0b; 20]).unwrap();
    let sig = generate_signature(&key, "Hi ", "There");
    assert_eq!(
        sig,
        "b0344c61d8db38535ca8afceaf0bf12b881dc200c9833da726e9376c2e32cff7"
    );
}

#[test]
fn test_signature_matches_rfc4231_case_2() {
    let sig = generate_signature("Jefe", "what do ya want ", "for nothing?");
    assert_eq!(
        sig,
        "5bdcc146bf60754e6a042426089575c75a003f089d2739839dec58b964ec3843"
    );
}

#[test]
fn test_signature_is_lowercase_hex_of_32_bytes() {
    let sig = generate_signature("key", "123", "tok");
    assert_eq!(sig.len(), 64);
    assert!(sig.chars().all(|c| c.is_ascii_hexdigit() && !c.is_ascii_uppercase()));
}

#[test]
fn test_generate_auth_shape_and_consistency() {
    let a = generate_auth("some-api-key");
    assert_eq!(a.token.len(), 32);
    assert!(a.token.chars().all(|c| c.is_ascii_alphanumeric()));
    // The timestamp is a decimal integer.
    assert!(a.timestamp.parse::<i64>().is_ok());
    // The signature binds exactly the tuple's timestamp and token.
    let recomputed = generate_signature("some-api-key", &a.timestamp, &a.token);
    assert_eq!(a.signature, recomputed);
}

#[test]
fn test_two_auth_tuples_use_fresh_tokens() {
    let a = generate_auth("k");
    let b = generate_auth("k");
    // 62^32 outcomes: a collision would point at a broken sampler.
    assert_ne!(a.token, b.token);
}
