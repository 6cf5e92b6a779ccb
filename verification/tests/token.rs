use babylon::token::{csrf_token_from_bytes, token_from_bytes, generate_csrf_token, generate_token, hash_token, verify};

#[test]
fn generated_token_has_prefix_and_stable_hash() {
    let t = generate_token().unwrap();
    assert!(t.starts_with("bbln_"));
    assert!(t.len() > 40);
    assert_eq!(hash_token(&t), hash_token(&t));
    assert_ne!(hash_token(&t), hash_token(&generate_token().unwrap()));
    assert!(verify(&t, &hash_token(&t)));
    assert!(!verify("bbln_wrong", &hash_token(&t)));
}

#[test]
fn token_is_prefix_and_43_base64url_characters() {
    let t = generate_token().unwrap();
    assert_eq!(t.len(), 5 + 43);
    assert!(t[5..].chars().all(|c| c.is_ascii_alphanumeric() || c == '-' || c == '_'));
}

#[test]
fn token_hash_is_sha256_of_the_text() {
    // SHA-256 of "abc".
    let expected: Vec<u8> = vec![
        0xba, 0x78, 0x16, 0xbf, 0x8f, 0x01, 0xcf, 0xea, 0x41, 0x41, 0x40, 0xde, 0x5d, 0xae, 0x22, 0x23,
        0xb0, 0x03, 0x61, 0xa3, 0x96, 0x17, 0x7a, 0x9c, 0xb4, 0x10, 0xff, 0x61, 0xf2, 0x00, 0x15, 0xad,
    ];
    assert_eq!(hash_token("abc"), expected);
    assert!(verify("abc", &expected));
    assert!(!verify("abc", &expected[..31]));
}

#[test]
fn csrf_token_is_43_base64url_characters_and_fresh() {
    let t = generate_csrf_token().unwrap();
    assert_eq!(t.len(), 43);
    assert!(t.chars().all(|c| c.is_ascii_alphanumeric() || c == '-' || c == '_'));
    assert_ne!(t, generate_csrf_token().unwrap());
}

#[test]
fn tokens_from_given_bytes_are_fixed_by_them() {
    assert_eq!(token_from_bytes(&[0u8; 32]), format!("bbln_{}", "A".repeat(43)));
    assert_eq!(csrf_token_from_bytes(&[0xffu8; 32]), format!("{}8", "_".repeat(42)));
    let mut b = [0u8; 32];
    b[0] = 0xfb;
    assert!(token_from_bytes(&b).starts_with("bbln_-w"));
}
