use foxyon::crypto::{derive_pow_key, pow_challenge_hash, pow_integrity_hash, u64_to_decimal};

const KEY: [u8; 32] = [7u8; 32];

#[test]
fn pow_hash_is_deterministic() {
    let challenge: [u8; 4] = *b"test";
    let difficulty: u8 = 69;
    let timestamp: u64 = 17_57_30_33_29;

    let hash1 = pow_integrity_hash(&challenge, difficulty, timestamp, &KEY);
    let hash2 = pow_integrity_hash(&challenge, difficulty, timestamp, &KEY);

    assert_eq!(hash1, hash2, "Equal inputs should generate equal outputs");
}

#[test]
fn pow_hash_is_input_sensitive() {
    let challenge: [u8; 4] = *b"test";
    let difficulty: u8 = 69;
    let timestamp: u64 = 17_57_30_33_29;
    let base = pow_integrity_hash(&challenge, difficulty, timestamp, &KEY);

    let diff = pow_integrity_hash(b"123", difficulty, timestamp, &KEY);
    assert_ne!(base, diff, "A different challenge should generate a different output");
    let diff = pow_integrity_hash(&challenge, 68, timestamp, &KEY);
    assert_ne!(base, diff, "A different difficulty should generate a different output");
    let diff = pow_integrity_hash(&challenge, difficulty, 14_57_30_33_29, &KEY);
    assert_ne!(base, diff, "A different timestamp should generate a different output.");
}

#[test]
fn challenge_hash_is_deterministic_and_sensitive() {
    let a = pow_challenge_hash(b"nonce", b"test", 1_757_303_329);
    let b = pow_challenge_hash(b"nonce", b"test", 1_757_303_329);
    assert_eq!(a, b);
    assert_eq!(a.len(), 32);
    assert_ne!(a, pow_challenge_hash(b"nonce2", b"test", 1_757_303_329));
    assert_ne!(a, pow_challenge_hash(b"nonce", b"tesu", 1_757_303_329));
    assert_ne!(a, pow_challenge_hash(b"nonce", b"test", 1_757_303_330));
}

#[test]
fn digests_are_32_bytes_and_keyed() {
    let tag = pow_integrity_hash(b"test", 69, 17_57_30_33_29, &KEY);
    assert_eq!(tag.len(), 32);
    let other_key = [8u8; 32];
    let tag2 = pow_integrity_hash(b"test", 69, 17_57_30_33_29, &other_key);
    assert_ne!(tag, tag2, "the integrity digest must depend on the key");
    // The unkeyed digest differs from the keyed one on the same stream.
    let unkeyed = pow_challenge_hash(b"", b"test", 17_57_30_33_29);
    assert_ne!(tag, unkeyed);
}

#[test]
fn key_from_long_passphrase_is_its_prefix() {
    let pass = b"0123456789abcdef0123456789abcdefEXTRA";
    let key = derive_pow_key(pass).expect("long passphrase always yields a key");
    assert_eq!(key.as_slice(), &pass[..32]);
}

#[test]
fn key_from_short_passphrase_is_random() {
    let key = derive_pow_key(b"short").expect("system generator available");
    assert_eq!(key.len(), 32);
    assert_ne!(key.as_slice(), b"short".as_slice());
}

#[test]
fn decimal_rendering_matches() {
    assert_eq!(u64_to_decimal(0), b"0".to_vec());
    assert_eq!(u64_to_decimal(7), b"7".to_vec());
    assert_eq!(u64_to_decimal(1_757_303_329), b"1757303329".to_vec());
    assert_eq!(u64_to_decimal(u64::MAX), b"18446744073709551615".to_vec());
}
