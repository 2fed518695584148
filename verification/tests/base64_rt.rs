use foxyon::base64::{base64_decode, base64_encode};

#[test]
fn tag_round_trip_is_identity() {
    let mut tag = [0u8; 32];
    let mut i = 0usize;
    while i < 32 {
        tag[i] = (i as u8).wrapping_mul(37).wrapping_add(11);
        i += 1;
    }
    let encoded = base64_encode(&tag);
    assert_eq!(encoded.len(), 43);
    let decoded = base64_decode(encoded.as_slice()).expect("canonical encoding decodes");
    assert_eq!(decoded.as_slice(), &tag[..]);
}

#[test]
fn all_zero_and_all_ff_tags_round_trip() {
    for byte in [0u8, 0xff] {
        let tag = [byte; 32];
        let encoded = base64_encode(&tag);
        assert_eq!(encoded.len(), 43);
        let decoded = base64_decode(encoded.as_slice()).unwrap();
        assert_eq!(decoded.as_slice(), &tag[..]);
    }
}

#[test]
fn known_vectors() {
    assert_eq!(base64_encode(b""), b"".to_vec());
    assert_eq!(base64_encode(b"f"), b"Zg".to_vec());
    assert_eq!(base64_encode(b"fo"), b"Zm8".to_vec());
    assert_eq!(base64_encode(b"foo"), b"Zm9v".to_vec());
    assert_eq!(base64_encode(b"foob"), b"Zm9vYg".to_vec());
    assert_eq!(base64_decode(b"Zm9vYg").unwrap(), b"foob".to_vec());
}

#[test]
fn decoder_is_strict() {
    // Length 1 mod 4 can never be an encoding.
    assert!(base64_decode(b"Z").is_none());
    assert!(base64_decode(b"Zm9vY").is_none());
    // Characters outside the alphabet.
    assert!(base64_decode(b"Zm=9").is_none());
    assert!(base64_decode(b"Zm9\n").is_none());
    // Non-canonical trailing bits: "Zh" has a nonzero low nibble.
    assert!(base64_decode(b"Zh").is_none());
    assert!(base64_decode(b"Zm9w1").is_none());
}
