use foxyon::solution::{form_decode, validate_and_get_user_input, SolutionError};

fn valid_body() -> String {
    // nonce | challenge (12 bytes) | difficulty | expiry | 43-char tag
    format!(
        "solution=12345%7CabcDEF123456%7C4%7C1757303329%7C{}",
        "A".repeat(43)
    )
}

#[test]
fn well_formed_body_parses() {
    let body = valid_body();
    let sol = validate_and_get_user_input(body.as_bytes()).expect("well-formed body");
    assert_eq!(sol.nonce, b"12345".to_vec());
    assert_eq!(sol.challenge, b"abcDEF123456".to_vec());
    assert_eq!(sol.difficulty_bits, 4);
    assert_eq!(sol.expires_at, 1_757_303_329);
    assert_eq!(sol.integrity_b64, "A".repeat(43).into_bytes());
}

#[test]
fn short_body_is_malformed() {
    let r = validate_and_get_user_input(b"solution=a%7Cb%7C1%7C2%7Cc");
    assert_eq!(r.unwrap_err(), SolutionError::MalformedInput);
}

#[test]
fn byte_0x80_is_malformed() {
    let mut body = valid_body().into_bytes();
    body[10] = 0x80;
    let r = validate_and_get_user_input(&body);
    assert_eq!(r.unwrap_err(), SolutionError::MalformedInput);
}

#[test]
fn missing_field_name_is_malformed() {
    let body = valid_body().replace("solution=", "solutionX");
    let r = validate_and_get_user_input(body.as_bytes());
    assert_eq!(r.unwrap_err(), SolutionError::MalformedInput);
}

#[test]
fn wrong_segment_count_is_malformed() {
    let body = valid_body().replace("%7C4%7C", "%7C4%7C9%7C");
    let r = validate_and_get_user_input(body.as_bytes());
    assert_eq!(r.unwrap_err(), SolutionError::MalformedInput);
    let body = valid_body().replacen("%7C", "-", 1);
    let r = validate_and_get_user_input(body.as_bytes());
    assert_eq!(r.unwrap_err(), SolutionError::MalformedInput);
}

#[test]
fn wrong_challenge_length_is_malformed() {
    let body = valid_body().replace("abcDEF123456", "abcDEF12345");
    let r = validate_and_get_user_input(body.as_bytes());
    assert_eq!(r.unwrap_err(), SolutionError::MalformedInput);
}

#[test]
fn empty_nonce_is_malformed() {
    // Keep the body over the length floor with a long tag segment.
    let body = format!(
        "solution=%7CabcDEF123456%7C4%7C1757303329%7C{}",
        "A".repeat(60)
    );
    let r = validate_and_get_user_input(body.as_bytes());
    assert_eq!(r.unwrap_err(), SolutionError::MalformedInput);
}

#[test]
fn bad_numbers_are_malformed() {
    let body = valid_body().replace("%7C4%7C", "%7C256%7C");
    let r = validate_and_get_user_input(body.as_bytes());
    assert_eq!(r.unwrap_err(), SolutionError::MalformedInput);
    let body = valid_body().replace("1757303329", "17573x3329");
    let r = validate_and_get_user_input(body.as_bytes());
    assert_eq!(r.unwrap_err(), SolutionError::MalformedInput);
    let body = valid_body().replace("1757303329", "18446744073709551616");
    let r = validate_and_get_user_input(body.as_bytes());
    assert_eq!(r.unwrap_err(), SolutionError::MalformedInput);
}

#[test]
fn dangling_escape_is_malformed() {
    let body = format!("solution=1%7CabcDEF123456%7C4%7C1757303329%7C{}%G1", "A".repeat(43));
    let r = validate_and_get_user_input(body.as_bytes());
    assert_eq!(r.unwrap_err(), SolutionError::MalformedInput);
}

#[test]
fn form_decoding_rules() {
    assert_eq!(form_decode(b"a+b").unwrap(), b"a b".to_vec());
    assert_eq!(form_decode(b"%7C").unwrap(), b"|".to_vec());
    assert_eq!(form_decode(b"%7c").unwrap(), b"|".to_vec());
    assert_eq!(form_decode(b"%2Bx").unwrap(), b"+x".to_vec());
    assert!(form_decode(b"abc%7").is_none());
    assert!(form_decode(b"abc%zz").is_none());
}

#[test]
fn status_codes_follow_the_taxonomy() {
    assert_eq!(SolutionError::MalformedInput.status_code(), 403);
    assert_eq!(SolutionError::Blacklisted.status_code(), 403);
    assert_eq!(SolutionError::TimedOut.status_code(), 403);
    assert_eq!(SolutionError::ValidationFailed.status_code(), 400);
    assert_eq!(SolutionError::CircuitIdError.status_code(), 500);
    assert_eq!(SolutionError::InternalError.status_code(), 500);
}
