use foxyon::blacklist::ChallengeBlacklist;
use foxyon::config::{CpuThresholds, Difficulty, Pow};
use foxyon::crypto::pow_challenge_hash;
use foxyon::pow::{difficulty_for, trailing_zero_bits, Challenge};
use foxyon::solution::{validate_and_get_user_input, verify_solution, SolutionError};

const KEY: [u8; 32] = [9u8; 32];

fn test_pow() -> Pow {
    Pow {
        challenge_ttl: 60,
        difficulty: Difficulty { minimum: 4, medium: 8, high: 12, ultra: 16 },
        // Hundredths of a percent: 30 %, 60 %, 85 %, 95 %.
        cpu_thresholds: CpuThresholds { low: 3000, medium: 6000, high: 8500, critical: 9500 },
    }
}

fn find_nonce(challenge: &[u8], expires_at: u64, bits: u8, want_enough: bool) -> String {
    let mut n: u64 = 0;
    loop {
        let nonce = format!("{n}");
        let h = pow_challenge_hash(nonce.as_bytes(), challenge, expires_at);
        let enough = trailing_zero_bits(h.as_slice()) >= bits as usize;
        if enough == want_enough {
            return nonce;
        }
        n += 1;
    }
}

fn body_for(nonce: &str, c: &Challenge) -> String {
    let tag = String::from_utf8(c.integrity_b64.clone()).unwrap().replace('+', "%2B");
    let challenge = String::from_utf8(c.challenge.clone()).unwrap();
    format!(
        "solution={nonce}%7C{challenge}%7C{}%7C{}%7C{tag}",
        c.difficulty_bits, c.expires_at
    )
}

#[test]
fn happy_path_accepts_then_blacklists_the_replay() {
    let pow = test_pow();
    let now: u64 = 1_757_303_329;
    // CPU at 10 %: the minimum tier.
    assert_eq!(difficulty_for(1000, &pow.cpu_thresholds, &pow.difficulty), 4);
    let c = Challenge::build(b"abcDEF123456".to_vec(), 1000, now, &pow, &KEY);
    assert_eq!(c.difficulty_bits, 4);
    assert_eq!(c.expires_at, now + 60);
    assert_eq!(c.integrity_b64.len(), 43);

    let nonce = find_nonce(&c.challenge, c.expires_at, 4, true);
    let body = body_for(&nonce, &c);
    let sol = validate_and_get_user_input(body.as_bytes()).expect("a solved challenge parses");

    let mut bl = ChallengeBlacklist::new(16, 1024, 3600);
    assert_eq!(verify_solution(&sol, &mut bl, now, &KEY), Ok(()));

    // Scenario: the same body again is a replay.
    let sol2 = validate_and_get_user_input(body.as_bytes()).unwrap();
    assert_eq!(verify_solution(&sol2, &mut bl, now, &KEY), Err(SolutionError::Blacklisted));
}

#[test]
fn expired_challenge_times_out() {
    let pow = test_pow();
    // Issued long ago: expiry in the past relative to `now`.
    let issued: u64 = 1_000_000_000 - 60;
    let now: u64 = 1_757_303_329;
    let c = Challenge::build(b"abcDEF123456".to_vec(), 1000, issued, &pow, &KEY);
    assert_eq!(c.expires_at, 1_000_000_000);
    let nonce = find_nonce(&c.challenge, c.expires_at, 4, true);
    let body = body_for(&nonce, &c);
    let sol = validate_and_get_user_input(body.as_bytes()).unwrap();
    let mut bl = ChallengeBlacklist::new(16, 1024, 3600);
    assert_eq!(verify_solution(&sol, &mut bl, now, &KEY), Err(SolutionError::TimedOut));
}

#[test]
fn tampered_difficulty_fails_the_integrity_check() {
    let pow = test_pow();
    let now: u64 = 1_757_303_329;
    let c = Challenge::build(b"abcDEF123456".to_vec(), 1000, now, &pow, &KEY);
    let nonce = find_nonce(&c.challenge, c.expires_at, 4, true);
    let body = body_for(&nonce, &c).replace("%7C4%7C", "%7C5%7C");
    let sol = validate_and_get_user_input(body.as_bytes()).unwrap();
    let mut bl = ChallengeBlacklist::new(16, 1024, 3600);
    assert_eq!(verify_solution(&sol, &mut bl, now, &KEY), Err(SolutionError::MalformedInput));
}

#[test]
fn corrupt_tag_fails_like_any_malformed_body() {
    let pow = test_pow();
    let now: u64 = 1_757_303_329;
    let c = Challenge::build(b"abcDEF123456".to_vec(), 1000, now, &pow, &KEY);
    let nonce = find_nonce(&c.challenge, c.expires_at, 4, true);
    // A tag that is not even Base64.
    let body = body_for(&nonce, &c);
    let tag = String::from_utf8(c.integrity_b64.clone()).unwrap().replace('+', "%2B");
    let body = body.replace(&tag, &"=".repeat(43));
    let sol = validate_and_get_user_input(body.as_bytes()).unwrap();
    let mut bl = ChallengeBlacklist::new(16, 1024, 3600);
    assert_eq!(verify_solution(&sol, &mut bl, now, &KEY), Err(SolutionError::MalformedInput));
}

#[test]
fn insufficient_work_is_rejected() {
    let pow = test_pow();
    let now: u64 = 1_757_303_329;
    let c = Challenge::build(b"abcDEF123456".to_vec(), 1000, now, &pow, &KEY);
    let nonce = find_nonce(&c.challenge, c.expires_at, 4, false);
    let body = body_for(&nonce, &c);
    let sol = validate_and_get_user_input(body.as_bytes()).unwrap();
    let mut bl = ChallengeBlacklist::new(16, 1024, 3600);
    assert_eq!(verify_solution(&sol, &mut bl, now, &KEY), Err(SolutionError::ValidationFailed));
}

#[test]
fn issued_challenge_exposes_its_fields_as_strings() {
    let pow = test_pow();
    let now: u64 = 1_757_303_329;
    let c = Challenge::build(b"abcDEF123456".to_vec(), 1000, now, &pow, &KEY);
    assert_eq!(c.challenge_str(), "abcDEF123456");
    assert_eq!(c.integrity_b64_str().len(), 43);
    assert_eq!(c.integrity_b64_str().as_bytes(), c.integrity_b64.as_slice());
}

#[test]
fn difficulty_tiers_cover_the_partition() {
    let pow = test_pow();
    let t = &pow.cpu_thresholds;
    let d = &pow.difficulty;
    assert_eq!(difficulty_for(0, t, d), 4);
    assert_eq!(difficulty_for(2999, t, d), 4);
    assert_eq!(difficulty_for(3000, t, d), 8);
    assert_eq!(difficulty_for(5999, t, d), 8);
    assert_eq!(difficulty_for(6000, t, d), 12);
    assert_eq!(difficulty_for(8499, t, d), 12);
    assert_eq!(difficulty_for(8500, t, d), 16);
    assert_eq!(difficulty_for(10000, t, d), 16);
}

#[test]
fn fresh_challenges_are_alphanumeric_and_sealed() {
    let pow = test_pow();
    let c = Challenge::new(1000, &pow, &KEY);
    assert_eq!(c.challenge.len(), 12);
    assert!(c.challenge.iter().all(|b| b.is_ascii_alphanumeric()));
    assert_eq!(c.difficulty_bits, 4);
    assert_eq!(c.integrity_b64.len(), 43);
    let d = Challenge::new(1000, &pow, &KEY);
    assert_ne!(c.challenge, d.challenge, "two draws of 12 random bytes should differ");
}
