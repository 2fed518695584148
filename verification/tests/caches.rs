use foxyon::blacklist::ChallengeBlacklist;
use foxyon::session::{MokaSession, Session};

#[test]
fn blacklist_admits_a_challenge_at_most_once() {
    let mut bl = ChallengeBlacklist::new(16, 1024, 3600);
    let key = b"abcDEF123456".to_vec();
    assert!(bl.try_insert(&key), "first claim wins");
    assert!(!bl.try_insert(&key), "replay observes the claim");
    assert!(!bl.try_insert(&key), "and keeps observing it");
    let other = b"abcDEF123457".to_vec();
    assert!(bl.try_insert(&other), "a different challenge is unaffected");
}

#[test]
fn session_contains_after_set() {
    let mut s = MokaSession::new(16, 1024, 3600, 3600);
    assert!(!s.contains_circuit(42));
    s.set_circuit(42);
    assert!(s.contains_circuit(42));
    s.set_circuit(42);
    assert!(s.contains_circuit(42), "set is idempotent");
    assert!(!s.contains_circuit(43));
}

#[test]
fn the_session_trait_reaches_the_local_backend() {
    let mut s = MokaSession::new(16, 1024, 3600, 3600);
    Session::set(&mut s, 99);
    assert!(Session::contains(&mut s, 99));
    assert!(!Session::contains(&mut s, 100));
}

#[test]
fn session_expires_after_ttl() {
    let mut s = MokaSession::new(16, 1024, 1, 1);
    s.set_circuit(7);
    assert!(s.contains_circuit(7));
    let start = std::time::Instant::now();
    while start.elapsed() < std::time::Duration::from_millis(1400) {
        std::hint::spin_loop();
    }
    assert!(!s.contains_circuit(7), "a session older than its ttl is gone");
}
