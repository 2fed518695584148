//! Keyed hash primitives.
//!
//! Two 256-bit digests drive the protocol: the *integrity* digest, keyed
//! with the process-wide secret, seals `(challenge, difficulty, expiry)`
//! so the server can verify an issued challenge without storing it; the
//! *challenge* digest, unkeyed, is the target function of the client's
//! proof-of-work search.  Both are pure functions of their inputs.

use vstd::prelude::*;
use vstd::bytes::spec_u64_to_le_bytes;
use vstd::bytes::u64_to_le_bytes;
use vstd::slice::slice_to_vec;
use vstd::slice::slice_subrange;

verus! {

/// The 256-bit keyed digest, as a function of the 32-byte key and the
/// byte stream hashed.
pub uninterp spec fn keyed_digest(key: Seq<u8>, data: Seq<u8>) -> Seq<u8>;

/// The 256-bit unkeyed digest, as a function of the byte stream hashed.
pub uninterp spec fn plain_digest(data: Seq<u8>) -> Seq<u8>;

/// Relies on `blake3::Hasher::new_keyed` / `update` / `finalize`: a keyed
/// 256-bit digest, a pure function of the key and of the bytes fed to
/// `update`, 32 bytes long.
#[verifier::external_body]
fn blake3_keyed(key: &[u8], data: &[u8]) -> (r: Vec<u8>)
    requires
        key@.len() == 32,
    ensures
        r@ == keyed_digest(key@, data@),
        r@.len() == 32,
{
    let mut k = [0u8; 32];
    k.copy_from_slice(key);
    let mut hasher = blake3::Hasher::new_keyed(&k);
    hasher.update(data);
    hasher.finalize().as_bytes().to_vec()
}

/// Relies on `blake3::Hasher::new` / `update` / `finalize`: an unkeyed
/// 256-bit digest, a pure function of the bytes fed to `update`, 32 bytes
/// long.
#[verifier::external_body]
fn blake3_plain(data: &[u8]) -> (r: Vec<u8>)
    ensures
        r@ == plain_digest(data@),
        r@.len() == 32,
{
    let mut hasher = blake3::Hasher::new();
    hasher.update(data);
    hasher.finalize().as_bytes().to_vec()
}

/// Relies on `rand::rngs::SysRng::try_fill_bytes`: fills the buffer with
/// bytes from the operating system's cryptographic generator, or reports
/// failure.  Nothing is promised of the bytes themselves.
#[verifier::external_body]
fn os_random_key() -> (r: Option<Vec<u8>>)
    ensures
        r is Some ==> r.unwrap()@.len() == 32,
{
    let mut key = [0u8; 32];
    match rand::TryRng::try_fill_bytes(&mut rand::rngs::SysRng, &mut key) {
        Ok(()) => Some(key.to_vec()),
        Err(_) => None,
    }
}

/// Decimal ASCII digits of `n`, most significant first, no sign and no
/// leading zero (`0` itself is the single digit `0`).
pub open spec fn spec_dec_digits(n: u64) -> Seq<u8>
    decreases n,
{
    if n < 10 {
        seq![(48 + n) as u8]
    } else {
        spec_dec_digits(n / 10).push((48 + n % 10) as u8)
    }
}

/// Renders `n` in decimal ASCII.
pub fn u64_to_decimal(n: u64) -> (r: Vec<u8>)
    ensures
        r@ == spec_dec_digits(n),
    decreases n,
{
    if n < 10 {
        let mut v: Vec<u8> = Vec::new();
        v.push(48 + n as u8);
        v
    } else {
        let mut v = u64_to_decimal(n / 10);
        v.push(48 + (n % 10) as u8);
        v
    }
}

/// The byte stream sealed by the integrity digest: the raw challenge,
/// one byte of difficulty, and the expiry in little-endian.
pub open spec fn integrity_message(challenge: Seq<u8>, difficulty: u8, expires_at: u64) -> Seq<u8> {
    challenge + seq![difficulty] + spec_u64_to_le_bytes(expires_at)
}

/// The integrity digest over a challenge's fields, under `key`.
pub open spec fn integrity_digest(
    key: Seq<u8>,
    challenge: Seq<u8>,
    difficulty: u8,
    expires_at: u64,
) -> Seq<u8> {
    keyed_digest(key, integrity_message(challenge, difficulty, expires_at))
}

/// The byte stream of the proof-of-work target: nonce, challenge, and the
/// expiry in decimal ASCII exactly as the challenge page exposes it.
pub open spec fn challenge_message(nonce: Seq<u8>, challenge: Seq<u8>, expires_at: u64) -> Seq<u8> {
    nonce + challenge + spec_dec_digits(expires_at)
}

/// The proof-of-work digest over a submitted solution's fields.
pub open spec fn challenge_digest(nonce: Seq<u8>, challenge: Seq<u8>, expires_at: u64) -> Seq<u8> {
    plain_digest(challenge_message(nonce, challenge, expires_at))
}

/// Integrity digest of `(challenge, difficulty, timestamp)` keyed with the
/// 32-byte proof-of-work secret.
pub fn pow_integrity_hash(challenge: &[u8], difficulty: u8, timestamp: u64, key: &[u8]) -> (r: Vec<
    u8,
>)
    requires
        key@.len() == 32,
    ensures
        r@ == integrity_digest(key@, challenge@, difficulty, timestamp),
        r@.len() == 32,
{
    let mut msg: Vec<u8> = slice_to_vec(challenge);
    msg.push(difficulty);
    let mut ts = u64_to_le_bytes(timestamp);
    msg.append(&mut ts);
    proof {
        assert(msg@ =~= integrity_message(challenge@, difficulty, timestamp));
    }
    blake3_keyed(key, msg.as_slice())
}

/// Proof-of-work digest of `(nonce, challenge, timestamp)`.
pub fn pow_challenge_hash(nonce: &[u8], challenge: &[u8], timestamp: u64) -> (r: Vec<u8>)
    ensures
        r@ == challenge_digest(nonce@, challenge@, timestamp),
        r@.len() == 32,
{
    let mut msg: Vec<u8> = slice_to_vec(nonce);
    let mut c: Vec<u8> = slice_to_vec(challenge);
    msg.append(&mut c);
    let mut ts = u64_to_decimal(timestamp);
    msg.append(&mut ts);
    proof {
        assert(msg@ =~= challenge_message(nonce@, challenge@, timestamp));
    }
    blake3_plain(msg.as_slice())
}

/// Determinism of the two digests: they are pure functions of their
/// arguments, so equal inputs give equal outputs, across calls and
/// across workers.
pub proof fn lemma_hashes_deterministic(
    key: Seq<u8>,
    nonce: Seq<u8>,
    challenge: Seq<u8>,
    difficulty: u8,
    timestamp: u64,
    key2: Seq<u8>,
    nonce2: Seq<u8>,
    challenge2: Seq<u8>,
    difficulty2: u8,
    timestamp2: u64,
)
    requires
        key == key2,
        nonce == nonce2,
        challenge == challenge2,
        difficulty == difficulty2,
        timestamp == timestamp2,
    ensures
        integrity_digest(key, challenge, difficulty, timestamp) == integrity_digest(
            key2,
            challenge2,
            difficulty2,
            timestamp2,
        ),
        challenge_digest(nonce, challenge, timestamp) == challenge_digest(
            nonce2,
            challenge2,
            timestamp2,
        ),
{
}

/// Derives the process-wide proof-of-work secret: the first 32 bytes of the
/// configured passphrase when it is long enough, otherwise 32 freshly drawn
/// random bytes.  `None` only when the passphrase is short and the system
/// generator failed.
pub fn derive_pow_key(passphrase: &[u8]) -> (r: Option<Vec<u8>>)
    ensures
        r is Some ==> r.unwrap()@.len() == 32,
        passphrase@.len() >= 32 ==> r is Some && r.unwrap()@ == passphrase@.take(32),
{
    if passphrase.len() >= 32 {
        Some(slice_to_vec(slice_subrange(passphrase, 0, 32)))
    } else {
        os_random_key()
    }
}

} // verus!
