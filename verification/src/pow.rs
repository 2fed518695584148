//! Proof-of-work policy: adaptive difficulty, the trailing-zero target
//! check, and the constant-time integrity check.

use vstd::prelude::*;
use vstd::std_specs::bits::u8_trailing_zeros;
use crate::base64::b64_encode_seq;
use crate::base64::base64_encode;
use crate::base64::lemma_encode_len;
use crate::config::CpuThresholds;
use crate::config::Difficulty;
use crate::config::Pow;
use crate::crypto::challenge_digest;
use crate::crypto::integrity_digest;
use crate::crypto::pow_challenge_hash;
use crate::crypto::pow_integrity_hash;

verus! {

/// Length of the random challenge token, in bytes.
pub const CHALLENGE_LEN: usize = 12;

/// Length of the unpadded Base64 encoding of a 32-byte integrity tag.
pub const B64_LEN: usize = 43;

/// Length of the decimal rendering of a contemporary UNIX timestamp.
pub const TIMESTAMP_LEN: usize = 10;

/// Shortest well-formed solution body, in bytes.
pub const MIN_SOLUTION_LEN: usize = 82;

/// An ASCII letter or digit.
pub open spec fn is_alnum_byte(b: u8) -> bool {
    (65 <= b <= 90) || (97 <= b <= 122) || (48 <= b <= 57)
}

/// Relies on `rand::distr::Alphanumeric` sampled through `rand::rng`:
/// every sampled byte is an ASCII letter or digit, drawn uniformly.
#[verifier::external_body]
fn random_alphanumeric(n: usize) -> (r: Vec<u8>)
    ensures
        r@.len() == n,
        forall|i: int| 0 <= i < r@.len() ==> is_alnum_byte(#[trigger] r@[i]),
{
    let mut rng = rand::rng();
    (0..n).map(|_| rand::RngExt::sample(&mut rng, rand::distr::Alphanumeric)).collect()
}

/// Relies on `subtle::ConstantTimeEq` for byte slices: a constant-time
/// comparison that is true exactly when the slices have equal length and
/// equal contents.
#[verifier::external_body]
fn ct_bytes_eq(a: &[u8], b: &[u8]) -> (r: bool)
    ensures
        r == (a@ == b@),
{
    subtle::ConstantTimeEq::ct_eq(a, b).into()
}

/// The difficulty tier a CPU usage sample selects: the first of the
/// thresholds `low`, `medium`, `high` that the sample falls under names
/// the tier, and a sample under none of them selects `ultra`.
pub open spec fn spec_difficulty_for(cpu: u32, thresholds: CpuThresholds, tiers: Difficulty) -> u8 {
    if cpu < thresholds.low {
        tiers.minimum
    } else if cpu < thresholds.medium {
        tiers.medium
    } else if cpu < thresholds.high {
        tiers.high
    } else {
        tiers.ultra
    }
}

/// Difficulty mapping over the ordered partition: with thresholds in
/// order, CPU values in `[0, low)`, `[low, medium)`, `[medium, high)` and
/// `[high, +inf)` map to the minimum, medium, high and ultra tiers
/// respectively.
pub proof fn lemma_difficulty_partition(cpu: u32, thresholds: CpuThresholds, tiers: Difficulty)
    requires
        thresholds.low <= thresholds.medium <= thresholds.high,
    ensures
        cpu < thresholds.low ==> spec_difficulty_for(cpu, thresholds, tiers) == tiers.minimum,
        thresholds.low <= cpu < thresholds.medium ==> spec_difficulty_for(cpu, thresholds, tiers)
            == tiers.medium,
        thresholds.medium <= cpu < thresholds.high ==> spec_difficulty_for(cpu, thresholds, tiers)
            == tiers.high,
        thresholds.high <= cpu ==> spec_difficulty_for(cpu, thresholds, tiers) == tiers.ultra,
{
}

/// Maps a CPU usage sample (hundredths of a percent) to the difficulty
/// tier of the half-open partition: below `low` the minimum, from `low`
/// to `medium` the medium tier, from `medium` to `high` the high tier,
/// and from `high` upward the ultra tier.
pub fn difficulty_for(cpu: u32, thresholds: &CpuThresholds, tiers: &Difficulty) -> (bits: u8)
    ensures
        bits == spec_difficulty_for(cpu, *thresholds, *tiers),
{
    if cpu < thresholds.low {
        tiers.minimum
    } else if cpu < thresholds.medium {
        tiers.medium
    } else if cpu < thresholds.high {
        tiers.high
    } else {
        tiers.ultra
    }
}

/// Trailing zero bits of a byte string read as a little-endian integer:
/// eight per leading zero byte, plus the trailing zeros of the first
/// nonzero byte.  A string of zero bytes counts eight bits per byte.
pub open spec fn spec_trailing_zero_bits(s: Seq<u8>) -> nat
    decreases s.len(),
{
    if s.len() == 0 {
        0
    } else if s[0] == 0 {
        8 + spec_trailing_zero_bits(s.drop_first())
    } else {
        u8_trailing_zeros(s[0]) as nat
    }
}

proof fn lemma_trailing_zero_bits_skip(s: Seq<u8>, i: int)
    requires
        0 <= i < s.len(),
        forall|j: int| 0 <= j < i ==> s[j] == 0,
    ensures
        spec_trailing_zero_bits(s) == 8 * i + spec_trailing_zero_bits(s.skip(i)),
    decreases i,
{
    if i > 0 {
        assert(s.drop_first().skip(i - 1) =~= s.skip(i));
        lemma_trailing_zero_bits_skip(s.drop_first(), i - 1);
    } else {
        assert(s.skip(0) =~= s);
    }
}

proof fn lemma_trailing_zero_bits_all_zero(s: Seq<u8>)
    requires
        forall|j: int| 0 <= j < s.len() ==> s[j] == 0,
    ensures
        spec_trailing_zero_bits(s) == 8 * s.len(),
    decreases s.len(),
{
    if s.len() > 0 {
        lemma_trailing_zero_bits_all_zero(s.drop_first());
    }
}

/// Counts the trailing zero bits of `h` read as a little-endian integer.
pub fn trailing_zero_bits(h: &[u8]) -> (r: usize)
    requires
        h@.len() <= 32,
    ensures
        r == spec_trailing_zero_bits(h@),
{
    let n = h.len();
    let mut i: usize = 0;
    while i < n
        invariant
            0 <= i <= n,
            n == h@.len() <= 32,
            forall|j: int| 0 <= j < i ==> h@[j] == 0,
        decreases n - i,
    {
        if *vstd::slice::slice_index_get(h, i) != 0 {
            let tz = h[i].trailing_zeros();
            proof {
                lemma_trailing_zero_bits_skip(h@, i as int);
                assert(h@.skip(i as int)[0] == h@[i as int]);
                vstd::std_specs::bits::axiom_u8_trailing_zeros(h@[i as int]);
            }
            return 8 * i + tz as usize;
        }
        i += 1;
    }
    proof {
        lemma_trailing_zero_bits_all_zero(h@);
    }
    8 * n
}

/// Addition on `u64` that stops at the largest value instead of wrapping.
pub open spec fn sat_add_u64(a: u64, b: u64) -> u64 {
    if a + b > u64::MAX {
        u64::MAX
    } else {
        (a + b) as u64
    }
}

/// A server-issued challenge: the random token, the difficulty selected
/// from the CPU signal, the expiry, and the Base64 integrity tag that
/// seals the three.
pub struct Challenge {
    pub challenge: Vec<u8>,
    pub difficulty_bits: u8,
    pub expires_at: u64,
    pub integrity_b64: Vec<u8>,
}

impl Challenge {
    /// The integrity tag seals exactly this challenge's fields under `key`.
    pub open spec fn sealed_with(self, key: Seq<u8>) -> bool {
        self.integrity_b64@ == b64_encode_seq(
            integrity_digest(key, self.challenge@, self.difficulty_bits, self.expires_at),
        )
    }

    /// Assembles a challenge from a drawn token, a CPU sample and the
    /// current time: the difficulty follows the threshold partition, the
    /// expiry is `now` plus the configured lifetime (saturating), and the
    /// integrity tag is the keyed digest of the three, Base64 encoded.
    pub fn build(challenge: Vec<u8>, cpu: u32, now: u64, pow_cfg: &Pow, key: &[u8]) -> (c:
        Challenge)
        requires
            key@.len() == 32,
            challenge@.len() == CHALLENGE_LEN,
        ensures
            c.challenge == challenge,
            c.difficulty_bits == spec_difficulty_for(cpu, pow_cfg.cpu_thresholds, pow_cfg.difficulty),
            c.expires_at == sat_add_u64(now, pow_cfg.challenge_ttl),
            c.sealed_with(key@),
            c.integrity_b64@.len() == B64_LEN,
    {
        let difficulty_bits = difficulty_for(cpu, &pow_cfg.cpu_thresholds, &pow_cfg.difficulty);
        let expires_at = if now <= u64::MAX - pow_cfg.challenge_ttl {
            now + pow_cfg.challenge_ttl
        } else {
            u64::MAX
        };
        let tag = pow_integrity_hash(challenge.as_slice(), difficulty_bits, expires_at, key);
        let integrity_b64 = base64_encode(tag.as_slice());
        proof {
            lemma_encode_len(tag@);
        }
        Challenge { challenge, difficulty_bits, expires_at, integrity_b64 }
    }

    /// Issues a fresh challenge: draws the random token, reads the clock,
    /// and assembles the rest from them.  The expiry is whatever the clock
    /// gave plus the configured lifetime; everything else is pinned.
    pub fn new(cpu: u32, pow_cfg: &Pow, key: &[u8]) -> (c: Challenge)
        requires
            key@.len() == 32,
        ensures
            c.challenge@.len() == CHALLENGE_LEN,
            forall|i: int|
                0 <= i < c.challenge@.len() ==> is_alnum_byte(#[trigger] c.challenge@[i]),
            c.difficulty_bits == spec_difficulty_for(cpu, pow_cfg.cpu_thresholds, pow_cfg.difficulty),
            c.sealed_with(key@),
            c.integrity_b64@.len() == B64_LEN,
    {
        let challenge = random_alphanumeric(CHALLENGE_LEN);
        let now = now_unix_secs();
        Self::build(challenge, cpu, now, pow_cfg, key)
    }

    /// The challenge token as a string, character for byte.
    pub fn challenge_str(&self) -> (r: String)
        requires
            forall|i: int|
                0 <= i < self.challenge@.len() ==> is_alnum_byte(#[trigger] self.challenge@[i]),
        ensures
            r@.len() == self.challenge@.len(),
            forall|i: int| 0 <= i < r@.len() ==> r@[i] == self.challenge@[i] as char,
    {
        ascii_to_string(self.challenge.as_slice())
    }

    /// The Base64 integrity tag as a string, character for byte.
    pub fn integrity_b64_str(&self) -> (r: String)
        requires
            forall|i: int| 0 <= i < self.integrity_b64@.len() ==> self.integrity_b64@[i] < 128,
        ensures
            r@.len() == self.integrity_b64@.len(),
            forall|i: int| 0 <= i < r@.len() ==> r@[i] == self.integrity_b64@[i] as char,
    {
        ascii_to_string(self.integrity_b64.as_slice())
    }
}

/// Relies on `core::str::from_utf8`: ASCII bytes decode to the string
/// of the same characters, one character per byte.
#[verifier::external_body]
fn ascii_to_string(v: &[u8]) -> (r: String)
    requires
        forall|i: int| 0 <= i < v@.len() ==> v@[i] < 128,
    ensures
        r@.len() == v@.len(),
        forall|i: int| 0 <= i < r@.len() ==> r@[i] == v@[i] as char,
{
    match core::str::from_utf8(v) {
        Ok(s) => s.to_string(),
        Err(_) => String::new(),
    }
}

/// Relies on `std::time::SystemTime::now` and `duration_since(UNIX_EPOCH)`:
/// whole seconds since the epoch, and zero when the clock reads before the
/// epoch.  Nothing is promised of the value.
#[verifier::external_body]
pub fn now_unix_secs() -> u64 {
    match std::time::SystemTime::now().duration_since(std::time::UNIX_EPOCH) {
        Ok(d) => d.as_secs(),
        Err(_) => 0,
    }
}

/// True exactly when the integrity digest of `(challenge, difficulty_bits,
/// expires_at)` under `key` equals the client-supplied tag; the comparison
/// itself is constant-time.
pub fn check_integrity(
    challenge: &[u8],
    difficulty_bits: u8,
    expires_at: u64,
    client_integrity: &[u8],
    key: &[u8],
) -> (r: bool)
    requires
        key@.len() == 32,
    ensures
        r == (integrity_digest(key@, challenge@, difficulty_bits, expires_at)
            == client_integrity@),
{
    let tag = pow_integrity_hash(challenge, difficulty_bits, expires_at, key);
    ct_bytes_eq(tag.as_slice(), client_integrity)
}

/// True exactly when the proof-of-work digest of `(client_work, challenge,
/// expires_at)`, read as a little-endian 256-bit integer, has at least
/// `difficulty_bits` trailing zero bits.
pub fn validate_challenge(
    client_work: &[u8],
    challenge: &[u8],
    difficulty_bits: u8,
    expires_at: u64,
) -> (r: bool)
    ensures
        r == (spec_trailing_zero_bits(challenge_digest(client_work@, challenge@, expires_at))
            >= difficulty_bits),
{
    let h = pow_challenge_hash(client_work, challenge, expires_at);
    let tz = trailing_zero_bits(h.as_slice());
    tz >= difficulty_bits as usize
}

} // verus!
