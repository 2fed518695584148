//! The submitted-solution wire format.
//!
//! A solution arrives as a form body `solution=<value>` whose value is
//! five `|`-separated segments, URL-encoded: nonce, challenge,
//! difficulty, expiry, and the Base64 integrity tag.  The parser
//! URL-decodes first and then splits, and applies every validation
//! exactly once.

use vstd::prelude::*;
use crate::base64::b64_decode_seq;
use crate::base64::base64_decode;
use crate::base64::lemma_b64_round_trip;
use crate::blacklist::ChallengeBlacklist;
use crate::blacklist::blacklist_contents;
use crate::crypto::challenge_digest;
use crate::crypto::integrity_digest;
use crate::pow::CHALLENGE_LEN;
use crate::pow::MIN_SOLUTION_LEN;
use crate::pow::Challenge;
use crate::pow::check_integrity;
use crate::pow::spec_trailing_zero_bits;
use crate::pow::validate_challenge;
use crate::scan::hex_digit_val;
use crate::scan::hex_val;
use crate::scan::is_hex_digit;
use crate::scan::parse_u64_dec;
use crate::scan::parse_u8_dec;
use crate::scan::spec_parse_u64;
use crate::scan::spec_parse_u8;
use crate::scan::split_at;
use crate::scan::split_bytes;
use crate::scan::lemma_split_at_nonempty;

verus! {

/// Why a submission was rejected.  `MalformedInput`, `Blacklisted` and
/// `TimedOut` answer 403, `ValidationFailed` 400, and `CircuitIdError`
/// and `InternalError` 500.
#[derive(Clone, Copy, Debug, PartialEq, Eq, Structural)]
pub enum SolutionError {
    MalformedInput,
    ValidationFailed,
    Blacklisted,
    CircuitIdError,
    InternalError,
    TimedOut,
}

impl SolutionError {
    /// The HTTP status each rejection answers with.  Integrity failure
    /// is reported as `MalformedInput`, indistinguishable from any other
    /// malformed body.
    pub fn status_code(&self) -> (code: u16)
        ensures
            code == match *self {
                SolutionError::MalformedInput => 403u16,
                SolutionError::ValidationFailed => 400u16,
                SolutionError::Blacklisted => 403u16,
                SolutionError::CircuitIdError => 500u16,
                SolutionError::InternalError => 500u16,
                SolutionError::TimedOut => 403u16,
            },
    {
        match *self {
            SolutionError::MalformedInput => 403,
            SolutionError::ValidationFailed => 400,
            SolutionError::Blacklisted => 403,
            SolutionError::CircuitIdError => 500,
            SolutionError::InternalError => 500,
            SolutionError::TimedOut => 403,
        }
    }
}

/// A parsed solution: the five segments of the form field, with the
/// numeric segments already read.
#[derive(Debug)]
pub struct Solution {
    pub nonce: Vec<u8>,
    pub challenge: Vec<u8>,
    pub difficulty_bits: u8,
    pub expires_at: u64,
    pub integrity_b64: Vec<u8>,
}

/// URL decoding of a form value: `+` becomes a space, `%` must head two
/// hexadecimal digits and becomes their byte, anything else stands;
/// `None` on a dangling or non-hexadecimal escape.
pub open spec fn form_decoded(s: Seq<u8>) -> Option<Seq<u8>>
    decreases s.len(),
{
    if s.len() == 0 {
        Some(Seq::empty())
    } else if s[0] == 37 {
        if s.len() >= 3 && is_hex_digit(s[1]) && is_hex_digit(s[2]) && form_decoded(s.skip(3))
            is Some {
            Some(
                seq![(hex_digit_val(s[1]) * 16 + hex_digit_val(s[2])) as u8] + form_decoded(
                    s.skip(3),
                ).unwrap(),
            )
        } else {
            None
        }
    } else {
        let b: u8 = if s[0] == 43 {
            32
        } else {
            s[0]
        };
        if form_decoded(s.drop_first()) is Some {
            Some(seq![b] + form_decoded(s.drop_first()).unwrap())
        } else {
            None
        }
    }
}

/// URL-decodes a form value.
pub fn form_decode(s: &[u8]) -> (r: Option<Vec<u8>>)
    ensures
        r is Some <==> form_decoded(s@) is Some,
        r is Some ==> r.unwrap()@ == form_decoded(s@).unwrap(),
{
    let n = s.len();
    let mut out: Vec<u8> = Vec::new();
    let mut i: usize = 0;
    proof {
        assert(s@.skip(0) =~= s@);
    }
    while i < n
        invariant
            0 <= i <= n,
            n == s@.len(),
            form_decoded(s@.skip(i as int)) is Some ==> form_decoded(s@) == Some(
                out@ + form_decoded(s@.skip(i as int)).unwrap(),
            ),
            form_decoded(s@.skip(i as int)) is None ==> form_decoded(s@) is None,
        decreases n - i,
    {
        proof {
            assert(s@.skip(i as int)[0] == s@[i as int]);
            assert(s@.skip(i as int).drop_first() =~= s@.skip(i + 1));
        }
        let b = s[i];
        if b == 37 {
            proof {
                if n - i >= 3 {
                    assert(s@.skip(i as int)[1] == s@[i as int + 1]);
                    assert(s@.skip(i as int)[2] == s@[i as int + 2]);
                    assert(s@.skip(i as int).skip(3) =~= s@.skip(i + 3));
                }
            }
            if n - i < 3 {
                proof {
                    assert(s@.skip(i as int).len() < 3);
                }
                return None;
            }
            let h1 = hex_val(s[i + 1]);
            let h2 = hex_val(s[i + 2]);
            match (h1, h2) {
                (Some(h1), Some(h2)) => {
                    out.push(h1 * 16 + h2);
                    i += 3;
                },
                _ => {
                    return None;
                },
            }
        } else if b == 43 {
            out.push(32);
            i += 1;
        } else {
            out.push(b);
            i += 1;
        }
    }
    proof {
        assert(s@.skip(i as int) =~= Seq::<u8>::empty());
        assert(out@ + Seq::<u8>::empty() =~= out@);
    }
    Some(out)
}

/// The nine bytes of `solution=`.
pub open spec fn solution_prefix() -> Seq<u8> {
    seq![115u8, 111u8, 108u8, 117u8, 116u8, 105u8, 111u8, 110u8, 61u8]
}

/// What a well-formed body parses to: `None` when any validation of the
/// wire format fails, otherwise the five segments with the numeric ones
/// read strictly.
pub open spec fn spec_parse_solution(body: Seq<u8>) -> Option<
    (Seq<u8>, Seq<u8>, u8, u64, Seq<u8>),
> {
    if body.len() <= MIN_SOLUTION_LEN || body.contains(128u8) || body.take(9) != solution_prefix()
        || form_decoded(body.skip(9)) is None {
        None
    } else {
        let parts = split_at(form_decoded(body.skip(9)).unwrap(), 124);
        if parts.len() != 5 {
            None
        } else if parts[1].len() != CHALLENGE_LEN || parts[0].len() == 0 {
            None
        } else if spec_parse_u8(parts[2]) is None || spec_parse_u64(parts[3]) is None {
            None
        } else {
            Some(
                (
                    parts[0],
                    parts[1],
                    spec_parse_u8(parts[2]).unwrap(),
                    spec_parse_u64(parts[3]).unwrap(),
                    parts[4],
                ),
            )
        }
    }
}

/// Parses and validates a raw form body into a `Solution`.  Succeeds
/// exactly on the bodies `spec_parse_solution` accepts, and then the
/// fields are the parsed segments; every rejection is `MalformedInput`.
pub fn validate_and_get_user_input(body: &[u8]) -> (r: Result<Solution, SolutionError>)
    ensures
        r is Ok <==> spec_parse_solution(body@) is Some,
        r is Ok ==> {
            let (nonce, challenge, difficulty_bits, expires_at, integrity_b64) =
                spec_parse_solution(body@).unwrap();
            &&& r.unwrap().nonce@ == nonce
            &&& r.unwrap().challenge@ == challenge
            &&& r.unwrap().difficulty_bits == difficulty_bits
            &&& r.unwrap().expires_at == expires_at
            &&& r.unwrap().integrity_b64@ == integrity_b64
        },
        r is Err ==> r.unwrap_err() == SolutionError::MalformedInput,
{
    let n = body.len();
    if n <= MIN_SOLUTION_LEN {
        return Err(SolutionError::MalformedInput);
    }
    let mut i: usize = 0;
    while i < n
        invariant
            0 <= i <= n,
            n == body@.len(),
            forall|j: int| 0 <= j < i ==> body@[j] != 128,
        decreases n - i,
    {
        if body[i] == 128 {
            proof {
                assert(body@.contains(128u8));
            }
            return Err(SolutionError::MalformedInput);
        }
        i += 1;
    }
    proof {
        assert(!body@.contains(128u8));
    }
    if body[0] != 115 || body[1] != 111 || body[2] != 108 || body[3] != 117 || body[4] != 116
        || body[5] != 105 || body[6] != 111 || body[7] != 110 || body[8] != 61 {
        proof {
            assert(body@.take(9) != solution_prefix()) by {
                if body@.take(9) == solution_prefix() {
                    assert(body@[0] == body@.take(9)[0]);
                    assert(body@[1] == body@.take(9)[1]);
                    assert(body@[2] == body@.take(9)[2]);
                    assert(body@[3] == body@.take(9)[3]);
                    assert(body@[4] == body@.take(9)[4]);
                    assert(body@[5] == body@.take(9)[5]);
                    assert(body@[6] == body@.take(9)[6]);
                    assert(body@[7] == body@.take(9)[7]);
                    assert(body@[8] == body@.take(9)[8]);
                }
            }
        }
        return Err(SolutionError::MalformedInput);
    }
    proof {
        assert(body@.take(9) =~= solution_prefix());
    }
    let payload = vstd::slice::slice_subrange(body, 9, n);
    proof {
        assert(payload@ =~= body@.skip(9));
    }
    let decoded = match form_decode(payload) {
        Some(d) => d,
        None => {
            return Err(SolutionError::MalformedInput);
        },
    };
    let ghost segs = split_at(decoded@, 124);
    let mut parts = split_bytes(decoded.as_slice(), 124);
    proof {
        lemma_split_at_nonempty(decoded@, 124);
        assert(parts@.len() == segs.len());
    }
    if parts.len() != 5 {
        return Err(SolutionError::MalformedInput);
    }
    proof {
        assert(parts@[0]@ =~= segs[0]);
        assert(parts@[1]@ =~= segs[1]);
        assert(parts@[2]@ =~= segs[2]);
        assert(parts@[3]@ =~= segs[3]);
        assert(parts@[4]@ =~= segs[4]);
    }
    let nonce = parts.remove(0);
    let challenge = parts.remove(0);
    let difficulty_seg = parts.remove(0);
    let expires_seg = parts.remove(0);
    let integrity_b64 = parts.remove(0);
    proof {
        assert(nonce@ == segs[0]);
        assert(challenge@ == segs[1]);
        assert(difficulty_seg@ == segs[2]);
        assert(expires_seg@ == segs[3]);
        assert(integrity_b64@ == segs[4]);
    }
    if challenge.len() != CHALLENGE_LEN || nonce.len() == 0 {
        return Err(SolutionError::MalformedInput);
    }
    let difficulty_bits = match parse_u8_dec(difficulty_seg.as_slice()) {
        Some(d) => d,
        None => {
            return Err(SolutionError::MalformedInput);
        },
    };
    let expires_at = match parse_u64_dec(expires_seg.as_slice()) {
        Some(t) => t,
        None => {
            return Err(SolutionError::MalformedInput);
        },
    };
    Ok(Solution { nonce, challenge, difficulty_bits, expires_at, integrity_b64 })
}

/// What the deterministic checks decide for a claimed solution: the tag
/// must decode to exactly the integrity digest of the submitted fields
/// (otherwise `MalformedInput`, whether the Base64 or the digest is at
/// fault), the expiry must not lie before `now` (`TimedOut`), and the
/// proof-of-work digest must reach the submitted difficulty
/// (`ValidationFailed`).
pub open spec fn solution_outcome(
    nonce: Seq<u8>,
    challenge: Seq<u8>,
    difficulty_bits: u8,
    expires_at: u64,
    integrity_b64: Seq<u8>,
    now: u64,
    key: Seq<u8>,
) -> Result<(), SolutionError> {
    if b64_decode_seq(integrity_b64) is None || b64_decode_seq(integrity_b64).unwrap()
        != integrity_digest(key, challenge, difficulty_bits, expires_at) {
        Err(SolutionError::MalformedInput)
    } else if expires_at < now {
        Err(SolutionError::TimedOut)
    } else if spec_trailing_zero_bits(challenge_digest(nonce, challenge, expires_at))
        < difficulty_bits {
        Err(SolutionError::ValidationFailed)
    } else {
        Ok(())
    }
}

/// Issuance and verification cohere: a challenge whose tag seals its
/// fields under `key` passes every deterministic check, as long as it
/// has not expired and the submitted nonce reaches its difficulty.
pub proof fn lemma_issued_challenge_verifies(c: Challenge, nonce: Seq<u8>, now: u64, key: Seq<u8>)
    requires
        c.sealed_with(key),
        now <= c.expires_at,
        spec_trailing_zero_bits(challenge_digest(nonce, c.challenge@, c.expires_at))
            >= c.difficulty_bits,
    ensures
        solution_outcome(
            nonce,
            c.challenge@,
            c.difficulty_bits,
            c.expires_at,
            c.integrity_b64@,
            now,
            key,
        ) == Ok::<(), SolutionError>(()),
{
    lemma_b64_round_trip(integrity_digest(key, c.challenge@, c.difficulty_bits, c.expires_at));
}

/// Verifies a parsed solution in the claimed order: blacklist claim
/// first, then tag decode, integrity, expiry, and proof of work.  A
/// challenge already claimed and still live is `Blacklisted` — a replay
/// of an accepted submission is rejected — and an unclaimed one gets
/// exactly `solution_outcome`.  No other challenge enters the
/// blacklist.
pub fn verify_solution(
    sol: &Solution,
    blacklist: &mut ChallengeBlacklist,
    now: u64,
    key: &[u8],
) -> (r: Result<(), SolutionError>)
    requires
        key@.len() == 32,
    ensures
        r == (if blacklist_contents(*old(blacklist)).contains(sol.challenge@) {
            Err::<(), SolutionError>(SolutionError::Blacklisted)
        } else {
            solution_outcome(
                sol.nonce@,
                sol.challenge@,
                sol.difficulty_bits,
                sol.expires_at,
                sol.integrity_b64@,
                now,
                key@,
            )
        }),
        forall|k: Seq<u8>|
            blacklist_contents(*final(blacklist)).contains(k) ==> blacklist_contents(
                *old(blacklist),
            ).contains(k) || k == sol.challenge@,
{
    if !blacklist.try_insert(&sol.challenge) {
        return Err(SolutionError::Blacklisted);
    }
    let client_integrity = match base64_decode(sol.integrity_b64.as_slice()) {
        Some(v) => v,
        None => {
            return Err(SolutionError::MalformedInput);
        },
    };
    if !check_integrity(
        sol.challenge.as_slice(),
        sol.difficulty_bits,
        sol.expires_at,
        client_integrity.as_slice(),
        key,
    ) {
        return Err(SolutionError::MalformedInput);
    }
    if sol.expires_at < now {
        return Err(SolutionError::TimedOut);
    }
    if validate_challenge(
        sol.nonce.as_slice(),
        sol.challenge.as_slice(),
        sol.difficulty_bits,
        sol.expires_at,
    ) {
        Ok(())
    } else {
        Err(SolutionError::ValidationFailed)
    }
}

} // verus!
