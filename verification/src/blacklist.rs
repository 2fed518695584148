//! One-shot challenge admission set.
//!
//! Each issued challenge may be consumed at most once.  The set is a
//! concurrent cache keyed by the raw challenge bytes, with time-to-live
//! eviction, so consumed challenges age out on their own.  Its contents
//! are modelled as the set of keys currently live; eviction can only
//! remove keys, never add them.  The cache is bounded: at capacity its
//! admission policy may decline to keep an entry, so at-most-once
//! admission holds while capacity suffices — as with any bounded set.

use vstd::prelude::*;
use crate::config::MAX_CACHE_LIFETIME_SECS;

verus! {

/// The blacklist of consumed challenges; holds a concurrent cache of
/// the raw challenge bytes with time-to-live eviction.
#[verifier::external_body]
pub struct ChallengeBlacklist {
    inner: moka::sync::Cache<Vec<u8>, (), std::hash::BuildHasherDefault<ahash::AHasher>>,
}

/// The set of challenge keys currently live in the blacklist.
pub uninterp spec fn blacklist_contents(b: ChallengeBlacklist) -> Set<Seq<u8>>;

impl ChallengeBlacklist {
    /// Relies on `moka::sync::Cache::builder` / `build_with_hasher`:
    /// a freshly built cache holds no entries; entries live at most
    /// `ttl` seconds and at most `max_capacity` of them are kept.  The
    /// builder panics on a time-to-live over 1000 years, so `ttl` must
    /// stay under that bound.
    #[verifier::external_body]
    pub fn new(initial_capacity: usize, max_capacity: u64, ttl: u64) -> (r: Self)
        requires
            ttl <= MAX_CACHE_LIFETIME_SECS,
        ensures
            blacklist_contents(r) == Set::<Seq<u8>>::empty(),
    {
        ChallengeBlacklist {
            inner: moka::sync::Cache::builder().initial_capacity(initial_capacity).max_capacity(
                max_capacity,
            ).time_to_live(std::time::Duration::from_secs(ttl)).build_with_hasher(
                std::hash::BuildHasherDefault::<ahash::AHasher>::default(),
            ),
        }
    }

    /// Claims `challenge`: true when this call inserted the key, false
    /// when a live entry already held it.  Exclusive access serialises
    /// claims, so the result decides the replay question for the state
    /// at the call.
    ///
    /// Relies on `moka::sync::Cache::entry` / `or_insert` / `is_fresh`:
    /// a key with a live entry is returned stale, a key absent or
    /// expired is inserted and reported fresh.  Eviction may remove
    /// entries at any time, so a key once present is not promised to
    /// stay; no key other than `challenge` ever appears.
    #[verifier::external_body]
    pub fn try_insert(&mut self, challenge: &Vec<u8>) -> (fresh: bool)
        ensures
            fresh == !blacklist_contents(*old(self)).contains(challenge@),
            forall|k: Seq<u8>|
                blacklist_contents(*final(self)).contains(k) ==> blacklist_contents(
                    *old(self),
                ).contains(k) || k == challenge@,
    {
        self.inner.entry(challenge.clone()).or_insert(()).is_fresh()
    }
}

} // verus!
