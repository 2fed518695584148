//! Admitted-circuit session cache.
//!
//! A circuit that solved a challenge owns a session until it expires.
//! The capability is two operations, `contains` and `set`, contracted
//! over an abstract set of live circuit ids; the local backend here is
//! an in-process concurrent cache with time-to-live and time-to-idle
//! eviction.  A remote key/value backend lives outside the verified
//! core.  Eviction only removes entries, so the contracts are stated on
//! the shrinking side: a lookup promises a hit only for ids that were
//! live, and an admission adds no id but its own.

use vstd::prelude::*;
use crate::config::MAX_CACHE_LIFETIME_SECS;

verus! {

/// The session capability: membership test and idempotent admission,
/// over an abstract view of the ids currently holding a session.
pub trait Session {
    /// The set of circuit ids currently holding a session.
    spec fn contents(&self) -> Set<u32>;

    /// True only for a circuit that held a session; looks up, never
    /// admits.
    fn contains(&mut self, circuit_id: u32) -> (r: bool)
        ensures
            r ==> old(self).contents().contains(circuit_id),
            forall|k: u32|
                final(self).contents().contains(k) ==> old(self).contents().contains(k),
    ;

    /// Admits the circuit; no id other than `circuit_id` appears.
    fn set(&mut self, circuit_id: u32)
        ensures
            forall|k: u32|
                final(self).contents().contains(k) ==> old(self).contents().contains(k) || k
                    == circuit_id,
    ;
}

/// The in-process session backend: a concurrent cache of circuit ids
/// with time-to-live and time-to-idle eviction and a fast 64-bit
/// non-cryptographic hasher.
#[verifier::external_body]
pub struct MokaSession {
    cache: moka::sync::Cache<u32, (), std::hash::BuildHasherDefault<twox_hash::XxHash3_64>>,
}

/// The set of circuit ids currently live in the session cache.
pub uninterp spec fn session_contents(s: MokaSession) -> Set<u32>;

impl MokaSession {
    /// Relies on `moka::sync::Cache::builder` / `build_with_hasher`:
    /// a freshly built cache holds no entries; entries live at most
    /// `ttl` seconds, idle at most `tti` seconds.  The builder panics
    /// on a time-to-live or time-to-idle over 1000 years, so both
    /// bounds must stay under that limit.
    #[verifier::external_body]
    pub fn new(initial_capacity: usize, max_capacity: u64, ttl: u64, tti: u64) -> (r: Self)
        requires
            ttl <= MAX_CACHE_LIFETIME_SECS,
            tti <= MAX_CACHE_LIFETIME_SECS,
        ensures
            session_contents(r) == Set::<u32>::empty(),
    {
        MokaSession {
            cache: moka::sync::Cache::builder().initial_capacity(initial_capacity).max_capacity(
                max_capacity,
            ).time_to_live(std::time::Duration::from_secs(ttl)).time_to_idle(
                std::time::Duration::from_secs(tti),
            ).build_with_hasher(
                std::hash::BuildHasherDefault::<twox_hash::XxHash3_64>::default(),
            ),
        }
    }

    /// Relies on `moka::sync::Cache::contains_key`: true only for a key
    /// with a live entry; the lookup inserts nothing.
    #[verifier::external_body]
    pub fn contains_circuit(&mut self, circuit_id: u32) -> (r: bool)
        ensures
            r ==> session_contents(*old(self)).contains(circuit_id),
            forall|k: u32|
                session_contents(*final(self)).contains(k) ==> session_contents(
                    *old(self),
                ).contains(k),
    {
        self.cache.contains_key(&circuit_id)
    }

    /// Relies on `moka::sync::Cache::insert`: idempotent admission; no
    /// key other than `circuit_id` ever appears.
    #[verifier::external_body]
    pub fn set_circuit(&mut self, circuit_id: u32)
        ensures
            forall|k: u32|
                session_contents(*final(self)).contains(k) ==> session_contents(
                    *old(self),
                ).contains(k) || k == circuit_id,
    {
        self.cache.insert(circuit_id, ());
    }
}

impl Session for MokaSession {
    open spec fn contents(&self) -> Set<u32> {
        session_contents(*self)
    }

    fn contains(&mut self, circuit_id: u32) -> (r: bool) {
        self.contains_circuit(circuit_id)
    }

    fn set(&mut self, circuit_id: u32) {
        self.set_circuit(circuit_id)
    }
}

} // verus!
