//! Configuration model.
//!
//! Plain-data mirrors of the settings the gatekeeper runs with.  CPU
//! thresholds are carried as fixed-point percentages (hundredths of a
//! percent, so `100.0 %` is `10_000`), which keeps the difficulty policy
//! over exact integer comparisons.

use vstd::prelude::*;

verus! {

/// The longest lifetime, in seconds, that the cache builder accepts for
/// time-to-live and time-to-idle: 1000 years of 365 days.  A longer
/// value makes the builder panic, so the cache constructors require the
/// configured bounds to stay under it.
pub const MAX_CACHE_LIFETIME_SECS: u64 = 31_536_000_000;

/// Network binding and runtime sizing.
pub struct Server {
    pub host: String,
    pub port: u16,
    pub workers: usize,
    pub backlog: u32,
    pub max_connections: usize,
    pub keep_alive: u64,
}

/// Paths the HTTP layer serves.
pub struct Routes {
    pub auth: String,
    pub challenge: String,
}

/// Log level name; invalid values fall back to ERROR in the shell.
pub struct Logging {
    pub level: String,
}

/// Session backend tuning.
pub struct Session {
    pub redis_url: String,
    pub initial_capacity: usize,
    pub max_capacity: u64,
    pub tti: u64,
    pub ttl: u64,
}

/// Proof-of-work secret passphrase; used verbatim when at least 32 bytes.
pub struct Security {
    pub keyed_hash: String,
}

/// CPU sampler interval, in seconds.
pub struct System {
    pub cpu_usage_update_interval: u64,
}

/// Target trailing-zero bits per difficulty tier.
pub struct Difficulty {
    pub minimum: u8,
    pub medium: u8,
    pub high: u8,
    pub ultra: u8,
}

/// CPU usage thresholds in hundredths of a percent.
///
/// `critical` is reserved for future admission control; it is accepted in
/// configuration even though the base difficulty policy does not read it.
pub struct CpuThresholds {
    pub low: u32,
    pub medium: u32,
    pub high: u32,
    pub critical: u32,
}

/// Proof-of-work policy: challenge lifetime, difficulty tiers, thresholds.
pub struct Pow {
    pub challenge_ttl: u64,
    pub difficulty: Difficulty,
    pub cpu_thresholds: CpuThresholds,
}

/// The whole configuration.
pub struct Config {
    pub server: Server,
    pub routes: Routes,
    pub logging: Logging,
    pub pow: Pow,
    pub session: Session,
    pub security: Security,
    pub system: System,
}

} // verus!
