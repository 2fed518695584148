//! Proof-of-work gatekeeper core: challenge issuance, solution verification,
//! adaptive difficulty, one-shot challenge blacklist, session cache, and
//! circuit-id decoding.

pub mod base64;
pub mod blacklist;
pub mod circuit;
pub mod config;
pub mod crypto;
pub mod pow;
pub mod scan;
pub mod session;
pub mod solution;
