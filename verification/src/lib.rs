//! Verified core of a railway-information service: input validation,
//! cache keys, a TTL cache, a per-source circuit breaker, cookie jars,
//! and the text munging used to normalise upstream answers.
use vstd::prelude::*;

pub mod text;
pub mod validate;
pub mod keyed;
pub mod clock;
pub mod failover;
pub mod cache;
pub mod cookies;
pub mod error;
pub mod config;
pub mod dates;
pub mod resilience;
pub mod railyatri;
pub mod fuzzy;
pub mod sre;
pub mod paytm;
pub mod json;
pub mod ai;
pub mod fanout;
pub mod ntes;
pub mod crypto;
pub mod data;
pub mod retrieval;
pub mod ixigo;
pub mod irctc;
pub mod corover;
pub mod aggregator;
pub mod metrics;
pub mod http;
pub mod erail;
pub mod confirmtkt;
pub mod indiarailinfo;
pub mod procstat;
pub mod logring;

verus! {

} // verus!
