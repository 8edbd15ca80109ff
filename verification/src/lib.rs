//! Process-isolation and execution-lifecycle services.
//!
//! The heart of the crate is [`sandbox`]: a coordinator that tracks
//! each submitted execution of untrusted guest code from submission to
//! exactly one terminal state, with bounded output capture
//! ([`capture`]), a guarded execution prelude ([`codewrap`]), a
//! deadline policy and cancellation support. Beside it stand a cache
//! with per-entry time-to-live ([`cache`]), a metrics collector with
//! exact histograms ([`metrics`]), and the bookkeeping types of a
//! vector store ([`vector`]).

pub mod cache;
pub mod capture;
pub mod clock;
pub mod codewrap;
pub mod keyed;
pub mod metrics;
pub mod sandbox;
pub mod vector;
