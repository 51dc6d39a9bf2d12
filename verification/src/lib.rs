//! A generic, keyed, time-to-live cache with bounded capacity,
//! oldest-by-creation eviction and running hit/miss/eviction counters.
//!
//! The executable type is [`cache::Cache`]; its behaviour is specified
//! against the mathematical state in [`model`], and the properties that
//! relate several operations are proved in [`laws`].

pub mod bridge;
pub mod entry;
pub mod model;
pub mod cache;
mod clock;
pub mod laws;
pub mod stats;
