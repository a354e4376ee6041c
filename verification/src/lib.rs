//! A verified persistent record store for job postings.
//!
//! The library exposes a set of state-transition operations (create, apply,
//! withdraw, accept, cancel, fetch) over a durable storage layer: a monotonic
//! identifier allocator plus a single-table key-value store holding
//! bounded-size serialized records.

pub mod codec;
pub mod model;
pub mod service;
pub mod store;
