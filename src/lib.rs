//! Anchoring of opaque fingerprints into an append-only log.
//!
//! An anchor call takes a byte payload (a hash computed elsewhere), renders it
//! deterministically and appends exactly one record to a log. The rendering is
//! the one Rust's `Debug` gives a byte slice: `[222, 173, 190, 239]`.

pub mod record;
pub mod processor;
pub mod laws;
