//! Fixed-width numeric codes that keep a minimum Hamming distance from one another.
//!
//! The generator draws uniformly distributed numbers from a seeded ChaCha8 stream,
//! writes each as a zero-padded decimal behind a prefix, and accepts a candidate
//! only if it differs from every code already in use in at least the required
//! number of character positions.

pub mod decimal;
pub mod distance;
pub mod generator;
pub mod request;
pub mod source;
