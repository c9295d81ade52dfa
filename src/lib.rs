//! An AMS ("tug-of-war") sketch that estimates the k-th frequency moment of a
//! stream of item identifiers with a grid of randomly seeded ±1 counters.

pub mod hashing;
pub mod median;
pub mod sketch;
pub mod laws;
pub mod exact;
