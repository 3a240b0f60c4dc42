//! A verified Fenwick tree (binary indexed tree) engine.
//!
//! The engine keeps a logical array of signed values together with its
//! Fenwick tree of partial sums, answers prefix-sum queries and applies
//! point updates in logarithmic time, and records which cells the most
//! recent operation touched so that a presentation layer can highlight
//! them.

pub mod bits;
pub mod engine;
pub mod sums;
