//! Core of an electronic voting system built on exponential ElGamal
//! encryption with additive homomorphic tallying.
//!
//! Voters cast a one-hot vector of ciphertexts, one entry per election
//! choice. The tallying authority combines the ciphertexts of all ballots
//! componentwise, decrypts only the per-choice aggregates, and recovers each
//! count by discrete-log search. Individual ballots are never decrypted
//! during a tally.

pub mod arith;
pub mod ballot;
pub mod commitment;
pub mod election;
pub mod elgamal;
pub mod error;
pub mod params;
pub mod receipt;
mod rng;
pub mod voter;
pub mod voting;
