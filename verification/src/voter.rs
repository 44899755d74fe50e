//! Voters and their registry entries.

use vstd::prelude::*;
use crate::rng::random_u64;

verus! {

/// An eligible voter, known only by an opaque numeric identifier.
#[derive(Debug, Clone, Copy, PartialEq, Eq, Structural)]
pub struct Voter {
    pub id: u64,
}

impl Voter {
    /// A voter with a fresh random identifier.
    pub fn new() -> Self {
        Voter { id: random_u64() }
    }
}

/// A registry entry: the voter and whether a ballot of theirs has been
/// accepted. `has_voted` moves from `false` to `true` at most once and
/// never back.
#[derive(Debug, Clone, Copy, PartialEq, Eq, Structural)]
pub struct VoterRegistryEntry {
    pub voter: Voter,
    pub has_voted: bool,
}

} // verus!
