//! The closed enumeration of error kinds reported by voting and ballot
//! operations. All of them are recoverable and handed to the immediate
//! caller; none is escalated to a process-fatal condition.

use vstd::prelude::*;
use crate::receipt::{dec_rep, u64_to_dec_string};
use vstd::string::StringExecFns;

verus! {

#[derive(Debug, Clone, PartialEq, Eq)]
pub enum VotingError {
    VoterNotFound,
    InvalidChoice,
    InvalidBallot,
    AlreadyVoted,
    BallotNotFound,
    InvalidElection,
    ElectionNotFound,
    InvalidParameters,
    EncryptionError(String),
    DecryptionError(String),
    InvalidProof,
    InsufficientTrustees { needed: usize, available: usize },
    TallyNotAllowed,
}

impl VotingError {
    /// A human-readable description of the error.
    pub fn message(&self) -> (r: String)
        ensures
            r@ == match *self {
                VotingError::VoterNotFound => "Voter not found"@,
                VotingError::InvalidChoice => "Invalid choice"@,
                VotingError::InvalidBallot => "Invalid ballot"@,
                VotingError::AlreadyVoted => "Ballot already cast"@,
                VotingError::BallotNotFound => "Ballot not found"@,
                VotingError::InvalidElection => "Invalid election"@,
                VotingError::ElectionNotFound => "Election not found"@,
                VotingError::InvalidParameters => "Invalid cryptographic parameters"@,
                VotingError::EncryptionError(ref d) => "Encryption failed: "@ + d@,
                VotingError::DecryptionError(ref d) => "Decryption failed: "@ + d@,
                VotingError::InvalidProof => "Invalid zero-knowledge proof"@,
                VotingError::InsufficientTrustees { needed, available } => "Insufficient trustees: need "@
                    + dec_rep(needed as nat) + ", have "@ + dec_rep(available as nat),
                VotingError::TallyNotAllowed => "Tally not allowed"@,
            },
    {
        match self {
            VotingError::VoterNotFound => "Voter not found".to_owned(),
            VotingError::InvalidChoice => "Invalid choice".to_owned(),
            VotingError::InvalidBallot => "Invalid ballot".to_owned(),
            VotingError::AlreadyVoted => "Ballot already cast".to_owned(),
            VotingError::BallotNotFound => "Ballot not found".to_owned(),
            VotingError::InvalidElection => "Invalid election".to_owned(),
            VotingError::ElectionNotFound => "Election not found".to_owned(),
            VotingError::InvalidParameters => "Invalid cryptographic parameters".to_owned(),
            VotingError::EncryptionError(d) => {
                let mut s = "Encryption failed: ".to_owned();
                s.append(d.as_str());
                s
            },
            VotingError::DecryptionError(d) => {
                let mut s = "Decryption failed: ".to_owned();
                s.append(d.as_str());
                s
            },
            VotingError::InvalidProof => "Invalid zero-knowledge proof".to_owned(),
            VotingError::InsufficientTrustees { needed, available } => {
                let mut s = "Insufficient trustees: need ".to_owned();
                let n = u64_to_dec_string(*needed as u64);
                s.append(n.as_str());
                s.append(", have ");
                let a = u64_to_dec_string(*available as u64);
                s.append(a.as_str());
                s
            },
            VotingError::TallyNotAllowed => "Tally not allowed".to_owned(),
        }
    }
}

} // verus!
