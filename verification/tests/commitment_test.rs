use voting_core::commitment::{verify_commitment, Commitment};

#[test]
fn commitment_opens_for_committed_choice() {
    let c = Commitment::new("Option A");
    assert_eq!(c.commitment.len(), 64);
    let proof = c.create_proof_of_commitment("Option A");
    assert!(proof.verify());
    assert_eq!(proof.claimed_choice, "Option A");
}

#[test]
fn commitment_proof_for_other_choice_fails() {
    let c = Commitment::new("Option A");
    let proof = c.create_proof_of_commitment("Option B");
    // the handed-out proof names the committed choice with an unusable nonce
    assert_eq!(proof.claimed_choice, "Option A");
    assert_eq!(proof.nonce, "invalid");
    assert!(!proof.verify());
}

#[test]
fn commitment_reveal_choice_unsafe_returns_choice() {
    let c = Commitment::new("Option A");
    assert_eq!(c.reveal_choice_unsafe(), "Option A");
}

#[test]
fn verify_commitment_matches_direct_hash() {
    // cross-check against blake3 and hex used directly
    let mut hasher = blake3::Hasher::new();
    hasher.update("some-choice".as_bytes());
    hasher.update("some-nonce".as_bytes());
    let expected = hex::encode(hasher.finalize().as_bytes());
    assert!(verify_commitment(&expected, "some-choice", "some-nonce"));
    assert!(!verify_commitment(&expected, "other-choice", "some-nonce"));
    assert!(!verify_commitment("ff00", "some-choice", "some-nonce"));
}

#[test]
fn distinct_nonces_give_distinct_commitments() {
    let a = Commitment::new("Option A");
    let b = Commitment::new("Option A");
    assert_ne!(a.commitment, b.commitment);
}
