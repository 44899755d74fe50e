use voting_core::ballot::Ballot;
use voting_core::elgamal::{
    add_homomorphic, decode_choice, decrypt, encode_choice, encrypt, generate_keypair,
    homomorphic_identity, solve_discrete_log,
};
use voting_core::election::Election;
use voting_core::error::VotingError;
use voting_core::params::CryptoParams;
use voting_core::voter::Voter;
use voting_core::voting::VotingService;

#[test]
fn homomorphic_sum_decrypts_to_exponent_sum() {
    let params = CryptoParams::toy_params();
    let (public_key, secret_key) = generate_keypair(&params);

    // Enc(g^2) combined with Enc(g^3) decrypts to g^5
    let m1 = encode_choice(2, &params);
    let m2 = encode_choice(3, &params);
    let (c1, _) = encrypt(m1, &public_key, &params);
    let (c2, _) = encrypt(m2, &public_key, &params);
    let sum = add_homomorphic(&c1, &c2, &params);
    let decrypted = decrypt(&sum, &secret_key, &params);
    assert_eq!(decrypted, encode_choice(5, &params));

    // and the discrete-log search recovers 2 + 3
    assert_eq!(solve_discrete_log(decrypted, &params, 10), Some(5));
}

#[test]
fn homomorphic_identity_is_neutral() {
    let params = CryptoParams::toy_params();
    let (public_key, secret_key) = generate_keypair(&params);
    let m = encode_choice(1, &params);
    let (c, _) = encrypt(m, &public_key, &params);
    let combined = add_homomorphic(&c, &homomorphic_identity(), &params);
    assert_eq!(decrypt(&combined, &secret_key, &params), m);
}

#[test]
fn encode_decode_round_trip_all_choices() {
    let params = CryptoParams::toy_params();
    let num_choices = 5;
    for i in 0..num_choices {
        let encoded = encode_choice(i, &params);
        assert_eq!(decode_choice(encoded, num_choices, &params), Some(i));
    }
}

#[test]
fn encode_choice_exact_values() {
    // p = 23, g = 4: g^0 = 1, g^2 = 16, g^3 = 64 mod 23 = 18
    let params = CryptoParams::toy_params();
    assert_eq!(params.p, 23);
    assert_eq!(params.g, 4);
    assert_eq!(encode_choice(0, &params), 1);
    assert_eq!(encode_choice(1, &params), 4);
    assert_eq!(encode_choice(2, &params), 16);
    assert_eq!(encode_choice(3, &params), 18);
}

#[test]
fn decode_choice_not_found() {
    // 5 is not a power of 4 modulo 23 among g^0..g^2 (1, 4, 16)
    let params = CryptoParams::toy_params();
    assert_eq!(decode_choice(5, 3, &params), None);
}

#[test]
fn discrete_log_not_found_returns_none() {
    // powers of 4 mod 23 up to 4^2: 1, 4, 16 — 7 is none of them
    let params = CryptoParams::toy_params();
    assert_eq!(solve_discrete_log(7, &params, 2), None);
}

#[test]
fn vote_unregistered_voter_fails() {
    let mut election = Election::new(
        "E".to_string(),
        vec!["Yes".to_string(), "No".to_string()],
    );
    let unregistered = Voter::new();
    let r = VotingService::vote(&mut election, unregistered.id, "Yes");
    assert!(matches!(r, Err(VotingError::VoterNotFound)));
}

#[test]
fn vote_invalid_choice_fails() {
    let mut election = Election::new(
        "E".to_string(),
        vec!["Yes".to_string(), "No".to_string()],
    );
    let voter = Voter::new();
    election.add_voter(voter.clone());
    let r = VotingService::vote(&mut election, voter.id, "Maybe");
    assert!(matches!(r, Err(VotingError::InvalidChoice)));
}

#[test]
fn second_vote_fails_with_already_voted() {
    let mut election = Election::new(
        "E".to_string(),
        vec!["Yes".to_string(), "No".to_string()],
    );
    let voter = Voter::new();
    election.add_voter(voter.clone());
    VotingService::vote(&mut election, voter.id, "Yes").unwrap();
    let r = VotingService::vote(&mut election, voter.id, "No");
    assert!(matches!(r, Err(VotingError::AlreadyVoted)));
}

#[test]
fn tally_blind_election_cannot_tally() {
    let mut election = Election::new_tally_blind(
        "E".to_string(),
        vec!["Yes".to_string(), "No".to_string()],
    );
    assert!(!election.can_tally());
    let voter = Voter::new();
    election.add_voter(voter.clone());
    VotingService::vote(&mut election, voter.id, "Yes").unwrap();
    let r = VotingService::tally(&election);
    assert!(matches!(r, Err(VotingError::TallyNotAllowed)));
}

#[test]
fn verify_vote_scenario() {
    let mut election = Election::new(
        "E".to_string(),
        vec!["Yes".to_string(), "No".to_string()],
    );
    let voter = Voter::new();
    election.add_voter(voter.clone());
    let receipt = VotingService::vote(&mut election, voter.id, "No").unwrap();

    assert_eq!(election.verify_vote(&receipt, "No"), Some(true));
    assert_eq!(election.verify_vote(&receipt, "Yes"), Some(false));
    assert_eq!(election.verify_vote("not-a-valid-id", "No"), None);
    assert_eq!(
        VotingService::verify_vote(&election, &receipt, "No"),
        Some(true)
    );
}

#[test]
fn verify_vote_without_secret_key_is_none() {
    let mut election = Election::new_tally_blind(
        "E".to_string(),
        vec!["Yes".to_string(), "No".to_string()],
    );
    let voter = Voter::new();
    election.add_voter(voter.clone());
    let receipt = VotingService::vote(&mut election, voter.id, "No").unwrap();
    assert_eq!(election.verify_vote(&receipt, "No"), None);
}

#[test]
fn inclusion_proof_scenario() {
    let mut election = Election::new(
        "E".to_string(),
        vec!["Yes".to_string(), "No".to_string()],
    );
    let voter = Voter::new();
    election.add_voter(voter.clone());
    let receipt = VotingService::vote(&mut election, voter.id, "Yes").unwrap();

    let proof = election.generate_inclusion_proof(&receipt);
    assert_eq!(proof, Some("Ballot found at position 0".to_string()));
    assert_eq!(election.generate_inclusion_proof("12345"), None);
}

#[test]
fn add_ballot_rejects_malformed_ballot() {
    let mut election = Election::new(
        "E".to_string(),
        vec!["Yes".to_string(), "No".to_string()],
    );
    // a ballot without one ciphertext per choice is refused
    let bad = Ballot { id: 1, ciphertexts: vec![] };
    let r = election.add_ballot(bad);
    assert!(matches!(r, Err(VotingError::InvalidBallot)));
    assert_eq!(election.nb_ballot(), 0);
}

#[test]
fn add_ballot_rejects_duplicate_id() {
    let mut election = Election::new(
        "E".to_string(),
        vec!["Yes".to_string(), "No".to_string()],
    );
    let b1 = Ballot::new("Yes", &election.choices, &election.public_key, &election.encryption_params)
        .unwrap();
    let mut b2 = Ballot::new("No", &election.choices, &election.public_key, &election.encryption_params)
        .unwrap();
    b2.id = b1.id;
    let receipt = election.add_ballot(b1).unwrap();
    assert!(!receipt.is_empty());
    let r = election.add_ballot(b2);
    assert!(matches!(r, Err(VotingError::InvalidBallot)));
}

#[test]
fn ballot_receipt_is_decimal_id() {
    let params = CryptoParams::toy_params();
    let (public_key, _) = generate_keypair(&params);
    let choices = vec!["Yes".to_string(), "No".to_string()];
    let ballot = Ballot::new("Yes", &choices, &public_key, &params).unwrap();
    assert_eq!(ballot.get_receipt(), ballot.id.to_string());
}

#[test]
fn ballot_rejects_unknown_choice() {
    let params = CryptoParams::toy_params();
    let (public_key, _) = generate_keypair(&params);
    let choices = vec!["Yes".to_string(), "No".to_string()];
    let r = Ballot::new("yes", &choices, &public_key, &params);
    assert!(matches!(r, Err(VotingError::InvalidChoice)));
}

#[test]
fn get_ballot_choice_decodes_selection() {
    let mut election = Election::new(
        "E".to_string(),
        vec!["Yes".to_string(), "No".to_string()],
    );
    let voter = Voter::new();
    election.add_voter(voter.clone());
    VotingService::vote(&mut election, voter.id, "No").unwrap();
    let ballot = &election.ballots[0];
    assert_eq!(election.get_ballot_choice(ballot), Some("No".to_string()));
}

#[test]
fn tally_result_get_absent_choice_is_none() {
    let mut election = Election::new(
        "E".to_string(),
        vec!["Yes".to_string(), "No".to_string()],
    );
    let voter = Voter::new();
    election.add_voter(voter.clone());
    VotingService::vote(&mut election, voter.id, "Yes").unwrap();
    let results = VotingService::tally(&election).unwrap();
    assert_eq!(results.len(), 2);
    assert_eq!(results.get("Maybe"), None);
}

#[test]
fn error_messages() {
    assert_eq!(VotingError::VoterNotFound.message(), "Voter not found");
    assert_eq!(VotingError::AlreadyVoted.message(), "Ballot already cast");
    assert_eq!(
        VotingError::EncryptionError("bad key".to_string()).message(),
        "Encryption failed: bad key"
    );
    assert_eq!(
        VotingError::InsufficientTrustees { needed: 3, available: 1 }.message(),
        "Insufficient trustees: need 3, have 1"
    );
}

#[test]
fn params_validity_check() {
    assert!(CryptoParams::toy_params().check_valid());
    // 1019 is prime and 2 lies in range
    assert!(CryptoParams::test_params().check_valid());
    // 22 = 2 * 11 is composite
    let bad = CryptoParams { p: 22, g: 3 };
    assert!(!bad.check_valid());
    // generator out of range
    let bad_g = CryptoParams { p: 23, g: 22 };
    assert!(!bad_g.check_valid());
}
