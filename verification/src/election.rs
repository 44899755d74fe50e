//! Election state: the voter registry, the append-only ballot list, the
//! key pair and the group parameters. The election is the sole mutator of
//! `has_voted` and owns the invariant that each voter votes at most once.

use vstd::prelude::*;
use std::collections::HashMap;
use crate::arith::pow_mod;
use crate::ballot::{choice_position, is_one_hot_encryption, pow_mod_of, Ballot};
use crate::elgamal::{decrypt, decrypt_val, encode_choice, generate_keypair, PublicKey, SecretKey};
use crate::error::VotingError;
use crate::params::CryptoParams;
use crate::receipt::dec_rep;
use crate::rng::random_u64;
use crate::voter::{Voter, VoterRegistryEntry};
use vstd::set_lib::lemma_len_subset;
use vstd::string::StringExecFns;

verus! {

broadcast use vstd::std_specs::hash::group_hash_axioms;

/// An election: registry, ballots, key material and group parameters.
#[derive(Debug)]
pub struct Election {
    pub id: u64,
    pub name: String,
    pub choices: Vec<String>,
    pub voters: HashMap<u64, VoterRegistryEntry>,
    pub ballots: Vec<Ballot>,
    pub public_key: PublicKey,
    pub private_key: Option<SecretKey>,
    pub encryption_params: CryptoParams,
}

impl Election {
    /// The voter registry, as a map from voter identifier to entry.
    pub open spec fn registry(self) -> Map<u64, VoterRegistryEntry> {
        self.voters@
    }

    /// The secret key, if this election view holds one. Absent on a
    /// tally-blind view; fixed by construction and never changed.
    pub open spec fn secret(self) -> Option<SecretKey> {
        self.private_key
    }

    /// The registry's key set is finite (it is held in a hash map).
    pub open spec fn registry_finite(self) -> bool {
        self.registry().dom().finite()
    }

    /// Identifiers of voters whose ballot has been accepted.
    pub open spec fn voted_ids(self) -> Set<u64> {
        Set::new(
            |k: u64| self.registry().contains_key(k) && self.registry()[k].has_voted,
        )
    }

    /// How many registered voters have voted.
    pub open spec fn voted_count(self) -> nat {
        self.voted_ids().len()
    }

    /// The public key matches the secret key over the election's group,
    /// whenever the secret key is present.
    pub open spec fn key_consistent(self) -> bool {
        match self.secret() {
            Some(sk) => {
                &&& 1 <= sk.x <= self.encryption_params.p - 2
                &&& self.public_key.h == pow_mod(
                    self.encryption_params.g as int,
                    sk.x as nat,
                    self.encryption_params.p as nat,
                )
            },
            None => true,
        }
    }

    /// Structural well-formedness: valid group parameters, consistent key
    /// material, at least one choice, one ciphertext per choice in every
    /// ballot, and pairwise distinct ballot identifiers.
    pub open spec fn well_structured(self) -> bool {
        &&& self.encryption_params.valid()
        &&& self.key_consistent()
        &&& self.public_key.h < self.encryption_params.p
        &&& self.choices@.len() >= 1
        &&& self.registry_finite()
        &&& forall|i: int|
            0 <= i < self.ballots@.len() ==> (#[trigger] self.ballots@[i]).ciphertexts@.len()
                == self.choices@.len()
        &&& forall|i: int, j: int|
            #![trigger self.ballots@[i], self.ballots@[j]]
            0 <= i < j < self.ballots@.len() ==> self.ballots@[i].id != self.ballots@[j].id
    }

    /// Full well-formedness: structurally sound, and the ballot count never
    /// exceeds the number of voters that have voted (hence never the number
    /// of registered voters).
    pub open spec fn well_formed(self) -> bool {
        &&& self.well_structured()
        &&& self.ballots@.len() <= self.voted_count()
    }

    /// Everything but the registry is unchanged between `a` and `b`.
    pub open spec fn same_but_registry(a: Election, b: Election) -> bool {
        &&& a.id == b.id
        &&& a.name == b.name
        &&& a.choices == b.choices
        &&& a.ballots == b.ballots
        &&& a.public_key == b.public_key
        &&& a.secret() == b.secret()
        &&& a.encryption_params == b.encryption_params
    }

    /// Everything but the ballot list is unchanged between `a` and `b`.
    pub open spec fn same_but_ballots(a: Election, b: Election) -> bool {
        &&& a.id == b.id
        &&& a.name == b.name
        &&& a.choices == b.choices
        &&& a.registry() == b.registry()
        &&& a.public_key == b.public_key
        &&& a.secret() == b.secret()
        &&& a.encryption_params == b.encryption_params
    }

    /// A fresh election over the fixed test group: generates a key pair,
    /// keeps the secret key (the election can tally), and starts with an
    /// empty registry and no ballots.
    pub fn new(name: String, choices: Vec<String>) -> (r: Election)
        requires
            choices@.len() >= 1,
        ensures
            r.well_formed(),
            r.name == name,
            r.choices == choices,
            r.ballots@.len() == 0,
            r.registry() == Map::<u64, VoterRegistryEntry>::empty(),
            r.secret() is Some,
            r.encryption_params.p == 23,
            r.encryption_params.g == 4,
    {
        let encryption_params = CryptoParams::toy_params();
        let (public_key, private_key) = generate_keypair(&encryption_params);
        let r = Election {
            id: random_u64(),
            name,
            choices,
            voters: HashMap::new(),
            ballots: Vec::new(),
            public_key,
            private_key: Some(private_key),
            encryption_params,
        };
        proof {
            assert(r.voted_ids() =~= Set::<u64>::empty());
        }
        r
    }

    /// A fresh election view without its secret key: it can register
    /// voters and accept ballots, but is permanently tally-blind. This
    /// models an election loaded from a public representation, which never
    /// carries the secret key.
    pub fn new_tally_blind(name: String, choices: Vec<String>) -> (r: Election)
        requires
            choices@.len() >= 1,
        ensures
            r.well_formed(),
            r.name == name,
            r.choices == choices,
            r.ballots@.len() == 0,
            r.registry() == Map::<u64, VoterRegistryEntry>::empty(),
            r.secret() is None,
            r.encryption_params.p == 23,
            r.encryption_params.g == 4,
    {
        let encryption_params = CryptoParams::toy_params();
        let (public_key, _private_key) = generate_keypair(&encryption_params);
        let r = Election {
            id: random_u64(),
            name,
            choices,
            voters: HashMap::new(),
            ballots: Vec::new(),
            public_key,
            private_key: None,
            encryption_params,
        };
        proof {
            assert(r.voted_ids() =~= Set::<u64>::empty());
        }
        r
    }

    /// Register a voter. A voter already registered keeps their entry:
    /// registration never resets `has_voted`.
    pub fn add_voter(&mut self, voter: Voter)
        requires
            old(self).well_formed(),
        ensures
            final(self).well_formed(),
            old(self).registry().contains_key(voter.id) ==> *final(self) == *old(self),
            !old(self).registry().contains_key(voter.id) ==> {
                &&& final(self).registry() == old(self).registry().insert(
                    voter.id,
                    VoterRegistryEntry { voter, has_voted: false },
                )
                &&& Election::same_but_registry(*final(self), *old(self))
            },
            final(self).voted_count() == old(self).voted_count(),
            final(self).ballots == old(self).ballots,
    {
        if !self.voters.contains_key(&voter.id) {
            self.voters.insert(voter.id, VoterRegistryEntry { voter, has_voted: false });
            proof {
                assert(final(self).voted_ids() =~= old(self).voted_ids());
            }
        }
    }

    /// The number of ballots cast so far.
    pub fn nb_ballot(&self) -> (r: usize)
        ensures
            r == self.ballots@.len(),
    {
        self.ballots.len()
    }

    /// Whether a voter identifier is registered.
    pub fn is_allowed_voters(&self, voter_id: u64) -> (r: bool)
        ensures
            r == self.registry().contains_key(voter_id),
    {
        self.voters.contains_key(&voter_id)
    }

    /// `choice` occurs in the election's choice list (exact,
    /// case-sensitive match).
    pub open spec fn valid_choice(self, choice: Seq<char>) -> bool {
        exists|i: int| 0 <= i < self.choices@.len() && #[trigger] self.choices@[i]@ == choice
    }

    /// Whether `choice` occurs in the election's choice list (exact,
    /// case-sensitive match).
    pub fn is_valid_choice(&self, choice: &str) -> (r: bool)
        ensures
            r == self.valid_choice(choice@),
    {
        match choice_position(&self.choices, choice) {
            Some(_) => true,
            None => false,
        }
    }

    /// Append a ballot, returning its receipt. The ballot is rejected with
    /// `InvalidBallot` when its ciphertext vector does not have one entry
    /// per choice, or when its identifier collides with a ballot already
    /// cast; both would break the election's structure.
    pub fn add_ballot(&mut self, ballot: Ballot) -> (r: Result<String, VotingError>)
        requires
            old(self).well_structured(),
        ensures
            final(self).well_structured(),
            final(self).voted_count() == old(self).voted_count(),
            final(self).registry() == old(self).registry(),
            match r {
                Ok(receipt) => {
                    &&& ballot.ciphertexts@.len() == old(self).choices@.len()
                    &&& forall|i: int|
                        0 <= i < old(self).ballots@.len() ==> (#[trigger] old(
                            self,
                        ).ballots@[i]).id != ballot.id
                    &&& final(self).ballots@ == old(self).ballots@.push(ballot)
                    &&& receipt@ == dec_rep(ballot.id as nat)
                    &&& Election::same_but_ballots(*final(self), *old(self))
                },
                Err(e) => {
                    &&& e == VotingError::InvalidBallot
                    &&& *final(self) == *old(self)
                    &&& (ballot.ciphertexts@.len() != old(self).choices@.len() || exists|i: int|
                        0 <= i < old(self).ballots@.len() && (#[trigger] old(
                            self,
                        ).ballots@[i]).id == ballot.id)
                },
            },
    {
        if ballot.ciphertexts.len() != self.choices.len() {
            return Err(VotingError::InvalidBallot);
        }
        let n = self.ballots.len();
        let mut i: usize = 0;
        while i < n
            invariant
                *self == *old(self),
                old(self).well_structured(),
                ballot.ciphertexts@.len() == old(self).choices@.len(),
                n == self.ballots@.len(),
                i <= n,
                forall|j: int| 0 <= j < i ==> (#[trigger] self.ballots@[j]).id != ballot.id,
            decreases n - i,
        {
            if self.ballots[i].id == ballot.id {
                return Err(VotingError::InvalidBallot);
            }
            i = i + 1;
        }
        let receipt = ballot.get_receipt();
        self.ballots.push(ballot);
        Ok(receipt)
    }

    /// Whether the registered voter with this identifier has voted;
    /// `false` for an unregistered identifier.
    pub fn has_voted(&self, voter_id: &u64) -> (r: bool)
        ensures
            r == (self.registry().contains_key(*voter_id)
                && self.registry()[*voter_id].has_voted),
    {
        match self.voters.get(voter_id) {
            Some(entry) => entry.has_voted,
            None => false,
        }
    }

    /// Mark a registered voter as having voted; no effect on an
    /// unregistered identifier. The flag never moves back.
    pub fn set_voted(&mut self, voter_id: &u64)
        requires
            old(self).well_structured(),
        ensures
            final(self).well_structured(),
            Election::same_but_registry(*final(self), *old(self)),
            old(self).registry().contains_key(*voter_id) ==> final(self).registry() == old(
                self,
            ).registry().insert(
                *voter_id,
                VoterRegistryEntry {
                    voter: old(self).registry()[*voter_id].voter,
                    has_voted: true,
                },
            ),
            !old(self).registry().contains_key(*voter_id) ==> *final(self) == *old(self),
    {
        let entry = match self.voters.get(voter_id) {
            Some(e) => Some(*e),
            None => None,
        };
        if let Some(e) = entry {
            self.voters.insert(*voter_id, VoterRegistryEntry { voter: e.voter, has_voted: true });
        }
    }

    /// The first ballot with this identifier, if any.
    pub fn get_ballot_by_id(&self, ballot_id: u64) -> (r: Option<&Ballot>)
        ensures
            match r {
                Some(b) => exists|i: int|
                    {
                        &&& 0 <= i < self.ballots@.len()
                        &&& (#[trigger] self.ballots@[i]).id == ballot_id
                        &&& forall|j: int|
                            0 <= j < i ==> (#[trigger] self.ballots@[j]).id != ballot_id
                        &&& *b == self.ballots@[i]
                    },
                None => forall|i: int|
                    0 <= i < self.ballots@.len() ==> (#[trigger] self.ballots@[i]).id != ballot_id,
            },
    {
        let n = self.ballots.len();
        let mut i: usize = 0;
        while i < n
            invariant
                n == self.ballots@.len(),
                i <= n,
                forall|j: int| 0 <= j < i ==> (#[trigger] self.ballots@[j]).id != ballot_id,
            decreases n - i,
        {
            if self.ballots[i].id == ballot_id {
                return Some(&self.ballots[i]);
            }
            i = i + 1;
        }
        None
    }

    /// A human-readable position statement for a receipt: at which index
    /// of the ballot list the receipt's ballot stands, or nothing when no
    /// ballot matches the receipt.
    pub fn generate_inclusion_proof(&self, receipt: &str) -> (r: Option<String>)
        ensures
            match r {
                Some(s) => exists|i: int|
                    {
                        &&& 0 <= i < self.ballots@.len()
                        &&& dec_rep((#[trigger] self.ballots@[i]).id as nat) == receipt@
                        &&& forall|j: int|
                            0 <= j < i ==> dec_rep(
                                (#[trigger] self.ballots@[j]).id as nat,
                            ) != receipt@
                        &&& s@ == "Ballot found at position "@ + dec_rep(i as nat)
                    },
                None => forall|i: int|
                    0 <= i < self.ballots@.len() ==> dec_rep(
                        (#[trigger] self.ballots@[i]).id as nat,
                    ) != receipt@,
            },
    {
        let receipt_owned: String = receipt.to_owned();
        let n = self.ballots.len();
        let mut i: usize = 0;
        while i < n
            invariant
                n == self.ballots@.len(),
                i <= n,
                receipt_owned@ == receipt@,
                forall|j: int|
                    0 <= j < i ==> dec_rep((#[trigger] self.ballots@[j]).id as nat) != receipt@,
            decreases n - i,
        {
            let ballot_receipt = self.ballots[i].get_receipt();
            if ballot_receipt == receipt_owned {
                let mut s: String = "Ballot found at position ".to_owned();
                let pos = crate::receipt::u64_to_dec_string(i as u64);
                s.append(pos.as_str());
                return Some(s);
            }
            i = i + 1;
        }
        None
    }

    /// Whether this election view can tally: true exactly when the secret
    /// key is present. Fixed by construction.
    pub fn can_tally(&self) -> (r: bool)
        ensures
            r == (self.secret() is Some),
    {
        match &self.private_key {
            Some(_) => true,
            None => false,
        }
    }

    /// The plaintext group element of one ballot entry, as decryption
    /// computes it.
    pub open spec fn ballot_plain(self, b: Ballot, j: int, sk: SecretKey) -> int {
        decrypt_val(
            b.ciphertexts@[j].c1 as int,
            b.ciphertexts@[j].c2 as int,
            sk.x as nat,
            self.encryption_params.p as nat,
        )
    }

    /// Entry `j` is the first entry of `b` that decrypts to `g^1`: the
    /// ballot selects choice `j`.
    pub open spec fn ballot_selects(self, b: Ballot, j: int, sk: SecretKey) -> bool {
        &&& 0 <= j < self.choices@.len()
        &&& self.ballot_plain(b, j, sk) == pow_mod_of(self.encryption_params, 1)
        &&& forall|k: int|
            0 <= k < j ==> #[trigger] self.ballot_plain(b, k, sk) != pow_mod_of(
                self.encryption_params,
                1,
            )
    }

    /// No entry of `b` decrypts to `g^1`: the ballot decodes to nothing.
    pub open spec fn ballot_undecodable(self, b: Ballot, sk: SecretKey) -> bool {
        forall|k: int|
            0 <= k < self.choices@.len() ==> #[trigger] self.ballot_plain(b, k, sk)
                != pow_mod_of(self.encryption_params, 1)
    }

    /// Decrypt a ballot to the choice it selects: the choice string at the
    /// first index whose entry decrypts to `g^1`, or nothing when no entry
    /// does.
    pub fn get_ballot_choice(&self, ballot: &Ballot) -> (r: Option<String>)
        requires
            self.well_structured(),
            self.secret() is Some,
            ballot.ciphertexts@.len() == self.choices@.len(),
        ensures
            self.secret() matches Some(sk) ==> match r {
                Some(s) => exists|j: int|
                    {
                        &&& #[trigger] self.ballot_selects(*ballot, j, sk)
                        &&& s@ == self.choices@[j]@
                    },
                None => self.ballot_undecodable(*ballot, sk),
            },
    {
        let sk = match &self.private_key {
            Some(sk) => *sk,
            None => {
                return None;
            },
        };
        let g1 = encode_choice(1, &self.encryption_params);
        let n = self.choices.len();
        let mut j: usize = 0;
        while j < n
            invariant
                self.well_structured(),
                self.secret() == Some(sk),
                ballot.ciphertexts@.len() == n,
                n == self.choices@.len(),
                j <= n,
                g1 == pow_mod_of(self.encryption_params, 1),
                forall|k: int|
                    0 <= k < j ==> #[trigger] self.ballot_plain(*ballot, k, sk)
                        != pow_mod_of(self.encryption_params, 1),
            decreases n - j,
        {
            let dec = decrypt(&ballot.ciphertexts[j], &sk, &self.encryption_params);
            if dec == g1 {
                let s = self.choices[j].clone();
                proof {
                    assert(self.ballot_selects(*ballot, j as int, sk));
                }
                return Some(s);
            }
            j = j + 1;
        }
        None
    }

    /// What checking a receipt against a claimed choice returns: a verdict
    /// exactly when the receipt's ballot exists, the secret key is held,
    /// and the ballot decodes to a choice; the verdict says whether that
    /// choice is the claimed one. Nothing — as distinct from a `false`
    /// verdict — in every other case.
    pub open spec fn verify_result_ok(
        self,
        receipt: Seq<char>,
        claimed_choice: Seq<char>,
        r: Option<bool>,
    ) -> bool {
        match r {
            Some(v) => exists|i: int|
                {
                    &&& 0 <= i < self.ballots@.len()
                    &&& dec_rep((#[trigger] self.ballots@[i]).id as nat) == receipt
                    &&& forall|j: int|
                        0 <= j < i ==> dec_rep((#[trigger] self.ballots@[j]).id as nat) != receipt
                    &&& self.secret() matches Some(sk) && exists|j: int|
                        {
                            &&& #[trigger] self.ballot_selects(self.ballots@[i], j, sk)
                            &&& v == (self.choices@[j]@ == claimed_choice)
                        }
                },
            None => {
                ||| forall|i: int|
                    0 <= i < self.ballots@.len() ==> dec_rep(
                        (#[trigger] self.ballots@[i]).id as nat,
                    ) != receipt
                ||| self.secret() is None
                ||| (self.secret() matches Some(sk) && exists|i: int|
                    {
                        &&& 0 <= i < self.ballots@.len()
                        &&& dec_rep((#[trigger] self.ballots@[i]).id as nat) == receipt
                        &&& self.ballot_undecodable(self.ballots@[i], sk)
                    })
            },
        }
    }

    /// Check a receipt against a claimed choice: find the receipt's
    /// ballot, decrypt and decode it, and compare. Returns nothing — as
    /// distinct from a `false` verdict — when no ballot matches the
    /// receipt, when this view holds no secret key, or when the ballot
    /// decodes to nothing.
    pub fn verify_vote(&self, receipt: &str, claimed_choice: &str) -> (r: Option<bool>)
        requires
            self.well_structured(),
        ensures
            self.verify_result_ok(receipt@, claimed_choice@, r),
    {
        let receipt_owned: String = receipt.to_owned();
        let n = self.ballots.len();
        let mut i: usize = 0;
        while i < n
            invariant
                self.well_structured(),
                n == self.ballots@.len(),
                i <= n,
                receipt_owned@ == receipt@,
                forall|j: int|
                    0 <= j < i ==> dec_rep((#[trigger] self.ballots@[j]).id as nat) != receipt@,
            decreases n - i,
        {
            let ballot_receipt = self.ballots[i].get_receipt();
            if ballot_receipt == receipt_owned {
                if !self.can_tally() {
                    return None;
                }
                let decoded = self.get_ballot_choice(&self.ballots[i]);
                match decoded {
                    None => {
                        return None;
                    },
                    Some(s) => {
                        let claimed_owned: String = claimed_choice.to_owned();
                        let v = s == claimed_owned;
                        return Some(v);
                    },
                }
            }
            i = i + 1;
        }
        None
    }
}

/// Receipts are unique within an election: distinct ballots render to
/// distinct receipt strings, because ballot identifiers are pairwise
/// distinct and the decimal rendering is injective.
pub proof fn lemma_receipts_unique(e: Election, i: int, j: int)
    requires
        e.well_structured(),
        0 <= i < j < e.ballots@.len(),
    ensures
        dec_rep(e.ballots@[i].id as nat) != dec_rep(e.ballots@[j].id as nat),
{
    if dec_rep(e.ballots@[i].id as nat) == dec_rep(e.ballots@[j].id as nat) {
        crate::receipt::lemma_dec_rep_injective(e.ballots@[i].id as nat, e.ballots@[j].id as nat);
    }
}

/// Marking a registered, not-yet-voted voter as voted raises the voted
/// count by exactly one.
pub proof fn lemma_voted_count_mark(e0: Election, e1: Election, v: u64)
    requires
        e0.registry_finite(),
        e0.registry().contains_key(v),
        !e0.registry()[v].has_voted,
        e1.registry() == e0.registry().insert(
            v,
            VoterRegistryEntry { voter: e0.registry()[v].voter, has_voted: true },
        ),
    ensures
        e1.voted_count() == e0.voted_count() + 1,
{
    assert(e1.voted_ids() =~= e0.voted_ids().insert(v));
    assert(e0.voted_ids().subset_of(e0.registry().dom()));
    lemma_len_subset(e0.voted_ids(), e0.registry().dom());
    assert(!e0.voted_ids().contains(v));
}

} // verus!
