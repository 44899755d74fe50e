//! The earlier commitment-based ballot check, kept as an explicitly legacy
//! mode: a hash commitment over a choice and a random nonce, and a "proof"
//! that merely reveals the nonce on a matching claim. It is not a genuine
//! zero-knowledge construction — verification reveals the choice — and the
//! homomorphic ElGamal core is the reference design.

use vstd::prelude::*;
use crate::rng::random_bytes_32;
use vstd::string::StringExecFns;

verus! {

/// The 32-byte digest the commitment scheme is built on; a function of
/// the two inputs alone.
pub uninterp spec fn digest_of(choice: Seq<char>, nonce: Seq<char>) -> Seq<u8>;

/// Relies on blake3's `Hasher` (`new`, `update`, `update`, `finalize`):
/// the 32-byte digest of the two inputs hashed in order, which depends on
/// their characters alone.
#[verifier::external_body]
fn digest_pair(choice: &str, nonce: &str) -> (d: Vec<u8>)
    ensures
        d@ == digest_of(choice@, nonce@),
        d@.len() == 32,
{
    let mut hasher = blake3::Hasher::new();
    hasher.update(choice.as_bytes());
    hasher.update(nonce.as_bytes());
    hasher.finalize().as_bytes().to_vec()
}

/// The lowercase hex digit character for a value below sixteen.
pub open spec fn hex_digit_char(d: nat) -> char {
    if d == 0 {
        '0'
    } else if d == 1 {
        '1'
    } else if d == 2 {
        '2'
    } else if d == 3 {
        '3'
    } else if d == 4 {
        '4'
    } else if d == 5 {
        '5'
    } else if d == 6 {
        '6'
    } else if d == 7 {
        '7'
    } else if d == 8 {
        '8'
    } else if d == 9 {
        '9'
    } else if d == 10 {
        'a'
    } else if d == 11 {
        'b'
    } else if d == 12 {
        'c'
    } else if d == 13 {
        'd'
    } else if d == 14 {
        'e'
    } else {
        'f'
    }
}

/// Lowercase hex rendering of a byte sequence: two digits per byte, high
/// nibble first.
pub open spec fn hex_of(bs: Seq<u8>) -> Seq<char>
    decreases bs.len(),
{
    if bs.len() == 0 {
        Seq::<char>::empty()
    } else {
        hex_of(bs.drop_last()) + seq![
            hex_digit_char((bs.last() / 16) as nat),
            hex_digit_char((bs.last() % 16) as nat),
        ]
    }
}

/// Hex rendering doubles the length.
pub proof fn lemma_hex_of_len(bs: Seq<u8>)
    ensures
        hex_of(bs).len() == 2 * bs.len(),
    decreases bs.len(),
{
    if bs.len() > 0 {
        lemma_hex_of_len(bs.drop_last());
    }
}

/// Relies on `hex::encode`: the lowercase hex rendering of the bytes, two
/// digits per byte, high nibble first.
#[verifier::external_body]
fn hex_encode(bytes: &Vec<u8>) -> (s: String)
    ensures
        s@ == hex_of(bytes@),
{
    hex::encode(bytes.as_slice())
}

fn compute_commitment(choice: &str, nonce: &str) -> (s: String)
    ensures
        s@ == hex_of(digest_of(choice@, nonce@)),
{
    let digest = digest_pair(choice, nonce);
    hex_encode(&digest)
}

/// Verify a revealed `(choice, nonce)` pair against a commitment string.
pub fn verify_commitment(commitment: &str, claimed_choice: &str, nonce: &str) -> (r: bool)
    ensures
        r == (commitment@ == hex_of(digest_of(claimed_choice@, nonce@))),
{
    let computed = compute_commitment(claimed_choice, nonce);
    let commitment_owned: String = commitment.to_owned();
    commitment_owned == computed
}

/// A hash commitment to a choice: the public commitment string, and the
/// committed choice and nonce, which stay private to the committer.
#[derive(Debug, Clone, Default)]
pub struct Commitment {
    pub commitment: String,
    choice: String,
    nonce: String,
}

/// A revealed commitment check: the commitment string, the choice claimed
/// for it, and the nonce that is supposed to open it.
pub struct ZKProof {
    pub commitment: String,
    pub claimed_choice: String,
    pub nonce: String,
}

impl ZKProof {
    /// Whether the revealed pair opens the commitment.
    pub fn verify(&self) -> (r: bool)
        ensures
            r == (self.commitment@ == hex_of(digest_of(self.claimed_choice@, self.nonce@))),
    {
        verify_commitment(
            self.commitment.as_str(),
            self.claimed_choice.as_str(),
            self.nonce.as_str(),
        )
    }
}

impl Commitment {
    /// The committed choice (private to the committer).
    pub closed spec fn spec_choice(self) -> Seq<char> {
        self.choice@
    }

    /// The committing nonce (private to the committer).
    pub closed spec fn spec_nonce(self) -> Seq<char> {
        self.nonce@
    }

    /// The public commitment string.
    pub closed spec fn spec_commitment(self) -> Seq<char> {
        self.commitment@
    }

    /// Commit to a choice under a fresh 32-byte random nonce, rendered in
    /// hex.
    pub fn new(choice: &str) -> (r: Self)
        ensures
            r.spec_choice() == choice@,
            r.spec_nonce().len() == 64,
            r.spec_commitment() == hex_of(digest_of(choice@, r.spec_nonce())),
    {
        let nonce_bytes = random_bytes_32();
        let nonce = hex_encode(&nonce_bytes);
        proof {
            lemma_hex_of_len(nonce_bytes@);
        }
        let commitment = compute_commitment(choice, nonce.as_str());
        Commitment { commitment, choice: choice.to_owned(), nonce }
    }

    /// A check for a claimed choice: on a matching claim, reveal the real
    /// nonce; on a mismatching one, hand out the committed choice with a
    /// nonce that cannot open the commitment.
    pub fn create_proof_of_commitment(&self, claimed_choice: &str) -> (p: ZKProof)
        ensures
            p.commitment@ == self.spec_commitment(),
            claimed_choice@ == self.spec_choice() ==> p.claimed_choice@ == claimed_choice@
                && p.nonce@ == self.spec_nonce(),
            claimed_choice@ != self.spec_choice() ==> p.claimed_choice@ == self.spec_choice()
                && p.nonce@ == "invalid"@,
    {
        let claimed_owned: String = claimed_choice.to_owned();
        if claimed_owned == self.choice {
            ZKProof {
                commitment: self.commitment.clone(),
                claimed_choice: claimed_owned,
                nonce: self.nonce.clone(),
            }
        } else {
            ZKProof {
                commitment: self.commitment.clone(),
                claimed_choice: self.choice.clone(),
                nonce: "invalid".to_owned(),
            }
        }
    }

    /// The committed choice in the clear. Defeats the point of the
    /// commitment; kept only for the legacy mode's callers.
    pub fn reveal_choice_unsafe(&self) -> (r: &str)
        ensures
            r@ == self.spec_choice(),
    {
        self.choice.as_str()
    }
}

} // verus!
