//! Ballots: a one-hot vector of ciphertexts, one per election choice.
//! Exactly one entry encrypts `g^1`, all others `g^0`, each under an
//! independently fresh blinding factor — reusing a factor across entries
//! would leak the selection through equal first components.

use vstd::prelude::*;
use crate::elgamal::{encode_choice, encrypt, encrypts, Ciphertext, PublicKey};
use crate::error::VotingError;
use crate::params::CryptoParams;
use crate::receipt::{dec_rep, u64_to_dec_string};
use crate::rng::random_u64;

verus! {

/// The group element a ballot entry carries: `g^1` at the selected index,
/// `g^0` everywhere else.
pub open spec fn vote_message(ps: CryptoParams, selected: bool) -> int {
    if selected {
        pow_mod_of(ps, 1)
    } else {
        pow_mod_of(ps, 0)
    }
}

/// `g^e mod p` for the group of `ps`.
pub open spec fn pow_mod_of(ps: CryptoParams, e: nat) -> int {
    crate::arith::pow_mod(ps.g as int, e, ps.p as nat)
}

/// The ciphertext vector is a one-hot encryption selecting `idx`: entry
/// `idx` encrypts `g^1`, every other entry encrypts `g^0`, all under the
/// public key `h`.
pub open spec fn is_one_hot_encryption(
    cts: Seq<Ciphertext>,
    idx: int,
    h: u64,
    ps: CryptoParams,
) -> bool {
    forall|j: int|
        #![trigger cts[j]]
        0 <= j < cts.len() ==> encrypts(cts[j], vote_message(ps, j == idx), h, ps)
}

/// The first position of `choice` in `choices`, by exact, case-sensitive
/// string match.
pub(crate) fn choice_position(choices: &Vec<String>, choice: &str) -> (r: Option<usize>)
    ensures
        match r {
            Some(i) => {
                &&& i < choices@.len()
                &&& choices@[i as int]@ == choice@
                &&& forall|j: int| 0 <= j < i ==> #[trigger] choices@[j]@ != choice@
            },
            None => forall|j: int|
                0 <= j < choices@.len() ==> #[trigger] choices@[j]@ != choice@,
        },
{
    let choice_owned: String = choice.to_owned();
    let n = choices.len();
    let mut i: usize = 0;
    while i < n
        invariant
            n == choices@.len(),
            i <= n,
            choice_owned@ == choice@,
            forall|j: int| 0 <= j < i ==> #[trigger] choices@[j]@ != choice@,
        decreases n - i,
    {
        if choices[i] == choice_owned {
            return Some(i);
        }
        i = i + 1;
    }
    None
}

/// A cast ballot: an opaque identifier and one ciphertext per choice.
#[derive(Debug, Clone)]
pub struct Ballot {
    pub id: u64,
    pub ciphertexts: Vec<Ciphertext>,
}

impl Ballot {
    /// Build a ballot for `choice`: resolve the choice to its index, then
    /// encrypt `g^1` at that index and `g^0` everywhere else, each entry
    /// under a fresh blinding factor, and assign a fresh identifier. Fails
    /// exactly when `choice` does not occur in `choices`.
    pub fn new(
        choice: &str,
        choices: &Vec<String>,
        public_key: &PublicKey,
        params: &CryptoParams,
    ) -> (r: Result<Ballot, VotingError>)
        requires
            params.valid(),
        ensures
            match r {
                Ok(b) => {
                    &&& b.ciphertexts@.len() == choices@.len()
                    &&& exists|idx: int|
                        {
                            &&& 0 <= idx < choices@.len()
                            &&& #[trigger] choices@[idx]@ == choice@
                            &&& forall|j: int|
                                0 <= j < idx ==> #[trigger] choices@[j]@ != choice@
                            &&& is_one_hot_encryption(b.ciphertexts@, idx, public_key.h, *params)
                        }
                },
                Err(e) => {
                    &&& e == VotingError::InvalidChoice
                    &&& forall|j: int|
                        0 <= j < choices@.len() ==> #[trigger] choices@[j]@ != choice@
                },
            },
    {
        match choice_position(choices, choice) {
            None => Err(VotingError::InvalidChoice),
            Some(idx) => {
                let g1 = encode_choice(1, params);
                let g0 = encode_choice(0, params);
                let n = choices.len();
                let mut cts: Vec<Ciphertext> = Vec::new();
                let mut j: usize = 0;
                while j < n
                    invariant
                        params.valid(),
                        n == choices@.len(),
                        j <= n,
                        idx < n,
                        g1 == vote_message(*params, true),
                        g0 == vote_message(*params, false),
                        cts@.len() == j,
                        forall|k: int|
                            #![trigger cts@[k]]
                            0 <= k < j ==> encrypts(
                                cts@[k],
                                vote_message(*params, k == idx),
                                public_key.h,
                                *params,
                            ),
                    decreases n - j,
                {
                    let msg = if j == idx {
                        g1
                    } else {
                        g0
                    };
                    // each entry re-invokes encryption independently; the
                    // returned blinding factor is dropped, never stored
                    let (ct, _blind) = encrypt(msg, public_key, params);
                    cts.push(ct);
                    j = j + 1;
                }
                let b = Ballot { id: random_u64(), ciphertexts: cts };
                proof {
                    assert(is_one_hot_encryption(
                        b.ciphertexts@,
                        idx as int,
                        public_key.h,
                        *params,
                    ));
                }
                Ok(b)
            },
        }
    }

    /// The voter's receipt: the string form of the ballot identifier. It
    /// carries no information correlating voter to choice to anyone
    /// without the secret key.
    pub fn get_receipt(&self) -> (r: String)
        ensures
            r@ == dec_rep(self.id as nat),
    {
        u64_to_dec_string(self.id)
    }
}

} // verus!
