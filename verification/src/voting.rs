//! The stateless voting service: eligibility checks, ballot construction
//! and storage, and the homomorphic tally protocol, all as operations over
//! a borrowed election.

use vstd::prelude::*;
use crate::arith::pow_mod;
use crate::ballot::{is_one_hot_encryption, pow_mod_of, vote_message, Ballot};
use crate::elgamal::{
    add_homomorphic, cipher_shape, decrypt, decrypt_val, distinct_encodings, dlog_result_ok,
    encrypts, homomorphic_identity, lemma_cipher_product_shape, lemma_pubkey_pow,
    solve_discrete_log, SecretKey,
};
use vstd::arithmetic::div_mod::lemma_small_mod;
use vstd::arithmetic::power::lemma_pow0;
use crate::election::Election;
use crate::error::VotingError;
use crate::receipt::dec_rep;
use crate::voter::VoterRegistryEntry;

verus! {

/// Which error a vote request is answered with, checked in this order:
/// the voter must be registered, the choice must be offered, and the voter
/// must not have voted before. `None` when all three checks pass.
pub open spec fn vote_error(e: Election, voter_id: u64, choice: Seq<char>) -> Option<VotingError> {
    if !e.registry().contains_key(voter_id) {
        Some(VotingError::VoterNotFound)
    } else if !e.valid_choice(choice) {
        Some(VotingError::InvalidChoice)
    } else if e.registry()[voter_id].has_voted {
        Some(VotingError::AlreadyVoted)
    } else {
        None
    }
}

/// The state change of a granted vote: the voter is marked as having
/// voted, one new ballot with a fresh identifier stands at the end of the
/// ballot list and one-hot encrypts the first index of the chosen string,
/// and everything else is unchanged.
pub open spec fn vote_granted(pre: Election, post: Election, voter_id: u64, choice: Seq<char>) -> bool {
    &&& post.registry() == pre.registry().insert(
        voter_id,
        VoterRegistryEntry { voter: pre.registry()[voter_id].voter, has_voted: true },
    )
    &&& post.ballots@.len() == pre.ballots@.len() + 1
    &&& post.ballots@.drop_last() == pre.ballots@
    &&& post.ballots@.last().ciphertexts@.len() == pre.choices@.len()
    &&& forall|i: int|
        0 <= i < pre.ballots@.len() ==> (#[trigger] pre.ballots@[i]).id != post.ballots@.last().id
    &&& exists|idx: int|
        {
            &&& 0 <= idx < pre.choices@.len()
            &&& #[trigger] pre.choices@[idx]@ == choice
            &&& forall|j: int| 0 <= j < idx ==> #[trigger] pre.choices@[j]@ != choice
            &&& is_one_hot_encryption(
                post.ballots@.last().ciphertexts@,
                idx,
                pre.public_key.h,
                pre.encryption_params,
            )
        }
    &&& post.id == pre.id
    &&& post.name == pre.name
    &&& post.choices == pre.choices
    &&& post.public_key == pre.public_key
    &&& post.secret() == pre.secret()
    &&& post.encryption_params == pre.encryption_params
}

/// The aggregate first component for choice `j`: the product of the `j`th
/// ciphertext's `c1` over all ballots, modulo `p`, seeded at the
/// homomorphic identity.
pub open spec fn agg_c1(ballots: Seq<Ballot>, j: int, p: nat) -> int
    decreases ballots.len(),
{
    if ballots.len() == 0 {
        1
    } else {
        (agg_c1(ballots.drop_last(), j, p) * ballots.last().ciphertexts@[j].c1) % (p as int)
    }
}

/// The aggregate second component for choice `j`.
pub open spec fn agg_c2(ballots: Seq<Ballot>, j: int, p: nat) -> int
    decreases ballots.len(),
{
    if ballots.len() == 0 {
        1
    } else {
        (agg_c2(ballots.drop_last(), j, p) * ballots.last().ciphertexts@[j].c2) % (p as int)
    }
}

/// What the tally reports for choice `j`: the aggregate ciphertext for `j`
/// is decrypted, and its discrete log over `0..=ballot count` is the
/// count; an aggregate whose log is not found in that range counts as
/// zero ("undecodable" is reported as zero votes, a documented
/// simplification).
pub open spec fn tally_count_ok(e: Election, sk: SecretKey, j: int, cnt: usize) -> bool {
    let p = e.encryption_params.p as nat;
    let target = decrypt_val(agg_c1(e.ballots@, j, p), agg_c2(e.ballots@, j, p), sk.x as nat, p);
    if exists|i: nat|
        i <= e.ballots@.len() && #[trigger] pow_mod(e.encryption_params.g as int, i, p) == target {
        dlog_result_ok(Some(cnt), target, e.ballots@.len(), e.encryption_params)
    } else {
        cnt == 0
    }
}

/// A tally: one `(choice, count)` entry per election choice, in the
/// election's choice order.
#[derive(Debug)]
pub struct TallyResult {
    pub entries: Vec<(String, usize)>,
}

impl TallyResult {
    /// The count recorded for the first entry whose choice string equals
    /// `choice`, if any.
    pub fn get(&self, choice: &str) -> (r: Option<usize>)
        ensures
            match r {
                Some(c) => exists|i: int|
                    {
                        &&& 0 <= i < self.entries@.len()
                        &&& (#[trigger] self.entries@[i]).0@ == choice@
                        &&& forall|j: int|
                            0 <= j < i ==> (#[trigger] self.entries@[j]).0@ != choice@
                        &&& c == self.entries@[i].1
                    },
                None => forall|i: int|
                    0 <= i < self.entries@.len() ==> (#[trigger] self.entries@[i]).0@ != choice@,
            },
    {
        let choice_owned: String = choice.to_owned();
        let n = self.entries.len();
        let mut i: usize = 0;
        while i < n
            invariant
                n == self.entries@.len(),
                i <= n,
                choice_owned@ == choice@,
                forall|j: int|
                    0 <= j < i ==> (#[trigger] self.entries@[j]).0@ != choice@,
            decreases n - i,
        {
            if self.entries[i].0 == choice_owned {
                return Some(self.entries[i].1);
            }
            i = i + 1;
        }
        None
    }

    /// How many entries the tally holds.
    pub fn len(&self) -> (r: usize)
        ensures
            r == self.entries@.len(),
    {
        self.entries.len()
    }
}

/// The stateless set of voting operations.
pub struct VotingService;

impl VotingService {
    /// Cast a vote: enforce, in order, that the voter is registered, the
    /// choice is offered, and the voter has not voted; only then construct
    /// the one-hot ballot, append it, and mark the voter. Returns the new
    /// ballot's receipt. The election is left unchanged on every failure.
    pub fn vote(election: &mut Election, voter_id: u64, choice: &str) -> (r: Result<
        String,
        VotingError,
    >)
        requires
            old(election).well_formed(),
        ensures
            final(election).well_formed(),
            match vote_error(*old(election), voter_id, choice@) {
                Some(err) => r == Err::<String, VotingError>(err) && *final(election) == *old(
                    election,
                ),
                None => match r {
                    Ok(receipt) => {
                        &&& vote_granted(*old(election), *final(election), voter_id, choice@)
                        &&& receipt@ == dec_rep(final(election).ballots@.last().id as nat)
                    },
                    Err(e) => {
                        &&& e == VotingError::InvalidBallot
                        &&& *final(election) == *old(election)
                    },
                },
            },
    {
        if !election.is_allowed_voters(voter_id) {
            return Err(VotingError::VoterNotFound);
        }
        if !election.is_valid_choice(choice) {
            return Err(VotingError::InvalidChoice);
        }
        if election.has_voted(&voter_id) {
            return Err(VotingError::AlreadyVoted);
        }
        let ballot = match Ballot::new(
            choice,
            &election.choices,
            &election.public_key,
            &election.encryption_params,
        ) {
            Ok(b) => b,
            Err(e) => {
                return Err(e);
            },
        };
        let ghost pre = *election;
        let receipt = match election.add_ballot(ballot) {
            Ok(rc) => rc,
            Err(e) => {
                return Err(e);
            },
        };
        let ghost mid = *election;
        election.set_voted(&voter_id);
        proof {
            crate::election::lemma_voted_count_mark(mid, *election, voter_id);
            assert(final(election).ballots@.drop_last() =~= pre.ballots@);
        }
        Ok(receipt)
    }

    /// Check a receipt against a claimed choice; see
    /// `Election::verify_vote`.
    pub fn verify_vote(election: &Election, receipt: &str, claimed_choice: &str) -> (r: Option<
        bool,
    >)
        requires
            election.well_structured(),
        ensures
            election.verify_result_ok(receipt@, claimed_choice@, r),
    {
        election.verify_vote(receipt, claimed_choice)
    }

    /// Tally the election homomorphically: refused without the secret key;
    /// otherwise, for every choice, fold all ballots' ciphertexts for that
    /// choice into one aggregate, decrypt it, and recover the count by
    /// discrete-log search bounded by the number of ballots cast.
    /// Individual ballots are never decrypted.
    pub fn tally(election: &Election) -> (r: Result<TallyResult, VotingError>)
        requires
            election.well_structured(),
            election.ballots@.len() < usize::MAX,
        ensures
            match election.secret() {
                None => r == Err::<TallyResult, VotingError>(VotingError::TallyNotAllowed),
                Some(sk) => match r {
                    Ok(t) => {
                        &&& t.entries@.len() == election.choices@.len()
                        &&& forall|j: int|
                            0 <= j < t.entries@.len() ==> (#[trigger] t.entries@[j]).0@
                                == election.choices@[j]@
                        &&& forall|j: int|
                            0 <= j < t.entries@.len() ==> tally_count_ok(
                                *election,
                                sk,
                                j,
                                (#[trigger] t.entries@[j]).1,
                            )
                    },
                    Err(_) => false,
                },
            },
    {
        let sk = match &election.private_key {
            Some(s) => *s,
            None => {
                return Err(VotingError::TallyNotAllowed);
            },
        };
        let n = election.choices.len();
        let nb = election.ballots.len();
        let mut entries: Vec<(String, usize)> = Vec::new();
        let mut j: usize = 0;
        while j < n
            invariant
                election.well_structured(),
                election.secret() == Some(sk),
                n == election.choices@.len(),
                nb == election.ballots@.len(),
                nb < usize::MAX,
                j <= n,
                entries@.len() == j,
                forall|k: int|
                    0 <= k < j ==> (#[trigger] entries@[k]).0@ == election.choices@[k]@,
                forall|k: int|
                    0 <= k < j ==> tally_count_ok(*election, sk, k, (#[trigger] entries@[k]).1),
            decreases n - j,
        {
            let mut acc = homomorphic_identity();
            let mut i: usize = 0;
            while i < nb
                invariant
                    election.well_structured(),
                    n == election.choices@.len(),
                    nb == election.ballots@.len(),
                    i <= nb,
                    j < n,
                    acc.c1 == agg_c1(
                        election.ballots@.subrange(0, i as int),
                        j as int,
                        election.encryption_params.p as nat,
                    ),
                    acc.c2 == agg_c2(
                        election.ballots@.subrange(0, i as int),
                        j as int,
                        election.encryption_params.p as nat,
                    ),
                decreases nb - i,
            {
                proof {
                    assert(election.ballots@.subrange(0, i as int)
                        =~= election.ballots@.subrange(0, i + 1 as int).drop_last());
                    assert(election.ballots@.subrange(0, i + 1 as int).last()
                        == election.ballots@[i as int]);
                }
                acc = add_homomorphic(
                    &acc,
                    &election.ballots[i].ciphertexts[j],
                    &election.encryption_params,
                );
                i = i + 1;
            }
            proof {
                assert(election.ballots@.subrange(0, nb as int) =~= election.ballots@);
            }
            let dec = decrypt(&acc, &sk, &election.encryption_params);
            let cnt_opt = solve_discrete_log(dec, &election.encryption_params, nb);
            let cnt: usize = match cnt_opt {
                Some(c) => c,
                None => 0,
            };
            proof {
                assert(tally_count_ok(*election, sk, j as int, cnt));
            }
            let entry = (election.choices[j].clone(), cnt);
            entries.push(entry);
            j = j + 1;
        }
        Ok(TallyResult { entries })
    }
}

/// How many of the selected indices equal `j`.
pub open spec fn count_sel(idxs: Seq<int>, j: int) -> nat
    decreases idxs.len(),
{
    if idxs.len() == 0 {
        0
    } else {
        count_sel(idxs.drop_last(), j) + (if idxs.last() == j {
            1nat
        } else {
            0nat
        })
    }
}

proof fn lemma_count_sel_le_len(idxs: Seq<int>, j: int)
    ensures
        count_sel(idxs, j) <= idxs.len(),
    decreases idxs.len(),
{
    if idxs.len() > 0 {
        lemma_count_sel_le_len(idxs.drop_last(), j);
    }
}

/// Each ballot one-hot encrypts the selection recorded for it in `idxs`.
pub open spec fn ballots_one_hot(
    ballots: Seq<Ballot>,
    idxs: Seq<int>,
    h: u64,
    ps: crate::params::CryptoParams,
) -> bool {
    &&& idxs.len() == ballots.len()
    &&& forall|i: int|
        0 <= i < ballots.len() ==> is_one_hot_encryption(
            (#[trigger] ballots[i]).ciphertexts@,
            idxs[i],
            h,
            ps,
        )
}

/// The aggregate ciphertext of column `j` over one-hot ballots has the
/// algebraic shape of an encryption of `g^(number of ballots selecting j)`.
proof fn lemma_aggregate_shape(
    ballots: Seq<Ballot>,
    idxs: Seq<int>,
    j: int,
    ps: crate::params::CryptoParams,
    x: u64,
    h: u64,
)
    requires
        ps.valid(),
        h == pow_mod(ps.g as int, x as nat, ps.p as nat),
        ballots_one_hot(ballots, idxs, h, ps),
        0 <= j,
        forall|i: int| 0 <= i < ballots.len() ==> j < (#[trigger] ballots[i]).ciphertexts@.len(),
    ensures
        exists|rr: nat|
            cipher_shape(
                agg_c1(ballots, j, ps.p as nat),
                agg_c2(ballots, j, ps.p as nat),
                ps.g as int,
                x as nat,
                rr,
                pow_mod_of(ps, count_sel(idxs, j)),
                ps.p as nat,
            ),
    decreases ballots.len(),
{
    let p = ps.p as nat;
    let pi = ps.p as int;
    let g = ps.g as int;
    if ballots.len() == 0 {
        assert(cipher_shape(
            agg_c1(ballots, j, p),
            agg_c2(ballots, j, p),
            g,
            x as nat,
            0,
            pow_mod_of(ps, 0),
            p,
        )) by {
            lemma_pow0(g);
            lemma_small_mod(1, p);
            assert((x as nat) * 0 == 0);
            assert(pow_mod_of(ps, 0) == 1);
            assert((1int * 1int) % pi == 1);
        }
    } else {
        let pre = ballots.drop_last();
        let pidx = idxs.drop_last();
        assert(ballots_one_hot(pre, pidx, h, ps)) by {
            assert(forall|i: int| 0 <= i < pre.len() ==> pre[i] == ballots[i]);
            assert(forall|i: int| 0 <= i < pidx.len() ==> pidx[i] == idxs[i]);
        }
        lemma_aggregate_shape(pre, pidx, j, ps, x, h);
        let m1 = pow_mod_of(ps, count_sel(pidx, j));
        let rr1 = choose|rr: nat|
            cipher_shape(agg_c1(pre, j, p), agg_c2(pre, j, p), g, x as nat, rr, m1, p);
        // the last ballot's entry for column j
        let last_i = ballots.len() - 1;
        assert(is_one_hot_encryption(ballots[last_i].ciphertexts@, idxs[last_i], h, ps));
        let e = ballots.last().ciphertexts@[j];
        let sel = j == idxs.last();
        assert(encrypts(e, vote_message(ps, sel), h, ps));
        let m2 = vote_message(ps, sel);
        let r2 = choose|r: nat|
            {
                &&& 1 <= r <= ps.p - 2
                &&& e.c1 == pow_mod(g, r, p)
                &&& e.c2 == (m2 * pow_mod(h as int, r, p)) % pi
            };
        lemma_pubkey_pow(g, x as nat, r2, p);
        assert(cipher_shape(e.c1 as int, e.c2 as int, g, x as nat, r2, m2, p));
        lemma_cipher_product_shape(
            g,
            x as nat,
            p,
            m1,
            rr1,
            m2,
            r2,
            agg_c1(pre, j, p),
            agg_c2(pre, j, p),
            e.c1 as int,
            e.c2 as int,
        );
        let bit: nat = if sel {
            1
        } else {
            0
        };
        crate::elgamal::lemma_encoded_product(ps, count_sel(pidx, j), bit);
        assert(m2 == pow_mod_of(ps, bit));
        assert((m1 * m2) % pi == pow_mod_of(ps, count_sel(pidx, j) + bit));
        assert(count_sel(idxs, j) == count_sel(pidx, j) + bit);
        assert(cipher_shape(
            agg_c1(ballots, j, p),
            agg_c2(ballots, j, p),
            g,
            x as nat,
            rr1 + r2,
            pow_mod_of(ps, count_sel(idxs, j)),
            p,
        ));
    }
}

/// Tally correctness: for an election whose ballots one-hot encrypt the
/// selections recorded in `idxs`, any count satisfying the tally's
/// contract for choice `j` is exactly the number of ballots that selected
/// `j` — provided the group encodes every possible count distinctly, the
/// obligation on the chosen parameters.
pub proof fn lemma_tally_counts_exactly(
    e: Election,
    sk: SecretKey,
    idxs: Seq<int>,
    j: int,
    cnt: usize,
)
    requires
        e.well_structured(),
        e.secret() == Some(sk),
        ballots_one_hot(e.ballots@, idxs, e.public_key.h, e.encryption_params),
        0 <= j < e.choices@.len(),
        distinct_encodings(e.encryption_params, e.ballots@.len() + 1),
        tally_count_ok(e, sk, j, cnt),
    ensures
        cnt == count_sel(idxs, j),
{
    let ps = e.encryption_params;
    let p = ps.p as nat;
    let pi = ps.p as int;
    let g = ps.g as int;
    let nb = e.ballots@.len();
    lemma_aggregate_shape(e.ballots@, idxs, j, ps, sk.x, e.public_key.h);
    let m = pow_mod_of(ps, count_sel(idxs, j));
    let rr = choose|rr: nat|
        cipher_shape(agg_c1(e.ballots@, j, p), agg_c2(e.ballots@, j, p), g, sk.x as nat, rr, m, p);
    crate::elgamal::lemma_decrypt_form(g, sk.x as nat, rr, m, p);
    let target = decrypt_val(agg_c1(e.ballots@, j, p), agg_c2(e.ballots@, j, p), sk.x as nat, p);
    assert(0 <= m < pi);
    lemma_small_mod(m as nat, p);
    assert(target == m);
    lemma_count_sel_le_len(idxs, j);
    let count = count_sel(idxs, j);
    assert(pow_mod(g, count, p) == target);
    assert(count <= nb);
    assert(dlog_result_ok(Some(cnt), target, nb, ps));
    if (cnt as nat) < count {
        assert(pow_mod(g, cnt as nat, p) != pow_mod(g, count, p));
    } else if count < cnt as nat {
        assert(pow_mod(g, count, p) != pow_mod(g, cnt as nat, p));
    }
}

/// Double-vote prevention: after a granted vote for a voter, any further
/// vote request for the same voter, with any choice the election offers,
/// is answered with `AlreadyVoted`.
pub proof fn lemma_double_vote_prevented(
    e0: Election,
    e1: Election,
    v: u64,
    choice_a: Seq<char>,
    choice_b: Seq<char>,
)
    requires
        vote_error(e0, v, choice_a) is None,
        vote_granted(e0, e1, v, choice_a),
        e1.valid_choice(choice_b),
    ensures
        vote_error(e1, v, choice_b) == Some(VotingError::AlreadyVoted),
{
}

/// `has_voted` never resets: a granted vote keeps every registered voter
/// registered and every voter that had voted marked as having voted.
pub proof fn lemma_has_voted_monotone(e0: Election, e1: Election, v: u64, choice: Seq<char>, w: u64)
    requires
        vote_granted(e0, e1, v, choice),
        e0.registry().contains_key(w),
    ensures
        e1.registry().contains_key(w),
        e0.registry()[w].has_voted ==> e1.registry()[w].has_voted,
{
}

/// Eligibility: a vote request for an unregistered voter identifier is
/// answered with `VoterNotFound`, whatever the choice.
pub proof fn lemma_unregistered_voter_rejected(e: Election, v: u64, choice: Seq<char>)
    requires
        !e.registry().contains_key(v),
    ensures
        vote_error(e, v, choice) == Some(VotingError::VoterNotFound),
{
}

/// Eligibility: a vote request from a registered voter with a choice
/// string the election does not offer is answered with `InvalidChoice`.
pub proof fn lemma_absent_choice_rejected(e: Election, v: u64, choice: Seq<char>)
    requires
        e.registry().contains_key(v),
        !e.valid_choice(choice),
    ensures
        vote_error(e, v, choice) == Some(VotingError::InvalidChoice),
{
}

} // verus!
