//! Cryptographic parameters: the fixed cyclic-group description shared by
//! every operation of an election.

use vstd::prelude::*;
use crate::arith::{lemma_toy_modulus_prime, mod_exp, pow_mod, prime_modulus};

verus! {

/// A cyclic-group description: a prime modulus `p` and a generator `g`.
#[derive(Debug, Clone, Copy)]
pub struct CryptoParams {
    pub p: u64,
    pub g: u64,
}

impl CryptoParams {
    /// What every cryptographic operation assumes of the group: the modulus
    /// satisfies the prime-modulus property and the generator lies strictly
    /// between 1 and `p - 1`. Callers must further pick `p` large enough
    /// that every choice index and every possible vote count is encoded as
    /// a distinct group element; that bound enters the contracts of the
    /// decoding operations as an explicit hypothesis.
    pub open spec fn valid(self) -> bool {
        &&& prime_modulus(self.p as nat)
        &&& self.p >= 5
        &&& 2 <= self.g <= self.p - 2
    }

    /// Tiny parameters: not secure, but good for testing.
    pub fn toy_params() -> (r: Self)
        ensures
            r.p == 23,
            r.g == 4,
            r.valid(),
    {
        proof {
            lemma_toy_modulus_prime();
        }
        CryptoParams { p: 23, g: 4 }
    }

    /// Decide `valid()` at run time, so that malformed parameters fail
    /// fast at configuration time instead of producing silently wrong
    /// arithmetic later: checks the ranges of `p` and `g` and then the
    /// prime-modulus property residue by residue. Feasible only for the
    /// small test groups this crate ships; a production group is fixed and
    /// agreed upon out of band.
    pub fn check_valid(&self) -> (r: bool)
        ensures
            r == self.valid(),
    {
        if self.p < 5 || self.g < 2 || self.g > self.p - 2 {
            return false;
        }
        let mut a: u64 = 1;
        while a < self.p
            invariant
                5 <= self.p,
                1 <= a <= self.p,
                forall|b: int|
                    1 <= b < a ==> #[trigger] pow_mod(b, (self.p - 1) as nat, self.p as nat) == 1,
            decreases self.p - a,
        {
            if mod_exp(a, self.p - 1, self.p) != 1 {
                proof {
                    assert(pow_mod(a as int, (self.p - 1) as nat, self.p as nat) != 1);
                    assert(!prime_modulus(self.p as nat));
                }
                return false;
            }
            a = a + 1;
        }
        true
    }

    /// Slightly larger parameters; still not secure, but better for testing.
    /// No group property is claimed of them here.
    pub fn test_params() -> (r: Self)
        ensures
            r.p == 1019,
            r.g == 2,
    {
        CryptoParams { p: 1019, g: 2 }
    }
}

} // verus!
