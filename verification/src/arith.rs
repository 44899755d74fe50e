//! Modular arithmetic over `u64` group elements: modular multiplication,
//! fast modular exponentiation, and the number-theoretic facts the cipher
//! rests on.

use vstd::prelude::*;
use vstd::arithmetic::div_mod::lemma_mul_mod_noop_general;
use vstd::arithmetic::power::{lemma_pow0, lemma_pow1, lemma_pow_adds, pow};

verus! {

/// `b^e mod m`, stated over the mathematical integers.
pub open spec fn pow_mod(b: int, e: nat, m: nat) -> int
    recommends
        m > 0,
{
    pow(b, e) % (m as int)
}

/// The property of the modulus that decryption rests on: every residue in
/// `[1, p)` raised to the power `p - 1` is `1` modulo `p`. By Fermat's
/// little theorem this holds of every prime `p`; conversely every composite
/// `p` fails it (for a divisor `d` of `p` with `1 < d < p`, both `p` and
/// `d^(p-1)` are multiples of `d`, so `d^(p-1) mod p` is too, and cannot be
/// `1`). The predicate therefore characterises exactly the prime moduli the
/// cipher is defined over.
pub open spec fn prime_modulus(p: nat) -> bool {
    p >= 2 && forall|a: int| 1 <= a < p ==> #[trigger] pow_mod(a, (p - 1) as nat, p) == 1
}

#[verifier::rlimit(100)]
proof fn lemma_pow22_mod23_low(a: int)
    requires
        1 <= a < 12,
    ensures
        pow_mod(a, 22, 23) == 1,
{
    reveal_with_fuel(pow, 24);
    if a == 1 {
        assert(pow(1, 22) % 23 == 1);
    } else if a == 2 {
        assert(pow(2, 22) % 23 == 1);
    } else if a == 3 {
        assert(pow(3, 22) % 23 == 1);
    } else if a == 4 {
        assert(pow(4, 22) % 23 == 1);
    } else if a == 5 {
        assert(pow(5, 22) % 23 == 1);
    } else if a == 6 {
        assert(pow(6, 22) % 23 == 1);
    } else if a == 7 {
        assert(pow(7, 22) % 23 == 1);
    } else if a == 8 {
        assert(pow(8, 22) % 23 == 1);
    } else if a == 9 {
        assert(pow(9, 22) % 23 == 1);
    } else if a == 10 {
        assert(pow(10, 22) % 23 == 1);
    } else {
        assert(pow(11, 22) % 23 == 1);
    }
}

#[verifier::rlimit(100)]
proof fn lemma_pow22_mod23_high(a: int)
    requires
        12 <= a < 23,
    ensures
        pow_mod(a, 22, 23) == 1,
{
    reveal_with_fuel(pow, 24);
    if a == 12 {
        assert(pow(12, 22) % 23 == 1);
    } else if a == 13 {
        assert(pow(13, 22) % 23 == 1);
    } else if a == 14 {
        assert(pow(14, 22) % 23 == 1);
    } else if a == 15 {
        assert(pow(15, 22) % 23 == 1);
    } else if a == 16 {
        assert(pow(16, 22) % 23 == 1);
    } else if a == 17 {
        assert(pow(17, 22) % 23 == 1);
    } else if a == 18 {
        assert(pow(18, 22) % 23 == 1);
    } else if a == 19 {
        assert(pow(19, 22) % 23 == 1);
    } else if a == 20 {
        assert(pow(20, 22) % 23 == 1);
    } else if a == 21 {
        assert(pow(21, 22) % 23 == 1);
    } else {
        assert(pow(22, 22) % 23 == 1);
    }
}

/// The fixed test modulus 23 satisfies `prime_modulus`.
pub proof fn lemma_toy_modulus_prime()
    ensures
        prime_modulus(23),
{
    assert forall|a: int| 1 <= a < 23 implies #[trigger] pow_mod(a, 22, 23) == 1 by {
        if a < 12 {
            lemma_pow22_mod23_low(a);
        } else {
            lemma_pow22_mod23_high(a);
        }
    }
}

/// `(a * b) mod m`, computed without overflow through 128-bit intermediates.
pub fn mod_mul(a: u64, b: u64, m: u64) -> (r: u64)
    requires
        m > 0,
    ensures
        r == (a * b) % (m as int),
        r < m,
{
    proof {
        assert((a as int) * (b as int) <= (u64::MAX as int) * (u64::MAX as int))
            by (nonlinear_arith)
            requires
                a <= u64::MAX,
                b <= u64::MAX,
        ;
    }
    (((a as u128) * (b as u128)) % (m as u128)) as u64
}

/// `b^e mod m` by square and multiply.
pub fn mod_exp(b: u64, e: u64, m: u64) -> (r: u64)
    requires
        m > 0,
    ensures
        r == pow_mod(b as int, e as nat, m as nat),
        r < m,
    decreases e,
{
    if e == 0 {
        proof {
            lemma_pow0(b as int);
        }
        1 % m
    } else {
        let half = mod_exp(b, e / 2, m);
        let sq = mod_mul(half, half, m);
        proof {
            let k = (e / 2) as nat;
            lemma_mul_mod_noop_general(pow(b as int, k), pow(b as int, k), m as int);
            lemma_pow_adds(b as int, k, k);
            assert(sq == pow_mod(b as int, (2 * k) as nat, m as nat));
        }
        if e % 2 == 1 {
            let r = mod_mul(sq, b % m, m);
            proof {
                let k = (e / 2) as nat;
                lemma_mul_mod_noop_general(pow(b as int, (2 * k) as nat), b as int, m as int);
                lemma_pow1(b as int);
                lemma_pow_adds(b as int, (2 * k) as nat, 1);
                assert(e == 2 * k + 1);
            }
            r
        } else {
            proof {
                assert(e == 2 * ((e / 2) as nat));
            }
            sq
        }
    }
}

} // verus!
