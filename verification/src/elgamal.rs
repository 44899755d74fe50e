//! Exponential ElGamal over the group of `CryptoParams`: key generation,
//! encryption, decryption, homomorphic combination, choice encoding, and
//! discrete-log search.

use vstd::prelude::*;
use crate::arith::{mod_exp, mod_mul, pow_mod};
use crate::params::CryptoParams;
use crate::rng::random_in_range;
use vstd::arithmetic::div_mod::{
    lemma_mul_mod_noop_general, lemma_mul_mod_noop_right, lemma_small_mod,
};
use vstd::arithmetic::mul::lemma_mul_is_associative;
use vstd::arithmetic::power::{
    lemma1_pow, lemma_pow1, lemma_pow_adds, lemma_pow_mod_noop, lemma_pow_multiplies, pow,
};
use crate::arith::prime_modulus;

verus! {

/// Public half of a key pair: `h = g^x mod p`.
#[derive(Debug, Clone, Copy, PartialEq, Eq, Structural)]
pub struct PublicKey {
    pub h: u64,
}

/// Secret half of a key pair: the exponent `x`.
#[derive(Debug, Clone, Copy)]
pub struct SecretKey {
    pub x: u64,
}

/// An ElGamal ciphertext: `c1 = g^r mod p`, `c2 = m * h^r mod p` for a
/// fresh blinding factor `r`.
#[derive(Debug, Clone, Copy, PartialEq, Eq, Structural)]
pub struct Ciphertext {
    pub c1: u64,
    pub c2: u64,
}

/// `c` is an encryption of the group element `m` under the public key `h`:
/// some admissible blinding factor produces exactly its two components.
pub open spec fn encrypts(c: Ciphertext, m: int, h: u64, ps: CryptoParams) -> bool {
    exists|r: nat|
        {
            &&& 1 <= r <= ps.p - 2
            &&& c.c1 == pow_mod(ps.g as int, r, ps.p as nat)
            &&& c.c2 == (m * pow_mod(h as int, r, ps.p as nat)) % (ps.p as int)
        }
}

/// The value ElGamal decryption computes: `c2 * (c1^x)^(p-2) mod p`, the
/// modular inverse being taken by Fermat's little theorem.
pub open spec fn decrypt_val(c1: int, c2: int, x: nat, p: nat) -> int {
    (c2 * pow_mod(pow_mod(c1, x, p), (p - 2) as nat, p)) % (p as int)
}

/// What `decode_choice` returns: the first index in `0..num_choices` whose
/// encoding `g^index mod p` equals `encoded`, or nothing when no index
/// matches.
pub open spec fn decode_result_ok(
    r: Option<usize>,
    encoded: int,
    num_choices: nat,
    ps: CryptoParams,
) -> bool {
    match r {
        Some(i) => {
            &&& i < num_choices
            &&& pow_mod(ps.g as int, i as nat, ps.p as nat) == encoded
            &&& forall|j: nat|
                j < i ==> #[trigger] pow_mod(ps.g as int, j, ps.p as nat) != encoded
        },
        None => forall|j: nat|
            j < num_choices ==> #[trigger] pow_mod(ps.g as int, j, ps.p as nat) != encoded,
    }
}

/// What `solve_discrete_log` returns: the first exponent in `0..=max` whose
/// power `g^i mod p` equals `target`, or nothing when no exponent matches.
pub open spec fn dlog_result_ok(r: Option<usize>, target: int, max: nat, ps: CryptoParams) -> bool {
    match r {
        Some(i) => {
            &&& i <= max
            &&& pow_mod(ps.g as int, i as nat, ps.p as nat) == target
            &&& forall|j: nat|
                j < i ==> #[trigger] pow_mod(ps.g as int, j, ps.p as nat) != target
        },
        None => forall|j: nat|
            j <= max ==> #[trigger] pow_mod(ps.g as int, j, ps.p as nat) != target,
    }
}

/// The group is large enough for `n` encoded values: the encodings
/// `g^0, g^1, ..., g^(n-1)` are pairwise distinct modulo `p`. This is the
/// "subgroup large enough" obligation on the chosen parameters.
pub open spec fn distinct_encodings(ps: CryptoParams, n: nat) -> bool {
    forall|i: nat, j: nat|
        #![trigger pow_mod(ps.g as int, i, ps.p as nat), pow_mod(ps.g as int, j, ps.p as nat)]
        i < j < n ==> pow_mod(ps.g as int, i, ps.p as nat) != pow_mod(ps.g as int, j, ps.p as nat)
}

/// Generate a key pair: a secret exponent drawn uniformly from `[1, p-2]`
/// and the matching public key `h = g^x mod p`.
pub fn generate_keypair(params: &CryptoParams) -> (kp: (PublicKey, SecretKey))
    requires
        params.valid(),
    ensures
        1 <= kp.1.x <= params.p - 2,
        kp.0.h == pow_mod(params.g as int, kp.1.x as nat, params.p as nat),
        kp.0.h < params.p,
{
    let x = random_in_range(1, params.p - 1);
    let h = mod_exp(params.g, x, params.p);
    (PublicKey { h }, SecretKey { x })
}

/// Encrypt a group element (for votes, `g^0` or `g^1`) under a fresh
/// blinding factor, which is returned beside the ciphertext. The factor,
/// combined with the plaintext, is sufficient to prove how a ballot voted:
/// it must never be logged or persisted.
pub fn encrypt(message: u64, public_key: &PublicKey, params: &CryptoParams) -> (out: (
    Ciphertext,
    u64,
))
    requires
        params.valid(),
    ensures
        1 <= out.1 <= params.p - 2,
        out.0.c1 == pow_mod(params.g as int, out.1 as nat, params.p as nat),
        out.0.c2 == (message * pow_mod(
            public_key.h as int,
            out.1 as nat,
            params.p as nat,
        )) % (params.p as int),
        out.0.c1 < params.p,
        out.0.c2 < params.p,
        encrypts(out.0, message as int, public_key.h, *params),
{
    let r = random_in_range(1, params.p - 1);
    let c1 = mod_exp(params.g, r, params.p);
    let hr = mod_exp(public_key.h, r, params.p);
    let c2 = mod_mul(message, hr, params.p);
    let c = Ciphertext { c1, c2 };
    proof {
        assert(encrypts(c, message as int, public_key.h, *params)) by {
            assert({
                &&& 1 <= r as nat <= params.p - 2
                &&& c.c1 == pow_mod(params.g as int, r as nat, params.p as nat)
                &&& c.c2 == (message * pow_mod(public_key.h as int, r as nat, params.p as nat)) % (
                params.p as int)
            });
        }
    }
    (c, r)
}

/// Decrypt a ciphertext with the secret exponent.
pub fn decrypt(ciphertext: &Ciphertext, secret_key: &SecretKey, params: &CryptoParams) -> (m: u64)
    requires
        params.valid(),
    ensures
        m == decrypt_val(
            ciphertext.c1 as int,
            ciphertext.c2 as int,
            secret_key.x as nat,
            params.p as nat,
        ),
        m < params.p,
{
    let c1_x = mod_exp(ciphertext.c1, secret_key.x, params.p);
    let c1_x_inv = mod_exp(c1_x, params.p - 2, params.p);
    mod_mul(ciphertext.c2, c1_x_inv, params.p)
}

/// Combine two ciphertexts componentwise; over exponentially encoded
/// plaintexts this adds the underlying exponents.
pub fn add_homomorphic(a: &Ciphertext, b: &Ciphertext, params: &CryptoParams) -> (r: Ciphertext)
    requires
        params.p > 0,
    ensures
        r.c1 == (a.c1 * b.c1) % (params.p as int),
        r.c2 == (a.c2 * b.c2) % (params.p as int),
        r.c1 < params.p,
        r.c2 < params.p,
{
    Ciphertext {
        c1: mod_mul(a.c1, b.c1, params.p),
        c2: mod_mul(a.c2, b.c2, params.p),
    }
}

/// The identity element of homomorphic combination: an encryption of `g^0`
/// with the blinding factor implicitly zero. Used as the fold seed when
/// aggregating ballots.
pub fn homomorphic_identity() -> (r: Ciphertext)
    ensures
        r.c1 == 1,
        r.c2 == 1,
{
    Ciphertext { c1: 1, c2: 1 }
}

/// Encode a choice index as the group element `g^index mod p`.
pub fn encode_choice(choice_index: usize, params: &CryptoParams) -> (r: u64)
    requires
        params.p > 0,
    ensures
        r == pow_mod(params.g as int, choice_index as nat, params.p as nat),
        r < params.p,
{
    mod_exp(params.g, choice_index as u64, params.p)
}

/// Decode a group element back to a choice index by exhaustive search over
/// `0..num_choices`, returning the first matching index.
pub fn decode_choice(encoded: u64, num_choices: usize, params: &CryptoParams) -> (r: Option<usize>)
    requires
        params.p > 0,
    ensures
        decode_result_ok(r, encoded as int, num_choices as nat, *params),
{
    let mut i: usize = 0;
    while i < num_choices
        invariant
            params.p > 0,
            i <= num_choices,
            forall|j: nat|
                j < i ==> #[trigger] pow_mod(params.g as int, j, params.p as nat) != encoded,
        decreases num_choices - i,
    {
        let test = encode_choice(i, params);
        if test == encoded {
            return Some(i);
        }
        i = i + 1;
    }
    None
}

/// Recover a small non-negative exponent from a group element by exhaustive
/// search: the first `i <= max` with `g^i mod p == target`, found by
/// multiplying a running accumulator by `g` at each step.
pub fn solve_discrete_log(target: u64, params: &CryptoParams, max: usize) -> (r: Option<usize>)
    requires
        params.p > 0,
        max < usize::MAX,
    ensures
        dlog_result_ok(r, target as int, max as nat, *params),
{
    let mut acc: u64 = 1 % params.p;
    let mut i: usize = 0;
    proof {
        vstd::arithmetic::power::lemma_pow0(params.g as int);
    }
    while i <= max
        invariant
            params.p > 0,
            i <= max + 1,
            max < usize::MAX,
            acc == pow_mod(params.g as int, i as nat, params.p as nat),
            forall|j: nat|
                j < i ==> #[trigger] pow_mod(params.g as int, j, params.p as nat) != target,
        decreases max + 1 - i,
    {
        if acc == target {
            return Some(i);
        }
        acc = mod_mul(acc, params.g, params.p);
        proof {
            lemma_mul_mod_noop_general(
                pow(params.g as int, i as nat),
                params.g as int,
                params.p as int,
            );
            lemma_pow1(params.g as int);
            lemma_pow_adds(params.g as int, i as nat, 1);
        }
        i = i + 1;
    }
    None
}

#[verifier::rlimit(100)]
proof fn lemma_toy_powers(k: nat)
    requires
        k < 11,
    ensures
        pow_mod(4, k, 23) == if k == 0 {
            1int
        } else if k == 1 {
            4
        } else if k == 2 {
            16
        } else if k == 3 {
            18
        } else if k == 4 {
            3
        } else if k == 5 {
            12
        } else if k == 6 {
            2
        } else if k == 7 {
            8
        } else if k == 8 {
            9
        } else if k == 9 {
            13
        } else {
            6
        },
{
    reveal_with_fuel(pow, 12);
    if k == 0 {
        assert(pow(4, 0) % 23 == 1);
    } else if k == 1 {
        assert(pow(4, 1) % 23 == 4);
    } else if k == 2 {
        assert(pow(4, 2) % 23 == 16);
    } else if k == 3 {
        assert(pow(4, 3) % 23 == 18);
    } else if k == 4 {
        assert(pow(4, 4) % 23 == 3);
    } else if k == 5 {
        assert(pow(4, 5) % 23 == 12);
    } else if k == 6 {
        assert(pow(4, 6) % 23 == 2);
    } else if k == 7 {
        assert(pow(4, 7) % 23 == 8);
    } else if k == 8 {
        assert(pow(4, 8) % 23 == 9);
    } else if k == 9 {
        assert(pow(4, 9) % 23 == 13);
    } else {
        assert(pow(4, 10) % 23 == 6);
    }
}

/// The shipped test group is large enough for eleven encoded values: the
/// generator 4 has order 11 modulo 23, so `g^0 .. g^10` are pairwise
/// distinct. Choice indices and vote counts up to ten are therefore
/// decoded exactly under the fixed test parameters.
pub proof fn lemma_toy_params_distinct(ps: CryptoParams)
    requires
        ps.p == 23,
        ps.g == 4,
    ensures
        distinct_encodings(ps, 11),
{
    assert forall|i: nat, j: nat| i < j < 11 implies pow_mod(ps.g as int, i, ps.p as nat)
        != pow_mod(ps.g as int, j, ps.p as nat) by {
        lemma_toy_powers(i);
        lemma_toy_powers(j);
    }
}

/// Central decryption identity: a ciphertext of the shape
/// `(g^R mod p, M * g^(x*R) mod p)` decrypts to `M mod p` under the secret
/// exponent `x`, for every prime modulus. This is where Fermat's little
/// theorem cancels the blinding mask.
pub proof fn lemma_decrypt_form(g: int, x: nat, rr: nat, m: int, p: nat)
    requires
        prime_modulus(p),
        p >= 3,
        1 <= g < p,
    ensures
        decrypt_val(pow_mod(g, rr, p), (m * pow_mod(g, x * rr, p)) % (p as int), x, p) == m % (
        p as int),
{
    let pi = p as int;
    let c1 = pow_mod(g, rr, p);
    let c2 = (m * pow_mod(g, x * rr, p)) % pi;
    let a = pow(g, x * rr);
    let b = pow(g, rr * x * ((p - 2) as nat));
    // s = c1^x mod p = g^(rr*x) mod p
    lemma_pow_mod_noop(pow(g, rr), x, pi);
    lemma_pow_multiplies(g, rr, x);
    let s = pow_mod(c1, x, p);
    assert(s == pow(g, rr * x) % pi);
    // t = s^(p-2) mod p = g^(rr*x*(p-2)) mod p
    lemma_pow_mod_noop(pow(g, rr * x), (p - 2) as nat, pi);
    lemma_pow_multiplies(g, rr * x, (p - 2) as nat);
    let t = pow_mod(s, (p - 2) as nat, p);
    assert(t == b % pi);
    // c2 = (m * g^(x*rr)) mod p without the inner reduction
    lemma_mul_mod_noop_right(m, a, pi);
    assert(c2 == (m * a) % pi);
    // (c2 * t) mod p = (m * a * b) mod p
    lemma_mul_mod_noop_general(m * a, b, pi);
    assert(((c2 * t) % pi) == ((m * a) * b) % pi);
    lemma_mul_is_associative(m, a, b);
    // a * b = g^(x*rr*(p-1))
    lemma_pow_adds(g, x * rr, rr * x * ((p - 2) as nat));
    assert(x * rr + rr * x * ((p - 2) as nat) == (x * rr) * ((p - 1) as nat)) by (nonlinear_arith)
        requires
            p >= 3,
    ;
    assert(a * b == pow(g, (x * rr) * ((p - 1) as nat)));
    // g^((p-1)*k) mod p = 1 by the prime-modulus property
    lemma_pow_multiplies(g, (p - 1) as nat, x * rr);
    assert(((p - 1) as nat) * (x * rr) == (x * rr) * ((p - 1) as nat)) by (nonlinear_arith);
    assert(a * b == pow(pow(g, (p - 1) as nat), x * rr));
    lemma_mul_mod_noop_right(m, a * b, pi);
    assert((m * (a * b)) % pi == (m * ((a * b) % pi)) % pi);
    lemma_pow_mod_noop(pow(g, (p - 1) as nat), x * rr, pi);
    assert(pow_mod(g, (p - 1) as nat, p) == 1);
    lemma1_pow(x * rr);
    lemma_small_mod(1, p);
    assert((a * b) % pi == 1);
    assert(m * ((a * b) % pi) == m) by (nonlinear_arith)
        requires
            (a * b) % pi == 1,
    ;
    assert((m * (a * b)) % pi == m % pi);
}

/// Round trip: a ciphertext produced by `encrypt` for a message `m < p`
/// decrypts, under the matching secret exponent, back to exactly `m` — for
/// every message, key pair, and valid parameter set.
pub proof fn lemma_encrypt_decrypt_round_trip(
    ps: CryptoParams,
    x: u64,
    h: u64,
    m: u64,
    c: Ciphertext,
)
    requires
        ps.valid(),
        h == pow_mod(ps.g as int, x as nat, ps.p as nat),
        m < ps.p,
        encrypts(c, m as int, h, ps),
    ensures
        decrypt_val(c.c1 as int, c.c2 as int, x as nat, ps.p as nat) == m,
{
    let p = ps.p as nat;
    let pi = ps.p as int;
    let g = ps.g as int;
    let r = choose|r: nat|
        {
            &&& 1 <= r <= ps.p - 2
            &&& c.c1 == pow_mod(g, r, p)
            &&& c.c2 == ((m as int) * pow_mod(h as int, r, p)) % pi
        };
    // h^r mod p = g^(x*r) mod p
    lemma_pow_mod_noop(pow(g, x as nat), r, pi);
    lemma_pow_multiplies(g, x as nat, r);
    assert(pow_mod(h as int, r, p) == pow_mod(g, (x as nat) * r, p));
    lemma_decrypt_form(g, x as nat, r, m as int, p);
    lemma_small_mod(m as nat, p);
}

/// Homomorphism: the componentwise product of an encryption of `m1` and an
/// encryption of `m2` under the same key decrypts to `m1 * m2 mod p`.
pub proof fn lemma_homomorphic_decrypt(
    ps: CryptoParams,
    x: u64,
    h: u64,
    m1: int,
    m2: int,
    ca: Ciphertext,
    cb: Ciphertext,
    sum: Ciphertext,
)
    requires
        ps.valid(),
        h == pow_mod(ps.g as int, x as nat, ps.p as nat),
        encrypts(ca, m1, h, ps),
        encrypts(cb, m2, h, ps),
        sum.c1 == (ca.c1 * cb.c1) % (ps.p as int),
        sum.c2 == (ca.c2 * cb.c2) % (ps.p as int),
    ensures
        decrypt_val(sum.c1 as int, sum.c2 as int, x as nat, ps.p as nat) == (m1 * m2) % (
        ps.p as int),
{
    let p = ps.p as nat;
    let pi = ps.p as int;
    let g = ps.g as int;
    let xn = x as nat;
    let r1 = choose|r: nat|
        {
            &&& 1 <= r <= ps.p - 2
            &&& ca.c1 == pow_mod(g, r, p)
            &&& ca.c2 == (m1 * pow_mod(h as int, r, p)) % pi
        };
    let r2 = choose|r: nat|
        {
            &&& 1 <= r <= ps.p - 2
            &&& cb.c1 == pow_mod(g, r, p)
            &&& cb.c2 == (m2 * pow_mod(h as int, r, p)) % pi
        };
    // h^r mod p = g^(x*r) mod p, for both blinding factors
    lemma_pow_mod_noop(pow(g, xn), r1, pi);
    lemma_pow_multiplies(g, xn, r1);
    assert(pow_mod(h as int, r1, p) == pow_mod(g, xn * r1, p));
    lemma_pow_mod_noop(pow(g, xn), r2, pi);
    lemma_pow_multiplies(g, xn, r2);
    assert(pow_mod(h as int, r2, p) == pow_mod(g, xn * r2, p));
    // sum.c1 = g^(r1+r2) mod p
    lemma_mul_mod_noop_general(pow(g, r1), pow(g, r2), pi);
    lemma_pow_adds(g, r1, r2);
    assert(sum.c1 == pow_mod(g, r1 + r2, p));
    // sum.c2 = (m1*m2) * g^(x*(r1+r2)) mod p
    let a1 = pow(g, xn * r1);
    let a2 = pow(g, xn * r2);
    lemma_mul_mod_noop_right(m1, a1, pi);
    assert(ca.c2 == (m1 * a1) % pi);
    lemma_mul_mod_noop_right(m2, a2, pi);
    assert(cb.c2 == (m2 * a2) % pi);
    lemma_mul_mod_noop_general(m1 * a1, m2 * a2, pi);
    assert(sum.c2 == ((m1 * a1) * (m2 * a2)) % pi);
    assert((m1 * a1) * (m2 * a2) == (m1 * m2) * (a1 * a2))
        by (nonlinear_arith)
    ;
    lemma_pow_adds(g, xn * r1, xn * r2);
    assert(xn * r1 + xn * r2 == xn * (r1 + r2)) by (nonlinear_arith);
    assert(a1 * a2 == pow(g, xn * (r1 + r2)));
    lemma_mul_mod_noop_right(m1 * m2, a1 * a2, pi);
    assert(sum.c2 == ((m1 * m2) * pow_mod(g, xn * (r1 + r2), p)) % pi);
    lemma_decrypt_form(g, xn, r1 + r2, m1 * m2, p);
}

/// The algebraic shape of a (possibly aggregated) ciphertext under the
/// secret exponent `x`: first component `g^rr mod p`, second component
/// `m * g^(x*rr) mod p`. A fresh encryption has this shape with its
/// blinding factor; a componentwise product of two shaped ciphertexts has
/// it with the factors and messages combined.
pub open spec fn cipher_shape(c1: int, c2: int, g: int, x: nat, rr: nat, m: int, p: nat) -> bool {
    &&& c1 == pow_mod(g, rr, p)
    &&& c2 == (m * pow_mod(g, x * rr, p)) % (p as int)
}

/// Powers of the public key are powers of the generator:
/// `(g^x)^r = g^(x*r) mod p`.
pub proof fn lemma_pubkey_pow(g: int, x: nat, r: nat, p: nat)
    requires
        p > 0,
    ensures
        pow_mod(pow_mod(g, x, p), r, p) == pow_mod(g, x * r, p),
{
    lemma_pow_mod_noop(pow(g, x), r, p as int);
    lemma_pow_multiplies(g, x, r);
}

/// The componentwise product of two shaped ciphertexts is shaped: the
/// blinding exponents add and the messages multiply modulo `p`.
pub proof fn lemma_cipher_product_shape(
    g: int,
    x: nat,
    p: nat,
    m1: int,
    rr1: nat,
    m2: int,
    rr2: nat,
    c1a: int,
    c2a: int,
    c1b: int,
    c2b: int,
)
    requires
        p > 0,
        cipher_shape(c1a, c2a, g, x, rr1, m1, p),
        cipher_shape(c1b, c2b, g, x, rr2, m2, p),
    ensures
        cipher_shape(
            (c1a * c1b) % (p as int),
            (c2a * c2b) % (p as int),
            g,
            x,
            rr1 + rr2,
            (m1 * m2) % (p as int),
            p,
        ),
{
    let pi = p as int;
    // first components: g^rr1 * g^rr2 = g^(rr1+rr2)
    lemma_mul_mod_noop_general(pow(g, rr1), pow(g, rr2), pi);
    lemma_pow_adds(g, rr1, rr2);
    // second components
    let a1 = pow(g, x * rr1);
    let a2 = pow(g, x * rr2);
    lemma_mul_mod_noop_right(m1, a1, pi);
    assert(c2a == (m1 * a1) % pi);
    lemma_mul_mod_noop_right(m2, a2, pi);
    assert(c2b == (m2 * a2) % pi);
    lemma_mul_mod_noop_general(m1 * a1, m2 * a2, pi);
    assert((c2a * c2b) % pi == ((m1 * a1) * (m2 * a2)) % pi);
    assert((m1 * a1) * (m2 * a2) == (m1 * m2) * (a1 * a2)) by (nonlinear_arith);
    lemma_pow_adds(g, x * rr1, x * rr2);
    assert(x * rr1 + x * rr2 == x * (rr1 + rr2)) by (nonlinear_arith);
    assert(a1 * a2 == pow(g, x * (rr1 + rr2)));
    lemma_mul_mod_noop_general(m1 * m2, pow(g, x * (rr1 + rr2)), pi);
    assert((c2a * c2b) % pi == (((m1 * m2) % pi) * pow_mod(g, x * (rr1 + rr2), p)) % pi);
}

/// Over exponentially encoded plaintexts the product of two encodings is
/// the encoding of the sum of the exponents: `g^e1 * g^e2 = g^(e1+e2) mod p`.
pub proof fn lemma_encoded_product(ps: CryptoParams, e1: nat, e2: nat)
    requires
        ps.p > 0,
    ensures
        (pow_mod(ps.g as int, e1, ps.p as nat) * pow_mod(ps.g as int, e2, ps.p as nat)) % (
        ps.p as int) == pow_mod(ps.g as int, e1 + e2, ps.p as nat),
{
    lemma_mul_mod_noop_general(pow(ps.g as int, e1), pow(ps.g as int, e2), ps.p as int);
    lemma_pow_adds(ps.g as int, e1, e2);
}

/// Homomorphism over encoded exponents, end to end: combining an
/// encryption of `g^e1` with an encryption of `g^e2` gives a ciphertext
/// that decrypts to `g^(e1+e2) mod p`, and the discrete-log search on that
/// decryption recovers `e1 + e2` whenever `e1 + e2 <= max` and the group
/// encodes `0..=max` distinctly.
pub proof fn lemma_homomorphism(
    ps: CryptoParams,
    x: u64,
    h: u64,
    e1: nat,
    e2: nat,
    ca: Ciphertext,
    cb: Ciphertext,
    sum: Ciphertext,
    max: usize,
    dl: Option<usize>,
)
    requires
        ps.valid(),
        h == pow_mod(ps.g as int, x as nat, ps.p as nat),
        encrypts(ca, pow_mod(ps.g as int, e1, ps.p as nat), h, ps),
        encrypts(cb, pow_mod(ps.g as int, e2, ps.p as nat), h, ps),
        sum.c1 == (ca.c1 * cb.c1) % (ps.p as int),
        sum.c2 == (ca.c2 * cb.c2) % (ps.p as int),
        e1 + e2 <= max,
        distinct_encodings(ps, max as nat + 1),
        dlog_result_ok(
            dl,
            decrypt_val(sum.c1 as int, sum.c2 as int, x as nat, ps.p as nat),
            max as nat,
            ps,
        ),
    ensures
        decrypt_val(sum.c1 as int, sum.c2 as int, x as nat, ps.p as nat) == pow_mod(
            ps.g as int,
            e1 + e2,
            ps.p as nat,
        ),
        dl == Some((e1 + e2) as usize),
{
    let p = ps.p as nat;
    let pi = ps.p as int;
    let g = ps.g as int;
    lemma_homomorphic_decrypt(ps, x, h, pow_mod(g, e1, p), pow_mod(g, e2, p), ca, cb, sum);
    lemma_encoded_product(ps, e1, e2);
    let target = decrypt_val(sum.c1 as int, sum.c2 as int, x as nat, p);
    assert(target == pow_mod(g, e1 + e2, p));
    match dl {
        Some(c) => {
            if (c as nat) < e1 + e2 {
                assert(pow_mod(g, c as nat, p) != pow_mod(g, e1 + e2, p));
            } else if e1 + e2 < c as nat {
                assert(pow_mod(g, e1 + e2, p) != pow_mod(g, c as nat, p));
            }
        },
        None => {
            assert(pow_mod(g, e1 + e2, p) != target);
        },
    }
}

/// Encode/decode round trip: when the encodings of `0..num_choices` are
/// pairwise distinct, the decoder's first-match search applied to the
/// encoding of `i` returns exactly `i`.
pub proof fn lemma_decode_encode_round_trip(
    ps: CryptoParams,
    i: usize,
    num_choices: usize,
    r: Option<usize>,
)
    requires
        ps.p > 0,
        i < num_choices,
        distinct_encodings(ps, num_choices as nat),
        decode_result_ok(r, pow_mod(ps.g as int, i as nat, ps.p as nat), num_choices as nat, ps),
    ensures
        r == Some(i),
{
    let target = pow_mod(ps.g as int, i as nat, ps.p as nat);
    match r {
        Some(j) => {
            assert(pow_mod(ps.g as int, j as nat, ps.p as nat) == target);
            if j < i {
                assert(pow_mod(ps.g as int, j as nat, ps.p as nat) != pow_mod(
                    ps.g as int,
                    i as nat,
                    ps.p as nat,
                ));
            } else if i < j {
                assert(pow_mod(ps.g as int, i as nat, ps.p as nat) != pow_mod(
                    ps.g as int,
                    j as nat,
                    ps.p as nat,
                ));
            }
        },
        None => {
            assert(pow_mod(ps.g as int, i as nat, ps.p as nat) != target);
        },
    }
}

/// Discrete-log search recovers the exponent: when the powers
/// `g^0..g^max` are pairwise distinct, the first-match search applied to
/// `g^e mod p` with `e <= max` returns exactly `e`.
pub proof fn lemma_discrete_log_recovers_exponent(
    ps: CryptoParams,
    e: usize,
    max: usize,
    r: Option<usize>,
)
    requires
        ps.p > 0,
        e <= max,
        distinct_encodings(ps, (max + 1) as nat),
        dlog_result_ok(r, pow_mod(ps.g as int, e as nat, ps.p as nat), max as nat, ps),
    ensures
        r == Some(e),
{
    let target = pow_mod(ps.g as int, e as nat, ps.p as nat);
    match r {
        Some(j) => {
            if j < e {
                assert(pow_mod(ps.g as int, j as nat, ps.p as nat) != pow_mod(
                    ps.g as int,
                    e as nat,
                    ps.p as nat,
                ));
            } else if e < j {
                assert(pow_mod(ps.g as int, e as nat, ps.p as nat) != pow_mod(
                    ps.g as int,
                    j as nat,
                    ps.p as nat,
                ));
            }
        },
        None => {
            assert(pow_mod(ps.g as int, e as nat, ps.p as nat) != target);
        },
    }
}

} // verus!
