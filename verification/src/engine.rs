//! The proof engine: commitment, response and verification, with the laws
//! that relate them.

use vstd::prelude::*;
use vstd::arithmetic::power::{pow, lemma_pow_adds, lemma_pow_multiplies, lemma_pow_mod_noop};
use vstd::arithmetic::div_mod::{
    lemma_add_mod_noop, lemma_mod_bound, lemma_mod_equivalence, lemma_mul_mod_noop,
    lemma_small_mod,
};
use crate::bignat::{mod_exp, BigNat};
use crate::group::{GroupParameters, GroupView};
use crate::numbers::{
    is_prime, lemma_equal_powers, lemma_negated_remainder, lemma_pow_congruent,
    lemma_prime_cancels, lemma_prime_order_generator,
};

verus! {

/// The commitment pair of an exponent: both generators raised to it.
pub open spec fn commit_spec(g: GroupView, x: nat) -> (nat, nat) {
    (mod_exp(g.generator_a, x, g.modulus), mod_exp(g.generator_b, x, g.modulus))
}

/// The response to a challenge: `nonce - challenge * secret`, as its
/// non-negative representative modulo the order.
pub open spec fn respond_spec(g: GroupView, nonce: nat, challenge: nat, secret: nat) -> nat {
    ((nonce - challenge * secret) % (g.order as int)) as nat
}

/// One of the two proof equations, for the generator `base`.
pub open spec fn opens(base: nat, modulus: nat, r: nat, y: nat, challenge: nat, response: nat) -> bool {
    (mod_exp(base, response, modulus) * mod_exp(y, challenge, modulus)) % modulus == r
}

/// The verification predicate: both proof equations hold.
pub open spec fn verify_spec(
    g: GroupView,
    r1: nat,
    r2: nat,
    y1: nat,
    y2: nat,
    challenge: nat,
    response: nat,
) -> bool {
    opens(g.generator_a, g.modulus, r1, y1, challenge, response) && opens(
        g.generator_b,
        g.modulus,
        r2,
        y2,
        challenge,
        response,
    )
}

/// The proof arithmetic over one set of group parameters.
#[derive(Debug)]
pub struct ProofEngine {
    params: GroupParameters,
}

impl View for ProofEngine {
    type V = GroupView;

    closed spec fn view(&self) -> GroupView {
        self.params@
    }
}

impl ProofEngine {
    /// An engine over parameters that passed the consistency test.
    pub fn new(params: GroupParameters) -> (engine: ProofEngine)
        ensures
            engine@ == params@,
            engine@.consistent(),
    {
        let _ = params.order();
        ProofEngine { params }
    }

    /// The parameters that the engine computes in.
    pub fn params(&self) -> (p: &GroupParameters)
        ensures
            p@ == self@,
            self@.consistent(),
    {
        let _ = self.params.order();
        &self.params
    }

    /// The commitment pair of the exponent `x`.
    pub fn commit(&self, x: &BigNat) -> (pair: (BigNat, BigNat))
        ensures
            (pair.0@, pair.1@) == commit_spec(self@, x@),
    {
        let p = self.params.modulus();
        let c1 = self.params.generator_a().mod_pow(x, p);
        let c2 = self.params.generator_b().mod_pow(x, p);
        (c1, c2)
    }

    /// The response to `challenge` for the given nonce and secret, in `[0, order)`.
    pub fn respond(&self, nonce: &BigNat, challenge: &BigNat, secret: &BigNat) -> (response: BigNat)
        ensures
            response@ == respond_spec(self@, nonce@, challenge@, secret@),
            response@ < self@.order,
    {
        let q = self.params.order();
        let product = challenge.times(secret);
        proof {
            lemma_mod_bound(nonce@ - challenge@ * secret@, q@ as int);
        }
        if nonce.at_least(&product) {
            nonce.minus(&product).modulo(q)
        } else {
            let excess = product.minus(nonce).modulo(q);
            proof {
                lemma_negated_remainder(product@ - nonce@, q@ as int);
                lemma_mod_bound(product@ - nonce@, q@ as int);
            }
            if excess.is_zero() {
                excess
            } else {
                q.minus(&excess)
            }
        }
    }

    /// Whether both proof equations hold for the transcript.
    pub fn verify(
        &self,
        r1: &BigNat,
        r2: &BigNat,
        y1: &BigNat,
        y2: &BigNat,
        challenge: &BigNat,
        response: &BigNat,
    ) -> (accepted: bool)
        ensures
            accepted == verify_spec(self@, r1@, r2@, y1@, y2@, challenge@, response@),
    {
        let p = self.params.modulus();
        let left1 = self.params.generator_a().mod_pow(response, p).times(
            &y1.mod_pow(challenge, p),
        ).modulo(p);
        let left2 = self.params.generator_b().mod_pow(response, p).times(
            &y2.mod_pow(challenge, p),
        ).modulo(p);
        left1.same_value(r1) && left2.same_value(r2)
    }
}

/// The left side of a proof equation, for a commitment `base^x`, is `base`
/// raised to `response + x * challenge`.
proof fn lemma_equation_exponent(base: nat, p: nat, s: nat, x: nat, c: nat)
    requires
        p >= 2,
    ensures
        (mod_exp(base, s, p) * mod_exp(mod_exp(base, x, p), c, p)) % p == mod_exp(
            base,
            s + x * c,
            p,
        ),
{
    let g: int = base as int;
    let m: int = p as int;
    assert(x * c >= 0) by (nonlinear_arith);
    let xc: nat = (x * c) as nat;
    lemma_mod_bound(pow(g, x), m);
    lemma_mod_bound(pow(g, s), m);
    lemma_mod_bound(pow(pow(g, x) % m, c), m);
    lemma_mod_bound(pow(g, (s + xc) as nat), m);
    lemma_pow_mod_noop(pow(g, x), c, m);
    lemma_pow_multiplies(g, x, c);
    lemma_mul_mod_noop(pow(g, s), pow(g, xc), m);
    lemma_pow_adds(g, s, xc);
}

/// The response and `challenge * secret` add up to the nonce, modulo the order.
proof fn lemma_response_sum(q: nat, k: nat, c: nat, x: nat)
    requires
        q >= 1,
    ensures
        0 <= (k - c * x) % (q as int) < q,
        (((k - c * x) % (q as int)) + x * c) % (q as int) == k % q,
{
    let qi: int = q as int;
    let d: int = k - c * x;
    assert(x * c == c * x) by (nonlinear_arith);
    lemma_mod_bound(d, qi);
    lemma_small_mod((d % qi) as nat, q);
    lemma_add_mod_noop(d, (c * x) as int, qi);
    lemma_add_mod_noop(d % qi, (c * x) as int, qi);
}

/// With the right secret, a proof equation holds.
proof fn lemma_equation_holds(base: nat, g: GroupView, k: nat, c: nat, x: nat)
    requires
        g.modulus >= 2,
        g.order >= 1,
        mod_exp(base, g.order, g.modulus) == 1,
    ensures
        opens(
            base,
            g.modulus,
            mod_exp(base, k, g.modulus),
            mod_exp(base, x, g.modulus),
            c,
            respond_spec(g, k, c, x),
        ),
{
    let s = respond_spec(g, k, c, x);
    let p = g.modulus;
    lemma_response_sum(g.order, k, c, x);
    assert(x * c >= 0) by (nonlinear_arith);
    lemma_equation_exponent(base, p, s, x, c);
    lemma_mod_bound(pow(base as int, g.order), p as int);
    lemma_pow_congruent(base as int, p as int, g.order, (s + x * c) as nat, k);
}

/// For a generator of exact order, a proof equation over the commitments
/// of `k` and `x` holds exactly when `response + c * x` agrees with `k`
/// modulo the order.
proof fn lemma_equation_characterised(base: nat, g: GroupView, k: nat, c: nat, x: nat, s: nat)
    requires
        g.modulus >= 2,
        g.order >= 1,
        mod_exp(base, g.order, g.modulus) == 1,
        forall|e: nat| #[trigger] mod_exp(base, e, g.modulus) == 1 ==> e % g.order == 0,
    ensures
        opens(base, g.modulus, mod_exp(base, k, g.modulus), mod_exp(base, x, g.modulus), c, s) <==> (
        s + c * x) % g.order == k % g.order,
{
    assert(x * c == c * x) by (nonlinear_arith);
    lemma_equation_exponent(base, g.modulus, s, x, c);
    lemma_equal_powers(base, g.modulus, g.order, s + x * c, k);
}

/// With a secret that the challenge tells apart from the registered one, a
/// proof equation fails for a generator of exact order.
proof fn lemma_equation_fails(base: nat, g: GroupView, k: nat, c: nat, x: nat, other: nat)
    requires
        g.modulus >= 2,
        g.order >= 1,
        mod_exp(base, g.order, g.modulus) == 1,
        forall|e: nat| #[trigger] mod_exp(base, e, g.modulus) == 1 ==> e % g.order == 0,
        (c * x) % g.order != (c * other) % g.order,
    ensures
        !opens(
            base,
            g.modulus,
            mod_exp(base, k, g.modulus),
            mod_exp(base, other, g.modulus),
            c,
            respond_spec(g, k, c, x),
        ),
{
    let s = respond_spec(g, k, c, x);
    let q: int = g.order as int;
    lemma_response_sum(g.order, k, c, x);
    assert(x * c == c * x) by (nonlinear_arith);
    lemma_equation_characterised(base, g, k, c, other, s);
    if (s + c * other) % g.order == k % g.order {
        lemma_mod_equivalence((s + c * other) as int, (s + c * x) as int, q);
        lemma_mod_equivalence((c * other) as int, (c * x) as int, q);
        assert(false);
    }
}

/// Exactness for a prime order. Consistent parameters whose order is a
/// prime have generators of exactly that order.
pub proof fn lemma_prime_order_is_exact(g: GroupView)
    requires
        g.consistent(),
        is_prime(g.order),
    ensures
        g.exact_order(),
{
    lemma_prime_order_generator(g.generator_a, g.modulus, g.order);
    lemma_prime_order_generator(g.generator_b, g.modulus, g.order);
}

/// Completeness. For consistent parameters, any secret, nonce and
/// challenge: the response computed from them verifies against the
/// commitments of the nonce and of the secret.
pub proof fn lemma_honest_proof_verifies(g: GroupView, nonce: nat, challenge: nat, secret: nat)
    requires
        g.consistent(),
    ensures
        verify_spec(
            g,
            commit_spec(g, nonce).0,
            commit_spec(g, nonce).1,
            commit_spec(g, secret).0,
            commit_spec(g, secret).1,
            challenge,
            respond_spec(g, nonce, challenge, secret),
        ),
        respond_spec(g, nonce, challenge, secret) < g.order,
{
    lemma_equation_holds(g.generator_a, g, nonce, challenge, secret);
    lemma_equation_holds(g.generator_b, g, nonce, challenge, secret);
    lemma_response_sum(g.order, nonce, challenge, secret);
}

/// Soundness and completeness in one statement. For consistent parameters
/// whose generators have exact order, a transcript over the commitments of
/// `nonce` and `secret` verifies exactly when
/// `response + challenge * secret` agrees with `nonce` modulo the order.
pub proof fn lemma_verify_characterised(
    g: GroupView,
    nonce: nat,
    challenge: nat,
    secret: nat,
    response: nat,
)
    requires
        g.consistent(),
        g.exact_order(),
    ensures
        verify_spec(
            g,
            commit_spec(g, nonce).0,
            commit_spec(g, nonce).1,
            commit_spec(g, secret).0,
            commit_spec(g, secret).1,
            challenge,
            response,
        ) <==> (response + challenge * secret) % g.order == nonce % g.order,
{
    lemma_equation_characterised(g.generator_a, g, nonce, challenge, secret, response);
    lemma_equation_characterised(g.generator_b, g, nonce, challenge, secret, response);
}

/// Binding. For consistent parameters whose generators have exact order:
/// a response computed from `secret` does not verify against the commitment
/// of `registered`, as long as the challenge tells the two secrets apart
/// modulo the order (`challenge * secret` and `challenge * registered`
/// leave different remainders).
pub proof fn lemma_proof_binds_secret(
    g: GroupView,
    nonce: nat,
    challenge: nat,
    secret: nat,
    registered: nat,
)
    requires
        g.consistent(),
        g.exact_order(),
        (challenge * secret) % g.order != (challenge * registered) % g.order,
    ensures
        !verify_spec(
            g,
            commit_spec(g, nonce).0,
            commit_spec(g, nonce).1,
            commit_spec(g, registered).0,
            commit_spec(g, registered).1,
            challenge,
            respond_spec(g, nonce, challenge, secret),
        ),
{
    lemma_equation_fails(g.generator_a, g, nonce, challenge, secret, registered);
}

/// Binding, for a prime order. For consistent parameters whose order is a
/// prime: a response computed from `secret` does not verify against the
/// commitment of `registered`, as long as the two secrets differ modulo
/// the order and the challenge is not a multiple of the order.
pub proof fn lemma_proof_binds_secret_for_prime_order(
    g: GroupView,
    nonce: nat,
    challenge: nat,
    secret: nat,
    registered: nat,
)
    requires
        g.consistent(),
        is_prime(g.order),
        challenge % g.order != 0,
        secret % g.order != registered % g.order,
    ensures
        !verify_spec(
            g,
            commit_spec(g, nonce).0,
            commit_spec(g, nonce).1,
            commit_spec(g, registered).0,
            commit_spec(g, registered).1,
            challenge,
            respond_spec(g, nonce, challenge, secret),
        ),
{
    lemma_prime_order_is_exact(g);
    if (challenge * secret) % g.order == (challenge * registered) % g.order {
        lemma_prime_cancels(challenge, secret, registered, g.order);
    }
    lemma_proof_binds_secret(g, nonce, challenge, secret, registered);
}

} // verus!
