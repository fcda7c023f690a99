//! Number theory behind the proof equations: periodic powers, cancellation,
//! inverses modulo a prime.

use vstd::prelude::*;
use vstd::arithmetic::power::{
    pow, lemma_pow0, lemma_pow1, lemma1_pow, lemma_pow_adds, lemma_pow_multiplies,
    lemma_pow_mod_noop,
};
use vstd::arithmetic::div_mod::{
    lemma_div_pos_is_pos, lemma_fundamental_div_mod, lemma_fundamental_div_mod_converse,
    lemma_mod_bound, lemma_mod_equivalence, lemma_mod_multiples_vanish, lemma_mod_pos_bound,
    lemma_mul_mod_noop_left, lemma_mul_mod_noop_right, lemma_small_mod,
};
use crate::bignat::mod_exp;

verus! {

/// A prime: at least two, and divisible by nothing in between one and itself.
pub open spec fn is_prime(n: nat) -> bool {
    n >= 2 && forall|d: nat| 1 < d < n ==> #[trigger] (n % d) != 0
}

/// The remainder of a negated positive number.
pub proof fn lemma_negated_remainder(n: int, q: int)
    requires
        n > 0,
        q > 0,
    ensures
        (-n) % q == (if n % q == 0 {
            0
        } else {
            q - n % q
        }),
{
    lemma_fundamental_div_mod(n, q);
    lemma_mod_bound(n, q);
    let d = n / q;
    let r = n % q;
    if r == 0 {
        assert(-n == q * (-d) + 0) by (nonlinear_arith)
            requires
                n == q * d + r,
                r == 0,
        ;
        lemma_fundamental_div_mod_converse(-n, q, -d, 0);
    } else {
        assert(-n == q * (-d - 1) + (q - r)) by (nonlinear_arith)
            requires
                n == q * d + r,
        ;
        lemma_fundamental_div_mod_converse(-n, q, -d - 1, q - r);
    }
}

/// Adding a multiple of the order to an exponent does not change the power.
pub proof fn lemma_pow_period(g: int, p: int, q: nat, e: nat, n: nat)
    requires
        p >= 2,
        pow(g, q) % p == 1,
    ensures
        pow(g, (e + q * n) as nat) % p == pow(g, e) % p,
{
    assert(q * n >= 0) by (nonlinear_arith);
    let qn: nat = (q * n) as nat;
    lemma_pow_adds(g, e, qn);
    lemma_pow_multiplies(g, q, n);
    lemma_pow_mod_noop(pow(g, q), n, p);
    lemma1_pow(n);
    lemma_small_mod(1, p as nat);
    assert(pow(g, qn) % p == 1);
    lemma_mul_mod_noop_right(pow(g, e), pow(g, qn), p);
    assert(pow(g, e) * 1 == pow(g, e));
}

/// Exponents that agree modulo the order give the same power.
pub proof fn lemma_pow_congruent(g: int, p: int, q: nat, e1: nat, e2: nat)
    requires
        p >= 2,
        q >= 1,
        pow(g, q) % p == 1,
        e1 % q == e2 % q,
    ensures
        pow(g, e1) % p == pow(g, e2) % p,
{
    let qi: int = q as int;
    lemma_fundamental_div_mod(e1 as int, qi);
    lemma_fundamental_div_mod(e2 as int, qi);
    lemma_div_pos_is_pos(e1 as int, qi);
    lemma_div_pos_is_pos(e2 as int, qi);
    lemma_mod_pos_bound(e1 as int, qi);
    lemma_mod_pos_bound(e2 as int, qi);
    let rem: nat = (e1 % q) as nat;
    lemma_pow_period(g, p, q, rem, (e1 / q) as nat);
    lemma_pow_period(g, p, q, rem, (e2 / q) as nat);
    assert((rem + q * ((e1 / q) as nat)) as nat == e1);
    assert((rem + q * ((e2 / q) as nat)) as nat == e2);
}

/// Equal powers cancel: what is left of the larger exponent gives one.
pub proof fn lemma_pow_cancel(g: int, p: int, q: nat, a: nat, b: nat)
    requires
        p >= 2,
        q >= 1,
        pow(g, q) % p == 1,
        a >= b,
        pow(g, a) % p == pow(g, b) % p,
    ensures
        pow(g, (a - b) as nat) % p == 1,
{
    assert(b * (q - 1) >= 0) by (nonlinear_arith)
        requires
            q >= 1,
    ;
    let m: nat = (b * (q - 1)) as nat;
    assert(b + m == q * b) by (nonlinear_arith)
        requires
            m == b * (q - 1),
    ;
    lemma_pow_adds(g, a, m);
    lemma_pow_adds(g, b, m);
    lemma_mul_mod_noop_left(pow(g, a), pow(g, m), p);
    lemma_mul_mod_noop_left(pow(g, b), pow(g, m), p);
    assert(pow(g, a + m) % p == pow(g, b + m) % p);
    lemma_pow_period(g, p, q, 0, b);
    lemma_pow_period(g, p, q, (a - b) as nat, b);
    lemma_pow0(g);
    lemma_small_mod(1, p as nat);
    assert((0 + q * b) as nat == b + m);
    assert(((a - b) as nat + q * b) as nat == a + m);
}

/// For a generator of exact order, two powers are equal exactly when the
/// exponents agree modulo the order.
pub proof fn lemma_equal_powers(base: nat, p: nat, q: nat, a: nat, b: nat)
    requires
        p >= 2,
        q >= 1,
        mod_exp(base, q, p) == 1,
        forall|e: nat| #[trigger] mod_exp(base, e, p) == 1 ==> e % q == 0,
    ensures
        mod_exp(base, a, p) == mod_exp(base, b, p) <==> a % q == b % q,
{
    let gi: int = base as int;
    let pi: int = p as int;
    lemma_mod_bound(pow(gi, q), pi);
    lemma_mod_bound(pow(gi, a), pi);
    lemma_mod_bound(pow(gi, b), pi);
    if a % q == b % q {
        lemma_pow_congruent(gi, pi, q, a, b);
    }
    if mod_exp(base, a, p) == mod_exp(base, b, p) {
        if a >= b {
            lemma_pow_cancel(gi, pi, q, a, b);
            lemma_mod_bound(pow(gi, (a - b) as nat), pi);
            assert(mod_exp(base, (a - b) as nat, p) == 1);
            assert(((a - b) as nat) % q == 0);
            lemma_mod_equivalence(a as int, b as int, q as int);
        } else {
            lemma_pow_cancel(gi, pi, q, b, a);
            lemma_mod_bound(pow(gi, (b - a) as nat), pi);
            assert(mod_exp(base, (b - a) as nat, p) == 1);
            assert(((b - a) as nat) % q == 0);
            lemma_mod_equivalence(b as int, a as int, q as int);
        }
    }
}

/// `u` inverts `r` modulo `q`.
pub open spec fn is_inverse(u: nat, r: nat, q: nat) -> bool {
    (u * r) % q == 1
}

/// Modulo a prime, every number strictly between zero and the prime has an inverse.
pub proof fn lemma_inverse_exists(r: nat, q: nat)
    requires
        is_prime(q),
        0 < r < q,
    ensures
        exists|u: nat| is_inverse(u, r, q),
    decreases r,
{
    if r == 1 {
        lemma_small_mod(1, q);
        assert(1 * 1 == 1);
        assert(is_inverse(1, r, q));
    } else {
        let k: int = (q as int) / (r as int);
        let rest: int = (q as int) % (r as int);
        lemma_fundamental_div_mod(q as int, r as int);
        lemma_mod_pos_bound(q as int, r as int);
        lemma_div_pos_is_pos(q as int, r as int);
        assert(q % r != 0);
        assert(k >= 1) by (nonlinear_arith)
            requires
                q == r * k + rest,
                rest < r,
                r < q,
                k >= 0,
        ;
        let smaller: nat = rest as nat;
        lemma_inverse_exists(smaller, q);
        let u2: nat = choose|u2: nat| is_inverse(u2, smaller, q);
        assert(k * r - 1 >= 0) by (nonlinear_arith)
            requires
                k >= 1,
                r >= 1,
        ;
        let kq: int = k * (q - 1);
        assert(kq >= 0) by (nonlinear_arith)
            requires
                kq == k * (q - 1),
                k >= 1,
                q >= 2,
        ;
        let u: int = u2 * kq;
        assert(u >= 0) by (nonlinear_arith)
            requires
                u == u2 * kq,
                kq >= 0,
                u2 >= 0,
        ;
        let t: int = u2 * (k * r - 1);
        assert(u * r == q * t + u2 * rest) by (nonlinear_arith)
            requires
                q == r * k + rest,
                kq == k * (q - 1),
                u == u2 * kq,
                t == u2 * (k * r - 1),
        ;
        lemma_mod_multiples_vanish(t, u2 * rest, q as int);
        assert(((u as nat) * r) % q == 1);
        assert(is_inverse(u as nat, r, q));
    }
}

/// Modulo a prime, a factor that the prime does not divide cancels.
pub proof fn lemma_prime_cancels(c: nat, x: nat, y: nat, q: nat)
    requires
        is_prime(q),
        c % q != 0,
        (c * x) % q == (c * y) % q,
    ensures
        x % q == y % q,
{
    let qi: int = q as int;
    let c0: nat = c % q;
    lemma_mod_pos_bound(c as int, qi);
    lemma_inverse_exists(c0, q);
    let u: nat = choose|u: nat| is_inverse(u, c0, q);
    lemma_mul_mod_noop_right(u as int, c as int, qi);
    assert((u * c) % q == 1);
    lemma_mul_mod_noop_left((u * c) as int, x as int, qi);
    lemma_mul_mod_noop_left((u * c) as int, y as int, qi);
    lemma_mul_mod_noop_right(u as int, (c * x) as int, qi);
    lemma_mul_mod_noop_right(u as int, (c * y) as int, qi);
    assert((u * c) * x == u * (c * x)) by (nonlinear_arith);
    assert((u * c) * y == u * (c * y)) by (nonlinear_arith);
    assert(1 * (x as int) == x && 1 * (y as int) == y);
}

/// For a prime order, the tested conditions already make the order of a
/// generator exact: an element other than one whose power to a prime is
/// one returns to one at the multiples of that prime only.
pub proof fn lemma_prime_order_generator(base: nat, p: nat, q: nat)
    requires
        p >= 2,
        is_prime(q),
        mod_exp(base, q, p) == 1,
        base % p != 1,
    ensures
        forall|e: nat| #[trigger] mod_exp(base, e, p) == 1 ==> e % q == 0,
{
    let g: int = base as int;
    let m: int = p as int;
    lemma_mod_bound(pow(g, q), m);
    assert forall|e: nat| #[trigger] mod_exp(base, e, p) == 1 implies e % q == 0 by {
        let r: nat = e % q;
        if r != 0 {
            lemma_mod_pos_bound(e as int, q as int);
            lemma_small_mod(r, q);
            lemma_small_mod(1, q);
            lemma_small_mod(1, p);
            lemma_mod_bound(pow(g, e), m);
            lemma_pow_congruent(g, m, q, e, r);
            assert(pow(g, r) % m == 1);
            lemma_inverse_exists(r, q);
            let u: nat = choose|u: nat| is_inverse(u, r, q);
            assert(r * u == u * r) by (nonlinear_arith);
            lemma_pow_multiplies(g, r, u);
            lemma_pow_mod_noop(pow(g, r), u, m);
            lemma1_pow(u);
            assert(pow(g, u * r) % m == 1);
            lemma_pow_congruent(g, m, q, u * r, 1);
            lemma_pow1(g);
            assert(false);
        }
    }
}

} // verus!
