//! The group parameters and their consistency test.

use vstd::prelude::*;
use crate::bignat::{mod_exp, BigNat};

verus! {

/// The numeric domain of the protocol, as mathematical integers.
pub struct GroupView {
    pub modulus: nat,
    pub order: nat,
    pub generator_a: nat,
    pub generator_b: nat,
}

impl GroupView {
    /// The conditions that can be tested by computation: the order divides
    /// `modulus - 1`, each generator raised to the order is one, and no
    /// generator is one itself unless the order is one.
    ///
    /// This makes the order of each generator a divisor of `order` other
    /// than one. For a prime `order` that is `order` itself, and
    /// [`GroupView::exact_order`] follows. For a composite `order` it is
    /// not enough: modulus 13, order 6 and generators 3 are consistent,
    /// though 3 has order 3 modulo 13. Consistency does not test that
    /// `order` is a prime; whoever chooses the parameters has to know it.
    pub open spec fn consistent(self) -> bool {
        &&& self.modulus >= 2
        &&& self.order >= 1
        &&& (self.modulus - 1) % (self.order as int) == 0
        &&& mod_exp(self.generator_a, self.order, self.modulus) == 1
        &&& mod_exp(self.generator_b, self.order, self.modulus) == 1
        &&& self.order > 1 ==> self.generator_a % self.modulus != 1
        &&& self.order > 1 ==> self.generator_b % self.modulus != 1
    }

    /// Each generator has multiplicative order exactly `order`: no exponent
    /// other than a multiple of the order takes it to one.
    pub open spec fn exact_order(self) -> bool {
        &&& forall|e: nat| #[trigger]
            mod_exp(self.generator_a, e, self.modulus) == 1 ==> e % self.order == 0
        &&& forall|e: nat| #[trigger]
            mod_exp(self.generator_b, e, self.modulus) == 1 ==> e % self.order == 0
    }
}

/// The shared group parameters. A value of this type only exists for
/// parameters that passed the consistency test of [`GroupParameters::new`].
#[derive(Debug)]
pub struct GroupParameters {
    modulus: BigNat,
    order: BigNat,
    generator_a: BigNat,
    generator_b: BigNat,
}

impl View for GroupParameters {
    type V = GroupView;

    closed spec fn view(&self) -> GroupView {
        GroupView {
            modulus: self.modulus@,
            order: self.order@,
            generator_a: self.generator_a@,
            generator_b: self.generator_b@,
        }
    }
}

impl GroupParameters {
    #[verifier::type_invariant]
    spec fn inv(&self) -> bool {
        self@.consistent()
    }

    /// Accepts the parameters exactly when they are consistent; inconsistent
    /// parameters yield `None`, and no engine can be built on them.
    ///
    /// Acceptance does not show that `order` is a prime, and for a
    /// composite `order` a generator of smaller order can pass (see
    /// [`GroupView::consistent`]). The binding of a proof to the registered
    /// secret rests on generators of exact order, so callers must supply
    /// a prime `order`: the test then makes the order of both generators exact.
    pub fn new(modulus: BigNat, order: BigNat, generator_a: BigNat, generator_b: BigNat) -> (r:
        Option<GroupParameters>)
        ensures
            r is Some <==> (GroupView {
                modulus: modulus@,
                order: order@,
                generator_a: generator_a@,
                generator_b: generator_b@,
            }).consistent(),
            r is Some ==> r->Some_0@ == (GroupView {
                modulus: modulus@,
                order: order@,
                generator_a: generator_a@,
                generator_b: generator_b@,
            }),
    {
        let one = BigNat::from_u64(1);
        let two = BigNat::from_u64(2);
        if !modulus.at_least(&two) || order.is_zero() {
            return None;
        }
        let below_modulus = modulus.minus(&one);
        if !below_modulus.modulo(&order).is_zero() {
            return None;
        }
        if !generator_a.mod_pow(&order, &modulus).same_value(&one) {
            return None;
        }
        if !generator_b.mod_pow(&order, &modulus).same_value(&one) {
            return None;
        }
        if !order.same_value(&one) {
            if generator_a.modulo(&modulus).same_value(&one) {
                return None;
            }
            if generator_b.modulo(&modulus).same_value(&one) {
                return None;
            }
        }
        Some(GroupParameters { modulus, order, generator_a, generator_b })
    }

    /// Parameters whose second generator is derived from the first:
    /// `generator_b = generator_a ^ exponent mod modulus`. Whoever knows
    /// `exponent` knows how the two generators are related, so it must be
    /// a public, fixed value and never a secret of one party. Accepted
    /// exactly when the resulting parameters are consistent, which for a
    /// composite `order` does not make the generators' order exact (see
    /// [`GroupParameters::new`]).
    pub fn with_derived_generator(
        modulus: BigNat,
        order: BigNat,
        generator_a: BigNat,
        exponent: &BigNat,
    ) -> (r: Option<GroupParameters>)
        ensures
            r is Some <==> (GroupView {
                modulus: modulus@,
                order: order@,
                generator_a: generator_a@,
                generator_b: mod_exp(generator_a@, exponent@, modulus@),
            }).consistent(),
            r is Some ==> r->Some_0@ == (GroupView {
                modulus: modulus@,
                order: order@,
                generator_a: generator_a@,
                generator_b: mod_exp(generator_a@, exponent@, modulus@),
            }),
    {
        let two = BigNat::from_u64(2);
        if !modulus.at_least(&two) {
            return None;
        }
        let generator_b = generator_a.mod_pow(exponent, &modulus);
        GroupParameters::new(modulus, order, generator_a, generator_b)
    }

    /// The modulus that all powers are reduced by.
    pub fn modulus(&self) -> (r: &BigNat)
        ensures
            r@ == self@.modulus,
            self@.consistent(),
    {
        proof {
            use_type_invariant(self);
        }
        &self.modulus
    }

    /// The order of the subgroup that the generators span.
    pub fn order(&self) -> (r: &BigNat)
        ensures
            r@ == self@.order,
            self@.consistent(),
    {
        proof {
            use_type_invariant(self);
        }
        &self.order
    }

    /// The first generator.
    pub fn generator_a(&self) -> (r: &BigNat)
        ensures
            r@ == self@.generator_a,
            self@.consistent(),
    {
        proof {
            use_type_invariant(self);
        }
        &self.generator_a
    }

    /// The second generator.
    pub fn generator_b(&self) -> (r: &BigNat)
        ensures
            r@ == self@.generator_b,
            self@.consistent(),
    {
        proof {
            use_type_invariant(self);
        }
        &self.generator_b
    }
}

} // verus!
