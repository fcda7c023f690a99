//! Arbitrary-precision unsigned integers over `num_bigint`, with the
//! number that a value denotes as its view.

use vstd::prelude::*;
use vstd::arithmetic::power::pow;
use crate::error::AuthError;

verus! {

/// The number that a big-endian, base-256 digit string denotes.
pub open spec fn be_value(digits: Seq<u8>) -> nat
    decreases digits.len(),
{
    if digits.len() == 0 {
        0
    } else {
        be_value(digits.drop_last()) * 256 + digits.last() as nat
    }
}

/// `base` to the power `exp`, reduced modulo `modulus`.
pub open spec fn mod_exp(base: nat, exp: nat, modulus: nat) -> nat {
    (pow(base as int, exp) % (modulus as int)) as nat
}

/// An arbitrary-precision unsigned integer, held as its big-endian bytes.
/// Its view is the number that the bytes denote; leading zero bytes are allowed.
#[derive(Debug)]
pub struct BigNat {
    bytes: Vec<u8>,
}

impl View for BigNat {
    type V = nat;

    closed spec fn view(&self) -> nat {
        be_value(self.bytes@)
    }
}

impl BigNat {
    /// Decodes a big-endian unsigned integer. An empty byte string encodes
    /// nothing and is refused rather than read as zero.
    pub fn from_bytes_be(bytes: Vec<u8>) -> (r: Result<BigNat, AuthError>)
        ensures
            bytes@.len() == 0 <==> r == Err::<BigNat, AuthError>(AuthError::MalformedInput),
            bytes@.len() > 0 <==> r is Ok,
            r is Ok ==> r->Ok_0@ == be_value(bytes@),
    {
        if bytes.len() == 0 {
            Err(AuthError::MalformedInput)
        } else {
            Ok(BigNat { bytes })
        }
    }

    /// A copy that denotes the same number.
    pub fn duplicate(&self) -> (r: BigNat)
        ensures
            r@ == self@,
    {
        let bytes = self.bytes.clone();
        proof {
            assert(bytes@ =~= self.bytes@);
        }
        BigNat { bytes }
    }

    /// Trusted: `num_bigint::BigUint::from_bytes_be` followed by
    /// `BigUint::to_bytes_be`. Claims that the bytes handed out denote the
    /// same number as the bytes held, and are the shortest such string:
    /// at least one byte, and no leading zero byte unless the string is `[0]`.
    #[verifier::external_body]
    fn shortest_bytes(&self) -> (out: Vec<u8>)
        ensures
            be_value(out@) == self@,
            out@.len() >= 1,
            out@.len() > 1 ==> out@[0] != 0,
    {
        num_bigint::BigUint::from_bytes_be(&self.bytes).to_bytes_be()
    }

    /// Trusted: `<num_bigint::BigUint as From<u64>>::from`. Claims that the
    /// big integer made from a machine integer denotes that integer.
    #[verifier::external_body]
    fn of_machine_int(value: u64) -> (r: BigNat)
        ensures
            r@ == value,
    {
        BigNat { bytes: num_bigint::BigUint::from(value).to_bytes_be() }
    }

    /// Trusted: `num_bigint::BigUint::modpow`, documented to return
    /// `(self ^ exponent) % modulus` and to panic on a zero modulus. The
    /// claim is made for a modulus of at least two.
    #[verifier::external_body]
    pub(crate) fn mod_pow(&self, exp: &BigNat, modulus: &BigNat) -> (r: BigNat)
        requires
            modulus@ >= 2,
        ensures
            r@ == mod_exp(self@, exp@, modulus@),
    {
        let base = num_bigint::BigUint::from_bytes_be(&self.bytes);
        let e = num_bigint::BigUint::from_bytes_be(&exp.bytes);
        let m = num_bigint::BigUint::from_bytes_be(&modulus.bytes);
        BigNat { bytes: base.modpow(&e, &m).to_bytes_be() }
    }

    /// Trusted: `num_bigint::BigUint`'s `Mul`. Claims the exact product.
    #[verifier::external_body]
    pub(crate) fn times(&self, other: &BigNat) -> (r: BigNat)
        ensures
            r@ == self@ * other@,
    {
        let a = num_bigint::BigUint::from_bytes_be(&self.bytes);
        let b = num_bigint::BigUint::from_bytes_be(&other.bytes);
        BigNat { bytes: (a * b).to_bytes_be() }
    }

    /// Trusted: `num_bigint::BigUint`'s `Sub`, which panics when the result
    /// would be negative. Claims the exact difference otherwise.
    #[verifier::external_body]
    pub(crate) fn minus(&self, other: &BigNat) -> (r: BigNat)
        requires
            self@ >= other@,
        ensures
            r@ == self@ - other@,
    {
        let a = num_bigint::BigUint::from_bytes_be(&self.bytes);
        let b = num_bigint::BigUint::from_bytes_be(&other.bytes);
        BigNat { bytes: (a - b).to_bytes_be() }
    }

    /// Trusted: `num_bigint::BigUint`'s `Rem`, which panics on a zero
    /// divisor. Claims the remainder of the division otherwise.
    #[verifier::external_body]
    pub(crate) fn modulo(&self, modulus: &BigNat) -> (r: BigNat)
        requires
            modulus@ != 0,
        ensures
            r@ == self@ % modulus@,
    {
        let a = num_bigint::BigUint::from_bytes_be(&self.bytes);
        let m = num_bigint::BigUint::from_bytes_be(&modulus.bytes);
        BigNat { bytes: (a % m).to_bytes_be() }
    }

    /// Trusted: `num_bigint::BigUint`'s `PartialEq`. Claims that two big
    /// integers are equal exactly when they denote the same number.
    #[verifier::external_body]
    pub(crate) fn same_value(&self, other: &BigNat) -> (r: bool)
        ensures
            r == (self@ == other@),
    {
        num_bigint::BigUint::from_bytes_be(&self.bytes)
            == num_bigint::BigUint::from_bytes_be(&other.bytes)
    }

    /// Trusted: `num_bigint::BigUint`'s `PartialOrd`. Claims that it orders
    /// big integers as the numbers they denote.
    #[verifier::external_body]
    pub(crate) fn at_least(&self, other: &BigNat) -> (r: bool)
        ensures
            r == (self@ >= other@),
    {
        num_bigint::BigUint::from_bytes_be(&self.bytes)
            >= num_bigint::BigUint::from_bytes_be(&other.bytes)
    }

    /// The shortest big-endian encoding: at least one byte, and no leading
    /// zero byte unless the number is zero, which is encoded as `[0]`.
    pub fn to_bytes_be(&self) -> (out: Vec<u8>)
        ensures
            be_value(out@) == self@,
            out@.len() >= 1,
            out@.len() > 1 ==> out@[0] != 0,
    {
        self.shortest_bytes()
    }

    /// The big integer that denotes a machine integer.
    pub fn from_u64(value: u64) -> (r: BigNat)
        ensures
            r@ == value,
    {
        BigNat::of_machine_int(value)
    }

    /// Trusted: `num_bigint::RandBigInt::gen_biguint_below` on
    /// `rand::thread_rng()`, documented to give a random big integer below
    /// the bound and to fail on a zero bound. Claims only the range: the
    /// value differs from call to call.
    #[verifier::external_body]
    pub(crate) fn draw_below(bound: &BigNat) -> (r: BigNat)
        requires
            bound@ != 0,
        ensures
            r@ < bound@,
    {
        let b = num_bigint::BigUint::from_bytes_be(&bound.bytes);
        let mut rng = rand::thread_rng();
        BigNat { bytes: num_bigint::RandBigInt::gen_biguint_below(&mut rng, &b).to_bytes_be() }
    }

    /// Whether two integers denote the same number.
    pub fn equals(&self, other: &BigNat) -> (r: bool)
        ensures
            r == (self@ == other@),
    {
        self.same_value(other)
    }

    /// Whether this integer is strictly below `bound`.
    pub fn below(&self, bound: &BigNat) -> (r: bool)
        ensures
            r == (self@ < bound@),
    {
        !self.at_least(bound)
    }

    /// Whether this integer is zero.
    pub fn is_zero(&self) -> (r: bool)
        ensures
            r == (self@ == 0),
    {
        let zero = BigNat::from_u64(0);
        self.same_value(&zero)
    }
}

} // verus!
