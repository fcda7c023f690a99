//! The randomness source: exponents below the order and opaque identifiers.

use vstd::prelude::*;
use crate::bignat::BigNat;
use crate::group::GroupParameters;

verus! {

/// The length of challenge identifiers and session tokens.
pub const TOKEN_LENGTH: usize = 12;

/// An ASCII letter or digit.
pub open spec fn is_alphanumeric(c: char) -> bool {
    ||| 48 <= c as u32 <= 57
    ||| 65 <= c as u32 <= 90
    ||| 97 <= c as u32 <= 122
}

/// The shape of an opaque identifier: `TOKEN_LENGTH` ASCII letters and digits.
pub open spec fn is_token(s: Seq<char>) -> bool {
    s.len() == TOKEN_LENGTH && forall|i: int| 0 <= i < s.len() ==> is_alphanumeric(#[trigger] s[i])
}

/// Trusted: `rand::distributions::DistString::sample_string` of
/// `rand::distributions::Alphanumeric` on `rand::thread_rng()`. Claims that
/// the string has the length asked for and holds ASCII letters and digits
/// only; which ones differs from call to call.
#[verifier::external_body]
fn draw_alphanumeric(len: usize) -> (token: String)
    ensures
        token@.len() == len,
        forall|i: int| 0 <= i < token@.len() ==> is_alphanumeric(#[trigger] token@[i]),
{
    rand::distributions::DistString::sample_string(
        &rand::distributions::Alphanumeric,
        &mut rand::thread_rng(),
        len,
    )
}

/// A fresh exponent below the order, for use as a nonce or a challenge.
pub fn random_exponent(params: &GroupParameters) -> (x: BigNat)
    ensures
        x@ < params@.order,
{
    BigNat::draw_below(params.order())
}

/// A fresh opaque identifier, for use as a challenge identifier or a session token.
pub fn random_token() -> (token: String)
    ensures
        is_token(token@),
{
    draw_alphanumeric(TOKEN_LENGTH)
}

} // verus!
