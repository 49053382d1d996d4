//! Constant-time primitives from the `subtle` crate, on plain values.

use subtle::{Choice, ConditionallySelectable, ConstantTimeEq};
use vstd::prelude::*;

verus! {

/// Calls `<u64 as subtle::ConstantTimeEq>::ct_eq` and converts the resulting
/// `Choice` to a `bool`: the contract claims that the result is `true` exactly
/// when the two words are equal.
#[verifier::external_body]
pub(crate) fn ct_eq_u64(a: u64, b: u64) -> (r: bool)
    ensures
        r == (a == b),
{
    bool::from(a.ct_eq(&b))
}

/// Calls `<u64 as subtle::ConditionallySelectable>::conditional_select` with the
/// `Choice` made from `choice`: the contract claims that it returns `b` when
/// `choice` holds and `a` otherwise.
#[verifier::external_body]
pub(crate) fn ct_select_u64(a: u64, b: u64, choice: bool) -> (r: u64)
    ensures
        r == (if choice {
            b
        } else {
            a
        }),
{
    u64::conditional_select(&a, &b, Choice::from(choice as u8))
}

} // verus!
