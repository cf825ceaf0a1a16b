//! Constant-time primitives, built on the `subtle` crate.
//!
//! Secret-dependent decisions in this library are made through
//! `subtle::Choice` so that no branch, memory access or loop bound depends on
//! secret data. Verus cannot see timing, so these wrappers state only the
//! functional behaviour of each operation.

use subtle::ConditionallySelectable;
use subtle::ConstantTimeEq;
use vstd::prelude::*;

verus! {

/// The boolean that a `subtle::Choice` carries. `Choice` hides its value on
/// purpose; this name stands for it in contracts, and the wrappers below say
/// how each constant-time operation acts on it.
pub uninterp spec fn choice_is_set(c: subtle::Choice) -> bool;

#[verifier::external_type_specification]
#[verifier::external_body]
pub struct ExChoice(subtle::Choice);

/// Relies on `subtle::Choice::from`: a 0/1 byte becomes the matching choice.
#[verifier::external_body]
pub fn choice_from_bit(b: u8) -> (c: subtle::Choice)
    requires
        b == 0 || b == 1,
    ensures
        choice_is_set(c) == (b == 1),
{
    subtle::Choice::from(b)
}

/// Relies on `subtle::ConstantTimeEq` for `u8`: equality, in constant time.
#[verifier::external_body]
pub fn ct_eq_u8(a: u8, b: u8) -> (c: subtle::Choice)
    ensures
        choice_is_set(c) == (a == b),
{
    a.ct_eq(&b)
}

/// Relies on `BitAnd` for `subtle::Choice`: logical and, in constant time.
#[verifier::external_body]
pub fn choice_and(a: subtle::Choice, b: subtle::Choice) -> (c: subtle::Choice)
    ensures
        choice_is_set(c) == (choice_is_set(a) && choice_is_set(b)),
{
    a & b
}

/// Relies on `Not` for `subtle::Choice`: logical negation, in constant time.
#[verifier::external_body]
pub fn choice_not(a: subtle::Choice) -> (c: subtle::Choice)
    ensures
        choice_is_set(c) == !choice_is_set(a),
{
    !a
}

/// Relies on `subtle::ConditionallySelectable` for `u64`: copies `src` into
/// `dest` iff the choice is set, in constant time.
#[verifier::external_body]
pub fn conditional_assign_u64(dest: &mut u64, src: u64, c: subtle::Choice)
    ensures
        *final(dest) == if choice_is_set(c) {
            src
        } else {
            *old(dest)
        },
{
    dest.conditional_assign(&src, c);
}

} // verus!
