//! Small std operations that vstd gives no specification for, each behind a
//! trusted item whose contract restates what the std documentation promises.
use std::rc::Rc;
use vstd::prelude::*;

verus! {

/// `String::push`: appends one `char` to the end of the string.
/// Trusted: the contract says that the new contents are the old ones followed
/// by `c`, as the std documentation states.
#[verifier::external_body]
pub(crate) fn string_push(s: &mut String, c: char)
    ensures
        final(s)@ == old(s)@.push(c),
{
    s.push(c)
}

/// `<str as PartialEq>::eq`: two string slices are equal exactly when they hold
/// the same characters.  Trusted: the contract restates that.
#[verifier::external_body]
pub(crate) fn str_eq(a: &str, b: &str) -> (r: bool)
    ensures
        r == (a@ == b@),
{
    a == b
}

/// `Rc::clone`: makes another pointer to the same allocation.  Trusted: the
/// contract says that the new pointer points to an equal value.
#[verifier::external_body]
pub(crate) fn rc_clone<T>(r: &Rc<T>) -> (res: Rc<T>)
    ensures
        res == *r,
{
    Rc::clone(r)
}

/// `std::ptr::eq`: whether two references point at the same place.  Trusted:
/// the contract says only that the same place holds the same value; when the
/// places differ nothing is said, since equal values may stand at different
/// places.
#[verifier::external_body]
pub(crate) fn same_place<T>(a: &T, b: &T) -> (r: bool)
    ensures
        r ==> *a == *b,
{
    std::ptr::eq(a, b)
}

} // verus!
