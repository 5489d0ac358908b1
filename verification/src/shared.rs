//! Sharing of syntax-tree nodes.

use vstd::prelude::*;
use std::rc::Rc;

verus! {

/// `Rc::clone` makes another pointer to the same allocation: the value
/// behind the new pointer is the value behind `p`.
#[verifier::external_body]
pub(crate) fn share<T>(p: &Rc<T>) -> (r: Rc<T>)
    ensures
        *r == **p,
{
    Rc::clone(p)
}

} // verus!
