//! Shared ownership of immutable values, with a copy made on the first write.

use std::sync::Arc;
use vstd::prelude::*;

verus! {

/// [`Arc::clone`]: one more pointer to the same allocation, so the value
/// behind the new pointer is the value behind the old one.
#[verifier::external_body]
pub(crate) fn share<T>(a: &Arc<T>) -> (r: Arc<T>)
    ensures
        r == *a,
{
    Arc::clone(a)
}

/// [`Arc::make_mut`]: a mutable reference into the allocation of `a` where no
/// other pointer shares it, else into a fresh allocation that holds a clone
/// of the value and that `a` points to from then on. Either way the value
/// that the reference first shows is the old value or a clone of it, and what
/// is written through the reference is what `a` holds afterwards. Other
/// pointers to the old allocation are not touched.
#[verifier::external_body]
pub(crate) fn make_unique<T: Clone>(a: &mut Arc<T>) -> (r: &mut T)
    ensures
        cloned::<T>(**old(a), *r),
        **final(a) == *final(r),
{
    Arc::make_mut(a)
}

/// [`Arc::ptr_eq`]: whether two pointers point to the same allocation. Where
/// they do, the value behind the one is the value behind the other; where
/// they do not, nothing is said.
#[verifier::external_body]
pub(crate) fn same_allocation<T>(a: &Arc<T>, b: &Arc<T>) -> (r: bool)
    ensures
        r ==> *a == *b,
{
    Arc::ptr_eq(a, b)
}

} // verus!
