//! The pointer type of the syntax tree.

use vstd::prelude::*;

verus! {

/// An owned pointer to a node of the tree.
pub type P<T> = Box<T>;

/// Puts a node behind a pointer.
#[allow(non_snake_case)]
pub fn P<T>(val: T) -> (p: P<T>)
    ensures
        *p == val,
{
    Box::new(val)
}

} // verus!
