pub mod compose;
pub mod decl;
pub mod laws;
pub mod paths;

use vstd::prelude::*;

verus! {

/// The exact sum; the caller rules out overflow.
pub fn add(left: usize, right: usize) -> (r: usize)
    requires
        left + right <= usize::MAX,
    ensures
        r == left + right,
{
    left + right
}

} // verus!
