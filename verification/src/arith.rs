//! A sum helper over unsigned integers.

use vstd::prelude::*;

verus! {

/// The sum of the two arguments; the caller guarantees that it fits in `u64`.
pub fn add(left: u64, right: u64) -> (r: u64)
    requires
        left + right <= u64::MAX,
    ensures
        r == left + right,
{
    left + right
}

} // verus!
