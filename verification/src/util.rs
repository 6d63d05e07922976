use vstd::prelude::*;

verus! {

/// Computes the absolute value of the difference
/// between two numbers.
pub fn absolute_diff(a: usize, b: usize) -> (diff: usize)
    ensures
        diff == if a > b {
            a - b
        } else {
            b - a
        },
{
    if a > b {
        a - b
    } else {
        b - a
    }
}

} // verus!
