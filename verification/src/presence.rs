//! How long a visitor has been around, counted by a ticker.

use vstd::prelude::*;

verus! {

/// The age of a visitor after one more round of the ticker: zero for one who
/// has no age yet, and `step` more than before for everybody else.
pub open spec fn aged(previous: Option<usize>, step: usize) -> int {
    match previous {
        None => 0,
        Some(age) => age + step,
    }
}

/// The age of a visitor after one more round of the ticker.
pub fn next_age(previous: Option<usize>, step: usize) -> (age: usize)
    requires
        aged(previous, step) <= usize::MAX,
    ensures
        age == aged(previous, step),
{
    match previous {
        None => 0,
        Some(i) => i + step,
    }
}

} // verus!
