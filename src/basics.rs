use vstd::prelude::*;

verus! {

/// The constant five.
pub fn five() -> (r: i32)
    ensures
        r == 5,
{
    5
}

} // verus!
