//! A small pseudo-random generator, for jitter and identifiers that need
//! unpredictability and not cryptography.

use vstd::prelude::*;

verus! {

/// The generator's next state, which is also the number drawn (xorshift).
pub open spec fn stirred(x: u64) -> u64 {
    let a = x ^ (x << 13);
    let b = a ^ (a >> 7);
    b ^ (b << 17)
}

/// The generator's next state.
pub fn next(x: u64) -> (r: u64)
    ensures
        r == stirred(x),
{
    let a: u64 = x ^ (x << 13);
    let b: u64 = a ^ (a >> 7);
    b ^ (b << 17)
}

} // verus!
