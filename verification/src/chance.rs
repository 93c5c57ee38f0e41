//! The one source of randomness of the game.

use rand::Rng;
use vstd::prelude::*;

verus! {

/// Draws an index below `bound`, by `rand::thread_rng().gen_range(0..bound)`.
///
/// Trusted, not proved: the `rand` crate returns a value of the half-open
/// range it is given, and panics on an empty range, which `bound > 0` rules
/// out. Nothing is claimed about which value comes back: two calls with the
/// same bound may differ.
#[verifier::external_body]
pub(crate) fn random_index(bound: usize) -> (index: usize)
    requires
        bound > 0,
    ensures
        index < bound,
{
    rand::thread_rng().gen_range(0..bound)
}

} // verus!
