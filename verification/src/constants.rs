//! Parameters of the sponge.

use vstd::prelude::*;

verus! {

/// Number of message bytes absorbed between two permutations: the rate of
/// both SHA3-256 and Keccak-256.
pub const KECCAK_ABSORB_BYTES: usize = 136;

} // verus!
