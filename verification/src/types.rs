//! Positions on the beacon chain.
use vstd::prelude::*;

verus! {

/// The number of a slot.
pub type Slot = u64;

/// The number of an epoch.
pub type Epoch = u64;

/// How many slots make an epoch.
pub const SLOTS_PER_EPOCH: u64 = 32;

} // verus!
