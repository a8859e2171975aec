//! Tunable limits of the automatic partitioning.
use vstd::prelude::*;

verus! {

/// The smallest free area, in GiB, that the automatic dual boot layout
/// takes for the new system.
pub const MINIMUM_DISK_SIZE: u64 = 7;

}
