//! Volume identity: a 128-bit identifier carried as two 64-bit halves.

use vstd::prelude::*;

verus! {

/// A 128-bit volume identifier, stored little-endian as `lo` then `hi`.
#[derive(Copy, Clone, Debug, Hash, PartialEq, Eq, Structural)]
pub struct Uuid {
    pub lo: u64,
    pub hi: u64,
}

} // verus!
