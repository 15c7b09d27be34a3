//! What a decoder reports about the stream it is about to produce.

use vstd::prelude::*;

verus! {

/// Layout of a decoded stream.
#[derive(Debug, Clone, Copy, PartialEq, Eq, Structural)]
pub struct AudioSpec {
    /// Frames per second.
    pub sample_rate: u32,
    /// Interleaved channel count.
    pub channels: u32,
}

impl AudioSpec {
    /// Whether two streams can be fed to one meter.
    pub fn same_layout(&self, other: &AudioSpec) -> (same: bool)
        ensures
            same == (*self == *other),
    {
        self.sample_rate == other.sample_rate && self.channels == other.channels
    }
}

} // verus!
