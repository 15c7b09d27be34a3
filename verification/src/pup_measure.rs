//! Counting what was skipped while measuring a PUP pack.

use vstd::prelude::*;

verus! {

/// What was skipped, and why.
///
/// Triggers and files are counted apart on purpose: mixing them gives totals
/// that do not add up against the number of rows in the file.
#[derive(Debug, Clone, Copy)]
pub struct SkipCounts {
    /// Trigger rows sitting at volume zero: muted by the pack author.
    pub muted_triggers: usize,
    /// Trigger rows whose files could none of them be measured.
    pub empty_triggers: usize,
    /// Files holding nothing but silence.
    pub silent_files: usize,
    /// Files with no audio track at all, normal for a decorative video.
    pub no_audio: usize,
    /// Files that failed to decode, which is the only kind worth reporting.
    pub unreadable: usize,
}

impl Default for SkipCounts {
    /// Nothing skipped yet.
    fn default() -> (counts: Self)
        ensures
            counts.muted_triggers == 0,
            counts.empty_triggers == 0,
            counts.silent_files == 0,
            counts.no_audio == 0,
            counts.unreadable == 0,
    {
        SkipCounts { muted_triggers: 0, empty_triggers: 0, silent_files: 0, no_audio: 0, unreadable: 0 }
    }
}

} // verus!
