//! Which files of a source can be measured together.
//!
//! Files are measured individually and fed to one shared meter, so the source
//! loudness is the loudness of everything played back to back. That meter is
//! fixed to the layout of the first file it sees; a source that mixes sample
//! rates or channel layouts is measured per file only, and no source figure
//! is given for it.

use vstd::prelude::*;

use crate::decode::AudioSpec;

verus! {

/// What the shared meter must do with the file just observed.
#[derive(Debug, Clone, Copy, PartialEq, Eq, Structural)]
pub enum MeterStep {
    /// First file: set the meter up for its layout, then feed it.
    Start,
    /// Same layout as every file before: feed it.
    Feed,
    /// Layouts are mixed: the shared meter is dropped, or stays dropped.
    Skip,
}

/// Every layout in `specs` is the first one.
pub open spec fn one_layout(specs: Seq<AudioSpec>) -> bool {
    forall|i: int| 0 <= i < specs.len() ==> #[trigger] specs[i] == specs[0]
}

/// A source is of one layout exactly when every file has the sample rate and
/// the channel count of the first: a file that differs in either one mixes
/// the source.
pub proof fn one_layout_is_same_rate_and_channels(specs: Seq<AudioSpec>)
    ensures
        one_layout(specs) <==> forall|i: int|
            0 <= i < specs.len() ==> (#[trigger] specs[i]).sample_rate == specs[0].sample_rate
                && specs[i].channels == specs[0].channels,
{
    if one_layout(specs) {
        assert forall|i: int| 0 <= i < specs.len() implies (#[trigger] specs[i]).sample_rate
            == specs[0].sample_rate && specs[i].channels == specs[0].channels by {
            assert(specs[i] == specs[0]);
        }
    }
}

/// Two files share the meter exactly when they have the same sample rate and
/// the same channel count; a stereo and a mono file of one rate do not.
pub proof fn two_files_share_only_one_layout(a: AudioSpec, b: AudioSpec)
    ensures
        one_layout(seq![a, b]) <==> (a.sample_rate == b.sample_rate && a.channels == b.channels),
{
    let s = seq![a, b];
    one_layout_is_same_rate_and_channels(s);
    assert(s[0] == a && s[1] == b);
}

/// Once a source has mixed two layouts, no file added later can bring a
/// source figure back.
pub proof fn mixed_layouts_stay_mixed(seen: Seq<AudioSpec>, later: Seq<AudioSpec>)
    requires
        !one_layout(seen),
    ensures
        !one_layout(seen + later),
{
    let i = choose|i: int| 0 <= i < seen.len() && #[trigger] seen[i] != seen[0];
    assert((seen + later)[i] == seen[i]);
    assert((seen + later)[0] == seen[0]);
}

/// Tracks the layouts of the files of one source, in the order measured.
pub struct SourceLayout {
    first: Option<AudioSpec>,
    mixed: bool,
    seen: Ghost<Seq<AudioSpec>>,
}

impl SourceLayout {
    #[verifier::type_invariant]
    spec fn consistent(&self) -> bool {
        &&& self.first == (if self.seen@.len() == 0 {
            None
        } else {
            Some(self.seen@[0])
        })
        &&& self.mixed == !one_layout(self.seen@)
    }

    /// The layouts observed so far, in order.
    pub closed spec fn observed(&self) -> Seq<AudioSpec> {
        self.seen@
    }

    /// Nothing observed yet.
    pub fn new() -> (layout: Self)
        ensures
            layout.observed() == Seq::<AudioSpec>::empty(),
    {
        SourceLayout { first: None, mixed: false, seen: Ghost(Seq::empty()) }
    }

    /// Record the layout of one more file, and say what the shared meter must
    /// do with it: start on the first file, keep feeding while every layout
    /// matches the first, and skip from the first mismatch on.
    pub fn observe(&mut self, spec: AudioSpec) -> (step: MeterStep)
        ensures
            final(self).observed() == old(self).observed().push(spec),
            step == (if old(self).observed().len() == 0 {
                MeterStep::Start
            } else if one_layout(old(self).observed().push(spec)) {
                MeterStep::Feed
            } else {
                MeterStep::Skip
            }),
            (step == MeterStep::Feed) <==> (old(self).observed().len() > 0 && forall|i: int|
                0 <= i < final(self).observed().len() ==> (#[trigger] final(self).observed()[i]).sample_rate
                    == old(self).observed()[0].sample_rate && final(self).observed()[i].channels
                    == old(self).observed()[0].channels),
            step == MeterStep::Feed ==> spec.sample_rate == old(self).observed()[0].sample_rate
                && spec.channels == old(self).observed()[0].channels,
    {
        proof {
            use_type_invariant(&*self);
        }
        let ghost before = self.seen@;
        let ghost after = before.push(spec);
        let step = match self.first {
            None => {
                assert(before.len() == 0);
                assert(one_layout(after)) by {
                    assert forall|i: int| 0 <= i < after.len() implies #[trigger] after[i]
                        == after[0] by {
                        assert(i == 0);
                    }
                }
                *self = SourceLayout { first: Some(spec), mixed: false, seen: Ghost(after) };
                MeterStep::Start
            },
            Some(first) => {
                let same = first.same_layout(&spec);
                assert(after[0] == first);
                if !same {
                    assert(after[after.len() - 1] != after[0]);
                } else if !self.mixed {
                    assert forall|i: int| 0 <= i < after.len() implies #[trigger] after[i]
                        == after[0] by {
                        if i < before.len() {
                            assert(after[i] == before[i]);
                        }
                    }
                } else {
                    proof {
                        let j = choose|j: int| 0 <= j < before.len() && #[trigger] before[j] != before[0];
                        assert(after[j] != after[0]);
                    }
                }
                let mixed = self.mixed || !same;
                *self = SourceLayout { first: Some(first), mixed, seen: Ghost(after) };
                if mixed {
                    MeterStep::Skip
                } else {
                    MeterStep::Feed
                }
            },
        };
        proof {
            one_layout_is_same_rate_and_channels(after);
            assert(self.observed() == after);
            if before.len() > 0 {
                assert(after[0] == before[0]);
            }
            if step == MeterStep::Feed {
                assert(after[after.len() - 1] == spec);
            }
            assert((step == MeterStep::Feed) <==> (before.len() > 0 && forall|i: int|
                0 <= i < after.len() ==> (#[trigger] after[i]).sample_rate == before[0].sample_rate
                    && after[i].channels == before[0].channels));
        }
        step
    }

    /// Whether the shared meter holds a figure for the whole source: at least
    /// one file was measured, and every file had the layout of the first.
    pub fn is_shared(&self) -> (shared: bool)
        ensures
            shared == (self.observed().len() > 0 && one_layout(self.observed())),
            shared <==> (self.observed().len() > 0 && forall|i: int|
                0 <= i < self.observed().len() ==> (#[trigger] self.observed()[i]).sample_rate
                    == self.observed()[0].sample_rate && self.observed()[i].channels
                    == self.observed()[0].channels),
    {
        proof {
            use_type_invariant(self);
            one_layout_is_same_rate_and_channels(self.observed());
        }
        self.first.is_some() && !self.mixed
    }
}

} // verus!
