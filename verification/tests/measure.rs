use loudness::decode::AudioSpec;
use loudness::measure::{MeterStep, SourceLayout};
use loudness::pup_measure::SkipCounts;

const STEREO_48K: AudioSpec = AudioSpec { sample_rate: 48_000, channels: 2 };
const MONO_22K: AudioSpec = AudioSpec { sample_rate: 22_050, channels: 1 };

#[test]
fn a_source_of_one_layout_is_measured_as_one() {
    let mut layout = SourceLayout::new();
    assert!(!layout.is_shared());
    assert_eq!(layout.observe(STEREO_48K), MeterStep::Start);
    assert_eq!(layout.observe(STEREO_48K), MeterStep::Feed);
    assert!(layout.is_shared());
}

#[test]
fn a_source_that_mixes_layouts_gets_no_source_figure() {
    let mut layout = SourceLayout::new();
    assert_eq!(layout.observe(STEREO_48K), MeterStep::Start);
    assert_eq!(layout.observe(MONO_22K), MeterStep::Skip);
    assert_eq!(layout.observe(STEREO_48K), MeterStep::Skip);
    assert!(!layout.is_shared());
}

#[test]
fn nothing_is_skipped_at_first() {
    let counts = SkipCounts::default();
    assert_eq!(counts.muted_triggers + counts.empty_triggers + counts.silent_files, 0);
    assert_eq!(counts.no_audio + counts.unreadable, 0);
}

#[test]
fn layouts_compare_by_rate_and_channels() {
    assert!(STEREO_48K.same_layout(&AudioSpec { sample_rate: 48_000, channels: 2 }));
    assert!(!STEREO_48K.same_layout(&AudioSpec { sample_rate: 48_000, channels: 1 }));
}
