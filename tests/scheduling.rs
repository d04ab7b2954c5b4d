use polymetronome::error::MetronomeError;
use polymetronome::grid::{find_least_common_denominator, resolve, transform_to_common_denominator_signature};
use polymetronome::metronome::{Metronome, PolyrythmicMetronome};
use polymetronome::scheduler::{render_outcome, step, PlaybackAction, PlaybackEvent, PlaybackState};
use polymetronome::segment::{render, Segment, ACCENT_HZ, REGULAR_HZ, TONE_AMPLITUDE_PERCENT};
use polymetronome::signature::TimeSignature;
use polymetronome::timeline::build_timeline;

fn sig(top: u8, bottom: u8) -> TimeSignature {
    TimeSignature::new(top, bottom)
}

fn seg_nanos(s: &Segment) -> u64 {
    match s {
        Segment::Tone { nanos, .. } => *nanos,
        Segment::Silence { nanos } => *nanos,
    }
}

#[test]
fn resolve_common_unit_examples() {
    assert_eq!(resolve(&vec![sig(4, 8), sig(3, 4)]).unwrap().common_unit, 8);
    assert_eq!(resolve(&vec![sig(4, 4), sig(3, 4)]).unwrap().common_unit, 4);
    assert_eq!(resolve(&vec![sig(2, 3), sig(3, 4)]).unwrap().common_unit, 12);
}

#[test]
fn resolve_rescales_beats() {
    let res = resolve(&vec![sig(4, 8), sig(3, 4)]).unwrap();
    assert_eq!(res.rescaled, vec![sig(4, 8), sig(6, 8)]);
    let res = resolve(&vec![sig(2, 3), sig(3, 4)]).unwrap();
    assert_eq!(res.rescaled, vec![sig(8, 12), sig(9, 12)]);
}

#[test]
fn single_signature_resolves_to_itself() {
    let res = resolve(&vec![sig(7, 8)]).unwrap();
    assert_eq!(res.common_unit, 8);
    assert_eq!(res.rescaled, vec![sig(7, 8)]);
}

#[test]
fn common_unit_is_least_common_multiple() {
    let sigs = vec![sig(1, 6), sig(1, 4), sig(1, 10)];
    let u = find_least_common_denominator(&sigs).unwrap();
    assert_eq!(u, 60);
    for s in &sigs {
        assert_eq!(u % s.bottom, 0);
    }
    for m in 1..u {
        assert!(sigs.iter().any(|s| m % s.bottom != 0));
    }
}

#[test]
fn common_unit_errors() {
    assert!(matches!(find_least_common_denominator(&vec![]), Err(MetronomeError::InvalidArgument)));
    assert!(matches!(find_least_common_denominator(&vec![sig(3, 0)]), Err(MetronomeError::InvalidArgument)));
    assert!(matches!(
        find_least_common_denominator(&vec![sig(1, 16), sig(1, 17)]),
        Err(MetronomeError::ArithmeticOverflow)
    ));
    assert_eq!(find_least_common_denominator(&vec![sig(1, 15), sig(1, 17)]).unwrap(), 255);
}

#[test]
fn transform_rescales_and_detects_overflow() {
    let v = transform_to_common_denominator_signature(8, &vec![sig(3, 4), sig(5, 8)]).unwrap();
    assert_eq!(v, vec![sig(6, 8), sig(5, 8)]);
    assert!(matches!(
        transform_to_common_denominator_signature(8, &vec![sig(200, 4)]),
        Err(MetronomeError::ArithmeticOverflow)
    ));
}

#[test]
fn zero_beats_is_invalid() {
    assert!(matches!(resolve(&vec![sig(0, 4)]), Err(MetronomeError::InvalidArgument)));
    assert!(matches!(resolve(&vec![sig(3, 4), sig(0, 8)]), Err(MetronomeError::InvalidArgument)));
    assert!(matches!(resolve(&vec![]), Err(MetronomeError::InvalidArgument)));
    let m = PolyrythmicMetronome::new(60, vec![sig(0, 4)]);
    assert!(matches!(m.bar_segments(), Err(MetronomeError::InvalidArgument)));
}

#[test]
fn lcm_overflow_is_reported() {
    assert!(matches!(resolve(&vec![sig(1, 16), sig(1, 17)]), Err(MetronomeError::ArithmeticOverflow)));
    assert!(matches!(resolve(&vec![sig(200, 4), sig(1, 8)]), Err(MetronomeError::ArithmeticOverflow)));
    let m = PolyrythmicMetronome::new(60, vec![sig(1, 16), sig(1, 17)]);
    let r = m.bar_segments();
    assert!(matches!(r, Err(MetronomeError::ArithmeticOverflow)));
    let (state, action) = step(PlaybackState::Rendering, render_outcome(&r));
    assert_eq!(state, PlaybackState::Stopped);
    assert_eq!(action, PlaybackAction::Release);
    for e in [PlaybackEvent::Start, PlaybackEvent::Rendered, PlaybackEvent::Drained] {
        assert_eq!(step(state, e).0, PlaybackState::Stopped);
    }
}

#[test]
fn zero_tempo_is_invalid() {
    assert!(matches!(build_timeline(0, &vec![sig(4, 4)]), Err(MetronomeError::InvalidArgument)));
    let m = PolyrythmicMetronome::new(0, vec![sig(4, 4)]);
    assert!(matches!(m.get_durations(), Err(MetronomeError::InvalidArgument)));
}

#[test]
fn single_signature_beat_duration() {
    assert_eq!(Metronome::new(60, sig(4, 4)).get_duration(), 1_000_000_000);
    assert_eq!(Metronome::new(120, sig(3, 8)).get_duration(), 250_000_000);
}

#[test]
fn simple_metronome_bar() {
    let m = Metronome::new(60, sig(3, 4));
    assert_eq!(m.get_repeats(), 3);
    let segs = m.bar_segments().unwrap();
    let tone = |hz: u32| Segment::Tone { frequency_hz: hz, amplitude_percent: TONE_AMPLITUDE_PERCENT, nanos: 750_000_000 };
    let rest = Segment::Silence { nanos: 250_000_000 };
    assert_eq!(segs, vec![tone(ACCENT_HZ), rest, tone(REGULAR_HZ), rest, tone(REGULAR_HZ), rest]);
    assert!(matches!(Metronome::new(60, sig(0, 4)).bar_segments(), Err(MetronomeError::InvalidArgument)));
}

#[test]
fn simple_beat_has_no_remainder_loss() {
    let m = Metronome::new(7, sig(2, 4));
    let beat = m.get_duration();
    assert_eq!(beat, 8_571_428_571);
    let segs = m.bar_segments().unwrap();
    assert_eq!(seg_nanos(&segs[0]), 6_428_571_426);
    assert_eq!(seg_nanos(&segs[1]), 2_142_857_145);
    assert_eq!(seg_nanos(&segs[0]) + seg_nanos(&segs[1]), beat);
    let total: u64 = segs.iter().map(seg_nanos).sum();
    assert_eq!(total, 2 * beat);
}

#[test]
fn simple_single_beat_bar_is_degenerate() {
    assert!(matches!(Metronome::new(7, sig(1, 4)).bar_segments(), Err(MetronomeError::DegenerateTimeline)));
}

#[test]
fn merged_three_against_four() {
    let m = PolyrythmicMetronome::new(60, vec![sig(3, 4), sig(4, 4)]);
    let tl = m.get_durations().unwrap();
    assert_eq!(tl.bar_ticks, 12);
    let ticks: Vec<u64> = tl.events.iter().map(|e| e.tick).collect();
    // three-beat onsets at 0, 1/3, 2/3 of the bar; four-beat onsets at 0, 1/4, 1/2, 3/4
    assert_eq!(ticks, vec![0, 3, 4, 6, 8, 9]);
    assert_eq!(tl.events[0].sources, vec![0, 1]);
    assert!(tl.events[0].is_downbeat);
    assert_eq!(tl.events[1].sources, vec![1]);
    assert_eq!(tl.events[2].sources, vec![0]);
    assert!(tl.events[1..].iter().all(|e| !e.is_downbeat));
}

#[test]
fn rendered_gaps_split_three_to_one() {
    let m = PolyrythmicMetronome::new(60, vec![sig(3, 4), sig(4, 4)]);
    let segs = m.bar_segments().unwrap();
    assert_eq!(segs.len(), 12);
    // first gap: 3 of 12 ticks of a 4 s bar, i.e. one second
    assert_eq!(segs[0], Segment::Tone { frequency_hz: ACCENT_HZ, amplitude_percent: TONE_AMPLITUDE_PERCENT, nanos: 750_000_000 });
    assert_eq!(segs[1], Segment::Silence { nanos: 250_000_000 });
    // second gap: 1 tick, a third of a second
    assert_eq!(segs[2], Segment::Tone { frequency_hz: REGULAR_HZ, amplitude_percent: TONE_AMPLITUDE_PERCENT, nanos: 250_000_000 });
    assert_eq!(seg_nanos(&segs[2]) + seg_nanos(&segs[3]), 333_333_333);
    let total: u64 = segs.iter().map(seg_nanos).sum();
    assert_eq!(total, 4_000_000_000);
}

#[test]
fn bar_total_has_no_drift() {
    let m = PolyrythmicMetronome::new(7, vec![sig(3, 4), sig(5, 8), sig(7, 16)]);
    let segs = m.bar_segments().unwrap();
    let total: u64 = segs.iter().map(seg_nanos).sum();
    assert_eq!(total, 240_000_000_000 / 7);
}

#[test]
fn rebuilding_is_identical() {
    let sigs = vec![sig(3, 4), sig(5, 8)];
    let a = resolve(&sigs).unwrap();
    let b = resolve(&sigs).unwrap();
    assert_eq!(a.common_unit, b.common_unit);
    assert_eq!(a.rescaled, b.rescaled);
    let ta = build_timeline(90, &a.rescaled).unwrap();
    let tb = build_timeline(90, &b.rescaled).unwrap();
    assert_eq!(format!("{:?}", ta), format!("{:?}", tb));
    assert_eq!(render(&ta).unwrap(), render(&tb).unwrap());
}

#[test]
fn single_beat_bar_is_degenerate() {
    let m = PolyrythmicMetronome::new(60, vec![sig(1, 4)]);
    assert!(matches!(m.bar_segments(), Err(MetronomeError::DegenerateTimeline)));
}

#[test]
fn playback_state_machine() {
    assert_eq!(step(PlaybackState::Idle, PlaybackEvent::Start), (PlaybackState::Rendering, PlaybackAction::Render));
    assert_eq!(step(PlaybackState::Rendering, PlaybackEvent::Rendered), (PlaybackState::Looping, PlaybackAction::Submit));
    assert_eq!(step(PlaybackState::Looping, PlaybackEvent::Drained), (PlaybackState::Looping, PlaybackAction::Submit));
    assert_eq!(step(PlaybackState::Looping, PlaybackEvent::Cancelled), (PlaybackState::Stopped, PlaybackAction::Release));
    assert_eq!(step(PlaybackState::Idle, PlaybackEvent::Drained), (PlaybackState::Idle, PlaybackAction::Ignore));
    assert_eq!(step(PlaybackState::Stopped, PlaybackEvent::Cancelled), (PlaybackState::Stopped, PlaybackAction::Ignore));
}

#[test]
fn error_descriptions() {
    assert_eq!(MetronomeError::InvalidArgument.describe(), "invalid argument");
    assert_eq!(MetronomeError::ArithmeticOverflow.describe(), "arithmetic overflow");
    assert_eq!(MetronomeError::DegenerateTimeline.describe(), "degenerate timeline");
}
