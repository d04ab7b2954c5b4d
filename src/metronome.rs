use vstd::prelude::*;

use crate::error::MetronomeError;
use crate::grid::{
    common_unit, lemma_scaled_beats_positive, rescale, rescale_fits, resolve, signatures_valid,
};
use crate::segment::{render, rendered, seg_nanos, total_nanos, bar_nanos, Segment, ACCENT_HZ, REGULAR_HZ, TONE_AMPLITUDE_PERCENT, BAR_NANOS_AT_ONE_BPM};
use crate::signature::TimeSignature;
use crate::timeline::{bar_ticks_of, beats_valid, build_timeline, lemma_timeline_shape, timeline_ok, Timeline};

verus! {

/// Duration of one beat of a `bottom`-th note at `bpm` quarter notes per minute, in
/// nanoseconds (rounded down).
pub open spec fn beat_nanos(bpm: nat, bottom: nat) -> nat {
    BAR_NANOS_AT_ONE_BPM as nat / (bpm * bottom)
}

/// The `k`-th segment pair of the single-signature bar: an accented tone opens the bar.
pub open spec fn simple_tone(k: int, beat: nat) -> Segment {
    Segment::Tone {
        frequency_hz: if k == 0 { ACCENT_HZ } else { REGULAR_HZ },
        amplitude_percent: TONE_AMPLITUDE_PERCENT,
        nanos: (beat / 4 * 3) as u64,
    }
}

/// The silence after each single-signature tone: the rest of the beat.
pub open spec fn simple_silence(beat: nat) -> Segment {
    Segment::Silence { nanos: (beat - beat / 4 * 3) as u64 }
}

/// A metronome for a single time signature.
#[derive(Clone, Copy, Debug)]
pub struct Metronome {
    pub bpm: u8,
    pub signature: TimeSignature,
}

impl Metronome {
    pub fn new(bpm: u8, signature: TimeSignature) -> (r: Self)
        ensures
            r.bpm == bpm,
            r.signature == signature,
    {
        Self { bpm, signature }
    }

    /// Duration of one beat, in nanoseconds: `(60 / bpm) * (4 / bottom)` seconds.
    pub fn get_duration(&self) -> (r: u64)
        requires
            self.bpm > 0,
            self.signature.bottom > 0,
        ensures
            r as nat == beat_nanos(self.bpm as nat, self.signature.bottom as nat),
    {
        assert((self.bpm as int) * (self.signature.bottom as int) <= 255 * 255) by (nonlinear_arith)
            requires
                self.bpm <= 255,
                self.signature.bottom <= 255,
        ;
        let den: u64 = self.bpm as u64 * self.signature.bottom as u64;
        assert(den > 0) by (nonlinear_arith)
            requires
                den == self.bpm as u64 * self.signature.bottom as u64,
                self.bpm > 0,
                self.signature.bottom > 0,
        ;
        BAR_NANOS_AT_ONE_BPM / den
    }

    /// Beats per bar.
    pub fn get_repeats(&self) -> (r: u8)
        ensures
            r == self.signature.top,
    {
        self.signature.top
    }

    /// One bar of clicks: for each beat, a tone for three quarters of the beat and a silence
    /// for the rest of it; the first beat is accented. A bar of one beat is a single-point
    /// cycle and is refused.
    pub fn bar_segments(&self) -> (r: Result<Vec<Segment>, MetronomeError>)
        ensures
            match r {
                Ok(segs) => {
                    let beat = beat_nanos(self.bpm as nat, self.signature.bottom as nat);
                    &&& self.bpm > 0 && self.signature.valid() && self.signature.top >= 2
                    &&& segs@.len() == 2 * self.signature.top
                    &&& forall|k: int| 0 <= k < self.signature.top ==> segs@[2 * k] == simple_tone(k, beat)
                        && segs@[2 * k + 1] == simple_silence(beat)
                    &&& seg_nanos(simple_tone(0, beat)) + seg_nanos(simple_silence(beat)) == beat
                    &&& total_nanos(segs@) == self.signature.top * beat
                },
                Err(MetronomeError::InvalidArgument) => self.bpm == 0 || !self.signature.valid(),
                Err(MetronomeError::DegenerateTimeline) => self.bpm > 0 && self.signature.valid()
                    && self.signature.top == 1,
                Err(_) => false,
            },
    {
        if self.bpm == 0 || self.signature.top == 0 || self.signature.bottom == 0 {
            return Err(MetronomeError::InvalidArgument);
        }
        if self.signature.top == 1 {
            return Err(MetronomeError::DegenerateTimeline);
        }
        let beat = self.get_duration();
        let tone: u64 = beat / 4 * 3;
        let pause: u64 = beat - tone;
        let repeats = self.get_repeats();
        let mut segs: Vec<Segment> = Vec::new();
        let mut k: u8 = 0;
        while k < repeats
            invariant
                repeats == self.signature.top,
                beat as nat == beat_nanos(self.bpm as nat, self.signature.bottom as nat),
                tone == beat / 4 * 3,
                pause == beat - tone,
                0 <= k <= repeats,
                segs@.len() == 2 * k,
                forall|a: int| 0 <= a < k ==> segs@[2 * a] == simple_tone(a, beat as nat)
                    && segs@[2 * a + 1] == simple_silence(beat as nat),
                total_nanos(segs@) == k * beat,
            decreases repeats - k,
        {
            let frequency_hz: u32 = if k == 0 {
                ACCENT_HZ
            } else {
                REGULAR_HZ
            };
            let ghost before = segs@;
            segs.push(Segment::Tone { frequency_hz, amplitude_percent: TONE_AMPLITUDE_PERCENT, nanos: tone });
            segs.push(Segment::Silence { nanos: pause });
            proof {
                assert(segs@.drop_last().drop_last() =~= before);
                assert(total_nanos(segs@.drop_last()) == total_nanos(before) + tone);
                assert(total_nanos(segs@) == total_nanos(segs@.drop_last()) + pause);
                assert((k + 1) * beat == k * beat + beat) by (nonlinear_arith);
                assert forall|a: int| 0 <= a < k + 1 implies segs@[2 * a] == simple_tone(a, beat as nat)
                    && segs@[2 * a + 1] == simple_silence(beat as nat) by {
                    if a < k {
                        assert(segs@[2 * a] == before[2 * a]);
                        assert(segs@[2 * a + 1] == before[2 * a + 1]);
                    }
                }
            }
            k = k + 1;
        }
        Ok(segs)
    }
}

/// The signatures of a set, rescaled onto their common subdivision.
pub open spec fn poly_rescaled(sigs: Seq<TimeSignature>) -> Seq<TimeSignature> {
    sigs.map_values(|s: TimeSignature| rescale(s, common_unit(sigs)))
}

/// A metronome that overlays several time signatures at one tempo, all bars starting together.
#[derive(Debug)]
pub struct PolyrythmicMetronome {
    pub bpm: u8,
    pub signatures: Vec<TimeSignature>,
}

impl PolyrythmicMetronome {
    pub fn new(bpm: u8, signatures: Vec<TimeSignature>) -> (r: Self)
        ensures
            r.bpm == bpm,
            r.signatures@ == signatures@,
    {
        Self { bpm, signatures }
    }

    /// The merged timeline of one bar: each signature's beats spread evenly over the bar.
    pub fn get_durations(&self) -> (r: Result<Timeline, MetronomeError>)
        ensures
            match r {
                Ok(tl) => {
                    &&& self.bpm > 0
                    &&& signatures_valid(self.signatures@)
                    &&& common_unit(self.signatures@) <= 255
                    &&& rescale_fits(self.signatures@, common_unit(self.signatures@))
                    &&& timeline_ok(self.bpm, poly_rescaled(self.signatures@), tl)
                },
                Err(MetronomeError::InvalidArgument) => self.bpm == 0 || !signatures_valid(
                    self.signatures@,
                ),
                Err(MetronomeError::ArithmeticOverflow) => {
                    &&& self.bpm > 0
                    &&& signatures_valid(self.signatures@)
                    &&& (common_unit(self.signatures@) > 255 || !rescale_fits(
                        self.signatures@,
                        common_unit(self.signatures@),
                    ) || bar_ticks_of(poly_rescaled(self.signatures@)) > u64::MAX)
                },
                Err(_) => false,
            },
    {
        if self.bpm == 0 {
            return Err(MetronomeError::InvalidArgument);
        }
        let res = resolve(&self.signatures)?;
        let ghost sigs = self.signatures@;
        proof {
            lemma_scaled_beats_positive(sigs);
            assert(res.rescaled@ == poly_rescaled(sigs));
        }
        build_timeline(self.bpm, &res.rescaled)
    }

    /// One bar of clicks for the overlaid signatures, ready to loop.
    pub fn bar_segments(&self) -> (r: Result<Vec<Segment>, MetronomeError>)
        ensures
            match r {
                Ok(segs) => {
                    &&& self.bpm > 0
                    &&& signatures_valid(self.signatures@)
                    &&& common_unit(self.signatures@) <= 255
                    &&& rescale_fits(self.signatures@, common_unit(self.signatures@))
                    &&& bar_ticks_of(poly_rescaled(self.signatures@)) <= u64::MAX
                    &&& exists|tl: Timeline|
                        timeline_ok(self.bpm, poly_rescaled(self.signatures@), tl) && rendered(
                            tl,
                            segs@,
                        )
                    &&& total_nanos(segs@) == bar_nanos(self.bpm as nat)
                },
                Err(MetronomeError::InvalidArgument) => self.bpm == 0 || !signatures_valid(
                    self.signatures@,
                ),
                Err(MetronomeError::ArithmeticOverflow) => {
                    &&& self.bpm > 0
                    &&& signatures_valid(self.signatures@)
                    &&& (common_unit(self.signatures@) > 255 || !rescale_fits(
                        self.signatures@,
                        common_unit(self.signatures@),
                    ) || bar_ticks_of(poly_rescaled(self.signatures@)) > u64::MAX)
                },
                Err(MetronomeError::DegenerateTimeline) => {
                    &&& self.bpm > 0
                    &&& signatures_valid(self.signatures@)
                    &&& common_unit(self.signatures@) <= 255
                    &&& rescale_fits(self.signatures@, common_unit(self.signatures@))
                    &&& bar_ticks_of(poly_rescaled(self.signatures@)) <= u64::MAX
                    &&& exists|tl: Timeline|
                        timeline_ok(self.bpm, poly_rescaled(self.signatures@), tl)
                            && tl.events@.len() < 2
                },
                Err(_) => false,
            },
    {
        let tl = self.get_durations()?;
        proof {
            let rs = poly_rescaled(self.signatures@);
            lemma_scaled_beats_positive(self.signatures@);
            assert(beats_valid(rs));
            lemma_timeline_shape(self.bpm, rs, tl);
        }
        render(&tl)
    }
}

} // verus!
