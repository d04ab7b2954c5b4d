use vstd::prelude::*;

use crate::error::MetronomeError;
use crate::timeline::{Event, Timeline};

verus! {

/// Pitch of the accented click, in hertz.
pub const ACCENT_HZ: u32 = 660;

/// Pitch of an ordinary click, in hertz.
pub const REGULAR_HZ: u32 = 440;

/// Loudness of a click, in percent of full scale.
pub const TONE_AMPLITUDE_PERCENT: u8 = 20;

/// Nanoseconds per bar at one quarter note per minute (four quarter notes of 60 s).
pub const BAR_NANOS_AT_ONE_BPM: u64 = 240_000_000_000;

/// A renderable piece of sound.
#[derive(Clone, Copy, Debug, PartialEq, Eq, Structural)]
pub enum Segment {
    Tone { frequency_hz: u32, amplitude_percent: u8, nanos: u64 },
    Silence { nanos: u64 },
}

/// Duration of a segment in nanoseconds.
pub open spec fn seg_nanos(s: Segment) -> nat {
    match s {
        Segment::Tone { nanos, .. } => nanos as nat,
        Segment::Silence { nanos } => nanos as nat,
    }
}

/// Total duration of a sequence of segments.
pub open spec fn total_nanos(s: Seq<Segment>) -> nat
    decreases s.len(),
{
    if s.len() == 0 {
        0
    } else {
        total_nanos(s.drop_last()) + seg_nanos(s.last())
    }
}

/// Duration of one bar at `tempo`, in nanoseconds.
pub open spec fn bar_nanos(tempo: nat) -> nat {
    BAR_NANOS_AT_ONE_BPM as nat / tempo
}

/// Time since the bar start of a position given in quarter ticks (a quarter of a tick each),
/// rounded down to a nanosecond.
pub open spec fn quarter_tick_nanos(tempo: nat, bar_ticks: nat, q: nat) -> nat {
    q * 60_000_000_000 / (tempo * bar_ticks)
}

/// The tick at which the gap after event `i` ends: the next event, or the end of the bar.
pub open spec fn gap_end(evs: Seq<Event>, bar_ticks: nat, i: int) -> nat {
    if i + 1 < evs.len() {
        evs[i + 1].tick as nat
    } else {
        bar_ticks
    }
}

/// The gap after event `i`, in ticks.
pub open spec fn gap(evs: Seq<Event>, bar_ticks: nat, i: int) -> nat {
    (gap_end(evs, bar_ticks, i) - evs[i].tick) as nat
}

/// Where the tone of event `i` ends, in quarter ticks: three quarters into its gap.
pub open spec fn tone_end(evs: Seq<Event>, bar_ticks: nat, i: int) -> nat {
    4 * (evs[i].tick as nat) + 3 * gap(evs, bar_ticks, i)
}

/// The pitch of the click of event `e`.
pub open spec fn pitch_of(e: Event) -> u32 {
    if e.is_downbeat {
        ACCENT_HZ
    } else {
        REGULAR_HZ
    }
}

/// The tone of event `i`.
pub open spec fn tone_of(tl: Timeline, i: int) -> Segment {
    let evs = tl.events@;
    let n = |q: nat| quarter_tick_nanos(tl.tempo as nat, tl.bar_ticks as nat, q);
    Segment::Tone {
        frequency_hz: pitch_of(evs[i]),
        amplitude_percent: TONE_AMPLITUDE_PERCENT,
        nanos: (n(tone_end(evs, tl.bar_ticks as nat, i)) - n(4 * (evs[i].tick as nat))) as u64,
    }
}

/// The silence after the tone of event `i`.
pub open spec fn silence_of(tl: Timeline, i: int) -> Segment {
    let evs = tl.events@;
    let n = |q: nat| quarter_tick_nanos(tl.tempo as nat, tl.bar_ticks as nat, q);
    Segment::Silence {
        nanos: (n(4 * gap_end(evs, tl.bar_ticks as nat, i)) - n(tone_end(evs, tl.bar_ticks as nat, i))) as u64,
    }
}

/// `segs` is the rendering of one bar of `tl`: a tone and a silence for each event.
pub open spec fn rendered(tl: Timeline, segs: Seq<Segment>) -> bool {
    &&& tl.events@.len() >= 2
    &&& segs.len() == 2 * tl.events@.len()
    &&& forall|i: int| 0 <= i < tl.events@.len() ==> segs[2 * i] == tone_of(tl, i) && segs[2 * i
        + 1] == silence_of(tl, i)
}

/// The timeline starts at tick 0 and its ticks rise strictly within the bar.
pub open spec fn shape_ok(tl: Timeline) -> bool {
    &&& tl.tempo > 0
    &&& tl.bar_ticks > 0
    &&& tl.events@.len() > 0 ==> tl.events@[0].tick == 0
    &&& forall|i: int| 0 <= i < tl.events@.len() ==> tl.events@[i].tick < tl.bar_ticks
    &&& forall|i: int, k: int| 0 <= i < k < tl.events@.len() ==> tl.events@[i].tick < tl.events@[k].tick
}

proof fn lemma_nanos_monotone(tempo: nat, bar_ticks: nat, a: nat, b: nat)
    requires
        tempo > 0,
        bar_ticks > 0,
        a <= b,
    ensures
        quarter_tick_nanos(tempo, bar_ticks, a) <= quarter_tick_nanos(tempo, bar_ticks, b),
{
    assert(a * 60_000_000_000 <= b * 60_000_000_000) by (nonlinear_arith)
        requires
            a <= b,
    ;
    assert(tempo * bar_ticks > 0) by (nonlinear_arith)
        requires
            tempo > 0,
            bar_ticks > 0,
    ;
    vstd::arithmetic::div_mod::lemma_div_is_ordered(
        (a * 60_000_000_000) as int,
        (b * 60_000_000_000) as int,
        (tempo * bar_ticks) as int,
    );
}

proof fn lemma_nanos_bar(tempo: nat, bar_ticks: nat)
    requires
        tempo > 0,
        bar_ticks > 0,
    ensures
        quarter_tick_nanos(tempo, bar_ticks, 4 * bar_ticks) == bar_nanos(tempo),
        quarter_tick_nanos(tempo, bar_ticks, 0) == 0,
{
    assert((4 * bar_ticks) * 60_000_000_000 == bar_ticks * (240_000_000_000 as int))
        by (nonlinear_arith);
    assert(tempo * bar_ticks == bar_ticks * tempo) by (nonlinear_arith);
    vstd::arithmetic::div_mod::lemma_div_multiples_vanish_quotient(
        bar_ticks as int,
        240_000_000_000,
        tempo as int,
    );
    assert(0 * 60_000_000_000 == 0);
    vstd::arithmetic::div_mod::lemma_div_of0((tempo * bar_ticks) as int);
}

/// Nanoseconds from the bar start to quarter tick `q`.
fn nanos_at(tempo: u8, bar_ticks: u64, q: u128) -> (r: u64)
    requires
        tempo > 0,
        bar_ticks > 0,
        q <= 4 * (bar_ticks as nat),
    ensures
        r as nat == quarter_tick_nanos(tempo as nat, bar_ticks as nat, q as nat),
        r as nat <= bar_nanos(tempo as nat),
{
    proof {
        lemma_nanos_monotone(tempo as nat, bar_ticks as nat, q as nat, 4 * (bar_ticks as nat));
        lemma_nanos_bar(tempo as nat, bar_ticks as nat);
        assert(q * 60_000_000_000 <= 4 * 0xffff_ffff_ffff_ffffint * 60_000_000_000)
            by (nonlinear_arith)
            requires
                q <= 4 * (bar_ticks as nat),
                bar_ticks <= 0xffff_ffff_ffff_ffffint,
        ;
        assert(tempo as int * bar_ticks as int <= 255 * 0xffff_ffff_ffff_ffffint)
            by (nonlinear_arith)
            requires
                tempo <= 255,
                bar_ticks <= 0xffff_ffff_ffff_ffffint,
        ;
        assert(tempo as int * bar_ticks as int > 0) by (nonlinear_arith)
            requires
                tempo > 0,
                bar_ticks > 0,
        ;
    }
    let num: u128 = q * 60_000_000_000;
    let den: u128 = tempo as u128 * bar_ticks as u128;
    (num / den) as u64
}

/// Renders one bar of `tl` as alternating tones and silences: each event sounds for three
/// quarters of the gap to the next event (or to the end of the bar) and is silent for the
/// rest. Segment boundaries are rounded on the bar's own clock, so the bar adds up exactly.
pub fn render(tl: &Timeline) -> (r: Result<Vec<Segment>, MetronomeError>)
    requires
        shape_ok(*tl),
    ensures
        match r {
            Ok(segs) => rendered(*tl, segs@) && total_nanos(segs@) == bar_nanos(tl.tempo as nat),
            Err(MetronomeError::DegenerateTimeline) => tl.events@.len() < 2,
            Err(_) => false,
        },
{
    let n = tl.events.len();
    if n < 2 {
        return Err(MetronomeError::DegenerateTimeline);
    }
    let tempo = tl.tempo;
    let bar = tl.bar_ticks;
    let ghost evs = tl.events@;
    let mut segs: Vec<Segment> = Vec::new();
    let mut i: usize = 0;
    proof {
        lemma_nanos_bar(tempo as nat, bar as nat);
    }
    while i < n
        invariant
            shape_ok(*tl),
            evs == tl.events@,
            n == evs.len(),
            tempo == tl.tempo,
            bar == tl.bar_ticks,
            0 <= i <= n,
            segs@.len() == 2 * i,
            forall|k: int| 0 <= k < i ==> segs@[2 * k] == tone_of(*tl, k) && segs@[2 * k + 1]
                == silence_of(*tl, k),
            i < n ==> total_nanos(segs@) == quarter_tick_nanos(tempo as nat, bar as nat, 4 * (evs[i as int].tick as nat)),
            i == n ==> total_nanos(segs@) == bar_nanos(tempo as nat),
        decreases n - i,
    {
        let e = &tl.events[i];
        let start: u64 = e.tick;
        let end: u64 = if i + 1 < n {
            tl.events[i + 1].tick
        } else {
            bar
        };
        assert(end as nat == gap_end(evs, bar as nat, i as int));
        let g: u64 = end - start;
        let q0: u128 = 4 * start as u128;
        let q1: u128 = q0 + 3 * g as u128;
        let q2: u128 = 4 * end as u128;
        assert(q1 as nat == tone_end(evs, bar as nat, i as int));
        proof {
            lemma_nanos_monotone(tempo as nat, bar as nat, q0 as nat, q1 as nat);
            lemma_nanos_monotone(tempo as nat, bar as nat, q1 as nat, q2 as nat);
            lemma_nanos_bar(tempo as nat, bar as nat);
        }
        let n0 = nanos_at(tempo, bar, q0);
        let n1 = nanos_at(tempo, bar, q1);
        let n2 = nanos_at(tempo, bar, q2);
        let frequency_hz: u32 = if e.is_downbeat {
            ACCENT_HZ
        } else {
            REGULAR_HZ
        };
        let ghost before = segs@;
        segs.push(Segment::Tone { frequency_hz, amplitude_percent: TONE_AMPLITUDE_PERCENT, nanos: n1 - n0 });
        segs.push(Segment::Silence { nanos: n2 - n1 });
        proof {
            assert(segs@.drop_last().drop_last() =~= before);
            assert(total_nanos(segs@.drop_last()) == total_nanos(before) + (n1 - n0));
            assert(total_nanos(segs@) == total_nanos(segs@.drop_last()) + (n2 - n1));
            assert(total_nanos(segs@) == n2);
            assert(segs@.drop_last().last() == segs@[2 * i as int]);
            assert(segs@[2 * i as int] == tone_of(*tl, i as int));
            assert(segs@[2 * i as int + 1] == silence_of(*tl, i as int));
            assert forall|k: int| 0 <= k < i + 1 implies segs@[2 * k] == tone_of(*tl, k)
                && segs@[2 * k + 1] == silence_of(*tl, k) by {
                if k < i {
                    assert(segs@[2 * k] == before[2 * k]);
                    assert(segs@[2 * k + 1] == before[2 * k + 1]);
                }
            }
        }
        i = i + 1;
    }
    Ok(segs)
}

/// Two positions rounded down on one clock differ by less than one unit from their exact
/// difference.
proof fn lemma_floor_difference(a: nat, b: nat, tempo: nat, bar_ticks: nat)
    requires
        tempo > 0,
        bar_ticks > 0,
        a <= b,
    ensures
        ({
            let d = (tempo * bar_ticks) as int;
            let diff = quarter_tick_nanos(tempo, bar_ticks, b) as int - quarter_tick_nanos(
                tempo,
                bar_ticks,
                a,
            ) as int;
            &&& diff * d > (b - a) * 60_000_000_000 - d
            &&& diff * d < (b - a) * 60_000_000_000 + d
        }),
{
    let d = (tempo * bar_ticks) as int;
    assert(d > 0) by (nonlinear_arith)
        requires
            tempo > 0,
            bar_ticks > 0,
            d == tempo * bar_ticks,
    ;
    let x = (a * 60_000_000_000) as int;
    let y = (b * 60_000_000_000) as int;
    vstd::arithmetic::div_mod::lemma_fundamental_div_mod(x, d);
    vstd::arithmetic::div_mod::lemma_fundamental_div_mod(y, d);
    vstd::arithmetic::div_mod::lemma_mod_pos_bound(x, d);
    vstd::arithmetic::div_mod::lemma_mod_pos_bound(y, d);
    let fx = x / d;
    let fy = y / d;
    assert((fy - fx) * d == d * fy - d * fx) by (nonlinear_arith);
    assert(y - x == (b - a) * 60_000_000_000) by (nonlinear_arith)
        requires
            x == a * 60_000_000_000,
            y == b * 60_000_000_000,
    ;
}

/// Each gap is split exactly on the quarter-tick grid: the tone spans three quarters of it and
/// the silence the last quarter, and together they last from the event to the next one (or to
/// the end of the bar). In nanoseconds each lies within one nanosecond of its exact share.
pub proof fn lemma_gap_split(tl: Timeline, i: int)
    requires
        shape_ok(tl),
        0 <= i < tl.events@.len(),
    ensures
        tone_end(tl.events@, tl.bar_ticks as nat, i) - 4 * tl.events@[i].tick == 3 * gap(
            tl.events@,
            tl.bar_ticks as nat,
            i,
        ),
        4 * gap_end(tl.events@, tl.bar_ticks as nat, i) - tone_end(tl.events@, tl.bar_ticks as nat, i)
            == gap(tl.events@, tl.bar_ticks as nat, i),
        seg_nanos(tone_of(tl, i)) + seg_nanos(silence_of(tl, i)) == quarter_tick_nanos(
            tl.tempo as nat,
            tl.bar_ticks as nat,
            4 * gap_end(tl.events@, tl.bar_ticks as nat, i),
        ) - quarter_tick_nanos(tl.tempo as nat, tl.bar_ticks as nat, 4 * (tl.events@[i].tick as nat)),
        ({
            let d = (tl.tempo * tl.bar_ticks) as int;
            let g = gap(tl.events@, tl.bar_ticks as nat, i) as int;
            &&& seg_nanos(tone_of(tl, i)) * d > 3 * g * 60_000_000_000 - d
            &&& seg_nanos(tone_of(tl, i)) * d < 3 * g * 60_000_000_000 + d
            &&& seg_nanos(silence_of(tl, i)) * d > g * 60_000_000_000 - d
            &&& seg_nanos(silence_of(tl, i)) * d < g * 60_000_000_000 + d
        }),
{
    let evs = tl.events@;
    let l = tl.bar_ticks as nat;
    let t = tl.tempo as nat;
    let a = 4 * (evs[i].tick as nat);
    let b = tone_end(evs, l, i);
    let c = 4 * gap_end(evs, l, i);
    if i + 1 < evs.len() {
        assert(evs[i].tick < evs[i + 1].tick);
    }
    lemma_nanos_monotone(t, l, a, b);
    lemma_nanos_monotone(t, l, b, c);
    lemma_nanos_monotone(t, l, c, 4 * l);
    lemma_nanos_bar(t, l);
    lemma_floor_difference(a, b, t, l);
    lemma_floor_difference(b, c, t, l);
    assert(BAR_NANOS_AT_ONE_BPM as nat / t <= BAR_NANOS_AT_ONE_BPM as nat) by {
        vstd::arithmetic::div_mod::lemma_div_is_ordered_by_denominator(
            BAR_NANOS_AT_ONE_BPM as int,
            1,
            t as int,
        );
    }
}

/// The segments of `k` bars played one after another.
pub open spec fn repeat_bar(segs: Seq<Segment>, k: nat) -> Seq<Segment>
    decreases k,
{
    if k == 0 {
        Seq::empty()
    } else {
        repeat_bar(segs, (k - 1) as nat) + segs
    }
}

proof fn lemma_total_concat(a: Seq<Segment>, b: Seq<Segment>)
    ensures
        total_nanos(a + b) == total_nanos(a) + total_nanos(b),
    decreases b.len(),
{
    if b.len() == 0 {
        assert(a + b =~= a);
    } else {
        assert((a + b).drop_last() =~= a + b.drop_last());
        assert((a + b).last() == b.last());
        lemma_total_concat(a, b.drop_last());
    }
}

/// Looping a bar accumulates no drift: `k` bars last exactly `k` times one bar.
pub proof fn lemma_bars_no_drift(segs: Seq<Segment>, k: nat)
    ensures
        total_nanos(repeat_bar(segs, k)) == k * total_nanos(segs),
    decreases k,
{
    if k > 0 {
        lemma_bars_no_drift(segs, (k - 1) as nat);
        lemma_total_concat(repeat_bar(segs, (k - 1) as nat), segs);
        assert(k * total_nanos(segs) == (k - 1) * total_nanos(segs) + total_nanos(segs))
            by (nonlinear_arith)
            requires
                k > 0,
        ;
    } else {
        assert(total_nanos(repeat_bar(segs, k)) == 0);
        assert(k * total_nanos(segs) == 0) by (nonlinear_arith)
            requires
                k == 0,
        ;
    }
}

} // verus!
