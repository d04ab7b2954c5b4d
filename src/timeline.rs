use vstd::prelude::*;

use crate::arith::{all_positive, dvd, lcm_all, lcm_within, lemma_dvd_le, lemma_dvd_mod, lemma_lcm_all, times};
use crate::error::MetronomeError;
use crate::segment::shape_ok;
use crate::signature::TimeSignature;

verus! {

/// One onset of the bar, shared by every signature that has a beat there.
#[derive(Debug)]
pub struct Event {
    /// Position within the bar, in ticks.
    pub tick: u64,
    /// Indices of the signatures with a beat here, ascending.
    pub sources: Vec<usize>,
    /// The event opens the bar.
    pub is_downbeat: bool,
}

/// The merged onsets of one bar.
#[derive(Debug)]
pub struct Timeline {
    /// Quarter notes per minute.
    pub tempo: u8,
    /// Ticks per bar: the least common multiple of the rescaled beat counts. A bar lasts
    /// `240 / tempo` seconds, so one tick lasts `240 / (tempo * bar_ticks)` seconds.
    pub bar_ticks: u64,
    /// The events, by strictly increasing tick.
    pub events: Vec<Event>,
}

/// The beat counts of rescaled signatures.
pub open spec fn beats(rescaled: Seq<TimeSignature>) -> Seq<nat> {
    rescaled.map_values(|s: TimeSignature| s.top as nat)
}

/// Ticks per bar for rescaled signatures.
pub open spec fn bar_ticks_of(rescaled: Seq<TimeSignature>) -> nat {
    lcm_all(beats(rescaled))
}

/// Signature `j` has a beat at tick `t`: its beats split the bar into equal parts.
pub open spec fn is_onset(rescaled: Seq<TimeSignature>, j: int, t: nat) -> bool {
    &&& 0 <= j < rescaled.len()
    &&& t < bar_ticks_of(rescaled)
    &&& t % (bar_ticks_of(rescaled) / (rescaled[j].top as nat)) == 0
}

/// Some signature has a beat at tick `t`.
pub open spec fn has_onset(rescaled: Seq<TimeSignature>, t: nat) -> bool {
    exists|j: int| is_onset(rescaled, j, t)
}

/// `src` lists, ascending, exactly the signatures with a beat at tick `t`.
pub open spec fn sources_ok(rescaled: Seq<TimeSignature>, t: nat, src: Seq<usize>) -> bool {
    &&& forall|a: int, b: int| 0 <= a < b < src.len() ==> src[a] < src[b]
    &&& forall|a: int| 0 <= a < src.len() ==> is_onset(rescaled, src[a] as int, t)
    &&& forall|j: int| #[trigger] is_onset(rescaled, j, t) ==> src.contains(j as usize)
}

/// `e` is the event of the bar at its tick.
pub open spec fn event_ok(rescaled: Seq<TimeSignature>, e: Event) -> bool {
    &&& has_onset(rescaled, e.tick as nat)
    &&& sources_ok(rescaled, e.tick as nat, e.sources@)
    &&& e.is_downbeat == (e.tick == 0)
}

/// The events are exactly the onsets of the bar, by strictly increasing tick.
pub open spec fn events_ok(rescaled: Seq<TimeSignature>, evs: Seq<Event>) -> bool {
    &&& forall|i: int| 0 <= i < evs.len() ==> event_ok(rescaled, #[trigger] evs[i])
    &&& forall|i: int, k: int| 0 <= i < k < evs.len() ==> evs[i].tick < evs[k].tick
    &&& forall|t: nat| #[trigger] has_onset(rescaled, t) ==> exists|i: int|
        0 <= i < evs.len() && evs[i].tick == t
}

/// The timeline of one bar of `rescaled` at `tempo`.
pub open spec fn timeline_ok(tempo: u8, rescaled: Seq<TimeSignature>, tl: Timeline) -> bool {
    &&& tl.tempo == tempo
    &&& tl.bar_ticks as nat == bar_ticks_of(rescaled)
    &&& events_ok(rescaled, tl.events@)
}

/// Every beat count is positive.
pub open spec fn beats_valid(rescaled: Seq<TimeSignature>) -> bool {
    forall|j: int| 0 <= j < rescaled.len() ==> rescaled[j].top > 0
}

/// The next multiple of `s` after `t` lies within `(t, l]` and no multiple of `s` lies between.
proof fn lemma_next_multiple(t: nat, s: nat, l: nat)
    requires
        s > 0,
        t < l,
        l % s == 0,
    ensures
        t < (t / s + 1) * s <= l,
        ((t / s + 1) * s) % s == 0,
        forall|u: nat| t < u < (t / s + 1) * s ==> #[trigger] (u % s) != 0,
{
    let q = t / s;
    vstd::arithmetic::div_mod::lemma_fundamental_div_mod(t as int, s as int);
    vstd::arithmetic::div_mod::lemma_fundamental_div_mod(l as int, s as int);
    vstd::arithmetic::div_mod::lemma_mod_multiples_basic(q + 1 as int, s as int);
    let k = l / s;
    assert((q + 1) * s == s * q + s) by (nonlinear_arith);
    assert(t < (q + 1) * s);
    assert(q < k) by (nonlinear_arith)
        requires
            t == s * q + t % s,
            l == s * k,
            t < l,
            t % s >= 0,
            s > 0,
    ;
    assert((q + 1) * s <= l) by (nonlinear_arith)
        requires
            q < k,
            l == s * k,
            s > 0,
    ;
    assert forall|u: nat| t < u < (q + 1) * s implies #[trigger] (u % s) != 0 by {
        if u % s == 0 {
            vstd::arithmetic::div_mod::lemma_fundamental_div_mod(u as int, s as int);
            let m = u / s;
            assert(false) by (nonlinear_arith)
                requires
                    u == s * m,
                    t < u,
                    u < (q + 1) * s,
                    t == s * q + t % s,
                    t % s >= 0,
                    s > 0,
            ;
        }
    }
}

/// Merges the beats of `rescaled` signatures into one bar of events at `tempo`.
pub fn build_timeline(tempo: u8, rescaled: &Vec<TimeSignature>) -> (r: Result<
    Timeline,
    MetronomeError,
>)
    ensures
        match r {
            Ok(tl) => tempo > 0 && rescaled@.len() > 0 && beats_valid(rescaled@) && timeline_ok(
                tempo,
                rescaled@,
                tl,
            ),
            Err(MetronomeError::InvalidArgument) => tempo == 0 || rescaled@.len() == 0
                || !beats_valid(rescaled@),
            Err(MetronomeError::ArithmeticOverflow) => tempo > 0 && rescaled@.len() > 0
                && beats_valid(rescaled@) && bar_ticks_of(rescaled@) > u64::MAX,
            Err(_) => false,
        },
{
    if tempo == 0 || rescaled.len() == 0 {
        return Err(MetronomeError::InvalidArgument);
    }
    let n = rescaled.len();
    let ghost sigs = rescaled@;
    let mut counts: Vec<u64> = Vec::new();
    let mut j: usize = 0;
    while j < n
        invariant
            n == sigs.len(),
            sigs == rescaled@,
            0 <= j <= n,
            counts@.len() == j,
            forall|a: int| 0 <= a < j ==> counts@[a] == sigs[a].top as u64 && counts@[a] > 0,
        decreases n - j,
    {
        let b = rescaled[j].top;
        if b == 0 {
            return Err(MetronomeError::InvalidArgument);
        }
        counts.push(b as u64);
        j = j + 1;
    }
    assert(counts@.map_values(|v: u64| v as nat) =~= beats(sigs));
    assert forall|a: int| 0 <= a < sigs.len() implies sigs[a].top > 0 by {
        assert(counts@[a] > 0);
    }
    let l: u64 = match lcm_within(&counts, u64::MAX) {
        Some(l) => l,
        None => {
            return Err(MetronomeError::ArithmeticOverflow);
        },
    };
    proof {
        assert(all_positive(beats(sigs)));
        lemma_lcm_all(beats(sigs));
    }
    // Ticks between two beats of each signature.
    let mut steps: Vec<u64> = Vec::new();
    j = 0;
    while j < n
        invariant
            n == sigs.len(),
            sigs == rescaled@,
            counts@.len() == n,
            forall|a: int| 0 <= a < n ==> counts@[a] == sigs[a].top as u64 && counts@[a] > 0,
            l as nat == bar_ticks_of(sigs),
            l > 0,
            forall|a: int| 0 <= a < n ==> dvd(beats(sigs)[a] as int, l as int),
            0 <= j <= n,
            steps@.len() == j,
            forall|a: int| 0 <= a < j ==> steps@[a] as nat == l as nat / (sigs[a].top as nat)
                && steps@[a] > 0 && l % steps@[a] == 0,
        decreases n - j,
    {
        let b = counts[j];
        let s = l / b;
        proof {
            assert(beats(sigs)[j as int] == b as nat);
            let k = choose|k: int| times(k, b as int) == l as int;
            assert(k * b == l);
            vstd::arithmetic::div_mod::lemma_div_multiples_vanish(k, b as int);
            assert(s == k);
            assert(k > 0) by (nonlinear_arith)
                requires
                    k * b == l,
                    l > 0,
                    b > 0,
            ;
            assert(times(b as int, k) == l);
            lemma_dvd_mod(s as nat, l as nat);
        }
        steps.push(s);
        j = j + 1;
    }
    let mut events: Vec<Event> = Vec::new();
    let mut t: u64 = 0;
    assert(0nat % (steps@[0] as nat) == 0);
    assert(is_onset(sigs, 0, 0));
    while t < l
        invariant
            n == sigs.len(),
            sigs == rescaled@,
            l as nat == bar_ticks_of(sigs),
            l > 0,
            steps@.len() == n,
            forall|a: int| 0 <= a < n ==> steps@[a] as nat == l as nat / (sigs[a].top as nat)
                && steps@[a] > 0 && l % steps@[a] == 0,
            t <= l,
            t < l ==> has_onset(sigs, t as nat),
            events@.len() > 0 ==> events@.last().tick < t,
            forall|i: int| 0 <= i < events@.len() ==> event_ok(sigs, #[trigger] events@[i]),
            forall|i: int| 0 <= i < events@.len() ==> events@[i].tick < t,
            forall|i: int, k: int| 0 <= i < k < events@.len() ==> events@[i].tick < events@[k].tick,
            forall|u: nat| u < t && #[trigger] has_onset(sigs, u) ==> exists|i: int|
                0 <= i < events@.len() && events@[i].tick == u,
        decreases l - t,
    {
        let mut sources: Vec<usize> = Vec::new();
        let mut next: u64 = l;
        j = 0;
        while j < n
            invariant
                n == sigs.len(),
                l as nat == bar_ticks_of(sigs),
                steps@.len() == n,
                forall|a: int| 0 <= a < n ==> steps@[a] as nat == l as nat / (sigs[a].top as nat)
                    && steps@[a] > 0 && l % steps@[a] == 0,
                t < l,
                0 <= j <= n,
                t < next <= l,
                next < l ==> has_onset(sigs, next as nat),
                forall|u: nat, a: int| t < u < next && 0 <= a < j ==> !#[trigger] is_onset(sigs, a, u),
                forall|a: int, b: int| 0 <= a < b < sources@.len() ==> sources@[a] < sources@[b],
                forall|a: int| 0 <= a < sources@.len() ==> sources@[a] < j && is_onset(sigs, sources@[a] as int, t as nat),
                forall|a: int| 0 <= a < j && #[trigger] is_onset(sigs, a, t as nat) ==> sources@.contains(a as usize),
            decreases n - j,
        {
            let s = steps[j];
            if t % s == 0 {
                proof {
                    assert(is_onset(sigs, j as int, t as nat));
                }
                let ghost old_src = sources@;
                sources.push(j);
                proof {
                    assert(sources@.last() == j);
                    assert forall|a: int| 0 <= a < j + 1 && #[trigger] is_onset(sigs, a, t as nat) implies sources@.contains(a as usize) by {
                        if a < j {
                            assert(old_src.contains(a as usize));
                            let w = choose|w: int| 0 <= w < old_src.len() && old_src[w] == a as usize;
                            assert(sources@[w] == a as usize);
                        } else {
                            assert(sources@[sources@.len() - 1] == a as usize);
                        }
                    }
                }
            } else {
                proof {
                    assert(!is_onset(sigs, j as int, t as nat));
                }
            }
            proof {
                lemma_next_multiple(t as nat, s as nat, l as nat);
            }
            let cand: u64 = (t / s + 1) * s;
            if cand < next {
                proof {
                    assert(is_onset(sigs, j as int, cand as nat));
                }
                next = cand;
            }
            proof {
                assert forall|u: nat, a: int| t < u < next && 0 <= a < j + 1 implies !#[trigger] is_onset(sigs, a, u) by {
                    if a == j {
                        assert((u % (s as nat)) != 0);
                    }
                }
            }
            j = j + 1;
        }
        let ghost old_events = events@;
        let ev = Event { tick: t, sources, is_downbeat: t == 0 };
        proof {
            assert forall|j2: int| #[trigger] is_onset(sigs, j2, t as nat) implies ev.sources@.contains(j2 as usize) by {
                assert(0 <= j2 < n);
            }
            assert(event_ok(sigs, ev));
        }
        events.push(ev);
        proof {
            assert forall|u: nat| u < next && #[trigger] has_onset(sigs, u) implies exists|i: int|
                0 <= i < events@.len() && events@[i].tick == u by {
                if u < t {
                    let i = choose|i: int| 0 <= i < old_events.len() && old_events[i].tick == u;
                    assert(events@[i] == old_events[i]);
                } else if u == t {
                    assert(events@[events@.len() - 1].tick == u);
                } else {
                    let a = choose|a: int| is_onset(sigs, a, u);
                    assert(!is_onset(sigs, a, u));
                }
            }
            assert forall|i: int| 0 <= i < events@.len() implies event_ok(sigs, #[trigger] events@[i]) by {
                if i < old_events.len() {
                    assert(events@[i] == old_events[i]);
                }
            }
        }
        t = next;
    }
    proof {
        assert forall|u: nat| #[trigger] has_onset(sigs, u) implies exists|i: int|
            0 <= i < events@.len() && events@[i].tick == u by {
            let a = choose|a: int| is_onset(sigs, a, u);
            assert(u < t);
        }
    }
    Ok(Timeline { tempo, bar_ticks: l, events })
}

/// The elements rise strictly.
pub open spec fn increasing(a: Seq<int>) -> bool {
    forall|i: int, k: int| 0 <= i < k < a.len() ==> a[i] < a[k]
}

/// Two strictly rising sequences with the same elements are equal.
pub proof fn lemma_increasing_unique(a: Seq<int>, b: Seq<int>)
    requires
        increasing(a),
        increasing(b),
        forall|x: int| a.contains(x) <==> b.contains(x),
    ensures
        a == b,
    decreases a.len(),
{
    if a.len() == 0 {
        if b.len() > 0 {
            assert(b.contains(b[0]));
        }
        assert(a =~= b);
    } else {
        assert(a.contains(a[0]));
        assert(b.len() > 0);
        assert(b.contains(b[0]));
        let ia = choose|k: int| 0 <= k < a.len() && a[k] == b[0];
        let ib = choose|k: int| 0 <= k < b.len() && b[k] == a[0];
        assert(a[0] == b[0]);
        let ta = a.subrange(1, a.len() as int);
        let tb = b.subrange(1, b.len() as int);
        assert forall|x: int| ta.contains(x) implies tb.contains(x) by {
            let k = choose|k: int| 0 <= k < ta.len() && ta[k] == x;
            assert(a[k + 1] == x);
            assert(b.contains(x));
            let m = choose|m: int| 0 <= m < b.len() && b[m] == x;
            assert(m != 0);
            assert(tb[m - 1] == x);
        }
        assert forall|x: int| tb.contains(x) implies ta.contains(x) by {
            let k = choose|k: int| 0 <= k < tb.len() && tb[k] == x;
            assert(b[k + 1] == x);
            assert(a.contains(x));
            let m = choose|m: int| 0 <= m < a.len() && a[m] == x;
            assert(m != 0);
            assert(ta[m - 1] == x);
        }
        lemma_increasing_unique(ta, tb);
        assert(a =~= b) by {
            assert forall|k: int| 0 <= k < a.len() implies a[k] == b[k] by {
                if k > 0 {
                    assert(ta[k - 1] == tb[k - 1]);
                }
            }
        }
    }
}

/// The ticks of a sequence of events.
pub open spec fn ticks(evs: Seq<Event>) -> Seq<int> {
    evs.map_values(|e: Event| e.tick as int)
}

/// The sources of an event, as integers.
pub open spec fn source_ints(e: Event) -> Seq<int> {
    e.sources@.map_values(|j: usize| j as int)
}

/// Building the timeline is deterministic: any two timelines that satisfy the builder's
/// contract for the same tempo and signatures have the same ticks, sources and accents.
pub proof fn lemma_timeline_deterministic(
    tempo: u8,
    rescaled: Seq<TimeSignature>,
    a: Timeline,
    b: Timeline,
)
    requires
        timeline_ok(tempo, rescaled, a),
        timeline_ok(tempo, rescaled, b),
    ensures
        a.tempo == b.tempo,
        a.bar_ticks == b.bar_ticks,
        a.events@.len() == b.events@.len(),
        forall|i: int| 0 <= i < a.events@.len() ==> {
            &&& (#[trigger] a.events@[i]).tick == b.events@[i].tick
            &&& a.events@[i].sources@ == b.events@[i].sources@
            &&& a.events@[i].is_downbeat == b.events@[i].is_downbeat
        },
{
    let ea = a.events@;
    let eb = b.events@;
    assert forall|x: int| ticks(ea).contains(x) implies ticks(eb).contains(x) by {
        let k = choose|k: int| 0 <= k < ticks(ea).len() && ticks(ea)[k] == x;
        assert(event_ok(rescaled, ea[k]));
        assert(has_onset(rescaled, ea[k].tick as nat));
        let m = choose|m: int| 0 <= m < eb.len() && eb[m].tick == ea[k].tick as nat;
        assert(ticks(eb)[m] == x);
    }
    assert forall|x: int| ticks(eb).contains(x) implies ticks(ea).contains(x) by {
        let k = choose|k: int| 0 <= k < ticks(eb).len() && ticks(eb)[k] == x;
        assert(event_ok(rescaled, eb[k]));
        assert(has_onset(rescaled, eb[k].tick as nat));
        let m = choose|m: int| 0 <= m < ea.len() && ea[m].tick == eb[k].tick as nat;
        assert(ticks(ea)[m] == x);
    }
    lemma_increasing_unique(ticks(ea), ticks(eb));
    assert(ea.len() == ticks(ea).len() && eb.len() == ticks(eb).len());
    assert forall|i: int| 0 <= i < ea.len() implies {
        &&& (#[trigger] ea[i]).tick == eb[i].tick
        &&& ea[i].sources@ == eb[i].sources@
        &&& ea[i].is_downbeat == eb[i].is_downbeat
    } by {
        assert(ticks(ea)[i] == ticks(eb)[i]);
        assert(ea[i].tick == eb[i].tick);
        assert(event_ok(rescaled, ea[i]));
        assert(event_ok(rescaled, eb[i]));
        let t = ea[i].tick as nat;
        let sa = ea[i].sources@;
        let sb = eb[i].sources@;
        assert forall|x: int| source_ints(ea[i]).contains(x) implies source_ints(eb[i]).contains(x) by {
            let k = choose|k: int| 0 <= k < sa.len() && source_ints(ea[i])[k] == x;
            assert(is_onset(rescaled, sa[k] as int, t));
            assert(sb.contains(sa[k]));
            let m = choose|m: int| 0 <= m < sb.len() && sb[m] == sa[k];
            assert(source_ints(eb[i])[m] == x);
        }
        assert forall|x: int| source_ints(eb[i]).contains(x) implies source_ints(ea[i]).contains(x) by {
            let k = choose|k: int| 0 <= k < sb.len() && source_ints(eb[i])[k] == x;
            assert(is_onset(rescaled, sb[k] as int, t));
            assert(sa.contains(sb[k]));
            let m = choose|m: int| 0 <= m < sa.len() && sa[m] == sb[k];
            assert(source_ints(ea[i])[m] == x);
        }
        lemma_increasing_unique(source_ints(ea[i]), source_ints(eb[i]));
        assert(sa =~= sb) by {
            assert forall|k: int| 0 <= k < sa.len() implies sa[k] == sb[k] by {
                assert(source_ints(ea[i])[k] == source_ints(eb[i])[k]);
            }
        }
    }
}

/// A built timeline starts at tick 0, and its ticks rise strictly within the bar.
pub proof fn lemma_timeline_shape(tempo: u8, rescaled: Seq<TimeSignature>, tl: Timeline)
    requires
        tempo > 0,
        rescaled.len() > 0,
        beats_valid(rescaled),
        timeline_ok(tempo, rescaled, tl),
    ensures
        shape_ok(tl),
{
    lemma_all_onset_at_zero(rescaled);
    assert(is_onset(rescaled, 0, 0));
    assert(has_onset(rescaled, 0));
    let evs = tl.events@;
    if evs.len() > 0 {
        let k = choose|k: int| 0 <= k < evs.len() && evs[k].tick == 0;
        if k > 0 {
            assert(evs[0].tick < evs[k].tick);
        }
    }
    assert forall|i: int| 0 <= i < evs.len() implies evs[i].tick < tl.bar_ticks by {
        assert(event_ok(rescaled, evs[i]));
        let j = choose|j: int| is_onset(rescaled, j, evs[i].tick as nat);
    }
}

/// Every signature has a beat at tick 0.
proof fn lemma_all_onset_at_zero(rescaled: Seq<TimeSignature>)
    requires
        beats_valid(rescaled),
    ensures
        forall|j: int| 0 <= j < rescaled.len() ==> #[trigger] is_onset(rescaled, j, 0),
{
    let b = beats(rescaled);
    assert(all_positive(b));
    lemma_lcm_all(b);
    let l = bar_ticks_of(rescaled);
    assert forall|j: int| 0 <= j < rescaled.len() implies #[trigger] is_onset(rescaled, j, 0) by {
        assert(dvd(b[j] as int, l as int));
        lemma_dvd_le(b[j] as int, l as int);
        let x = l / (rescaled[j].top as nat);
        assert(x > 0) by {
            if x == 0 {
                vstd::arithmetic::div_mod::lemma_fundamental_div_mod(l as int, b[j] as int);
                vstd::arithmetic::div_mod::lemma_mod_pos_bound(l as int, b[j] as int);
            }
        }
        vstd::arithmetic::div_mod::lemma_small_mod(0, x);
    }
}

/// The bar opens with one downbeat event at tick 0 that every signature shares.
pub proof fn lemma_downbeat_shared(tempo: u8, rescaled: Seq<TimeSignature>, tl: Timeline)
    requires
        tempo > 0,
        rescaled.len() > 0,
        beats_valid(rescaled),
        timeline_ok(tempo, rescaled, tl),
    ensures
        tl.events@.len() > 0,
        tl.events@[0].tick == 0,
        tl.events@[0].is_downbeat,
        forall|j: usize| j < rescaled.len() ==> #[trigger] tl.events@[0].sources@.contains(j),
        forall|i: int| 1 <= i < tl.events@.len() ==> !tl.events@[i].is_downbeat,
{
    lemma_timeline_shape(tempo, rescaled, tl);
    lemma_all_onset_at_zero(rescaled);
    assert(is_onset(rescaled, 0, 0));
    assert(has_onset(rescaled, 0));
    let evs = tl.events@;
    assert(event_ok(rescaled, evs[0]));
    assert forall|j: usize| j < rescaled.len() implies #[trigger] evs[0].sources@.contains(j) by {
        assert(is_onset(rescaled, j as int, 0));
    }
    assert forall|i: int| 1 <= i < evs.len() implies !evs[i].is_downbeat by {
        assert(event_ok(rescaled, evs[i]));
        assert(evs[0].tick < evs[i].tick);
    }
}

} // verus!
