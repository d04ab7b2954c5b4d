use vstd::prelude::*;

use crate::error::MetronomeError;
use crate::segment::Segment;

verus! {

/// Where the playback loop stands.
#[derive(Clone, Copy, Debug, PartialEq, Eq, Structural)]
pub enum PlaybackState {
    /// No signatures configured yet.
    Idle,
    /// Computing the bar's segments.
    Rendering,
    /// Submitting the cached bar, waiting for it to drain, and submitting it again.
    Looping,
    /// Cancelled or failed; the audio sink is released.
    Stopped,
}

/// What the playback loop reports.
#[derive(Clone, Copy, Debug, PartialEq, Eq, Structural)]
pub enum PlaybackEvent {
    /// A session was configured.
    Start,
    /// The bar's segments were computed.
    Rendered,
    /// Computing the bar failed.
    RenderFailed,
    /// The audio sink finished playing everything submitted.
    Drained,
    /// Playback was cancelled from outside.
    Cancelled,
}

/// What the playback loop must do next.
#[derive(Clone, Copy, Debug, PartialEq, Eq, Structural)]
pub enum PlaybackAction {
    /// Compute the bar's segments.
    Render,
    /// Submit the cached bar to the audio sink and wait for it to drain.
    Submit,
    /// Release the audio sink and stop.
    Release,
    /// Nothing: the event does not apply in this state.
    Ignore,
}

/// The transition table of the playback loop.
pub open spec fn transition(s: PlaybackState, e: PlaybackEvent) -> (PlaybackState, PlaybackAction) {
    match (s, e) {
        (PlaybackState::Stopped, _) => (PlaybackState::Stopped, PlaybackAction::Ignore),
        (_, PlaybackEvent::Cancelled) => (PlaybackState::Stopped, PlaybackAction::Release),
        (PlaybackState::Idle, PlaybackEvent::Start) => (
            PlaybackState::Rendering,
            PlaybackAction::Render,
        ),
        (PlaybackState::Rendering, PlaybackEvent::Rendered) => (
            PlaybackState::Looping,
            PlaybackAction::Submit,
        ),
        (PlaybackState::Rendering, PlaybackEvent::RenderFailed) => (
            PlaybackState::Stopped,
            PlaybackAction::Release,
        ),
        (PlaybackState::Looping, PlaybackEvent::Drained) => (
            PlaybackState::Looping,
            PlaybackAction::Submit,
        ),
        _ => (s, PlaybackAction::Ignore),
    }
}

/// The state reached from `s` after the events `evs`, in order.
pub open spec fn run(s: PlaybackState, evs: Seq<PlaybackEvent>) -> PlaybackState
    decreases evs.len(),
{
    if evs.len() == 0 {
        s
    } else {
        run(transition(s, evs[0]).0, evs.subrange(1, evs.len() as int))
    }
}

/// The next state and action of the playback loop after `event` in `state`.
pub fn step(state: PlaybackState, event: PlaybackEvent) -> (r: (PlaybackState, PlaybackAction))
    ensures
        r == transition(state, event),
{
    match (state, event) {
        (PlaybackState::Stopped, _) => (PlaybackState::Stopped, PlaybackAction::Ignore),
        (_, PlaybackEvent::Cancelled) => (PlaybackState::Stopped, PlaybackAction::Release),
        (PlaybackState::Idle, PlaybackEvent::Start) => (
            PlaybackState::Rendering,
            PlaybackAction::Render,
        ),
        (PlaybackState::Rendering, PlaybackEvent::Rendered) => (
            PlaybackState::Looping,
            PlaybackAction::Submit,
        ),
        (PlaybackState::Rendering, PlaybackEvent::RenderFailed) => (
            PlaybackState::Stopped,
            PlaybackAction::Release,
        ),
        (PlaybackState::Looping, PlaybackEvent::Drained) => (
            PlaybackState::Looping,
            PlaybackAction::Submit,
        ),
        _ => (state, PlaybackAction::Ignore),
    }
}

/// The event that reports the outcome of rendering a bar.
pub fn render_outcome(r: &Result<Vec<Segment>, MetronomeError>) -> (e: PlaybackEvent)
    ensures
        e == (if r is Ok {
            PlaybackEvent::Rendered
        } else {
            PlaybackEvent::RenderFailed
        }),
{
    match r {
        Ok(_) => PlaybackEvent::Rendered,
        Err(_) => PlaybackEvent::RenderFailed,
    }
}

/// The loop enters `Looping` only from a successful render; once there, only a cancellation
/// takes it out.
pub proof fn lemma_looping_needs_render(s: PlaybackState, e: PlaybackEvent)
    ensures
        transition(s, e).0 == PlaybackState::Looping && s != PlaybackState::Looping ==> s
            == PlaybackState::Rendering && e == PlaybackEvent::Rendered,
        s == PlaybackState::Looping && transition(s, e).0 != PlaybackState::Looping ==> e
            == PlaybackEvent::Cancelled,
{
}

/// Once stopped, the loop stays stopped whatever follows.
pub proof fn lemma_stopped_stays(evs: Seq<PlaybackEvent>)
    ensures
        run(PlaybackState::Stopped, evs) == PlaybackState::Stopped,
    decreases evs.len(),
{
    if evs.len() > 0 {
        lemma_stopped_stays(evs.subrange(1, evs.len() as int));
    }
}

/// A failed render stops the loop for good: it never reaches `Looping` afterwards.
pub proof fn lemma_failed_render_never_loops(
    r: Result<Vec<Segment>, MetronomeError>,
    evs: Seq<PlaybackEvent>,
)
    requires
        r is Err,
    ensures
        transition(
            PlaybackState::Rendering,
            if r is Ok {
                PlaybackEvent::Rendered
            } else {
                PlaybackEvent::RenderFailed
            },
        ) == (PlaybackState::Stopped, PlaybackAction::Release),
        run(PlaybackState::Stopped, evs) != PlaybackState::Looping,
{
    lemma_stopped_stays(evs);
}

} // verus!
