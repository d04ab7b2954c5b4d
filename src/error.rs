use vstd::prelude::*;

verus! {

/// The fatal errors of a metronome session.
#[derive(Clone, Copy, Debug, PartialEq, Eq, Structural)]
pub enum MetronomeError {
    /// Missing input, or a zero beat count or beat unit.
    InvalidArgument,
    /// A common subdivision or a rescaled beat count does not fit its integer type.
    ArithmeticOverflow,
    /// The audio output could not be opened or drained.
    AudioDeviceError,
    /// A timeline with fewer than two events.
    DegenerateTimeline,
}

impl MetronomeError {
    /// A short description of the error.
    pub fn describe(&self) -> (r: &'static str)
        ensures
            r@ == match *self {
                MetronomeError::InvalidArgument => "invalid argument"@,
                MetronomeError::ArithmeticOverflow => "arithmetic overflow"@,
                MetronomeError::AudioDeviceError => "audio device error"@,
                MetronomeError::DegenerateTimeline => "degenerate timeline"@,
            },
    {
        match self {
            MetronomeError::InvalidArgument => "invalid argument",
            MetronomeError::ArithmeticOverflow => "arithmetic overflow",
            MetronomeError::AudioDeviceError => "audio device error",
            MetronomeError::DegenerateTimeline => "degenerate timeline",
        }
    }
}

} // verus!
