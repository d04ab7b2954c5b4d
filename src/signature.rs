use vstd::prelude::*;

verus! {

/// A time signature: `top` beats per bar, each of length `1/bottom` of a whole note.
#[derive(Clone, Copy, Debug, PartialEq, Eq, Structural)]
pub struct TimeSignature {
    pub top: u8,
    pub bottom: u8,
}

impl TimeSignature {
    pub fn new(top: u8, bottom: u8) -> (r: Self)
        ensures
            r.top == top,
            r.bottom == bottom,
    {
        Self { top, bottom }
    }

    /// Both the beat count and the beat unit are positive.
    pub open spec fn valid(self) -> bool {
        self.top > 0 && self.bottom > 0
    }
}

} // verus!
