use vstd::prelude::*;

pub mod arith;
pub mod error;
pub mod grid;
pub mod metronome;
pub mod scheduler;
pub mod segment;
pub mod signature;
pub mod timeline;

verus! {

} // verus!
