use vstd::prelude::*;

pub mod schedule;
pub mod workspace;
pub mod args;
pub mod target;
pub mod channel;
pub mod plan;
pub mod gate;
pub mod report;

verus! {

} // verus!
