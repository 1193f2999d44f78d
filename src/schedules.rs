//! Labels of the two schedules that the engine's callbacks drive.
use vstd::prelude::*;

verus! {

/// The schedule run once per rendered frame.
#[derive(Clone, Copy, Debug, PartialEq, Eq, Hash)]
pub struct Process;

/// The schedule run once per physics step.
#[derive(Clone, Copy, Debug, PartialEq, Eq, Hash)]
pub struct PhysicsProcess;

} // verus!
