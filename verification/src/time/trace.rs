//! Coordinate-level state transitions retained for causal explanations.

use vstd::prelude::*;

use crate::delta::{BlockChange, ChangeReason, DeltaCause};
use crate::time::event::{EventId, PhysicsTime};
use crate::world::{same_block, Block, Pos};

verus! {

#[derive(Clone, Debug, PartialEq, Eq)]
pub struct StateTransition {
    pub time: PhysicsTime,
    pub position: Pos,
    pub before: Block,
    pub after: Block,
    pub cause: EventId,
    /// Coordinate-level reason retained for causal explanations.
    pub reason: ChangeReason,
    /// Shape-transition cause, when the change came from an atomic delta.
    pub delta_cause: Option<DeltaCause>,
}

impl StateTransition {
    /// The record of one change caused by an event.
    pub fn from_change(time: PhysicsTime, cause: EventId, change: &BlockChange) -> (r: StateTransition)
        ensures
            r.time == time,
            r.position == change.position,
            same_block(r.before, change.before),
            same_block(r.after, change.after),
            r.cause == cause,
            r.reason == change.reason,
            r.delta_cause is None,
    {
        StateTransition {
            time,
            position: change.position,
            before: change.before.copy(),
            after: change.after.copy(),
            cause,
            reason: change.reason,
            delta_cause: None,
        }
    }
}

} // verus!
