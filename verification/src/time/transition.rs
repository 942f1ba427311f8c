//! First-class state transitions: an ordered transition from one observed
//! state to another. Events are recorded separately because an event may
//! complete without a state change, or be rejected and stay pending.

use vstd::prelude::*;

use crate::delta::{BlockChange, BlockMove, DeltaCause, ShapeId, StateId};
use crate::time::event::{EventId, PhysicsEvent, PhysicsTime};

verus! {

/// Stable identity of one accepted state transition.
#[derive(Clone, Copy, Debug, Default, PartialEq, Eq, Structural, Hash, PartialOrd, Ord)]
pub struct TransitionId(pub u64);

/// Elapsed scheduler time between two accepted transitions.
#[derive(Clone, Debug, PartialEq, Eq)]
pub enum TransitionElapsed {
    /// The game tick did not advance.
    Zero { order_delta: u64 },
    ExactGameTicks { game_ticks: u64 },
    GameTickRange { minimum_game_ticks: u64, maximum_game_ticks: u64 },
    Unavailable { reason: String },
}

/// `a - b`, or zero when `b` is larger.
pub open spec fn sat_sub(a: u64, b: u64) -> u64 {
    if a >= b {
        (a - b) as u64
    } else {
        0u64
    }
}

impl TransitionElapsed {
    /// The elapsed time between two executed event times: the order delta
    /// within one game tick, otherwise the number of game ticks.
    pub fn between(previous: PhysicsTime, current: PhysicsTime) -> (r: TransitionElapsed)
        ensures
            previous.game_tick == current.game_tick ==> r == (TransitionElapsed::Zero {
                order_delta: sat_sub(current.sub_tick_order, previous.sub_tick_order),
            }),
            previous.game_tick != current.game_tick ==> r == (TransitionElapsed::ExactGameTicks {
                game_ticks: sat_sub(current.game_tick, previous.game_tick),
            }),
    {
        if previous.game_tick == current.game_tick {
            TransitionElapsed::Zero {
                order_delta: current.sub_tick_order.saturating_sub(previous.sub_tick_order),
            }
        } else {
            TransitionElapsed::ExactGameTicks {
                game_ticks: current.game_tick.saturating_sub(previous.game_tick),
            }
        }
    }

    pub fn is_zero(&self) -> (r: bool)
        ensures
            r == (*self is Zero),
    {
        matches!(self, TransitionElapsed::Zero { .. })
    }
}

/// Result of one event execution.
#[derive(Clone, Copy, Debug, PartialEq, Eq, Structural)]
pub enum EventExecutionStatus {
    NoTransition,
    Transition { id: TransitionId },
}

/// Completion state of an append-only execution trace.
#[derive(Clone, Debug, PartialEq, Eq)]
pub enum TraceStatus {
    /// Work is in progress, or a new engine has not been drained yet.
    InProgress,
    Complete,
    Failed { error: String },
}

/// Two statuses agree, failure messages compared by their characters.
pub open spec fn same_status(a: TraceStatus, b: TraceStatus) -> bool {
    match (a, b) {
        (TraceStatus::InProgress, TraceStatus::InProgress) => true,
        (TraceStatus::Complete, TraceStatus::Complete) => true,
        (TraceStatus::Failed { error: x }, TraceStatus::Failed { error: y }) => x@ == y@,
        _ => false,
    }
}

impl TraceStatus {
    pub fn is_complete(&self) -> (r: bool)
        ensures
            r == (*self is Complete),
    {
        matches!(self, TraceStatus::Complete)
    }

    pub fn is_failed(&self) -> (r: bool)
        ensures
            r == (*self is Failed),
    {
        matches!(self, TraceStatus::Failed { .. })
    }

    /// A copy of this status.
    pub fn copy(&self) -> (r: TraceStatus)
        ensures
            same_status(r, *self),
    {
        match self {
            TraceStatus::InProgress => TraceStatus::InProgress,
            TraceStatus::Complete => TraceStatus::Complete,
            TraceStatus::Failed { error } => TraceStatus::Failed { error: error.clone() },
        }
    }
}

impl Default for TraceStatus {
    fn default() -> (r: TraceStatus)
        ensures
            r is InProgress,
    {
        TraceStatus::InProgress
    }
}

/// An event that completed successfully.
#[derive(Clone, Debug, PartialEq, Eq)]
pub struct EventRecord {
    pub event: PhysicsEvent,
    pub status: EventExecutionStatus,
}

/// One state-changing edge in the physics transition graph.
#[derive(Clone, Debug, PartialEq, Eq)]
pub struct TransitionRecord {
    pub id: TransitionId,
    pub trigger: EventId,
    pub time: PhysicsTime,
    /// `None` for the first accepted transition of a run.
    pub elapsed_from_previous: Option<TransitionElapsed>,
    pub from_state: StateId,
    pub to_state: StateId,
    pub from_shape: ShapeId,
    pub to_shape: ShapeId,
    pub changes: Vec<BlockChange>,
    pub moves: Vec<BlockMove>,
    pub cause: Option<DeltaCause>,
}

/// Append-only transition ledger.
#[derive(Clone, Debug, PartialEq, Eq)]
pub struct TransitionTrace {
    pub records: Vec<TransitionRecord>,
    /// Whether this ledger is a complete drain or only a prefix.
    pub status: TraceStatus,
}

impl TransitionTrace {
    pub fn new() -> (r: TransitionTrace)
        ensures
            r.records@.len() == 0,
            r.status is InProgress,
    {
        TransitionTrace { records: Vec::new(), status: TraceStatus::InProgress }
    }

    pub fn len(&self) -> (r: usize)
        ensures
            r == self.records@.len(),
    {
        self.records.len()
    }

    pub fn is_empty(&self) -> (r: bool)
        ensures
            r == (self.records@.len() == 0),
    {
        self.records.len() == 0
    }

    /// The records in order.
    pub fn iter(&self) -> (r: &[TransitionRecord])
        ensures
            r@ == self.records@,
    {
        self.records.as_slice()
    }

    pub fn status(&self) -> (r: &TraceStatus)
        ensures
            *r == self.status,
    {
        &self.status
    }
}

/// Append-only record of all successfully handled events, including events
/// that did not change state.
#[derive(Clone, Debug, PartialEq, Eq)]
pub struct EventTrace {
    pub records: Vec<EventRecord>,
    pub status: TraceStatus,
}

impl EventTrace {
    pub fn new() -> (r: EventTrace)
        ensures
            r.records@.len() == 0,
            r.status is InProgress,
    {
        EventTrace { records: Vec::new(), status: TraceStatus::InProgress }
    }

    pub fn len(&self) -> (r: usize)
        ensures
            r == self.records@.len(),
    {
        self.records.len()
    }

    pub fn is_empty(&self) -> (r: bool)
        ensures
            r == (self.records@.len() == 0),
    {
        self.records.len() == 0
    }

    /// The records in order.
    pub fn iter(&self) -> (r: &[EventRecord])
        ensures
            r@ == self.records@,
    {
        self.records.as_slice()
    }

    pub fn status(&self) -> (r: &TraceStatus)
        ensures
            *r == self.status,
    {
        &self.status
    }
}

/// Return value of one transition-engine step; `transition` is `None` when
/// the event completed without changing state.
#[derive(Clone, Debug, PartialEq, Eq)]
pub struct TransitionStep {
    pub event: EventRecord,
    pub transition: Option<TransitionRecord>,
}

} // verus!
