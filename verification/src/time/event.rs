//! Physics events, their times and causes.

use vstd::prelude::*;

use crate::piston::{same_plan, PistonAction, PistonPlan};
use crate::world::{same_block, Block, Pos};

verus! {

#[derive(Clone, Copy, Debug, PartialEq, Eq, Structural, Hash, PartialOrd, Ord)]
pub struct EventId(pub u64);

/// Coarse scheduler phase used to order events that share a game tick. The
/// active scheduler profile supplies the phase order.
#[derive(Clone, Copy, Debug, PartialEq, Eq, Structural, Hash, PartialOrd, Ord)]
pub enum PhysicsEventPhase {
    External,
    NeighborUpdate,
    ScheduledTick,
    BlockEvent,
    BlockEntity,
    Observation,
}

impl Default for PhysicsEventPhase {
    fn default() -> (r: PhysicsEventPhase)
        ensures
            r == PhysicsEventPhase::External,
    {
        PhysicsEventPhase::External
    }
}

/// The declaration index of a phase.
pub open spec fn phase_index(p: PhysicsEventPhase) -> int {
    match p {
        PhysicsEventPhase::External => 0,
        PhysicsEventPhase::NeighborUpdate => 1,
        PhysicsEventPhase::ScheduledTick => 2,
        PhysicsEventPhase::BlockEvent => 3,
        PhysicsEventPhase::BlockEntity => 4,
        PhysicsEventPhase::Observation => 5,
    }
}

pub fn phase_ordinal(p: PhysicsEventPhase) -> (r: usize)
    ensures
        r == phase_index(p),
{
    match p {
        PhysicsEventPhase::External => 0,
        PhysicsEventPhase::NeighborUpdate => 1,
        PhysicsEventPhase::ScheduledTick => 2,
        PhysicsEventPhase::BlockEvent => 3,
        PhysicsEventPhase::BlockEntity => 4,
        PhysicsEventPhase::Observation => 5,
    }
}

#[derive(Clone, Copy, Debug, PartialEq, Eq, Structural, Hash, PartialOrd, Ord)]
pub struct PhysicsTime {
    pub game_tick: u64,
    /// Coarse event phase within `game_tick`.
    pub phase: PhysicsEventPhase,
    /// Deterministic sequence within the same game tick. Zero is valid and
    /// is not a duration.
    pub sub_tick_order: u64,
}

impl Default for PhysicsTime {
    fn default() -> (r: PhysicsTime)
        ensures
            r == (PhysicsTime { game_tick: 0, phase: PhysicsEventPhase::External, sub_tick_order: 0 }),
    {
        PhysicsTime { game_tick: 0, phase: PhysicsEventPhase::External, sub_tick_order: 0 }
    }
}

#[derive(Clone, Copy, Debug, PartialEq, Eq, Structural)]
pub enum BlockEventKind {
    PistonExtend,
    PistonRetract,
    Custom { event_type: u8, data: u8 },
}

#[allow(inconsistent_fields)]
#[derive(Clone, Debug, PartialEq, Eq)]
pub enum PhysicsEventKind {
    /// Applies a typed external redstone source edge.
    RedstoneInput { powered: bool },
    NeighborUpdate { source: Pos },
    ScheduledBlockTick,
    BlockEvent { event: BlockEventKind },
    /// Completion of a piston in its moving state; the plan is revalidated
    /// atomically when this event executes.
    PistonComplete { action: PistonAction, plan: Box<PistonPlan> },
    UserAction { action: String },
    /// An externally observed world mutation at the event's target.
    WorldChange { after: Box<Block> },
    /// A repeater's delayed output update, carrying the input state that
    /// scheduled it.
    RepeaterTick { expected_powered: bool },
}

/// The phase implied by an event kind.
pub open spec fn spec_default_phase(k: PhysicsEventKind) -> PhysicsEventPhase {
    match k {
        PhysicsEventKind::RedstoneInput { .. } => PhysicsEventPhase::External,
        PhysicsEventKind::NeighborUpdate { .. } => PhysicsEventPhase::NeighborUpdate,
        PhysicsEventKind::ScheduledBlockTick => PhysicsEventPhase::ScheduledTick,
        PhysicsEventKind::BlockEvent { .. } => PhysicsEventPhase::BlockEvent,
        PhysicsEventKind::PistonComplete { .. } => PhysicsEventPhase::BlockEntity,
        PhysicsEventKind::UserAction { .. } => PhysicsEventPhase::External,
        PhysicsEventKind::WorldChange { .. } => PhysicsEventPhase::External,
        PhysicsEventKind::RepeaterTick { .. } => PhysicsEventPhase::ScheduledTick,
    }
}

/// Two event kinds carry the same data.
pub open spec fn same_kind(a: PhysicsEventKind, b: PhysicsEventKind) -> bool {
    match (a, b) {
        (PhysicsEventKind::PistonComplete { action: x, plan: p }, PhysicsEventKind::PistonComplete {
            action: y,
            plan: q,
        }) => x == y && same_plan(*p, *q),
        (PhysicsEventKind::UserAction { action: x }, PhysicsEventKind::UserAction { action: y }) =>
            x@ == y@,
        (PhysicsEventKind::WorldChange { after: x }, PhysicsEventKind::WorldChange { after: y }) =>
            same_block(*x, *y),
        (PhysicsEventKind::PistonComplete { .. }, _) => false,
        (PhysicsEventKind::UserAction { .. }, _) => false,
        (PhysicsEventKind::WorldChange { .. }, _) => false,
        _ => a == b,
    }
}

impl PhysicsEventKind {
    /// The default scheduler phase for this event kind.
    pub fn default_phase(&self) -> (r: PhysicsEventPhase)
        ensures
            r == spec_default_phase(*self),
    {
        match self {
            PhysicsEventKind::RedstoneInput { .. } => PhysicsEventPhase::External,
            PhysicsEventKind::NeighborUpdate { .. } => PhysicsEventPhase::NeighborUpdate,
            PhysicsEventKind::ScheduledBlockTick => PhysicsEventPhase::ScheduledTick,
            PhysicsEventKind::BlockEvent { .. } => PhysicsEventPhase::BlockEvent,
            PhysicsEventKind::PistonComplete { .. } => PhysicsEventPhase::BlockEntity,
            PhysicsEventKind::UserAction { .. } => PhysicsEventPhase::External,
            PhysicsEventKind::WorldChange { .. } => PhysicsEventPhase::External,
            PhysicsEventKind::RepeaterTick { .. } => PhysicsEventPhase::ScheduledTick,
        }
    }

    /// A copy of this kind.
    pub fn copy(&self) -> (r: PhysicsEventKind)
        ensures
            same_kind(r, *self),
    {
        match self {
            PhysicsEventKind::RedstoneInput { powered } => PhysicsEventKind::RedstoneInput { powered: *powered },
            PhysicsEventKind::NeighborUpdate { source } => PhysicsEventKind::NeighborUpdate { source: *source },
            PhysicsEventKind::ScheduledBlockTick => PhysicsEventKind::ScheduledBlockTick,
            PhysicsEventKind::BlockEvent { event } => PhysicsEventKind::BlockEvent { event: *event },
            PhysicsEventKind::PistonComplete { action, plan } => PhysicsEventKind::PistonComplete {
                action: *action,
                plan: Box::new(plan.copy()),
            },
            PhysicsEventKind::UserAction { action } => PhysicsEventKind::UserAction { action: action.clone() },
            PhysicsEventKind::WorldChange { after } => PhysicsEventKind::WorldChange {
                after: Box::new(after.copy()),
            },
            PhysicsEventKind::RepeaterTick { expected_powered } => PhysicsEventKind::RepeaterTick {
                expected_powered: *expected_powered,
            },
        }
    }
}

#[derive(Clone, Copy, Debug, PartialEq, Eq, Structural)]
pub enum EventCause {
    External,
    Event { id: EventId },
}

#[derive(Clone, Debug, PartialEq, Eq)]
pub struct PhysicsEvent {
    pub id: EventId,
    pub time: PhysicsTime,
    pub target: Pos,
    pub cause: EventCause,
    pub kind: PhysicsEventKind,
}

/// Two events carry the same data.
pub open spec fn same_event(a: PhysicsEvent, b: PhysicsEvent) -> bool {
    a.id == b.id && a.time == b.time && a.target == b.target && a.cause == b.cause && same_kind(
        a.kind,
        b.kind,
    )
}

impl PhysicsEvent {
    /// A copy of this event.
    pub fn copy(&self) -> (r: PhysicsEvent)
        ensures
            same_event(r, *self),
    {
        PhysicsEvent {
            id: self.id,
            time: self.time,
            target: self.target,
            cause: self.cause,
            kind: self.kind.copy(),
        }
    }
}

/// A child event emitted by a handler, relative to its parent.
#[derive(Clone, Debug, PartialEq, Eq)]
pub struct QueuedEvent {
    /// Delay in game ticks from the parent event; zero is valid.
    pub delay_ticks: u64,
    pub target: Pos,
    /// Explicit phase for the child event.
    pub phase: PhysicsEventPhase,
    pub kind: PhysicsEventKind,
}

} // verus!
