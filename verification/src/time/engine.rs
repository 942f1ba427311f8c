//! The event-driven physics engine: a queue of timed events, a world, and
//! ledgers of accepted events and state transitions. One step pops the next
//! event, asks a handler for its outcome and applies it atomically; a
//! rejected event goes back to the queue with the scheduler state it had.

use vstd::prelude::*;

use crate::delta::{
    applied_world, delta_check, spec_shape_id, spec_state_id, BlockChange, BlockMove,
    ChangeReason, DeltaCause, Region, ShapeId, StateId, WorldDelta, WorldDeltaError,
};
use crate::piston::{
    default_piston_motion_profile, PistonAction, PistonError, PistonMotionProfile,
    PistonMotionProfileError,
};
use crate::redstone::RedstonePropagationError;
use crate::time::builtin::{builtin_outcome, builtin_result, handles, handles_kind, RunnerMode};
use crate::time::event::{
    same_event, same_kind, BlockEventKind, EventCause, EventId, PhysicsEvent, PhysicsEventKind,
    PhysicsEventPhase, PhysicsTime, QueuedEvent,
};
use crate::time::queue::{
    front_position, is_next, next_index_of, order_lookup, stored, PhysicsEventQueue, QueuePopCheckpoint,
};
use crate::time::scheduler::{profile_problem, spec_tick_after, SchedulerProfile, SchedulerProfileError, ZeroDelayPolicy};
use crate::time::trace::StateTransition;
use crate::time::transition::{
    EventExecutionStatus, EventRecord, EventTrace, TraceStatus, TransitionElapsed,
    TransitionId, TransitionRecord, TransitionStep, TransitionTrace,
};
use crate::world::{is_fresh_block, same_block, Block, BlockKind, Pos, World};

verus! {

/// Default guard for zero-delay event chains, separate from the total event
/// budget.
pub const DEFAULT_MAX_MICROSTEPS_PER_GAME_TICK: usize = 4096;

/// A coordinate-level event output: the block a position holds afterwards.
#[derive(Clone, Debug, PartialEq, Eq)]
pub struct WorldChange {
    pub position: Pos,
    pub after: Block,
}

/// What a handler returns for one event.
#[derive(Clone, Debug, PartialEq, Eq)]
pub struct EventOutcome {
    /// Per-position output of handlers without a geometry transition.
    pub changes: Vec<WorldChange>,
    /// An all-or-nothing transition with before-state checks.
    pub delta: Option<WorldDelta>,
    pub queued: Vec<QueuedEvent>,
}

impl EventOutcome {
    /// An outcome that changes nothing and queues nothing.
    pub fn none() -> (r: EventOutcome)
        ensures
            r.changes@.len() == 0,
            r.delta is None,
            r.queued@.len() == 0,
    {
        EventOutcome { changes: Vec::new(), delta: None, queued: Vec::new() }
    }
}

impl Default for EventOutcome {
    fn default() -> (r: EventOutcome)
        ensures
            r.changes@.len() == 0,
            r.delta is None,
            r.queued@.len() == 0,
    {
        EventOutcome::none()
    }
}

#[allow(inconsistent_fields)]
#[derive(Clone, Debug, PartialEq, Eq)]
pub enum PhysicsEngineError {
    EventLimitExceeded { limit: usize, processed: usize, next_time: Option<PhysicsTime> },
    MicrostepLimitExceeded {
        game_tick: u64,
        limit: usize,
        processed: usize,
        next_time: Option<PhysicsTime>,
    },
    UnsupportedEvent { time: PhysicsTime, kind: PhysicsEventKind },
    /// An event cannot run in a phase that already passed in its game tick.
    CausalOrderViolation { parent: PhysicsTime, child_phase: PhysicsEventPhase },
    InvalidPistonMotionProfile(PistonMotionProfileError),
    Piston(Box<PistonError>),
    Redstone(Box<RedstonePropagationError>),
    WorldDelta(Box<WorldDeltaError>),
    /// The handler returned both a delta and changes, or duplicate changes.
    InvalidOutcome,
    InvalidSchedulerProfile(SchedulerProfileError),
}

/// The trace has failed and records the message of `e`.
pub open spec fn fails_with(status: TraceStatus, e: PhysicsEngineError) -> bool {
    status matches TraceStatus::Failed { error } && error@ == crate::messages::engine_error_text(e)
}

/// A causal record of a geometry transition.
#[derive(Clone, Debug, PartialEq, Eq)]
pub struct ShapeTransition {
    pub time: PhysicsTime,
    pub cause: EventId,
    pub from: ShapeId,
    pub to: ShapeId,
    pub delta: WorldDelta,
}

/// A pending event without its ids, for history-independent comparison.
#[derive(Clone, Debug, PartialEq, Eq)]
pub struct PendingEventKey {
    pub time: PhysicsTime,
    pub target: Pos,
    pub kind: PhysicsEventKind,
}

impl PendingEventKey {
    /// The key of a pending event.
    pub fn from_event(event: &PhysicsEvent) -> (r: PendingEventKey)
        ensures
            r.time == event.time,
            r.target == event.target,
            crate::time::event::same_kind(r.kind, event.kind),
    {
        PendingEventKey { time: event.time, target: event.target, kind: event.kind.copy() }
    }
}

/// A history-independent execution comparison key: the world's state
/// identity, the logical time, the pending work in execution order, the
/// insertion counters of current and future ticks, and the policies.
#[derive(Clone, Debug, PartialEq, Eq)]
pub struct ExecutionStateKey {
    pub world: StateId,
    pub current_time: PhysicsTime,
    pub pending_events: Vec<PendingEventKey>,
    pub next_sub_tick_orders: Vec<(u64, u64)>,
    pub scheduler_profile: SchedulerProfile,
    pub piston_motion_profile: PistonMotionProfile,
    pub piston_planning_region: Option<Region>,
}

// ---------------------------------------------------------------------------
// Copies of ledger entries.
// ---------------------------------------------------------------------------

fn copy_changes(changes: &Vec<BlockChange>) -> (r: Vec<BlockChange>)
    ensures
        crate::delta::same_changes(r@, changes@),
{
    let mut out: Vec<BlockChange> = Vec::new();
    let n = changes.len();
    let mut i: usize = 0;
    while i < n
        invariant
            n == changes@.len(),
            i <= n,
            out@.len() == i,
            forall|j: int|
                0 <= j < i ==> {
                    &&& (#[trigger] out@[j]).position == changes@[j].position
                    &&& same_block(out@[j].before, changes@[j].before)
                    &&& same_block(out@[j].after, changes@[j].after)
                    &&& out@[j].reason == changes@[j].reason
                },
        decreases n - i,
    {
        out.push(changes[i].clone());
        i = i + 1;
    }
    out
}

/// Two elapsed-time records hold the same data.
pub open spec fn same_elapsed(a: TransitionElapsed, b: TransitionElapsed) -> bool {
    match (a, b) {
        (TransitionElapsed::Unavailable { reason: x }, TransitionElapsed::Unavailable { reason: y }) => x@ == y@,
        (TransitionElapsed::Unavailable { .. }, _) => false,
        (_, TransitionElapsed::Unavailable { .. }) => false,
        _ => a == b,
    }
}

impl TransitionElapsed {
    /// A copy holding the same data.
    pub fn copy(&self) -> (r: TransitionElapsed)
        ensures
            same_elapsed(r, *self),
    {
        match self {
            TransitionElapsed::Zero { order_delta } => TransitionElapsed::Zero { order_delta: *order_delta },
            TransitionElapsed::ExactGameTicks { game_ticks } => TransitionElapsed::ExactGameTicks { game_ticks: *game_ticks },
            TransitionElapsed::GameTickRange { minimum_game_ticks, maximum_game_ticks } => TransitionElapsed::GameTickRange {
                minimum_game_ticks: *minimum_game_ticks,
                maximum_game_ticks: *maximum_game_ticks,
            },
            TransitionElapsed::Unavailable { reason } => TransitionElapsed::Unavailable { reason: reason.clone() },
        }
    }
}

impl TransitionRecord {
    /// A copy of this record.
    pub fn copy(&self) -> (r: TransitionRecord)
        ensures
            r.id == self.id,
            r.trigger == self.trigger,
            r.time == self.time,
            r.from_state == self.from_state,
            r.to_state == self.to_state,
            r.from_shape == self.from_shape,
            r.to_shape == self.to_shape,
            crate::delta::same_changes(r.changes@, self.changes@),
            crate::delta::same_moves(r.moves@, self.moves@),
            r.cause == self.cause,
            match (r.elapsed_from_previous, self.elapsed_from_previous) {
                (Some(x), Some(y)) => same_elapsed(x, y),
                (None, None) => true,
                _ => false,
            },
    {
        TransitionRecord {
            id: self.id,
            trigger: self.trigger,
            time: self.time,
            elapsed_from_previous: match &self.elapsed_from_previous {
                Some(e) => Some(e.copy()),
                None => None,
            },
            from_state: self.from_state,
            to_state: self.to_state,
            from_shape: self.from_shape,
            to_shape: self.to_shape,
            changes: copy_changes(&self.changes),
            moves: crate::delta::copy_moves(&self.moves),
            cause: self.cause,
        }
    }
}

impl EventRecord {
    /// A copy of this record.
    pub fn copy(&self) -> (r: EventRecord)
        ensures
            same_event(r.event, self.event),
            r.status == self.status,
    {
        EventRecord { event: self.event.copy(), status: self.status }
    }
}

impl StateTransition {
    /// A copy of this record.
    pub fn copy(&self) -> (r: StateTransition)
        ensures
            r.time == self.time,
            r.position == self.position,
            same_block(r.before, self.before),
            same_block(r.after, self.after),
            r.cause == self.cause,
            r.reason == self.reason,
            r.delta_cause == self.delta_cause,
    {
        StateTransition {
            time: self.time,
            position: self.position,
            before: self.before.copy(),
            after: self.after.copy(),
            cause: self.cause,
            reason: self.reason,
            delta_cause: self.delta_cause,
        }
    }
}

impl ShapeTransition {
    /// A copy of this record.
    pub fn copy(&self) -> (r: ShapeTransition)
        ensures
            r.time == self.time,
            r.cause == self.cause,
            r.from == self.from,
            r.to == self.to,
            crate::delta::same_delta(r.delta, self.delta),
    {
        ShapeTransition {
            time: self.time,
            cause: self.cause,
            from: self.from,
            to: self.to,
            delta: self.delta.copy(),
        }
    }
}

impl TransitionTrace {
    /// A copy of this ledger.
    pub fn copy(&self) -> (r: TransitionTrace)
        ensures
            same_transitions(r.records@, self.records@),
            crate::time::transition::same_status(r.status, self.status),
    {
        let mut records: Vec<TransitionRecord> = Vec::new();
        let n = self.records.len();
        let mut i: usize = 0;
        while i < n
            invariant
                n == self.records@.len(),
                i <= n,
                records@.len() == i,
                forall|j: int| 0 <= j < i ==> same_transition(#[trigger] records@[j], self.records@[j]),
            decreases n - i,
        {
            records.push(self.records[i].copy());
            i = i + 1;
        }
        TransitionTrace { records, status: self.status.copy() }
    }
}

impl EventTrace {
    /// A copy of this ledger.
    pub fn copy(&self) -> (r: EventTrace)
        ensures
            r.records@.len() == self.records@.len(),
            forall|i: int| 0 <= i < r.records@.len() ==> same_event((#[trigger] r.records@[i]).event, self.records@[i].event)
                && r.records@[i].status == self.records@[i].status,
            crate::time::transition::same_status(r.status, self.status),
    {
        let mut records: Vec<EventRecord> = Vec::new();
        let n = self.records.len();
        let mut i: usize = 0;
        while i < n
            invariant
                n == self.records@.len(),
                i <= n,
                records@.len() == i,
                forall|j: int| 0 <= j < i ==> same_event((#[trigger] records@[j]).event, self.records@[j].event)
                    && records@[j].status == self.records@[j].status,
            decreases n - i,
        {
            records.push(self.records[i].copy());
            i = i + 1;
        }
        EventTrace { records, status: self.status.copy() }
    }
}

/// Two coordinate records hold the same data.
pub open spec fn same_state_record(a: StateTransition, b: StateTransition) -> bool {
    &&& a.time == b.time
    &&& a.position == b.position
    &&& same_block(a.before, b.before)
    &&& same_block(a.after, b.after)
    &&& a.cause == b.cause
    &&& a.reason == b.reason
    &&& a.delta_cause == b.delta_cause
}

/// Two shape records hold the same data.
pub open spec fn same_shape_record(a: ShapeTransition, b: ShapeTransition) -> bool {
    &&& a.time == b.time
    &&& a.cause == b.cause
    &&& a.from == b.from
    &&& a.to == b.to
    &&& crate::delta::same_delta(a.delta, b.delta)
}

/// Two coordinate traces hold the same records in order.
pub open spec fn same_state_trace(a: Seq<StateTransition>, b: Seq<StateTransition>) -> bool {
    a.len() == b.len() && forall|i: int| 0 <= i < a.len() ==> same_state_record(#[trigger] a[i], b[i])
}

/// Two shape traces hold the same records in order.
pub open spec fn same_shape_trace(a: Seq<ShapeTransition>, b: Seq<ShapeTransition>) -> bool {
    a.len() == b.len() && forall|i: int| 0 <= i < a.len() ==> same_shape_record(#[trigger] a[i], b[i])
}

/// Two transition ledgers hold the same records in order.
pub open spec fn same_transitions(a: Seq<TransitionRecord>, b: Seq<TransitionRecord>) -> bool {
    a.len() == b.len() && forall|i: int| 0 <= i < a.len() ==> same_transition(#[trigger] a[i], b[i])
}

/// Two event ledgers hold the same records in order.
pub open spec fn same_event_records(a: Seq<EventRecord>, b: Seq<EventRecord>) -> bool {
    a.len() == b.len() && forall|i: int|
        0 <= i < a.len() ==> same_event((#[trigger] a[i]).event, b[i].event) && a[i].status == b[i].status
}

fn copy_state_trace(v: &Vec<StateTransition>) -> (r: Vec<StateTransition>)
    ensures
        same_state_trace(r@, v@),
{
    let mut out: Vec<StateTransition> = Vec::new();
    let n = v.len();
    let mut i: usize = 0;
    while i < n
        invariant
            n == v@.len(),
            i <= n,
            out@.len() == i,
            forall|j: int| 0 <= j < i ==> same_state_record(#[trigger] out@[j], v@[j]),
        decreases n - i,
    {
        out.push(v[i].copy());
        i = i + 1;
    }
    out
}

fn copy_shape_trace(v: &Vec<ShapeTransition>) -> (r: Vec<ShapeTransition>)
    ensures
        same_shape_trace(r@, v@),
{
    let mut out: Vec<ShapeTransition> = Vec::new();
    let n = v.len();
    let mut i: usize = 0;
    while i < n
        invariant
            n == v@.len(),
            i <= n,
            out@.len() == i,
            forall|j: int| 0 <= j < i ==> same_shape_record(#[trigger] out@[j], v@[j]),
        decreases n - i,
    {
        out.push(v[i].copy());
        i = i + 1;
    }
    out
}

/// The later of two ticks.
pub open spec fn tick_max(a: u64, b: u64) -> u64 {
    if a > b {
        a
    } else {
        b
    }
}

/// Two worlds hold the same positions with the same block data.
pub open spec fn same_world(a: World, b: World) -> bool {
    a@.len() == b@.len() && forall|i: int|
        0 <= i < a@.len() ==> (#[trigger] a@[i]).0 == b@[i].0 && same_block(a@[i].1, b@[i].1)
}

proof fn lemma_same_changes_trans(a: Seq<BlockChange>, b: Seq<BlockChange>, c: Seq<BlockChange>)
    requires
        crate::delta::same_changes(a, b),
        crate::delta::same_changes(b, c),
    ensures
        crate::delta::same_changes(a, c),
{
    assert forall|i: int| 0 <= i < a.len() implies same_block(a[i].before, c[i].before) && same_block(a[i].after, c[i].after) by {
        crate::world::lemma_same_block_trans(a[i].before, b[i].before, c[i].before);
        crate::world::lemma_same_block_trans(a[i].after, b[i].after, c[i].after);
    }
}

proof fn lemma_same_moves_trans(a: Seq<BlockMove>, b: Seq<BlockMove>, c: Seq<BlockMove>)
    requires
        crate::delta::same_moves(a, b),
        crate::delta::same_moves(b, c),
    ensures
        crate::delta::same_moves(a, c),
{
    assert forall|i: int| 0 <= i < a.len() implies same_block(a[i].block, c[i].block) by {
        crate::world::lemma_same_block_trans(a[i].block, b[i].block, c[i].block);
    }
}

proof fn lemma_same_delta_trans(a: WorldDelta, b: WorldDelta, c: WorldDelta)
    requires
        crate::delta::same_delta(a, b),
        crate::delta::same_delta(b, c),
    ensures
        crate::delta::same_delta(a, c),
{
    lemma_same_changes_trans(a.changes@, b.changes@, c.changes@);
    lemma_same_moves_trans(a.moves@, b.moves@, c.moves@);
}

/// Copies of an event kind agree with each other.
proof fn lemma_same_kind_full_trans(a: PhysicsEventKind, b: PhysicsEventKind, c: PhysicsEventKind)
    requires
        crate::time::event::same_kind(a, b),
        crate::time::event::same_kind(b, c),
    ensures
        crate::time::event::same_kind(a, c),
{
    match (a, b, c) {
        (PhysicsEventKind::WorldChange { after: x }, PhysicsEventKind::WorldChange { after: y }, PhysicsEventKind::WorldChange {
            after: z,
        }) => {
            crate::world::lemma_same_block_trans(*x, *y, *z);
        },
        (
            PhysicsEventKind::PistonComplete { action: _, plan: x },
            PhysicsEventKind::PistonComplete { action: _, plan: y },
            PhysicsEventKind::PistonComplete { action: _, plan: z },
        ) => {
            lemma_same_moves_trans(x.moved@, y.moved@, z.moved@);
            crate::world::lemma_same_block_trans(x.piston_before, y.piston_before, z.piston_before);
            crate::world::lemma_same_block_trans(x.piston_after, y.piston_after, z.piston_after);
            lemma_same_delta_trans(x.delta, y.delta, z.delta);
            if let (Some(dx), Some(dy), Some(dz)) = (x.moving_delta, y.moving_delta, z.moving_delta) {
                lemma_same_delta_trans(dx, dy, dz);
            }
        },
        _ => {},
    }
}

proof fn lemma_same_world_sym(a: World, b: World)
    requires
        same_world(a, b),
    ensures
        same_world(b, a),
{
    assert forall|i: int| 0 <= i < b@.len() implies same_block(b@[i].1, a@[i].1) by {
        crate::world::lemma_same_block_sym(a@[i].1, b@[i].1);
    }
}

proof fn lemma_same_world_trans(a: World, b: World, c: World)
    requires
        same_world(a, b),
        same_world(b, c),
    ensures
        same_world(a, c),
{
    assert forall|i: int| 0 <= i < a@.len() implies same_block(a@[i].1, c@[i].1) by {
        crate::world::lemma_same_block_trans(a@[i].1, b@[i].1, c@[i].1);
    }
}

// ---------------------------------------------------------------------------
// The engine.
// ---------------------------------------------------------------------------

#[derive(Debug, PartialEq, Eq)]
pub struct PhysicsEngine {
    world: World,
    queue: PhysicsEventQueue,
    trace: Vec<StateTransition>,
    shape_transitions: Vec<ShapeTransition>,
    transition_trace: TransitionTrace,
    event_trace: EventTrace,
    next_transition_id: u64,
    last_transition_time: Option<PhysicsTime>,
    current_time: PhysicsTime,
    max_events: usize,
    processed_events: usize,
    max_microsteps_per_game_tick: usize,
    microsteps_this_game_tick: usize,
    scheduler_profile: SchedulerProfile,
    piston_motion_profile: PistonMotionProfile,
    piston_planning_region: Option<Region>,
}

/// A complete in-memory execution snapshot of a `PhysicsEngine`.
#[derive(Debug, PartialEq, Eq)]
pub struct ExecutionCheckpoint {
    world: World,
    queue: PhysicsEventQueue,
    trace: Vec<StateTransition>,
    shape_transitions: Vec<ShapeTransition>,
    transition_trace: TransitionTrace,
    event_trace: EventTrace,
    next_transition_id: u64,
    last_transition_time: Option<PhysicsTime>,
    current_time: PhysicsTime,
    max_events: usize,
    processed_events: usize,
    max_microsteps_per_game_tick: usize,
    microsteps_this_game_tick: usize,
    scheduler_profile: SchedulerProfile,
    piston_motion_profile: PistonMotionProfile,
    piston_planning_region: Option<Region>,
}

impl PhysicsEngine {
    /// The engine's world is well formed; every engine built by this module
    /// keeps it so.
    pub closed spec fn wf(&self) -> bool {
        self.world.wf()
    }

    /// The current world.
    pub closed spec fn world_view(&self) -> World {
        self.world
    }

    /// The pending events in storage order.
    pub closed spec fn pending(&self) -> Seq<PhysicsEvent> {
        self.queue.pending()
    }

    /// The next insertion counter of each game tick.
    pub closed spec fn orders(&self) -> Seq<(u64, u64)> {
        self.queue.orders()
    }

    pub closed spec fn now(&self) -> PhysicsTime {
        self.current_time
    }

    pub closed spec fn processed(&self) -> usize {
        self.processed_events
    }

    pub closed spec fn event_limit(&self) -> usize {
        self.max_events
    }

    pub closed spec fn microstep_limit(&self) -> usize {
        self.max_microsteps_per_game_tick
    }

    pub closed spec fn profile(&self) -> SchedulerProfile {
        self.scheduler_profile
    }

    pub closed spec fn motion(&self) -> PistonMotionProfile {
        self.piston_motion_profile
    }

    pub closed spec fn region(&self) -> Option<Region> {
        self.piston_planning_region
    }

    pub closed spec fn event_records(&self) -> Seq<EventRecord> {
        self.event_trace.records@
    }

    pub closed spec fn transition_records(&self) -> Seq<TransitionRecord> {
        self.transition_trace.records@
    }

    pub closed spec fn status(&self) -> TraceStatus {
        self.transition_trace.status
    }

    /// The id the next scheduled event receives.
    pub closed spec fn next_event_id(&self) -> u64 {
        self.queue.next_id()
    }

    /// The id the next recorded transition receives.
    pub closed spec fn next_transition(&self) -> u64 {
        self.next_transition_id
    }

    /// The time of the last recorded transition, if any.
    pub closed spec fn last_transition_at(&self) -> Option<PhysicsTime> {
        self.last_transition_time
    }

    /// One record per changed coordinate of every accepted transition.
    pub closed spec fn state_trace(&self) -> Seq<StateTransition> {
        self.trace@
    }

    pub closed spec fn shape_trace(&self) -> Seq<ShapeTransition> {
        self.shape_transitions@
    }

    /// An engine over `world` that accepts at most `max_events` events.
    pub fn new(world: World, max_events: usize) -> (r: PhysicsEngine)
        requires
            world.wf(),
        ensures
            r.wf(),
            r.world_view() == world,
            r.pending().len() == 0,
            r.orders().len() == 0,
            r.now() == (PhysicsTime { game_tick: 0, phase: PhysicsEventPhase::External, sub_tick_order: 0 }),
            r.processed() == 0,
            r.event_limit() == max_events,
            r.microstep_limit() == DEFAULT_MAX_MICROSTEPS_PER_GAME_TICK,
            r.profile().order() == crate::time::scheduler::all_phases(),
            r.profile().zero_delay == crate::time::scheduler::ZeroDelayPolicy::SameGameTickNextOrder,
            r.profile().id == crate::time::scheduler::SchedulerProfileId::DustRouteDeterministicV1,
            r.profile().same_phase_order == crate::time::scheduler::SamePhaseOrder::Insertion,
            r.profile().evidence == crate::time::scheduler::SchedulerEvidence::Modelled,
            r.motion() == crate::piston::spec_default_profile(),
            r.region() is None,
            r.event_records().len() == 0,
            r.transition_records().len() == 0,
            r.state_trace().len() == 0,
            r.shape_trace().len() == 0,
            r.next_event_id() == 0,
            r.microsteps() == 0,
            r.status() is InProgress,
    {
        PhysicsEngine {
            world,
            queue: PhysicsEventQueue::new(),
            trace: Vec::new(),
            shape_transitions: Vec::new(),
            transition_trace: TransitionTrace::new(),
            event_trace: EventTrace::new(),
            next_transition_id: 0,
            last_transition_time: None,
            current_time: PhysicsTime { game_tick: 0, phase: PhysicsEventPhase::External, sub_tick_order: 0 },
            max_events,
            processed_events: 0,
            max_microsteps_per_game_tick: DEFAULT_MAX_MICROSTEPS_PER_GAME_TICK,
            microsteps_this_game_tick: 0,
            scheduler_profile: SchedulerProfile::dustroute_deterministic(),
            piston_motion_profile: default_piston_motion_profile(),
            piston_planning_region: None,
        }
    }

    /// Captures all mutable engine state needed to resume an execution.
    pub fn checkpoint(&self) -> (r: ExecutionCheckpoint)
        requires
            self.wf(),
        ensures
            same_world(r.view_world(), self.world_view()),
            r.pending().len() == self.pending().len(),
            forall|k: int| 0 <= k < r.pending().len() ==> same_event(#[trigger] r.pending()[k], self.pending()[k]),
            r.orders() == self.orders(),
            r.at() == self.now(),
            r.processed() == self.processed(),
            r.profile() == self.profile(),
            r.motion() == self.motion(),
            r.region() == self.region(),
            r.event_records().len() == self.event_records().len(),
            r.limit() == self.event_limit(),
            r.microsteps() == self.microstep_limit(),
            records_engine(r, *self),
    {
        ExecutionCheckpoint {
            world: self.world.copy(),
            queue: self.queue.copy(),
            trace: copy_state_trace(&self.trace),
            shape_transitions: copy_shape_trace(&self.shape_transitions),
            transition_trace: self.transition_trace.copy(),
            event_trace: self.event_trace.copy(),
            next_transition_id: self.next_transition_id,
            last_transition_time: self.last_transition_time,
            current_time: self.current_time,
            max_events: self.max_events,
            processed_events: self.processed_events,
            max_microsteps_per_game_tick: self.max_microsteps_per_game_tick,
            microsteps_this_game_tick: self.microsteps_this_game_tick,
            scheduler_profile: self.scheduler_profile,
            piston_motion_profile: self.piston_motion_profile,
            piston_planning_region: self.piston_planning_region,
        }
    }

    /// Restores a checkpoint: every field that determines the next step
    /// takes the checkpoint's value.
    pub fn restore(&mut self, checkpoint: &ExecutionCheckpoint)
        ensures
            final(self).wf(),
            same_world(final(self).world_view(), checkpoint.view_world()),
            final(self).pending().len() == checkpoint.pending().len(),
            forall|k: int| 0 <= k < final(self).pending().len() ==> same_event(#[trigger] final(self).pending()[k], checkpoint.pending()[k]),
            final(self).orders() == checkpoint.orders(),
            final(self).now() == checkpoint.at(),
            final(self).processed() == checkpoint.processed(),
            final(self).profile() == checkpoint.profile(),
            final(self).motion() == checkpoint.motion(),
            final(self).region() == checkpoint.region(),
            final(self).event_limit() == checkpoint.limit(),
            final(self).microstep_limit() == checkpoint.microsteps(),
            restored_from(*final(self), *checkpoint),
    {
        proof {
            use_type_invariant(checkpoint);
        }
        self.world = checkpoint.world.copy();
        self.queue = checkpoint.queue.copy();
        self.trace = copy_state_trace(&checkpoint.trace);
        self.shape_transitions = copy_shape_trace(&checkpoint.shape_transitions);
        self.transition_trace = checkpoint.transition_trace.copy();
        self.event_trace = checkpoint.event_trace.copy();
        self.next_transition_id = checkpoint.next_transition_id;
        self.last_transition_time = checkpoint.last_transition_time;
        self.current_time = checkpoint.current_time;
        self.max_events = checkpoint.max_events;
        self.processed_events = checkpoint.processed_events;
        self.max_microsteps_per_game_tick = checkpoint.max_microsteps_per_game_tick;
        self.microsteps_this_game_tick = checkpoint.microsteps_this_game_tick;
        self.scheduler_profile = checkpoint.scheduler_profile;
        self.piston_motion_profile = checkpoint.piston_motion_profile;
        self.piston_planning_region = checkpoint.piston_planning_region;
    }
}

impl ExecutionCheckpoint {
    #[verifier::type_invariant]
    closed spec fn inv(&self) -> bool {
        self.world.wf()
    }

    pub closed spec fn view_world(&self) -> World {
        self.world
    }

    pub closed spec fn pending(&self) -> Seq<PhysicsEvent> {
        self.queue.pending()
    }

    pub closed spec fn orders(&self) -> Seq<(u64, u64)> {
        self.queue.orders()
    }

    pub closed spec fn at(&self) -> PhysicsTime {
        self.current_time
    }

    pub closed spec fn limit(&self) -> usize {
        self.max_events
    }

    pub closed spec fn microsteps(&self) -> usize {
        self.max_microsteps_per_game_tick
    }

    pub closed spec fn transitions(&self) -> Seq<TransitionRecord> {
        self.transition_trace.records@
    }

    pub closed spec fn processed(&self) -> usize {
        self.processed_events
    }

    pub closed spec fn profile(&self) -> SchedulerProfile {
        self.scheduler_profile
    }

    pub closed spec fn motion(&self) -> PistonMotionProfile {
        self.piston_motion_profile
    }

    pub closed spec fn region(&self) -> Option<Region> {
        self.piston_planning_region
    }

    pub closed spec fn event_records(&self) -> Seq<EventRecord> {
        self.event_trace.records@
    }

    pub closed spec fn state_trace(&self) -> Seq<StateTransition> {
        self.trace@
    }

    pub closed spec fn shape_trace(&self) -> Seq<ShapeTransition> {
        self.shape_transitions@
    }

    /// The id the next transition receives.
    pub closed spec fn next_transition(&self) -> u64 {
        self.next_transition_id
    }

    /// The time of the last recorded transition.
    pub closed spec fn last_transition_at(&self) -> Option<PhysicsTime> {
        self.last_transition_time
    }

    /// Events run so far in the current game tick.
    pub closed spec fn tick_microsteps(&self) -> usize {
        self.microsteps_this_game_tick
    }

    pub closed spec fn status(&self) -> TraceStatus {
        self.transition_trace.status
    }
}

/// `c` records the engine `e`: the same world data, the same pending
/// events in order, and the same counters, time, count, policies and
/// limits.
pub open spec fn records_engine(c: ExecutionCheckpoint, e: PhysicsEngine) -> bool {
    &&& same_world(c.view_world(), e.world_view())
    &&& c.pending().len() == e.pending().len()
    &&& forall|k: int| 0 <= k < c.pending().len() ==> same_event(#[trigger] c.pending()[k], e.pending()[k])
    &&& c.orders() == e.orders()
    &&& c.at() == e.now()
    &&& c.processed() == e.processed()
    &&& c.profile() == e.profile()
    &&& c.motion() == e.motion()
    &&& c.region() == e.region()
    &&& c.limit() == e.event_limit()
    &&& c.microsteps() == e.microstep_limit()
    &&& same_event_records(c.event_records(), e.event_records())
    &&& same_transitions(c.transitions(), e.transition_records())
    &&& same_state_trace(c.state_trace(), e.state_trace())
    &&& same_shape_trace(c.shape_trace(), e.shape_trace())
    &&& c.next_transition() == e.next_transition()
    &&& c.last_transition_at() == e.last_transition_at()
    &&& c.tick_microsteps() == e.microsteps()
    &&& crate::time::transition::same_status(c.status(), e.status())
}

/// The engine `e` was restored from `c`: every field that determines the
/// next step takes the checkpoint's value.
pub open spec fn restored_from(e: PhysicsEngine, c: ExecutionCheckpoint) -> bool {
    &&& same_world(e.world_view(), c.view_world())
    &&& e.pending().len() == c.pending().len()
    &&& forall|k: int| 0 <= k < e.pending().len() ==> same_event(#[trigger] e.pending()[k], c.pending()[k])
    &&& e.orders() == c.orders()
    &&& e.now() == c.at()
    &&& e.processed() == c.processed()
    &&& e.profile() == c.profile()
    &&& e.motion() == c.motion()
    &&& e.region() == c.region()
    &&& e.event_limit() == c.limit()
    &&& e.microstep_limit() == c.microsteps()
    &&& same_event_records(e.event_records(), c.event_records())
    &&& same_transitions(e.transition_records(), c.transitions())
    &&& same_state_trace(e.state_trace(), c.state_trace())
    &&& same_shape_trace(e.shape_trace(), c.shape_trace())
    &&& e.next_transition() == c.next_transition()
    &&& e.last_transition_at() == c.last_transition_at()
    &&& e.microsteps() == c.tick_microsteps()
    &&& crate::time::transition::same_status(e.status(), c.status())
}

/// Two checkpoints record the same execution.
pub open spec fn same_checkpoint(a: ExecutionCheckpoint, b: ExecutionCheckpoint) -> bool {
    &&& same_world(a.view_world(), b.view_world())
    &&& a.pending().len() == b.pending().len()
    &&& forall|k: int| 0 <= k < a.pending().len() ==> same_event(#[trigger] a.pending()[k], b.pending()[k])
    &&& a.orders() == b.orders()
    &&& a.at() == b.at()
    &&& a.processed() == b.processed()
    &&& a.profile() == b.profile()
    &&& a.motion() == b.motion()
    &&& a.region() == b.region()
    &&& a.limit() == b.limit()
    &&& a.microsteps() == b.microsteps()
    &&& same_event_records(a.event_records(), b.event_records())
    &&& same_transitions(a.transitions(), b.transitions())
    &&& same_state_trace(a.state_trace(), b.state_trace())
    &&& same_shape_trace(a.shape_trace(), b.shape_trace())
    &&& a.next_transition() == b.next_transition()
    &&& a.last_transition_at() == b.last_transition_at()
    &&& a.tick_microsteps() == b.tick_microsteps()
    &&& crate::time::transition::same_status(a.status(), b.status())
}

/// Restoring a checkpoint and capturing a new one gives back the saved
/// checkpoint: the same world data, pending events, counters, time, count,
/// policies, limits, ledgers, traces and trace status.
pub proof fn law_restore_then_checkpoint(saved: ExecutionCheckpoint, e: PhysicsEngine, again: ExecutionCheckpoint)
    requires
        restored_from(e, saved),
        records_engine(again, e),
    ensures
        same_checkpoint(again, saved),
{
    lemma_same_world_trans(again.view_world(), e.world_view(), saved.view_world());
    assert forall|k: int| 0 <= k < again.pending().len() implies same_event(#[trigger] again.pending()[k], saved.pending()[k]) by {
        assert(same_event(again.pending()[k], e.pending()[k]));
        assert(same_event(e.pending()[k], saved.pending()[k]));
        lemma_same_kind_full_trans(again.pending()[k].kind, e.pending()[k].kind, saved.pending()[k].kind);
    }
    lemma_same_event_records_trans(again.event_records(), e.event_records(), saved.event_records());
    lemma_same_transitions_trans(again.transitions(), e.transition_records(), saved.transitions());
    lemma_same_state_trace_trans(again.state_trace(), e.state_trace(), saved.state_trace());
    lemma_same_shape_trace_trans(again.shape_trace(), e.shape_trace(), saved.shape_trace());
}

proof fn lemma_same_event_records_trans(a: Seq<EventRecord>, b: Seq<EventRecord>, c: Seq<EventRecord>)
    requires
        same_event_records(a, b),
        same_event_records(b, c),
    ensures
        same_event_records(a, c),
{
    assert forall|i: int| 0 <= i < a.len() implies same_event((#[trigger] a[i]).event, c[i].event) by {
        assert(same_event(a[i].event, b[i].event));
        lemma_same_kind_full_trans(a[i].event.kind, b[i].event.kind, c[i].event.kind);
    }
}

proof fn lemma_same_transitions_trans(a: Seq<TransitionRecord>, b: Seq<TransitionRecord>, c: Seq<TransitionRecord>)
    requires
        same_transitions(a, b),
        same_transitions(b, c),
    ensures
        same_transitions(a, c),
{
    assert forall|i: int| 0 <= i < a.len() implies same_transition(#[trigger] a[i], c[i]) by {
        assert(same_transition(a[i], b[i]));
        assert(same_transition(b[i], c[i]));
        lemma_same_changes_trans(a[i].changes@, b[i].changes@, c[i].changes@);
        lemma_same_moves_trans(a[i].moves@, b[i].moves@, c[i].moves@);
    }
}

proof fn lemma_same_state_trace_trans(a: Seq<StateTransition>, b: Seq<StateTransition>, c: Seq<StateTransition>)
    requires
        same_state_trace(a, b),
        same_state_trace(b, c),
    ensures
        same_state_trace(a, c),
{
    assert forall|i: int| 0 <= i < a.len() implies same_state_record(#[trigger] a[i], c[i]) by {
        assert(same_state_record(a[i], b[i]));
        assert(same_state_record(b[i], c[i]));
        crate::world::lemma_same_block_trans(a[i].before, b[i].before, c[i].before);
        crate::world::lemma_same_block_trans(a[i].after, b[i].after, c[i].after);
    }
}

proof fn lemma_same_shape_trace_trans(a: Seq<ShapeTransition>, b: Seq<ShapeTransition>, c: Seq<ShapeTransition>)
    requires
        same_shape_trace(a, b),
        same_shape_trace(b, c),
    ensures
        same_shape_trace(a, c),
{
    assert forall|i: int| 0 <= i < a.len() implies same_shape_record(#[trigger] a[i], c[i]) by {
        assert(same_shape_record(a[i], b[i]));
        assert(same_shape_record(b[i], c[i]));
        lemma_same_delta_trans(a[i].delta, b[i].delta, c[i].delta);
    }
}

/// `r` is the key of a state with `world`, the `pending` events in storage
/// order, the tick counters `orders`, the time `now` and the given policies:
/// the world's state identity, the time, the pending events' times, targets
/// and kinds in execution order, the counters of the current and later
/// ticks (kept sorted by tick), and the policies.
pub open spec fn key_of(
    world: World,
    pending: Seq<PhysicsEvent>,
    orders: Seq<(u64, u64)>,
    now: PhysicsTime,
    profile: SchedulerProfile,
    motion: PistonMotionProfile,
    region: Option<Region>,
    r: ExecutionStateKey,
) -> bool {
    &&& r.world == spec_state_id(world)
    &&& r.current_time == now
    &&& r.pending_events@.len() == pending.len()
    &&& forall|k: int|
        0 <= k < r.pending_events@.len() ==> {
            let e = pending[crate::time::queue::listing(profile.order(), pending, pending.len())[k]];
            &&& (#[trigger] r.pending_events@[k]).time == e.time
            &&& r.pending_events@[k].target == e.target
            &&& crate::time::event::same_kind(r.pending_events@[k].kind, e.kind)
        }
    &&& crate::time::queue::orders_sorted(orders)
    &&& exists|k: int|
        0 <= k <= orders.len() && r.next_sub_tick_orders@ == orders.subrange(k, orders.len() as int)
            && (forall|j: int| 0 <= j < k ==> (#[trigger] orders[j]).0 < now.game_tick)
            && (forall|j: int| k <= j < orders.len() ==> (#[trigger] orders[j]).0 >= now.game_tick)
    &&& r.scheduler_profile == profile
    &&& r.piston_motion_profile == motion
    &&& r.piston_planning_region == region
}

/// `r` is the execution key of engine `e`.
pub open spec fn engine_key(e: PhysicsEngine, r: ExecutionStateKey) -> bool {
    key_of(e.world_view(), e.pending(), e.orders(), e.now(), e.profile(), e.motion(), e.region(), r)
}

/// `r` is the key of checkpoint `c`.
pub open spec fn checkpoint_key(c: ExecutionCheckpoint, r: ExecutionStateKey) -> bool {
    key_of(c.view_world(), c.pending(), c.orders(), c.at(), c.profile(), c.motion(), c.region(), r)
}

/// Two keys hold the same values, so `==` holds between them: the same
/// state identity, time, pending times, targets and kinds, counters and
/// policies.
pub open spec fn same_key(a: ExecutionStateKey, b: ExecutionStateKey) -> bool {
    &&& a.world == b.world
    &&& a.current_time == b.current_time
    &&& a.pending_events@.len() == b.pending_events@.len()
    &&& forall|k: int|
        0 <= k < a.pending_events@.len() ==> {
            &&& (#[trigger] a.pending_events@[k]).time == b.pending_events@[k].time
            &&& a.pending_events@[k].target == b.pending_events@[k].target
            &&& crate::time::event::same_kind(a.pending_events@[k].kind, b.pending_events@[k].kind)
        }
    &&& a.next_sub_tick_orders@ == b.next_sub_tick_orders@
    &&& a.scheduler_profile == b.scheduler_profile
    &&& a.piston_motion_profile == b.piston_motion_profile
    &&& a.piston_planning_region == b.piston_planning_region
}

proof fn lemma_future_orders_unique(orders: Seq<(u64, u64)>, tick: u64, k1: int, k2: int)
    requires
        0 <= k1 <= orders.len(),
        0 <= k2 <= orders.len(),
        forall|j: int| 0 <= j < k1 ==> (#[trigger] orders[j]).0 < tick,
        forall|j: int| k1 <= j < orders.len() ==> (#[trigger] orders[j]).0 >= tick,
        forall|j: int| 0 <= j < k2 ==> (#[trigger] orders[j]).0 < tick,
        forall|j: int| k2 <= j < orders.len() ==> (#[trigger] orders[j]).0 >= tick,
    ensures
        k1 == k2,
{
    if k1 < k2 {
        assert(orders[k1].0 < tick);
    } else if k2 < k1 {
        assert(orders[k2].0 < tick);
    }
}

proof fn lemma_same_moves_sym(a: Seq<BlockMove>, b: Seq<BlockMove>)
    requires
        crate::delta::same_moves(a, b),
    ensures
        crate::delta::same_moves(b, a),
{
    assert forall|i: int| 0 <= i < b.len() implies same_block(b[i].block, a[i].block) by {
        crate::world::lemma_same_block_sym(a[i].block, b[i].block);
    }
}

proof fn lemma_same_delta_sym(a: WorldDelta, b: WorldDelta)
    requires
        crate::delta::same_delta(a, b),
    ensures
        crate::delta::same_delta(b, a),
{
    let (x, y) = (a.changes@, b.changes@);
    assert forall|i: int| 0 <= i < y.len() implies same_block(y[i].before, x[i].before) && same_block(y[i].after, x[i].after) by {
        crate::world::lemma_same_block_sym(x[i].before, y[i].before);
        crate::world::lemma_same_block_sym(x[i].after, y[i].after);
    }
    lemma_same_moves_sym(a.moves@, b.moves@);
}

/// Copies of an event kind agree in both directions.
proof fn lemma_same_kind_sym(a: PhysicsEventKind, b: PhysicsEventKind)
    requires
        crate::time::event::same_kind(a, b),
    ensures
        crate::time::event::same_kind(b, a),
{
    match (a, b) {
        (PhysicsEventKind::WorldChange { after: x }, PhysicsEventKind::WorldChange { after: y }) => {
            crate::world::lemma_same_block_sym(*x, *y);
        },
        (PhysicsEventKind::PistonComplete { action: _, plan: x }, PhysicsEventKind::PistonComplete { action: _, plan: y }) => {
            lemma_same_moves_sym(x.moved@, y.moved@);
            crate::world::lemma_same_block_sym(x.piston_before, y.piston_before);
            crate::world::lemma_same_block_sym(x.piston_after, y.piston_after);
            lemma_same_delta_sym(x.delta, y.delta);
            if let (Some(dx), Some(dy)) = (x.moving_delta, y.moving_delta) {
                lemma_same_delta_sym(dx, dy);
            }
        },
        _ => {},
    }
}

/// Keys of two states with the same world data, pending events that agree
/// one for one, the same counters, time and policies are the same.
proof fn lemma_key_of_same(
    w1: World,
    p1: Seq<PhysicsEvent>,
    w2: World,
    p2: Seq<PhysicsEvent>,
    orders: Seq<(u64, u64)>,
    now: PhysicsTime,
    profile: SchedulerProfile,
    motion: PistonMotionProfile,
    region: Option<Region>,
    a: ExecutionStateKey,
    b: ExecutionStateKey,
)
    requires
        w1 == w2 || same_world(w1, w2),
        p1.len() == p2.len(),
        forall|i: int| 0 <= i < p1.len() ==> #[trigger] p1[i] == p2[i] || same_event(p1[i], p2[i]),
        key_of(w1, p1, orders, now, profile, motion, region, a),
        key_of(w2, p2, orders, now, profile, motion, region, b),
    ensures
        same_key(a, b),
{
    if w1 != w2 {
        crate::delta::lemma_same_entries_state_id(w1, w2);
    }
    assert forall|i: int| 0 <= i < p1.len() implies (#[trigger] p1[i]).time == p2[i].time by {
        assert(p1[i] == p2[i] || same_event(p1[i], p2[i]));
    }
    crate::time::queue::lemma_listing_times(profile.order(), p1, p2, p1.len());
    crate::time::queue::lemma_listing_bounds(profile.order(), p1, p1.len());
    let ls = crate::time::queue::listing(profile.order(), p1, p1.len());
    assert forall|k: int| 0 <= k < a.pending_events@.len() implies {
        &&& (#[trigger] a.pending_events@[k]).time == b.pending_events@[k].time
        &&& a.pending_events@[k].target == b.pending_events@[k].target
        &&& crate::time::event::same_kind(a.pending_events@[k].kind, b.pending_events@[k].kind)
    } by {
        let i = ls[k];
        assert(0 <= i < p1.len());
        assert(p1[i] == p2[i] || same_event(p1[i], p2[i]));
        let ka = a.pending_events@[k].kind;
        let kb = b.pending_events@[k].kind;
        if p1[i] != p2[i] {
            lemma_same_kind_full_trans(ka, p1[i].kind, p2[i].kind);
        }
        lemma_same_kind_sym(kb, p2[i].kind);
        lemma_same_kind_full_trans(ka, p2[i].kind, kb);
    }
    let k1 = choose|k: int|
        0 <= k <= orders.len() && a.next_sub_tick_orders@ == orders.subrange(k, orders.len() as int)
            && (forall|j: int| 0 <= j < k ==> (#[trigger] orders[j]).0 < now.game_tick)
            && (forall|j: int| k <= j < orders.len() ==> (#[trigger] orders[j]).0 >= now.game_tick);
    let k2 = choose|k: int|
        0 <= k <= orders.len() && b.next_sub_tick_orders@ == orders.subrange(k, orders.len() as int)
            && (forall|j: int| 0 <= j < k ==> (#[trigger] orders[j]).0 < now.game_tick)
            && (forall|j: int| k <= j < orders.len() ==> (#[trigger] orders[j]).0 >= now.game_tick);
    lemma_future_orders_unique(orders, now.game_tick, k1, k2);
}

/// A checkpoint's key is the key of the engine it was captured from.
pub proof fn law_checkpoint_key(e: PhysicsEngine, c: ExecutionCheckpoint, kc: ExecutionStateKey, ke: ExecutionStateKey)
    requires
        records_engine(c, e),
        checkpoint_key(c, kc),
        engine_key(e, ke),
    ensures
        same_key(kc, ke),
{
    lemma_key_of_same(
        c.view_world(),
        c.pending(),
        e.world_view(),
        e.pending(),
        c.orders(),
        c.at(),
        c.profile(),
        c.motion(),
        c.region(),
        kc,
        ke,
    );
}

/// Two engines that agree on everything that determines the next step have
/// the same execution key; so a rejected step or schedule, which leaves
/// that unchanged, keeps the key.
pub proof fn law_same_execution_key(a: PhysicsEngine, b: PhysicsEngine, ka: ExecutionStateKey, kb: ExecutionStateKey)
    requires
        same_execution(a, b),
        engine_key(a, ka),
        engine_key(b, kb),
    ensures
        same_key(ka, kb),
{
    reveal(same_orders);
    crate::time::queue::lemma_orders_canonical(a.orders(), b.orders());
    lemma_key_of_same(
        a.world_view(),
        a.pending(),
        b.world_view(),
        b.pending(),
        a.orders(),
        a.now(),
        a.profile(),
        a.motion(),
        a.region(),
        ka,
        kb,
    );
}

fn state_key_of(
    world: &World,
    queue: &PhysicsEventQueue,
    current_time: PhysicsTime,
    scheduler_profile: SchedulerProfile,
    piston_motion_profile: PistonMotionProfile,
    piston_planning_region: Option<Region>,
) -> (r: ExecutionStateKey)
    requires
        world.wf(),
    ensures
        key_of(
            *world,
            queue.pending(),
            queue.orders(),
            current_time,
            scheduler_profile,
            piston_motion_profile,
            piston_planning_region,
            r,
        ),
{
    let mut events = queue.ordered_events(&scheduler_profile);
    let ghost all = events@;
    let mut keys: Vec<PendingEventKey> = Vec::new();
    let n = events.len();
    let mut i: usize = 0;
    while i < n
        invariant
            n == all.len(),
            i <= n,
            keys@.len() == i,
            events@ == all.subrange(i as int, n as int),
            forall|k: int| 0 <= k < i ==> (#[trigger] keys@[k]).time == all[k].time && keys@[k].target == all[k].target
                && keys@[k].kind == all[k].kind,
        decreases n - i,
    {
        let e = events.remove(0);
        proof {
            assert(events@ =~= all.subrange(i + 1, n as int));
        }
        let PhysicsEvent { id: _, time, target, cause: _, kind } = e;
        keys.push(PendingEventKey { time, target, kind });
        i = i + 1;
    }
    ExecutionStateKey {
        world: world.state_id(),
        current_time,
        pending_events: keys,
        next_sub_tick_orders: queue.next_sub_tick_orders_from(current_time.game_tick),
        scheduler_profile,
        piston_motion_profile,
        piston_planning_region,
    }
}

impl ExecutionCheckpoint {
    pub fn time(&self) -> (r: PhysicsTime)
        ensures
            r == self.at(),
    {
        self.current_time
    }

    pub fn world(&self) -> (r: &World)
        ensures
            *r == self.view_world(),
            r.wf(),
    {
        proof {
            use_type_invariant(self);
        }
        &self.world
    }

    pub fn state_id(&self) -> (r: StateId)
        ensures
            r == spec_state_id(self.view_world()),
    {
        proof {
            use_type_invariant(self);
        }
        self.world.state_id()
    }

    pub fn shape_id(&self) -> (r: ShapeId)
        ensures
            r == spec_shape_id(self.view_world()),
    {
        proof {
            use_type_invariant(self);
        }
        self.world.shape_id()
    }

    pub fn pending_event_count(&self) -> (r: usize)
        ensures
            r == self.pending().len(),
    {
        self.queue.len()
    }

    /// Copies of the pending events in execution order; ids are preserved.
    pub fn pending_events(&self) -> (r: Vec<PhysicsEvent>)
        ensures
            r@.len() == self.pending().len(),
            forall|k: int|
                0 <= k < r@.len() ==> same_event(
                    #[trigger] r@[k],
                    self.pending()[crate::time::queue::listing(self.profile().order(), self.pending(), self.pending().len())[k]],
                ),
    {
        self.queue.ordered_events(&self.scheduler_profile)
    }

    pub fn processed_events(&self) -> (r: usize)
        ensures
            r == self.processed(),
    {
        self.processed_events
    }

    pub fn max_events(&self) -> (r: usize)
        ensures
            r == self.limit(),
    {
        self.max_events
    }

    pub fn max_microsteps_per_game_tick(&self) -> (r: usize)
        ensures
            r == self.microsteps(),
    {
        self.max_microsteps_per_game_tick
    }

    pub fn scheduler_profile(&self) -> (r: SchedulerProfile)
        ensures
            r == self.profile(),
    {
        self.scheduler_profile
    }

    pub fn piston_motion_profile(&self) -> (r: PistonMotionProfile)
        ensures
            r == self.motion(),
    {
        self.piston_motion_profile
    }

    pub fn piston_planning_region(&self) -> (r: Option<Region>)
        ensures
            r == self.region(),
    {
        self.piston_planning_region
    }

    pub fn transition_trace(&self) -> (r: &TransitionTrace)
        ensures
            r.records@ == self.transitions(),
    {
        &self.transition_trace
    }

    pub fn event_trace(&self) -> (r: &EventTrace)
        ensures
            r.records@ == self.event_records(),
    {
        &self.event_trace
    }

    /// The history-independent comparison key of this checkpoint.
    pub fn state_key(&self) -> (r: ExecutionStateKey)
        ensures
            checkpoint_key(*self, r),
    {
        proof {
            use_type_invariant(self);
        }
        state_key_of(
            &self.world,
            &self.queue,
            self.current_time,
            self.scheduler_profile,
            self.piston_motion_profile,
            self.piston_planning_region,
        )
    }
}

/// `new` is `old` with the external event `ev` queued behind the events of
/// its tick and phase; nothing else that a step reads changes.
pub open spec fn schedules(old: PhysicsEngine, new: PhysicsEngine, ev: PhysicsEvent) -> bool {
    &&& exists|k: int| #[trigger] crate::time::queue::back_position(old.pending(), ev, k) && new.pending() == old.pending().insert(k, ev)
    &&& new.world_view() == old.world_view()
    &&& new.now() == old.now()
    &&& new.processed() == old.processed()
    &&& new.orders() == old.orders()
    &&& new.next_event_id() == crate::time::queue::bump(old.next_event_id())
    &&& new.state_trace() == old.state_trace()
}

/// The external event with id `r` and `kind` at `target`, at the later of
/// `game_tick` and the current tick, in the kind's default phase.
pub open spec fn external_event(old: PhysicsEngine, r: EventId, game_tick: u64, target: Pos, kind: PhysicsEventKind) -> PhysicsEvent {
    crate::time::queue::new_event(
        r,
        tick_max(game_tick, old.now().game_tick),
        crate::time::event::spec_default_phase(kind),
        target,
        EventCause::External,
        kind,
    )
}

impl PhysicsEngine {
    /// The history-independent key for cycle detection: the world's state
    /// identity, logical time, pending work in execution order, current and
    /// future insertion counters, and the policies.
    pub fn execution_state_key(&self) -> (r: ExecutionStateKey)
        requires
            self.wf(),
        ensures
            engine_key(*self, r),
    {
        state_key_of(
            &self.world,
            &self.queue,
            self.current_time,
            self.scheduler_profile,
            self.piston_motion_profile,
            self.piston_planning_region,
        )
    }

    pub fn scheduler_profile(&self) -> (r: SchedulerProfile)
        ensures
            r == self.profile(),
    {
        self.scheduler_profile
    }

    /// Overrides the ordering policy; it is validated when a step starts.
    pub fn with_scheduler_profile(self, profile: SchedulerProfile) -> (r: PhysicsEngine)
        ensures
            r.wf() == self.wf(),
            r.profile() == profile,
            r.world_view() == self.world_view(),
            r.pending() == self.pending(),
            r.orders() == self.orders(),
            r.now() == self.now(),
            r.processed() == self.processed(),
            r.event_limit() == self.event_limit(),
            r.microstep_limit() == self.microstep_limit(),
            r.motion() == self.motion(),
            r.region() == self.region(),
    {
        PhysicsEngine { scheduler_profile: profile, ..self }
    }

    pub fn piston_motion_profile(&self) -> (r: PistonMotionProfile)
        ensures
            r == self.motion(),
    {
        self.piston_motion_profile
    }

    /// Overrides the piston activation/completion profile.
    pub fn with_piston_motion_profile(self, profile: PistonMotionProfile) -> (r: PhysicsEngine)
        ensures
            r.wf() == self.wf(),
            r.motion() == profile,
            r.world_view() == self.world_view(),
            r.pending() == self.pending(),
            r.orders() == self.orders(),
            r.now() == self.now(),
            r.processed() == self.processed(),
            r.event_limit() == self.event_limit(),
            r.microstep_limit() == self.microstep_limit(),
            r.profile() == self.profile(),
            r.region() == self.region(),
    {
        PhysicsEngine { piston_motion_profile: profile, ..self }
    }

    /// Supplies the complete observation boundary used by built-in piston
    /// planning and propagation.
    pub fn with_piston_planning_region(self, known_region: Region) -> (r: PhysicsEngine)
        ensures
            r.wf() == self.wf(),
            r.region() == Some(known_region),
            r.world_view() == self.world_view(),
            r.pending() == self.pending(),
            r.orders() == self.orders(),
            r.now() == self.now(),
            r.processed() == self.processed(),
            r.event_limit() == self.event_limit(),
            r.microstep_limit() == self.microstep_limit(),
            r.profile() == self.profile(),
            r.motion() == self.motion(),
    {
        PhysicsEngine { piston_planning_region: Some(known_region), ..self }
    }

    /// Sets the maximum number of events that may execute in one game tick.
    pub fn with_max_microsteps_per_game_tick(self, limit: usize) -> (r: PhysicsEngine)
        ensures
            r.wf() == self.wf(),
            r.microstep_limit() == limit,
            r.world_view() == self.world_view(),
            r.pending() == self.pending(),
            r.orders() == self.orders(),
            r.now() == self.now(),
            r.processed() == self.processed(),
            r.event_limit() == self.event_limit(),
            r.profile() == self.profile(),
            r.motion() == self.motion(),
            r.region() == self.region(),
    {
        PhysicsEngine { max_microsteps_per_game_tick: limit, ..self }
    }

    pub fn time(&self) -> (r: PhysicsTime)
        ensures
            r == self.now(),
    {
        self.current_time
    }

    pub fn world(&self) -> (r: &World)
        requires
            self.wf(),
        ensures
            *r == self.world_view(),
            r.wf(),
    {
        &self.world
    }

    /// The observed-state identity of the current world.
    pub fn state_id(&self) -> (r: StateId)
        requires
            self.wf(),
        ensures
            r == spec_state_id(self.world_view()),
    {
        self.world.state_id()
    }

    pub fn shape_id(&self) -> (r: ShapeId)
        requires
            self.wf(),
        ensures
            r == spec_shape_id(self.world_view()),
    {
        self.world.shape_id()
    }

    /// Number of events that remain pending.
    pub fn pending_event_count(&self) -> (r: usize)
        ensures
            r == self.pending().len(),
    {
        self.queue.len()
    }

    /// The next pending event under the engine's profile.
    pub fn peek_event(&self) -> (r: Option<&PhysicsEvent>)
        ensures
            r is None <==> self.pending().len() == 0,
            r matches Some(e) ==> exists|i: int| is_next(self.profile().order(), self.pending(), i) && self.pending()[i] == *e,
    {
        let r = self.queue.peek_with_profile(&self.scheduler_profile);
        proof {
            if let Some(e) = r {
                let i = choose|i: int| is_next(self.scheduler_profile.order(), self.queue.pending(), i) && self.queue.pending()[i] == *e;
                assert(is_next(self.profile().order(), self.pending(), i));
            }
        }
        r
    }

    /// Number of accepted events, no-op events included.
    pub fn processed_events(&self) -> (r: usize)
        ensures
            r == self.processed(),
    {
        self.processed_events
    }

    /// One record per changed coordinate of every accepted transition.
    pub fn trace(&self) -> (r: &[StateTransition])
        ensures
            r@ == self.state_trace(),
    {
        self.trace.as_slice()
    }

    pub fn shape_transitions(&self) -> (r: &[ShapeTransition])
        ensures
            r@ == self.shape_trace(),
    {
        self.shape_transitions.as_slice()
    }

    /// The ledger of accepted state transitions.
    pub fn transition_trace(&self) -> (r: &TransitionTrace)
        ensures
            r.records@ == self.transition_records(),
            r.status == self.status(),
    {
        &self.transition_trace
    }

    /// The ledger of accepted events, no-op events included.
    pub fn event_trace(&self) -> (r: &EventTrace)
        ensures
            r.records@ == self.event_records(),
    {
        &self.event_trace
    }

    /// Whether the current trace is complete, in progress or failed.
    pub fn trace_status(&self) -> (r: &TraceStatus)
        ensures
            *r == self.status(),
    {
        &self.transition_trace.status
    }

    fn mark_trace_in_progress(&mut self)
        ensures
            final(self).next_transition() == old(self).next_transition(),
            final(self).last_transition_at() == old(self).last_transition_at(),
            final(self).state_trace() == old(self).state_trace(),
            final(self).wf() == old(self).wf(),
            final(self).status() is InProgress,
            final(self).world_view() == old(self).world_view(),
            final(self).pending() == old(self).pending(),
            final(self).orders() == old(self).orders(),
            final(self).now() == old(self).now(),
            final(self).processed() == old(self).processed(),
            final(self).event_records() == old(self).event_records(),
            final(self).transition_records() == old(self).transition_records(),
            final(self).profile() == old(self).profile(),
            final(self).motion() == old(self).motion(),
            final(self).region() == old(self).region(),
            final(self).event_limit() == old(self).event_limit(),
            final(self).microstep_limit() == old(self).microstep_limit(),
            final(self).next_event_id() == old(self).next_event_id(),
            final(self).shape_trace() == old(self).shape_trace(),
            final(self).microsteps() == old(self).microsteps(),
    {
        self.transition_trace.status = TraceStatus::InProgress;
        self.event_trace.status = TraceStatus::InProgress;
    }

    fn mark_trace_complete(&mut self)
        ensures
            final(self).next_transition() == old(self).next_transition(),
            final(self).last_transition_at() == old(self).last_transition_at(),
            final(self).state_trace() == old(self).state_trace(),
            final(self).wf() == old(self).wf(),
            final(self).status() is Complete,
            final(self).world_view() == old(self).world_view(),
            final(self).pending() == old(self).pending(),
            final(self).orders() == old(self).orders(),
            final(self).now() == old(self).now(),
            final(self).processed() == old(self).processed(),
            final(self).event_records() == old(self).event_records(),
            final(self).transition_records() == old(self).transition_records(),
            final(self).profile() == old(self).profile(),
            final(self).motion() == old(self).motion(),
            final(self).region() == old(self).region(),
            final(self).event_limit() == old(self).event_limit(),
            final(self).microstep_limit() == old(self).microstep_limit(),
            final(self).next_event_id() == old(self).next_event_id(),
            final(self).shape_trace() == old(self).shape_trace(),
            final(self).microsteps() == old(self).microsteps(),
    {
        self.transition_trace.status = TraceStatus::Complete;
        self.event_trace.status = TraceStatus::Complete;
    }

    fn mark_trace_failed(&mut self, error: &PhysicsEngineError)
        ensures
            final(self).next_transition() == old(self).next_transition(),
            final(self).last_transition_at() == old(self).last_transition_at(),
            final(self).state_trace() == old(self).state_trace(),
            final(self).wf() == old(self).wf(),
            fails_with(final(self).status(), *error),
            final(self).world_view() == old(self).world_view(),
            final(self).pending() == old(self).pending(),
            final(self).orders() == old(self).orders(),
            final(self).now() == old(self).now(),
            final(self).processed() == old(self).processed(),
            final(self).event_records() == old(self).event_records(),
            final(self).transition_records() == old(self).transition_records(),
            final(self).profile() == old(self).profile(),
            final(self).motion() == old(self).motion(),
            final(self).region() == old(self).region(),
            final(self).event_limit() == old(self).event_limit(),
            final(self).microstep_limit() == old(self).microstep_limit(),
            final(self).next_event_id() == old(self).next_event_id(),
            final(self).shape_trace() == old(self).shape_trace(),
            final(self).microsteps() == old(self).microsteps(),
    {
        let message = error.message();
        self.transition_trace.status = TraceStatus::Failed { error: message.clone() };
        self.event_trace.status = TraceStatus::Failed { error: message };
    }

    /// Schedules an external event in an explicit phase, never earlier than
    /// the current game tick.
    pub fn schedule_external_in_phase(
        &mut self,
        game_tick: u64,
        target: Pos,
        phase: PhysicsEventPhase,
        kind: PhysicsEventKind,
    ) -> (r: EventId)
        ensures
            final(self).wf() == old(self).wf(),
            r == EventId(old(self).next_event_id()),
            final(self).world_view() == old(self).world_view(),
            final(self).now() == old(self).now(),
            final(self).processed() == old(self).processed(),
            final(self).orders() == old(self).orders(),
            final(self).status() is InProgress,
            exists|k: int|
                #[trigger] crate::time::queue::back_position(
                    old(self).pending(),
                    crate::time::queue::new_event(
                        r,
                        tick_max(game_tick, old(self).now().game_tick),
                        phase,
                        target,
                        EventCause::External,
                        kind,
                    ),
                    k,
                ) && final(self).pending() == old(self).pending().insert(
                    k,
                    crate::time::queue::new_event(
                        r,
                        tick_max(game_tick, old(self).now().game_tick),
                        phase,
                        target,
                        EventCause::External,
                        kind,
                    ),
                ),
            schedules(
                *old(self),
                *final(self),
                crate::time::queue::new_event(r, tick_max(game_tick, old(self).now().game_tick), phase, target, EventCause::External, kind),
            ),
    {
        self.mark_trace_in_progress();
        let tick = if game_tick > self.current_time.game_tick {
            game_tick
        } else {
            self.current_time.game_tick
        };
        self.queue.schedule_in_phase(tick, target, EventCause::External, phase, kind)
    }

    /// Schedules an external event in the phase implied by its kind.
    pub fn schedule_external(&mut self, game_tick: u64, target: Pos, kind: PhysicsEventKind) -> (r: EventId)
        ensures
            final(self).wf() == old(self).wf(),
            r == EventId(old(self).next_event_id()),
            final(self).world_view() == old(self).world_view(),
            final(self).pending().len() == old(self).pending().len() + 1,
            final(self).status() is InProgress,
            schedules(*old(self), *final(self), external_event(*old(self), r, game_tick, target, kind)),
    {
        let phase = kind.default_phase();
        self.schedule_external_in_phase(game_tick, target, phase, kind)
    }

    /// Like `schedule_external_in_phase`, but rejects an event that would
    /// run in a phase already passed in the current game tick.
    pub fn schedule_external_in_phase_checked(
        &mut self,
        game_tick: u64,
        target: Pos,
        phase: PhysicsEventPhase,
        kind: PhysicsEventKind,
    ) -> (r: Result<EventId, PhysicsEngineError>)
        ensures
            final(self).wf() == old(self).wf(),
            final(self).world_view() == old(self).world_view(),
            ({
                let tick = tick_max(game_tick, old(self).now().game_tick);
                let rejected = tick == old(self).now().game_tick && old(self).profile().rank(phase) < old(self).profile().rank(old(self).now().phase);
                &&& rejected ==> r == Err::<EventId, PhysicsEngineError>(PhysicsEngineError::CausalOrderViolation {
                    parent: old(self).now(),
                    child_phase: phase,
                }) && final(self).pending() == old(self).pending() && fails_with(final(self).status(), r->Err_0)
                    && final(self).now() == old(self).now() && final(self).orders() == old(self).orders()
                    && final(self).next_event_id() == old(self).next_event_id() && final(self).processed() == old(self).processed()
                    && final(self).state_trace() == old(self).state_trace() && same_execution(*final(self), *old(self))
                &&& !rejected ==> r == Ok::<EventId, PhysicsEngineError>(EventId(old(self).next_event_id()))
                    && final(self).pending().len() == old(self).pending().len() + 1 && schedules(
                    *old(self),
                    *final(self),
                    crate::time::queue::new_event(r->Ok_0, tick, phase, target, EventCause::External, kind),
                )
            }),
    {
        let effective_tick = if game_tick > self.current_time.game_tick {
            game_tick
        } else {
            self.current_time.game_tick
        };
        if effective_tick == self.current_time.game_tick && self.scheduler_profile.phase_rank(phase)
            < self.scheduler_profile.phase_rank(self.current_time.phase) {
            let error = PhysicsEngineError::CausalOrderViolation {
                parent: self.current_time,
                child_phase: phase,
            };
            self.mark_trace_failed(&error);
            proof {
                reveal(same_orders);
            }
            return Err(error);
        }
        Ok(self.schedule_external_in_phase(effective_tick, target, phase, kind))
    }

    /// Schedules a piston block event.
    pub fn schedule_piston_action(&mut self, game_tick: u64, target: Pos, action: PistonAction) -> (r: EventId)
        ensures
            final(self).wf() == old(self).wf(),
            r == EventId(old(self).next_event_id()),
            final(self).world_view() == old(self).world_view(),
            final(self).pending().len() == old(self).pending().len() + 1,
            schedules(
                *old(self),
                *final(self),
                external_event(
                    *old(self),
                    r,
                    game_tick,
                    target,
                    PhysicsEventKind::BlockEvent {
                        event: match action {
                            PistonAction::Extend => BlockEventKind::PistonExtend,
                            PistonAction::Retract => BlockEventKind::PistonRetract,
                        },
                    },
                ),
            ),
    {
        let event = match action {
            PistonAction::Extend => BlockEventKind::PistonExtend,
            PistonAction::Retract => BlockEventKind::PistonRetract,
        };
        self.schedule_external(game_tick, target, PhysicsEventKind::BlockEvent { event })
    }

    /// Schedules an externally observed world mutation; it is applied by
    /// `run_redstone_propagation`.
    pub fn schedule_world_change(&mut self, game_tick: u64, position: Pos, after: Block) -> (r: EventId)
        ensures
            final(self).wf() == old(self).wf(),
            r == EventId(old(self).next_event_id()),
            final(self).world_view() == old(self).world_view(),
            final(self).pending().len() == old(self).pending().len() + 1,
            schedules(
                *old(self),
                *final(self),
                external_event(*old(self), r, game_tick, position, PhysicsEventKind::WorldChange { after: Box::new(after) }),
            ),
    {
        self.schedule_external(game_tick, position, PhysicsEventKind::WorldChange { after: Box::new(after) })
    }

    /// Schedules a typed external redstone input edge.
    pub fn schedule_redstone_input(&mut self, game_tick: u64, source: Pos, powered: bool) -> (r: EventId)
        ensures
            final(self).wf() == old(self).wf(),
            r == EventId(old(self).next_event_id()),
            final(self).world_view() == old(self).world_view(),
            final(self).pending().len() == old(self).pending().len() + 1,
            schedules(*old(self), *final(self), external_event(*old(self), r, game_tick, source, PhysicsEventKind::RedstoneInput { powered })),
    {
        self.schedule_external(game_tick, source, PhysicsEventKind::RedstoneInput { powered })
    }
}

// ---------------------------------------------------------------------------
// Stepping.
// ---------------------------------------------------------------------------

/// Whether a child with zero delay would run in a phase that already passed
/// in its parent's game tick.
pub open spec fn regresses(profile: SchedulerProfile, parent: PhysicsTime, q: QueuedEvent) -> bool {
    q.delay_ticks == 0 && crate::time::scheduler::spec_tick_after(profile.zero_delay, parent.game_tick, 0)
        == parent.game_tick && profile.rank(q.phase) < profile.rank(parent.phase)
}

/// The counters agree at every tick.
#[verifier::opaque]
pub open spec fn same_orders(a: Seq<(u64, u64)>, b: Seq<(u64, u64)>) -> bool {
    forall|t: u64| #[trigger] order_lookup(a, t) == order_lookup(b, t)
}

/// Everything that determines the next step is unchanged.
pub open spec fn same_execution(a: PhysicsEngine, b: PhysicsEngine) -> bool {
    &&& a.world_view() == b.world_view()
    &&& a.pending() == b.pending()
    &&& same_orders(a.orders(), b.orders())
    &&& a.now() == b.now()
    &&& a.processed() == b.processed()
    &&& a.event_records() == b.event_records()
    &&& a.transition_records() == b.transition_records()
    &&& a.profile() == b.profile()
    &&& a.motion() == b.motion()
    &&& a.region() == b.region()
    &&& a.event_limit() == b.event_limit()
    &&& a.microstep_limit() == b.microstep_limit()
}

/// The block `w` holds at `p`, Air when absent, has the same data as `b`.
pub open spec fn holds_same(w: World, p: Pos, b: Block) -> bool {
    crate::delta::before_matches(w, p, b)
}

/// `rec` records the change `c` of `delta` made by `event`.
pub open spec fn records_change(rec: StateTransition, event: PhysicsEvent, delta: WorldDelta, c: BlockChange) -> bool {
    &&& rec.time == event.time
    &&& rec.position == c.position
    &&& same_block(rec.before, c.before)
    &&& same_block(rec.after, c.after)
    &&& rec.cause == event.id
    &&& rec.reason == c.reason
    &&& rec.delta_cause == Some(delta.cause)
}

/// `recs` records, in order, each of the first `n` changes of `delta` that
/// alters a block.
pub open spec fn records_changes(recs: Seq<StateTransition>, event: PhysicsEvent, delta: WorldDelta, n: nat) -> bool
    decreases n,
{
    if n == 0 {
        recs.len() == 0
    } else {
        let c = delta.changes@[n - 1];
        if same_block(c.before, c.after) {
            records_changes(recs, event, delta, (n - 1) as nat)
        } else {
            recs.len() > 0 && records_changes(recs.drop_last(), event, delta, (n - 1) as nat) && records_change(
                recs.last(),
                event,
                delta,
                c,
            )
        }
    }
}

/// Appends one coordinate record per change of `delta` that alters a block.
fn record_delta_changes(trace: &mut Vec<StateTransition>, event: &PhysicsEvent, delta: &WorldDelta)
    ensures
        final(trace)@.len() >= old(trace)@.len(),
        final(trace)@.take(old(trace)@.len() as int) == old(trace)@,
        records_changes(final(trace)@.skip(old(trace)@.len() as int), *event, *delta, delta.changes@.len()),
{
    let n = delta.changes.len();
    let mut i: usize = 0;
    let ghost t0 = trace@;
    proof {
        assert(trace@.skip(t0.len() as int) =~= Seq::<StateTransition>::empty());
        assert(trace@.take(t0.len() as int) =~= t0);
    }
    while i < n
        invariant
            n == delta.changes@.len(),
            i <= n,
            trace@.len() >= t0.len(),
            t0 == old(trace)@,
            trace@.take(t0.len() as int) == t0,
            records_changes(trace@.skip(t0.len() as int), *event, *delta, i as nat),
        decreases n - i,
    {
        let ghost before = trace@;
        let change = &delta.changes[i];
        if !change.before.same_as(&change.after) {
            let record = StateTransition {
                time: event.time,
                position: change.position,
                before: change.before.copy(),
                after: change.after.copy(),
                cause: event.id,
                reason: change.reason,
                delta_cause: Some(delta.cause),
            };
            trace.push(record);
            proof {
                assert(trace@.skip(t0.len() as int).drop_last() =~= before.skip(t0.len() as int));
                assert(trace@.take(t0.len() as int) =~= before.take(t0.len() as int));
            }
        }
        i = i + 1;
    }
}

impl PhysicsEngine {
    /// Appends a transition record to the ledger.
    fn append_transition(
        &mut self,
        trigger: EventId,
        time: PhysicsTime,
        from_state: StateId,
        to_state: StateId,
        from_shape: ShapeId,
        to_shape: ShapeId,
        changes: Vec<BlockChange>,
        moves: Vec<BlockMove>,
        cause: Option<DeltaCause>,
    ) -> (r: TransitionRecord)
        ensures
            r.elapsed_from_previous == spec_elapsed(old(self).last_transition_at(), time),
            final(self).next_transition() == (if old(self).next_transition() < u64::MAX {
                (old(self).next_transition() + 1) as u64
            } else {
                u64::MAX
            }),
            final(self).last_transition_at() == Some(time),
            r.id == TransitionId(old(self).next_transition_id),
            r.trigger == trigger,
            r.time == time,
            r.from_state == from_state,
            r.to_state == to_state,
            r.from_shape == from_shape,
            r.to_shape == to_shape,
            r.changes == changes,
            r.moves == moves,
            r.cause == cause,
            final(self).transition_records().len() == old(self).transition_records().len() + 1,
            final(self).transition_records().last().id == r.id,
            final(self).transition_records().drop_last() == old(self).transition_records(),
            same_transition(final(self).transition_records().last(), r),
            final(self).state_trace() == old(self).state_trace(),
            final(self).shape_trace() == old(self).shape_trace(),
            final(self).wf() == old(self).wf(),
            final(self).world_view() == old(self).world_view(),
            final(self).pending() == old(self).pending(),
            final(self).orders() == old(self).orders(),
            final(self).now() == old(self).now(),
            final(self).processed() == old(self).processed(),
            final(self).event_records() == old(self).event_records(),
            final(self).profile() == old(self).profile(),
            final(self).motion() == old(self).motion(),
            final(self).region() == old(self).region(),
            final(self).event_limit() == old(self).event_limit(),
            final(self).microstep_limit() == old(self).microstep_limit(),
            final(self).next_event_id() == old(self).next_event_id(),
            final(self).status() == old(self).status(),
            final(self).microsteps() == old(self).microsteps(),
    {
        let id = TransitionId(self.next_transition_id);
        self.next_transition_id = self.next_transition_id.saturating_add(1);
        let elapsed_from_previous = match self.last_transition_time {
            Some(previous) => Some(TransitionElapsed::between(previous, time)),
            None => None,
        };
        let stored = TransitionRecord {
            id,
            trigger,
            time,
            elapsed_from_previous: match &elapsed_from_previous {
                Some(e) => Some(e.copy()),
                None => None,
            },
            from_state,
            to_state,
            from_shape,
            to_shape,
            changes: copy_changes(&changes),
            moves: crate::delta::copy_moves(&moves),
            cause,
        };
        self.last_transition_time = Some(time);
        let ghost before = self.transition_trace.records@;
        self.transition_trace.records.push(stored);
        assert(self.transition_trace.records@.drop_last() =~= before);
        TransitionRecord {
            id,
            trigger,
            time,
            elapsed_from_previous,
            from_state,
            to_state,
            from_shape,
            to_shape,
            changes,
            moves,
            cause,
        }
    }

    /// Applies a delta outcome and records it.
    fn accept_delta(&mut self, event: &PhysicsEvent, delta: WorldDelta) -> (r: Result<Option<TransitionRecord>, WorldDeltaError>)
        requires
            old(self).wf(),
        ensures
            r is Err ==> final(self).next_transition() == old(self).next_transition() && final(self).last_transition_at() == old(self).last_transition_at(),
            r matches Ok(t) ==> transition_counters(*old(self), *final(self), t, event.time),
            r is Err ==> final(self).state_trace() == old(self).state_trace(),
            final(self).wf(),
            r is Ok <==> delta_check(delta, old(self).world_view()) is Valid,
            r is Ok ==> applied_world(old(self).world_view(), delta.changes@, final(self).world_view()),
            r is Err ==> final(self).world_view() == old(self).world_view(),
            r matches Err(e) ==> crate::delta::reports(e, delta_check(delta, old(self).world_view()), delta, old(self).world_view()),
            r is Err ==> final(self).transition_records() == old(self).transition_records(),
            r matches Ok(t) ==> (t is Some <==> spec_state_id(old(self).world_view()) != spec_state_id(final(self).world_view())
                || delta.moves@.len() > 0),
            r matches Ok(t) ==> final(self).transition_records().len() == old(self).transition_records().len() + (if t is Some { 1int } else { 0int }),
            r matches Ok(Some(rec)) ==> final(self).transition_records().last().id == rec.id,
            r is Err ==> final(self).shape_trace() == old(self).shape_trace(),
            r matches Ok(t) ==> step_records(*old(self), *event, Seq::empty(), Some(delta), t, *final(self)),
            final(self).pending() == old(self).pending(),
            final(self).orders() == old(self).orders(),
            final(self).now() == old(self).now(),
            final(self).processed() == old(self).processed(),
            final(self).event_records() == old(self).event_records(),
            final(self).profile() == old(self).profile(),
            final(self).motion() == old(self).motion(),
            final(self).region() == old(self).region(),
            final(self).event_limit() == old(self).event_limit(),
            final(self).microstep_limit() == old(self).microstep_limit(),
            final(self).next_event_id() == old(self).next_event_id(),
            final(self).status() == old(self).status(),
            final(self).microsteps() == old(self).microsteps(),
    {
        let from_state = self.world.state_id();
        let from_shape = self.world.shape_id();
        match delta.apply(&mut self.world) {
            Err(e) => {
                return Err(e);
            },
            Ok(()) => {},
        }
        let to_state = self.world.state_id();
        let to_shape = self.world.shape_id();
        record_delta_changes(&mut self.trace, event, &delta);
        let ghost shapes = self.shape_transitions@;
        self.shape_transitions.push(
            ShapeTransition { time: event.time, cause: event.id, from: from_shape, to: to_shape, delta: delta.copy() },
        );
        assert(self.shape_transitions@.drop_last() =~= shapes);
        if from_state != to_state || delta.moves.len() > 0 {
            let record = self.append_transition(
                event.id,
                event.time,
                from_state,
                to_state,
                from_shape,
                to_shape,
                copy_changes(&delta.changes),
                crate::delta::copy_moves(&delta.moves),
                Some(delta.cause),
            );
            Ok(Some(record))
        } else {
            Ok(None)
        }
    }
}


// ---------------------------------------------------------------------------
// The step contract.
// ---------------------------------------------------------------------------

impl PhysicsEngine {
    /// Events run so far in the current game tick.
    pub closed spec fn microsteps(&self) -> usize {
        self.microsteps_this_game_tick
    }
}

/// The counter value, zero when a tick has none yet.
pub open spec fn order_or_zero(o: Option<u64>) -> u64 {
    match o {
        Some(v) => v,
        None => 0u64,
    }
}

/// The index of the pending event that runs next.
pub open spec fn next_index(e: PhysicsEngine) -> int {
    next_index_of(e.profile().order(), e.pending())
}

/// The event that runs next, stamped with its execution order in its tick.
pub open spec fn next_event(e: PhysicsEngine) -> PhysicsEvent {
    let x = e.pending()[next_index(e)];
    PhysicsEvent {
        id: x.id,
        time: PhysicsTime {
            game_tick: x.time.game_tick,
            phase: x.time.phase,
            sub_tick_order: order_or_zero(order_lookup(e.orders(), x.time.game_tick)),
        },
        target: x.target,
        cause: x.cause,
        kind: x.kind,
    }
}

/// The number of events already run in the next event's game tick.
pub open spec fn step_microsteps(e: PhysicsEngine) -> usize {
    if next_event(e).time.game_tick != e.now().game_tick {
        0
    } else {
        e.microsteps()
    }
}

/// The failure a step reports before it pops an event, if any.
pub open spec fn gate_error(e: PhysicsEngine) -> Option<PhysicsEngineError> {
    if !e.profile().valid() {
        Some(PhysicsEngineError::InvalidSchedulerProfile(profile_problem(e.profile().order())->0))
    } else if e.pending().len() == 0 {
        None
    } else if e.processed() >= e.event_limit() {
        Some(
            PhysicsEngineError::EventLimitExceeded {
                limit: e.event_limit(),
                processed: e.processed(),
                next_time: Some(e.pending()[next_index(e)].time),
            },
        )
    } else if step_microsteps(e) >= e.microstep_limit() {
        Some(
            PhysicsEngineError::MicrostepLimitExceeded {
                game_tick: next_event(e).time.game_tick,
                limit: e.microstep_limit(),
                processed: e.processed(),
                next_time: Some(e.pending()[next_index(e)].time),
            },
        )
    } else {
        None
    }
}

/// The next event would run in a phase that already passed in the current
/// game tick.
pub open spec fn runs_backwards(e: PhysicsEngine) -> bool {
    let t = next_event(e).time;
    t.game_tick == e.now().game_tick && e.profile().rank(t.phase) < e.profile().rank(e.now().phase)
}

/// Some child would run in a phase that already passed.
pub open spec fn some_regression(p: SchedulerProfile, t: PhysicsTime, qs: Seq<QueuedEvent>) -> bool {
    exists|k: int| 0 <= k < qs.len() && regresses(p, t, #[trigger] qs[k])
}

/// `k` is the first child that would run in a phase that already passed.
pub open spec fn first_regression(p: SchedulerProfile, t: PhysicsTime, qs: Seq<QueuedEvent>, k: int) -> bool {
    &&& 0 <= k < qs.len()
    &&& regresses(p, t, qs[k])
    &&& forall|j: int| 0 <= j < k ==> !regresses(p, t, #[trigger] qs[j])
}

/// Two changes of a coordinate-level outcome name one position.
pub open spec fn has_duplicate(cs: Seq<WorldChange>) -> bool {
    exists|i: int, j: int| 0 <= i < j < cs.len() && (#[trigger] cs[i]).position == (#[trigger] cs[j]).position
}

/// Change `k` of `cs` is at `q`.
pub open spec fn changed_by(cs: Seq<WorldChange>, q: Pos, k: int) -> bool {
    0 <= k < cs.len() && cs[k].position == q
}

/// The effect of the coordinate-level change `c` on what `now` holds at its
/// position: a change whose block already stands there is skipped.
pub open spec fn change_effect(w: World, c: WorldChange, now: Option<Block>) -> bool {
    if holds_same(w, c.position, c.after) {
        now == w.block_at(c.position)
    } else if c.after.kind is Air {
        now is None
    } else {
        now matches Some(b) && same_block(b, c.after)
    }
}

/// What `now` holds at `q` after the coordinate-level changes `cs` were
/// applied to `w`.
pub open spec fn legacy_at(w: World, cs: Seq<WorldChange>, q: Pos, now: Option<Block>) -> bool {
    &&& forall|k: int| #[trigger] changed_by(cs, q, k) ==> change_effect(w, cs[k], now)
    &&& (forall|k: int| !#[trigger] changed_by(cs, q, k)) ==> now == w.block_at(q)
}

/// `now` is `w` after the coordinate-level changes `cs`.
#[verifier::opaque]
pub open spec fn legacy_applied(w: World, cs: Seq<WorldChange>, now: World) -> bool {
    forall|q: Pos| legacy_at(w, cs, q, #[trigger] now.block_at(q))
}

/// Whether some change of `cs` alters the block at its position.
pub open spec fn legacy_changes_something(w: World, cs: Seq<WorldChange>) -> bool {
    exists|k: int| 0 <= k < cs.len() && !holds_same(w, (#[trigger] cs[k]).position, cs[k].after)
}

/// The engine accepts a handler's outcome for an event at time `t`.
#[verifier::opaque]
pub open spec fn outcome_accepted(p: SchedulerProfile, t: PhysicsTime, w: World, o: EventOutcome) -> bool {
    &&& !some_regression(p, t, o.queued@)
    &&& !(o.delta is Some && o.changes@.len() > 0)
    &&& match o.delta {
        Some(d) => delta_check(d, w) is Valid,
        None => !has_duplicate(o.changes@),
    }
}

/// `x` is the error with which the engine refuses the outcome `o`.
#[verifier::opaque]
pub open spec fn outcome_refusal(p: SchedulerProfile, t: PhysicsTime, w: World, o: EventOutcome, x: PhysicsEngineError) -> bool {
    if some_regression(p, t, o.queued@) {
        exists|k: int|
            first_regression(p, t, o.queued@, k) && x == (PhysicsEngineError::CausalOrderViolation {
                parent: t,
                child_phase: (#[trigger] o.queued@[k]).phase,
            })
    } else if o.delta is Some && o.changes@.len() > 0 {
        x == PhysicsEngineError::InvalidOutcome
    } else {
        match o.delta {
            Some(d) => x matches PhysicsEngineError::WorldDelta(b) && crate::delta::reports(*b, delta_check(d, w), d, w),
            None => x == PhysicsEngineError::InvalidOutcome,
        }
    }
}

proof fn lemma_refused_regression(p: SchedulerProfile, t: PhysicsTime, w: World, o: EventOutcome, k: int)
    requires
        first_regression(p, t, o.queued@, k),
    ensures
        !outcome_accepted(p, t, w, o),
        outcome_refusal(p, t, w, o, PhysicsEngineError::CausalOrderViolation { parent: t, child_phase: o.queued@[k].phase }),
{
    reveal(outcome_accepted);
    reveal(outcome_refusal);
    assert(regresses(p, t, o.queued@[k]));
}

proof fn lemma_refused_mixed(p: SchedulerProfile, t: PhysicsTime, w: World, o: EventOutcome)
    requires
        !some_regression(p, t, o.queued@),
        o.delta is Some && o.changes@.len() > 0,
    ensures
        !outcome_accepted(p, t, w, o),
        outcome_refusal(p, t, w, o, PhysicsEngineError::InvalidOutcome),
{
    reveal(outcome_accepted);
    reveal(outcome_refusal);
}

proof fn lemma_refused_world(p: SchedulerProfile, t: PhysicsTime, w: World, o: EventOutcome, x: PhysicsEngineError)
    requires
        !some_regression(p, t, o.queued@),
        !(o.delta is Some && o.changes@.len() > 0),
        !match o.delta {
            Some(d) => delta_check(d, w) is Valid,
            None => !has_duplicate(o.changes@),
        },
        match o.delta {
            Some(d) => x matches PhysicsEngineError::WorldDelta(b) && crate::delta::reports(*b, delta_check(d, w), d, w),
            None => x == PhysicsEngineError::InvalidOutcome,
        },
    ensures
        !outcome_accepted(p, t, w, o),
        outcome_refusal(p, t, w, o, x),
{
    reveal(outcome_accepted);
    reveal(outcome_refusal);
}

proof fn lemma_accepted(p: SchedulerProfile, t: PhysicsTime, w: World, o: EventOutcome)
    requires
        !some_regression(p, t, o.queued@),
        !(o.delta is Some && o.changes@.len() > 0),
        match o.delta {
            Some(d) => delta_check(d, w) is Valid,
            None => !has_duplicate(o.changes@),
        },
    ensures
        outcome_accepted(p, t, w, o),
{
    reveal(outcome_accepted);
}

/// The world after an accepted outcome with changes `cs` and delta `d`.
#[verifier::opaque]
pub open spec fn outcome_world(w: World, cs: Seq<WorldChange>, d: Option<WorldDelta>, now: World) -> bool {
    match d {
        Some(d) => applied_world(w, d.changes@, now),
        None => legacy_applied(w, cs, now),
    }
}

/// Whether an accepted outcome records a state transition.
#[verifier::opaque]
pub open spec fn outcome_transition(w: World, cs: Seq<WorldChange>, d: Option<WorldDelta>, now: World) -> bool {
    match d {
        Some(d) => spec_state_id(w) != spec_state_id(now) || d.moves@.len() > 0,
        None => legacy_changes_something(w, cs),
    }
}

/// The event id after `n` more events are scheduled from `id`.
pub open spec fn id_after(id: u64, n: nat) -> u64
    decreases n,
{
    if n == 0 {
        id
    } else {
        crate::time::queue::bump(id_after(id, (n - 1) as nat))
    }
}

/// `e` is the child `q` of `parent` scheduled with id `id`: at the
/// parent's game tick plus the child's delay under `policy`, in the
/// child's phase, at its target, caused by the parent, with its kind.
pub open spec fn child_event(e: PhysicsEvent, parent: PhysicsEvent, q: QueuedEvent, policy: ZeroDelayPolicy, id: u64) -> bool {
    &&& e.id == EventId(id)
    &&& e.time == (PhysicsTime {
        game_tick: spec_tick_after(policy, parent.time.game_tick, q.delay_ticks),
        phase: q.phase,
        sub_tick_order: 0,
    })
    &&& e.target == q.target
    &&& e.cause == (EventCause::Event { id: parent.id })
    &&& same_kind(e.kind, q.kind)
}

/// `new` is `old` with the children `qs` of `parent` scheduled in order,
/// the first with id `id`, each behind the events of its tick and phase.
pub open spec fn children_scheduled(
    old: Seq<PhysicsEvent>,
    new: Seq<PhysicsEvent>,
    parent: PhysicsEvent,
    qs: Seq<QueuedEvent>,
    policy: ZeroDelayPolicy,
    id: u64,
) -> bool
    decreases qs.len(),
{
    if qs.len() == 0 {
        new == old
    } else {
        exists|mid: Seq<PhysicsEvent>, k: int|
            children_scheduled(old, mid, parent, qs.drop_last(), policy, id) && #[trigger] crate::time::queue::back_position(
                mid,
                new[k],
                k,
            ) && new == mid.insert(k, new[k]) && child_event(
                new[k],
                parent,
                qs.last(),
                policy,
                id_after(id, (qs.len() - 1) as nat),
            )
    }
}

/// Two transition records hold the same data.
pub open spec fn same_transition(a: TransitionRecord, b: TransitionRecord) -> bool {
    &&& a.id == b.id
    &&& a.trigger == b.trigger
    &&& a.time == b.time
    &&& a.from_state == b.from_state
    &&& a.to_state == b.to_state
    &&& a.from_shape == b.from_shape
    &&& a.to_shape == b.to_shape
    &&& crate::delta::same_changes(a.changes@, b.changes@)
    &&& crate::delta::same_moves(a.moves@, b.moves@)
    &&& a.cause == b.cause
    &&& match (a.elapsed_from_previous, b.elapsed_from_previous) {
        (Some(x), Some(y)) => same_elapsed(x, y),
        (None, None) => true,
        _ => false,
    }
}

/// `recs` (the changes of a coordinate-level transition) and `trs` (the
/// coordinate records it adds) record, in order, each change of `cs` that
/// alters what `w` holds, made by `ev`.
pub open spec fn legacy_records(w: World, ev: PhysicsEvent, cs: Seq<WorldChange>, recs: Seq<BlockChange>, trs: Seq<StateTransition>) -> bool
    decreases cs.len(),
{
    if cs.len() == 0 {
        recs.len() == 0 && trs.len() == 0
    } else {
        let c = cs.last();
        if holds_same(w, c.position, c.after) {
            legacy_records(w, ev, cs.drop_last(), recs, trs)
        } else {
            &&& recs.len() > 0
            &&& trs.len() > 0
            &&& legacy_records(w, ev, cs.drop_last(), recs.drop_last(), trs.drop_last())
            &&& recs.last().position == c.position
            &&& holds_same(w, c.position, recs.last().before)
            &&& same_block(recs.last().after, c.after)
            &&& recs.last().reason == ChangeReason::Unknown
            &&& trs.last().time == ev.time
            &&& trs.last().position == c.position
            &&& same_block(trs.last().before, recs.last().before)
            &&& same_block(trs.last().after, c.after)
            &&& trs.last().cause == ev.id
            &&& trs.last().reason == ChangeReason::Unknown
            &&& trs.last().delta_cause is None
        }
    }
}

/// What a step that ran `ev` with an accepted outcome (coordinate-level
/// `changes`, or `delta`) in `old` records in `new`: the coordinate
/// records, the shape transition of a delta, and the transition `t` it
/// reports, if any, appended to the transition ledger.
pub open spec fn step_records(
    old: PhysicsEngine,
    ev: PhysicsEvent,
    changes: Seq<WorldChange>,
    delta: Option<WorldDelta>,
    t: Option<TransitionRecord>,
    new: PhysicsEngine,
) -> bool {
    let n = old.state_trace().len();
    let added = new.state_trace().skip(n as int);
    &&& new.state_trace().len() >= n
    &&& new.state_trace().take(n as int) == old.state_trace()
    &&& match t {
        None => new.transition_records() == old.transition_records(),
        Some(t) => {
            &&& new.transition_records().len() == old.transition_records().len() + 1
            &&& new.transition_records().drop_last() == old.transition_records()
            &&& same_transition(new.transition_records().last(), t)
            &&& t.trigger == ev.id
            &&& t.time == ev.time
            &&& t.from_state == spec_state_id(old.world_view())
            &&& t.to_state == spec_state_id(new.world_view())
            &&& t.from_shape == spec_shape_id(old.world_view())
            &&& t.to_shape == spec_shape_id(new.world_view())
        },
    }
    &&& match delta {
        Some(d) => {
            &&& records_changes(added, ev, d, d.changes@.len())
            &&& new.shape_trace().len() == old.shape_trace().len() + 1
            &&& new.shape_trace().drop_last() == old.shape_trace()
            &&& new.shape_trace().last().time == ev.time
            &&& new.shape_trace().last().cause == ev.id
            &&& new.shape_trace().last().from == spec_shape_id(old.world_view())
            &&& new.shape_trace().last().to == spec_shape_id(new.world_view())
            &&& crate::delta::same_delta(new.shape_trace().last().delta, d)
            &&& t matches Some(t) ==> crate::delta::same_changes(t.changes@, d.changes@) && crate::delta::same_moves(
                t.moves@,
                d.moves@,
            ) && t.cause == Some(d.cause)
        },
        None => {
            &&& new.shape_trace() == old.shape_trace()
            &&& legacy_records(
                old.world_view(),
                ev,
                changes,
                match t {
                    Some(t) => t.changes@,
                    None => Seq::empty(),
                },
                added,
            )
            &&& t matches Some(t) ==> t.moves@.len() == 0 && t.cause is None
        },
    }
}

proof fn lemma_step_records_transfer(
    a: PhysicsEngine,
    a2: PhysicsEngine,
    ev: PhysicsEvent,
    changes: Seq<WorldChange>,
    delta: Option<WorldDelta>,
    t: Option<TransitionRecord>,
    b: PhysicsEngine,
    b2: PhysicsEngine,
)
    requires
        step_records(a, ev, changes, delta, t, b),
        a2.state_trace() == a.state_trace(),
        a2.transition_records() == a.transition_records(),
        a2.world_view() == a.world_view(),
        a2.shape_trace() == a.shape_trace(),
        b2.state_trace() == b.state_trace(),
        b2.transition_records() == b.transition_records(),
        b2.world_view() == b.world_view(),
        b2.shape_trace() == b.shape_trace(),
    ensures
        step_records(a2, ev, changes, delta, t, b2),
{
}

/// The engine `new` is `old` after running event `ev` with accepted
/// outcome `o`, reported as `step`.
pub open spec fn accepted_step(old: PhysicsEngine, ev: PhysicsEvent, o: EventOutcome, step: TransitionStep, new: PhysicsEngine) -> bool {
    &&& step.event.event == ev
    &&& transition_counters(old, new, step.transition, ev.time)
    &&& step.event.status == (match step.transition {
        Some(t) => EventExecutionStatus::Transition { id: t.id },
        None => EventExecutionStatus::NoTransition,
    })
    &&& outcome_world(old.world_view(), o.changes@, o.delta, new.world_view())
    &&& (step.transition is Some <==> outcome_transition(old.world_view(), o.changes@, o.delta, new.world_view()))
    &&& new.transition_records().len() == old.transition_records().len() + (if step.transition is Some { 1int } else { 0int })
    &&& new.pending().len() == old.pending().len() - 1 + o.queued@.len()
    &&& new.processed() == old.processed() + 1
    &&& new.now() == ev.time
    &&& new.event_records().len() == old.event_records().len() + 1
    &&& new.event_records().drop_last() == old.event_records()
    &&& same_event(new.event_records().last().event, ev)
    &&& new.event_records().last().status == step.event.status
    &&& (new.pending().len() == 0 ==> new.status() is Complete)
    &&& (new.pending().len() > 0 ==> new.status() is InProgress)
    &&& new.next_event_id() == id_after(old.next_event_id(), o.queued@.len())
    &&& children_scheduled(
        old.pending().remove(next_index(old)),
        new.pending(),
        ev,
        o.queued@,
        old.profile().zero_delay,
        old.next_event_id(),
    )
    &&& order_lookup(new.orders(), ev.time.game_tick) == Some(crate::time::queue::bump(ev.time.sub_tick_order))
    &&& forall|t: u64| t != ev.time.game_tick ==> #[trigger] order_lookup(new.orders(), t) == order_lookup(old.orders(), t)
    &&& new.microsteps() == step_microsteps(old) + 1
    &&& step_records(old, ev, o.changes@, o.delta, step.transition, new)
}

/// What a step that ran event `ev` and got handler result `res` returns.
pub open spec fn step_effect(
    old: PhysicsEngine,
    ev: PhysicsEvent,
    res: Result<EventOutcome, PhysicsEngineError>,
    r: Result<Option<TransitionStep>, PhysicsEngineError>,
    new: PhysicsEngine,
) -> bool {
    match res {
        Err(y) => r == Err::<Option<TransitionStep>, PhysicsEngineError>(y),
        Ok(o) => if outcome_accepted(old.profile(), ev.time, old.world_view(), o) {
            r matches Ok(Some(step)) && accepted_step(old, ev, o, step, new)
        } else {
            r matches Err(x) && outcome_refusal(old.profile(), ev.time, old.world_view(), o, x)
        },
    }
}

/// The time from a previous transition at `previous` to one at `t`: the
/// order delta within one game tick, otherwise the game ticks between.
pub open spec fn spec_elapsed(previous: Option<PhysicsTime>, t: PhysicsTime) -> Option<TransitionElapsed> {
    match previous {
        None => None,
        Some(p) => Some(
            if p.game_tick == t.game_tick {
                TransitionElapsed::Zero { order_delta: crate::time::transition::sat_sub(t.sub_tick_order, p.sub_tick_order) }
            } else {
                TransitionElapsed::ExactGameTicks { game_ticks: crate::time::transition::sat_sub(t.game_tick, p.game_tick) }
            },
        ),
    }
}

/// The transition counters of `new` after `old` recorded the transition
/// `t` (if any) at time `time`: a recorded transition takes the next id and
/// the elapsed time since the previous one, and becomes the previous one.
pub open spec fn transition_counters(old: PhysicsEngine, new: PhysicsEngine, t: Option<TransitionRecord>, time: PhysicsTime) -> bool {
    match t {
        Some(t) => {
            &&& t.id == TransitionId(old.next_transition())
            &&& t.elapsed_from_previous == spec_elapsed(old.last_transition_at(), time)
            &&& new.next_transition() == (if old.next_transition() < u64::MAX {
                (old.next_transition() + 1) as u64
            } else {
                u64::MAX
            })
            &&& new.last_transition_at() == Some(time)
        },
        None => new.next_transition() == old.next_transition() && new.last_transition_at() == old.last_transition_at(),
    }
}

/// The configuration that no step changes.
pub open spec fn same_config(a: PhysicsEngine, b: PhysicsEngine) -> bool {
    &&& a.profile() == b.profile()
    &&& a.motion() == b.motion()
    &&& a.region() == b.region()
    &&& a.event_limit() == b.event_limit()
    &&& a.microstep_limit() == b.microstep_limit()
}

/// What a step returns before its handler runs: a gate failure, an empty
/// queue, or an event that would run backwards.
pub open spec fn step_before_handler(old: PhysicsEngine, r: Result<Option<TransitionStep>, PhysicsEngineError>, new: PhysicsEngine) -> bool {
    match gate_error(old) {
        Some(x) => r == Err::<Option<TransitionStep>, PhysicsEngineError>(x),
        None => if old.pending().len() == 0 {
            &&& r == Ok::<Option<TransitionStep>, PhysicsEngineError>(None)
            &&& same_execution(new, old)
            &&& (old.status() is Failed ==> new.status() == old.status())
            &&& (!(old.status() is Failed) ==> new.status() is Complete)
        } else if runs_backwards(old) {
            r == Err::<Option<TransitionStep>, PhysicsEngineError>(
                PhysicsEngineError::CausalOrderViolation { parent: old.now(), child_phase: next_event(old).time.phase },
            )
        } else {
            true
        },
    }
}

/// The step reaches its handler.
pub open spec fn step_runs_handler(old: PhysicsEngine) -> bool {
    gate_error(old) is None && old.pending().len() > 0 && !runs_backwards(old)
}

/// Whether the child `q` of an event at `t` would run in a phase that
/// already passed.
fn child_regresses(profile: &SchedulerProfile, t: PhysicsTime, q: &QueuedEvent) -> (r: bool)
    ensures
        r == regresses(*profile, t, *q),
{
    q.delay_ticks == 0 && profile.game_tick_after_delay(t.game_tick, 0) == t.game_tick && profile.phase_rank(q.phase)
        < profile.phase_rank(t.phase)
}

/// The first child that would run in a phase that already passed.
fn find_regression(profile: &SchedulerProfile, t: PhysicsTime, queued: &Vec<QueuedEvent>) -> (r: Option<usize>)
    ensures
        r is None <==> !some_regression(*profile, t, queued@),
        r matches Some(k) ==> first_regression(*profile, t, queued@, k as int),
{
    let n = queued.len();
    let mut k: usize = 0;
    while k < n
        invariant
            n == queued@.len(),
            k <= n,
            forall|j: int| 0 <= j < k ==> !regresses(*profile, t, #[trigger] queued@[j]),
        decreases n - k,
    {
        if child_regresses(profile, t, &queued[k]) {
            return Some(k);
        }
        k = k + 1;
    }
    None
}

/// Whether no two changes name one position.
fn positions_distinct(changes: &Vec<WorldChange>) -> (r: bool)
    ensures
        r == !has_duplicate(changes@),
{
    let n = changes.len();
    let mut j: usize = 0;
    while j < n
        invariant
            n == changes@.len(),
            j <= n,
            forall|a: int, b: int| 0 <= a < b < j ==> (#[trigger] changes@[a]).position != (#[trigger] changes@[b]).position,
        decreases n - j,
    {
        let mut i: usize = 0;
        while i < j
            invariant
                n == changes@.len(),
                i <= j < n,
                forall|a: int| 0 <= a < i ==> (#[trigger] changes@[a]).position != changes@[j as int].position,
            decreases j - i,
        {
            if changes[i].position == changes[j].position {
                assert(changes@[i as int].position == changes@[j as int].position);
                return false;
            }
            i = i + 1;
        }
        j = j + 1;
    }
    true
}

proof fn lemma_fresh_air_same(a: Block, b: Block)
    requires
        is_fresh_block(a, BlockKind::Air),
    ensures
        same_block(a, b) <==> is_fresh_block(b, BlockKind::Air),
{
    if is_fresh_block(b, BlockKind::Air) {
        crate::delta::lemma_fresh_same(a, b, BlockKind::Air);
    }
}

/// Applies coordinate-level changes with distinct positions to `world`,
/// skipping those whose block already stands there, and returns one record
/// per applied change.
fn apply_legacy(world: &mut World, trace: &mut Vec<StateTransition>, event: &PhysicsEvent, changes: &Vec<WorldChange>) -> (r: Vec<BlockChange>)
    requires
        old(world).wf(),
        !has_duplicate(changes@),
    ensures
        final(world).wf(),
        legacy_applied(*old(world), changes@, *final(world)),
        r@.len() > 0 <==> legacy_changes_something(*old(world), changes@),
        r@.len() > 0 ==> final(trace)@.len() > old(trace)@.len(),
        final(trace)@.len() >= old(trace)@.len(),
        final(trace)@.take(old(trace)@.len() as int) == old(trace)@,
        legacy_records(*old(world), *event, changes@, r@, final(trace)@.skip(old(trace)@.len() as int)),
{
    let ghost w0 = *world;
    proof {
        reveal(legacy_applied);
    }
    let mut records: Vec<BlockChange> = Vec::new();
    let n = changes.len();
    let mut i: usize = 0;
    let ghost tr0 = trace@;
    proof {
        assert(trace@.take(tr0.len() as int) =~= tr0);
        assert(trace@.skip(tr0.len() as int) =~= Seq::<StateTransition>::empty());
    }
    while i < n
        invariant
            n == changes@.len(),
            i <= n,
            tr0 == old(trace)@,
            trace@.len() >= tr0.len(),
            trace@.take(tr0.len() as int) == tr0,
            legacy_records(w0, *event, changes@.take(i as int), records@, trace@.skip(tr0.len() as int)),
            world.wf(),
            !has_duplicate(changes@),
            forall|q: Pos| legacy_at(w0, changes@.take(i as int), q, #[trigger] world.block_at(q)),
            forall|k: int| i <= k < n ==> #[trigger] world.block_at(changes@[k].position) == w0.block_at(changes@[k].position),
            records@.len() > 0 <==> legacy_changes_something(w0, changes@.take(i as int)),
            trace@.len() >= old(trace)@.len(),
            records@.len() > 0 ==> trace@.len() > old(trace)@.len(),
        decreases n - i,
    {
        let pos = changes[i].position;
        let ghost c = changes@[i as int];
        let air = Block::new(BlockKind::Air);
        proof {
            lemma_fresh_air_same(air, c.after);
        }
        let same = match world.get(pos) {
            Some(b) => b.same_as(&changes[i].after),
            None => air.same_as(&changes[i].after),
        };
        assert(same == holds_same(w0, pos, c.after));
        let ghost prev = *world;
        let ghost recs0 = records@;
        let ghost trs0 = trace@;
        if !same {
            let before = match world.get(pos) {
                Some(b) => b.copy(),
                None => Block::new(BlockKind::Air),
            };
            let ghost bv = before;
            proof {
                assert(prev.block_at(pos) == w0.block_at(pos));
                match w0.block_at(pos) {
                    Some(x) => crate::world::lemma_same_block_sym(bv, x),
                    None => {},
                }
            }
            let after = changes[i].after.copy();
            world.set(pos, after);
            records.push(
                BlockChange { position: pos, before: before.copy(), after: changes[i].after.copy(), reason: ChangeReason::Unknown },
            );
            trace.push(
                StateTransition {
                    time: event.time,
                    position: pos,
                    before,
                    after: changes[i].after.copy(),
                    cause: event.id,
                    reason: ChangeReason::Unknown,
                    delta_cause: None,
                },
            );
            proof {
                let rb = records@.last().before;
                crate::world::lemma_same_block_sym(rb, bv);
                match w0.block_at(pos) {
                    Some(x) => crate::world::lemma_same_block_trans(x, bv, rb),
                    None => lemma_fresh_air_same(bv, rb),
                }
                assert(holds_same(w0, pos, rb));
                assert(records@.drop_last() =~= recs0);
                assert(trace@.skip(tr0.len() as int).drop_last() =~= trs0.skip(tr0.len() as int));
                assert(trace@.take(tr0.len() as int) =~= trs0.take(tr0.len() as int));
            }
        }
        proof {
            let t0 = changes@.take(i as int);
            let t1 = changes@.take(i + 1);
            assert(t1.drop_last() =~= t0);
            assert(t1.last() == c);
            assert forall|q: Pos| legacy_at(w0, t1, q, #[trigger] world.block_at(q)) by {
                if q == pos {
                    assert forall|k: int| #[trigger] changed_by(t1, q, k) implies k == i by {
                        if k < i {
                            assert(changes@[k].position == changes@[i as int].position);
                        }
                    }
                    assert(changed_by(t1, q, i as int));
                } else {
                    assert(world.block_at(q) == prev.block_at(q));
                    assert forall|k: int| #[trigger] changed_by(t1, q, k) implies changed_by(t0, q, k) by {}
                    assert forall|k: int| #[trigger] changed_by(t0, q, k) implies changed_by(t1, q, k) by {}
                    assert(legacy_at(w0, t0, q, prev.block_at(q)));
                }
            }
            assert forall|k: int| i + 1 <= k < n implies #[trigger] world.block_at(changes@[k].position) == w0.block_at(changes@[k].position) by {
                assert(changes@[k].position != changes@[i as int].position);
                assert(prev.block_at(changes@[k].position) == w0.block_at(changes@[k].position));
            }
            if legacy_changes_something(w0, t1) && !legacy_changes_something(w0, t0) {
                let k = choose|k: int| 0 <= k < t1.len() && !holds_same(w0, (#[trigger] t1[k]).position, t1[k].after);
                if k < i {
                    assert(t0[k] == t1[k]);
                }
            }
            if legacy_changes_something(w0, t0) {
                let k = choose|k: int| 0 <= k < t0.len() && !holds_same(w0, (#[trigger] t0[k]).position, t0[k].after);
                assert(t1[k] == t0[k]);
            }
            if !same {
                assert(!holds_same(w0, t1[i as int].position, t1[i as int].after));
            }
        }
        i = i + 1;
    }
    proof {
        assert(changes@.take(n as int) =~= changes@);
    }
    records
}

/// The event a step popped and what undoes the pop.
struct Popped {
    event: PhysicsEvent,
    checkpoint: QueuePopCheckpoint,
    previous_time: PhysicsTime,
    previous_microsteps: usize,
}

/// `now` is `start` with its next event popped as `p`; the clock may
/// differ.
#[verifier::opaque]
spec fn popped_from(start: PhysicsEngine, p: Popped, now: PhysicsEngine) -> bool {
    let i = next_index(start);
    let x = start.pending()[i];
    let tick = x.time.game_tick;
    &&& is_next(start.profile().order(), start.pending(), i)
    &&& p.event == next_event(start)
    &&& p.previous_time == start.now()
    &&& p.checkpoint == (QueuePopCheckpoint {
        game_tick: tick,
        previous_sub_tick_order: order_lookup(start.orders(), tick),
    })
    &&& now.pending() == start.pending().remove(i)
    &&& front_position(start.pending().remove(i), stored(p.event), i)
    &&& stored(p.event) == x
    &&& forall|t: u64| t != tick ==> #[trigger] order_lookup(now.orders(), t) == order_lookup(start.orders(), t)
    &&& order_lookup(now.orders(), tick) == Some(crate::time::queue::bump(p.event.time.sub_tick_order))
    &&& now.world_view() == start.world_view()
    &&& now.processed() == start.processed()
    &&& now.event_records() == start.event_records()
    &&& now.transition_records() == start.transition_records()
    &&& now.next_event_id() == start.next_event_id()
    &&& now.shape_trace() == start.shape_trace()
    &&& same_config(now, start)
}

/// `now` is `start` right after the pop of `p`.
#[verifier::opaque]
spec fn after_pop(start: PhysicsEngine, p: Popped, now: PhysicsEngine) -> bool {
    &&& popped_from(start, p, now)
    &&& now.now() == p.event.time
    &&& p.previous_microsteps == step_microsteps(start)
    &&& now.microsteps() == p.previous_microsteps
}

proof fn lemma_popped_from_kept(start: PhysicsEngine, p: Popped, a: PhysicsEngine, b: PhysicsEngine)
    requires
        popped_from(start, p, a),
        b.pending() == a.pending(),
        b.orders() == a.orders(),
        b.world_view() == a.world_view(),
        b.processed() == a.processed(),
        b.event_records() == a.event_records(),
        b.transition_records() == a.transition_records(),
        b.next_event_id() == a.next_event_id(),
        b.shape_trace() == a.shape_trace(),
        same_config(b, a),
    ensures
        popped_from(start, p, b),
{
    reveal(popped_from);
}

proof fn lemma_after_pop(start: PhysicsEngine, p: Popped, now: PhysicsEngine)
    requires
        after_pop(start, p, now),
    ensures
        popped_from(start, p, now),
        p.event == next_event(start),
        now.now() == p.event.time,
        now.microsteps() == step_microsteps(start),
        now.processed() == start.processed(),
        now.world_view() == start.world_view(),
        now.event_records() == start.event_records(),
        now.transition_records() == start.transition_records(),
        now.next_event_id() == start.next_event_id(),
        now.shape_trace() == start.shape_trace(),
        now.pending() == start.pending().remove(next_index(start)),
        order_lookup(now.orders(), p.event.time.game_tick) == Some(crate::time::queue::bump(p.event.time.sub_tick_order)),
        forall|t: u64| t != p.event.time.game_tick ==> #[trigger] order_lookup(now.orders(), t) == order_lookup(start.orders(), t),
        same_config(now, start),
        now.pending().len() == start.pending().len() - 1,
{
    reveal(after_pop);
    reveal(popped_from);
}

impl PhysicsEngine {
    /// Puts a popped event back after a rejection and records the failure.
    fn reject(&mut self, popped: Popped, error: PhysicsEngineError, Ghost(start): Ghost<PhysicsEngine>) -> (r: PhysicsEngineError)
        requires
            popped_from(start, popped, *old(self)),
        ensures
            final(self).next_transition() == old(self).next_transition(),
            final(self).last_transition_at() == old(self).last_transition_at(),
            final(self).state_trace() == old(self).state_trace(),
            r == error,
            final(self).wf() == old(self).wf(),
            same_execution(*final(self), start),
            same_config(*final(self), start),
            fails_with(final(self).status(), error),
    {
        proof {
            reveal(popped_from);
            reveal(same_orders);
        }
        let Popped { event, checkpoint, previous_time, previous_microsteps } = popped;
        let ghost s = start.pending();
        let ghost i = next_index(start);
        let ghost e = stored(event);
        let ghost mid = self.queue.pending();
        self.queue.rollback_pop(event, checkpoint);
        let ghost after = self.queue.pending();
        self.current_time = previous_time;
        self.microsteps_this_game_tick = previous_microsteps;
        self.mark_trace_failed(&error);
        proof {
            let k = choose|k: int| #[trigger] front_position(mid, e, k) && after == mid.insert(k, e);
            crate::time::queue::lemma_pop_rollback(s, i, event, k);
            assert(self.pending() == s);
            assert forall|t: u64| #[trigger] order_lookup(self.orders(), t) == order_lookup(start.orders(), t) by {
                if t != checkpoint.game_tick {
                    assert(order_lookup(self.orders(), t) == order_lookup(old(self).orders(), t));
                }
            }
        }
        error
    }

    /// Applies a coordinate-level outcome, rejecting duplicate positions.
    fn accept_changes(&mut self, event: &PhysicsEvent, changes: Vec<WorldChange>) -> (r: Result<Option<TransitionRecord>, PhysicsEngineError>)
        requires
            old(self).wf(),
        ensures
            r is Err ==> final(self).next_transition() == old(self).next_transition() && final(self).last_transition_at() == old(self).last_transition_at(),
            r matches Ok(t) ==> transition_counters(*old(self), *final(self), t, event.time),
            r is Err ==> final(self).state_trace() == old(self).state_trace(),
            final(self).wf(),
            r is Err <==> has_duplicate(changes@),
            r is Err ==> r == Err::<Option<TransitionRecord>, PhysicsEngineError>(PhysicsEngineError::InvalidOutcome)
                && final(self).world_view() == old(self).world_view()
                && final(self).transition_records() == old(self).transition_records(),
            r is Ok ==> legacy_applied(old(self).world_view(), changes@, final(self).world_view()),
            r matches Ok(t) ==> (t is Some <==> legacy_changes_something(old(self).world_view(), changes@)),
            r matches Ok(t) ==> final(self).transition_records().len() == old(self).transition_records().len() + (if t is Some { 1int } else { 0int }),
            r matches Ok(Some(rec)) ==> final(self).transition_records().last().id == rec.id,
            final(self).shape_trace() == old(self).shape_trace(),
            r matches Ok(t) ==> step_records(*old(self), *event, changes@, None, t, *final(self)),
            final(self).pending() == old(self).pending(),
            final(self).orders() == old(self).orders(),
            final(self).now() == old(self).now(),
            final(self).processed() == old(self).processed(),
            final(self).microsteps() == old(self).microsteps(),
            final(self).event_records() == old(self).event_records(),
            same_config(*final(self), *old(self)),
            final(self).next_event_id() == old(self).next_event_id(),
            final(self).status() == old(self).status(),
    {
        if !positions_distinct(&changes) {
            return Err(PhysicsEngineError::InvalidOutcome);
        }
        let from_state = self.world.state_id();
        let from_shape = self.world.shape_id();
        let records = apply_legacy(&mut self.world, &mut self.trace, event, &changes);
        if records.len() == 0 {
            proof {
                assert(records@ =~= Seq::<BlockChange>::empty());
            }
            return Ok(None);
        }
        let to_state = self.world.state_id();
        let to_shape = self.world.shape_id();
        let record = self.append_transition(
            event.id,
            event.time,
            from_state,
            to_state,
            from_shape,
            to_shape,
            records,
            Vec::new(),
            None,
        );
        Ok(Some(record))
    }

    /// Schedules the children of an accepted event.
    fn schedule_children(&mut self, parent: &PhysicsEvent, queued: &Vec<QueuedEvent>)
        ensures
            final(self).next_transition() == old(self).next_transition(),
            final(self).last_transition_at() == old(self).last_transition_at(),
            final(self).wf() == old(self).wf(),
            final(self).pending().len() == old(self).pending().len() + queued@.len(),
            final(self).world_view() == old(self).world_view(),
            final(self).now() == old(self).now(),
            final(self).processed() == old(self).processed(),
            final(self).microsteps() == old(self).microsteps(),
            final(self).event_records() == old(self).event_records(),
            final(self).transition_records() == old(self).transition_records(),
            same_config(*final(self), *old(self)),
            final(self).status() == old(self).status(),
            final(self).orders() == old(self).orders(),
            final(self).state_trace() == old(self).state_trace(),
            final(self).shape_trace() == old(self).shape_trace(),
            final(self).next_event_id() == id_after(old(self).next_event_id(), queued@.len()),
            children_scheduled(
                old(self).pending(),
                final(self).pending(),
                *parent,
                queued@,
                old(self).profile().zero_delay,
                old(self).next_event_id(),
            ),
    {
        let n = queued.len();
        let mut i: usize = 0;
        proof {
            assert(queued@.take(0) =~= Seq::<QueuedEvent>::empty());
        }
        while i < n
            invariant
                n == queued@.len(),
                i <= n,
                self.orders() == old(self).orders(),
                self.shape_trace() == old(self).shape_trace(),
                self.next_event_id() == id_after(old(self).next_event_id(), i as nat),
                children_scheduled(
                    old(self).pending(),
                    self.pending(),
                    *parent,
                    queued@.take(i as int),
                    old(self).profile().zero_delay,
                    old(self).next_event_id(),
                ),
                self.wf() == old(self).wf(),
                self.pending().len() == old(self).pending().len() + i,
                self.world_view() == old(self).world_view(),
                self.now() == old(self).now(),
                self.processed() == old(self).processed(),
                self.microsteps() == old(self).microsteps(),
                self.event_records() == old(self).event_records(),
                self.transition_records() == old(self).transition_records(),
                same_config(*self, *old(self)),
                self.status() == old(self).status(),
                self.next_transition() == old(self).next_transition(),
                self.last_transition_at() == old(self).last_transition_at(),
                self.state_trace() == old(self).state_trace(),
            decreases n - i,
        {
            let q = &queued[i];
            let tick = self.scheduler_profile.game_tick_after_delay(parent.time.game_tick, q.delay_ticks);
            let ghost mid = self.pending();
            let kind = q.kind.copy();
            let id = self.queue.schedule_in_phase(tick, q.target, EventCause::Event { id: parent.id }, q.phase, kind);
            proof {
                let e = crate::time::queue::new_event(id, tick, q.phase, q.target, EventCause::Event { id: parent.id }, kind);
                let k = choose|k: int|
                    #[trigger] crate::time::queue::back_position(mid, e, k) && self.pending() == mid.insert(k, e);
                let qs = queued@.take(i + 1);
                assert(qs.drop_last() =~= queued@.take(i as int));
                assert(qs.last() == *q);
                assert(self.pending()[k] == e);
                let pol = old(self).profile().zero_delay;
                let id0 = old(self).next_event_id();
                let nw = self.pending();
                assert(nw == mid.insert(k, nw[k]));
                assert(child_event(nw[k], *parent, qs.last(), pol, id_after(id0, (qs.len() - 1) as nat)));
                assert(children_scheduled(old(self).pending(), nw, *parent, qs, pol, id0));
            }
            i = i + 1;
        }
        proof {
            assert(queued@.take(n as int) =~= queued@);
        }
    }

    /// Checks the step's gates and pops the next event.
    fn begin_step(&mut self) -> (r: Result<Option<Popped>, PhysicsEngineError>)
        requires
            old(self).wf(),
        ensures
            final(self).next_transition() == old(self).next_transition(),
            final(self).last_transition_at() == old(self).last_transition_at(),
            final(self).state_trace() == old(self).state_trace(),
            final(self).wf(),
            same_config(*final(self), *old(self)),
            r matches Err(e) ==> same_execution(*final(self), *old(self)) && fails_with(final(self).status(), e),
            r matches Err(x) ==> step_before_handler(*old(self), Err(x), *final(self)),
            r matches Ok(None) ==> step_before_handler(*old(self), Ok(None), *final(self)),
            (r is Err || r matches Ok(None)) <==> !step_runs_handler(*old(self)),
            r matches Ok(Some(p)) ==> after_pop(*old(self), p, *final(self)) && final(self).status() == old(self).status(),
    {
        let ghost start = *self;
        proof {
            reveal(after_pop);
            reveal(popped_from);
            reveal(same_orders);
        }
        match self.scheduler_profile.validate() {
            Err(e) => {
                let error = PhysicsEngineError::InvalidSchedulerProfile(e);
                self.mark_trace_failed(&error);
                return Err(error);
            },
            Ok(()) => {},
        }
        if self.queue.is_empty() {
            if !self.transition_trace.status.is_failed() {
                self.mark_trace_complete();
            }
            return Ok(None);
        }
        let next_time = match self.queue.next_time_with_profile(&self.scheduler_profile) {
            Some(t) => t,
            None => {
                return Ok(None);
            },
        };
        proof {
            let j = choose|j: int| is_next(start.profile().order(), start.pending(), j) && start.pending()[j].time == next_time;
            crate::time::queue::lemma_next_unique(start.profile().order(), start.pending(), j, next_index(start));
        }
        if self.processed_events >= self.max_events {
            let error = PhysicsEngineError::EventLimitExceeded {
                limit: self.max_events,
                processed: self.processed_events,
                next_time: Some(next_time),
            };
            self.mark_trace_failed(&error);
            return Err(error);
        }
        if next_time.game_tick != self.current_time.game_tick {
            self.microsteps_this_game_tick = 0;
        }
        if self.microsteps_this_game_tick >= self.max_microsteps_per_game_tick {
            let error = PhysicsEngineError::MicrostepLimitExceeded {
                game_tick: next_time.game_tick,
                limit: self.max_microsteps_per_game_tick,
                processed: self.processed_events,
                next_time: Some(next_time),
            };
            self.mark_trace_failed(&error);
            return Err(error);
        }
        let previous_time = self.current_time;
        let previous_microsteps = self.microsteps_this_game_tick;
        let ghost before_pop = *self;
        let (event, checkpoint) = match self.queue.pop_with_checkpoint_in_profile(&self.scheduler_profile) {
            Some(x) => x,
            None => {
                return Ok(None);
            },
        };
        proof {
            let i = choose|i: int|
                is_next(start.profile().order(), start.pending(), i) && crate::time::queue::popped(
                    start.pending(),
                    start.orders(),
                    self.pending(),
                    self.orders(),
                    i,
                    event,
                    checkpoint,
                );
            crate::time::queue::lemma_next_unique(start.profile().order(), start.pending(), i, next_index(start));
        }
        let popped = Popped { event, checkpoint, previous_time, previous_microsteps };
        if popped.event.time.game_tick == previous_time.game_tick && self.scheduler_profile.phase_rank(popped.event.time.phase)
            < self.scheduler_profile.phase_rank(previous_time.phase) {
            let child_phase = popped.event.time.phase;
            let error = PhysicsEngineError::CausalOrderViolation { parent: previous_time, child_phase };
            let error = self.reject(popped, error, Ghost(start));
            return Err(error);
        }
        self.current_time = popped.event.time;
        Ok(Some(popped))
    }

    /// Applies an outcome's world part: a delta atomically, or
    /// coordinate-level changes with distinct positions.
    fn apply_outcome_world(&mut self, event: &PhysicsEvent, changes: Vec<WorldChange>, delta: Option<WorldDelta>) -> (r: Result<Option<TransitionRecord>, PhysicsEngineError>)
        requires
            old(self).wf(),
            !(delta is Some && changes@.len() > 0),
        ensures
            r is Err ==> final(self).next_transition() == old(self).next_transition() && final(self).last_transition_at() == old(self).last_transition_at(),
            r matches Ok(t) ==> transition_counters(*old(self), *final(self), t, event.time),
            r is Err ==> final(self).state_trace() == old(self).state_trace(),
            final(self).wf(),
            ({
                let w = old(self).world_view();
                &&& r is Ok <==> match delta {
                    Some(d) => delta_check(d, w) is Valid,
                    None => !has_duplicate(changes@),
                }
                &&& r matches Err(x) ==> match delta {
                    Some(d) => x matches PhysicsEngineError::WorldDelta(b) && crate::delta::reports(*b, delta_check(d, w), d, w),
                    None => x == PhysicsEngineError::InvalidOutcome,
                }
                &&& r is Err ==> final(self).world_view() == w && final(self).transition_records() == old(self).transition_records()
                &&& r is Ok ==> outcome_world(w, changes@, delta, final(self).world_view())
                &&& r matches Ok(t) ==> (t is Some <==> outcome_transition(w, changes@, delta, final(self).world_view()))
                &&& r matches Ok(t) ==> final(self).transition_records().len() == old(self).transition_records().len() + (if t is Some { 1int } else { 0int })
            }),
            r is Err ==> final(self).shape_trace() == old(self).shape_trace(),
            r matches Ok(t) ==> step_records(*old(self), *event, changes@, delta, t, *final(self)),
            final(self).next_event_id() == old(self).next_event_id(),
            final(self).pending() == old(self).pending(),
            final(self).orders() == old(self).orders(),
            final(self).now() == old(self).now(),
            final(self).processed() == old(self).processed(),
            final(self).microsteps() == old(self).microsteps(),
            final(self).event_records() == old(self).event_records(),
            same_config(*final(self), *old(self)),
            final(self).status() == old(self).status(),
    {
        proof {
            reveal(outcome_world);
            reveal(outcome_transition);
        }
        match delta {
            Some(d) => match self.accept_delta(event, d) {
                Err(e) => Err(PhysicsEngineError::WorldDelta(Box::new(e))),
                Ok(t) => Ok(t),
            },
            None => self.accept_changes(event, changes),
        }
    }

    /// Schedules the children of an accepted event, counts it and records
    /// it in the event ledger.
    fn record_step(&mut self, event: PhysicsEvent, transition: Option<TransitionRecord>, queued: &Vec<QueuedEvent>) -> (r: TransitionStep)
        requires
            old(self).processed() < old(self).event_limit(),
            old(self).microsteps() < old(self).microstep_limit(),
        ensures
            final(self).next_transition() == old(self).next_transition(),
            final(self).last_transition_at() == old(self).last_transition_at(),
            final(self).wf() == old(self).wf(),
            r.event.event == event,
            r.transition == transition,
            r.event.status == (match transition {
                Some(t) => EventExecutionStatus::Transition { id: t.id },
                None => EventExecutionStatus::NoTransition,
            }),
            final(self).pending().len() == old(self).pending().len() + queued@.len(),
            final(self).world_view() == old(self).world_view(),
            final(self).now() == old(self).now(),
            final(self).processed() == old(self).processed() + 1,
            final(self).event_records().len() == old(self).event_records().len() + 1,
            final(self).event_records().drop_last() == old(self).event_records(),
            same_event(final(self).event_records().last().event, event),
            final(self).event_records().last().status == r.event.status,
            final(self).transition_records() == old(self).transition_records(),
            same_config(*final(self), *old(self)),
            final(self).pending().len() == 0 ==> final(self).status() is Complete,
            final(self).pending().len() > 0 ==> final(self).status() is InProgress,
            final(self).orders() == old(self).orders(),
            final(self).state_trace() == old(self).state_trace(),
            final(self).shape_trace() == old(self).shape_trace(),
            final(self).microsteps() == old(self).microsteps() + 1,
            final(self).next_event_id() == id_after(old(self).next_event_id(), queued@.len()),
            children_scheduled(
                old(self).pending(),
                final(self).pending(),
                event,
                queued@,
                old(self).profile().zero_delay,
                old(self).next_event_id(),
            ),
    {
        self.schedule_children(&event, queued);
        self.processed_events = self.processed_events + 1;
        self.microsteps_this_game_tick = self.microsteps_this_game_tick + 1;
        let status = match &transition {
            Some(t) => EventExecutionStatus::Transition { id: t.id },
            None => EventExecutionStatus::NoTransition,
        };
        let ghost before = self.event_trace.records@;
        self.event_trace.records.push(EventRecord { event: event.copy(), status });
        assert(self.event_trace.records@.drop_last() =~= before);
        if self.queue.is_empty() {
            self.mark_trace_complete();
        } else {
            self.mark_trace_in_progress();
        }
        TransitionStep { event: EventRecord { event, status }, transition }
    }

    /// Applies the handler's result for a popped event: an accepted outcome
    /// is applied atomically and recorded, a refused one puts the event back.
    fn finish_step(&mut self, popped: Popped, res: Result<EventOutcome, PhysicsEngineError>, Ghost(start): Ghost<PhysicsEngine>) -> (r: Result<Option<TransitionStep>, PhysicsEngineError>)
        requires
            old(self).next_transition() == start.next_transition(),
            old(self).last_transition_at() == start.last_transition_at(),
            old(self).state_trace() == start.state_trace(),
            old(self).wf(),
            start.wf(),
            step_runs_handler(start),
            after_pop(start, popped, *old(self)),
        ensures
            r is Err ==> final(self).next_transition() == start.next_transition() && final(self).last_transition_at() == start.last_transition_at(),
            r is Err ==> final(self).state_trace() == start.state_trace(),
            final(self).wf(),
            same_config(*final(self), start),
            r matches Err(e) ==> same_execution(*final(self), start) && fails_with(final(self).status(), e),
            r is Ok ==> !(final(self).status() is Failed),
            step_effect(start, popped.event, res, r, *final(self)),
    {
        proof {
            lemma_after_pop(start, popped, *self);
        }
        match res {
            Err(e) => Err(self.reject(popped, e, Ghost(start))),
            Ok(o) => self.finish_outcome(popped, o, Ghost(start)),
        }
    }

    /// Applies an outcome or puts the event back with the error that
    /// refuses it.
    fn finish_outcome(&mut self, popped: Popped, outcome: EventOutcome, Ghost(start): Ghost<PhysicsEngine>) -> (r: Result<Option<TransitionStep>, PhysicsEngineError>)
        requires
            old(self).next_transition() == start.next_transition(),
            old(self).last_transition_at() == start.last_transition_at(),
            old(self).state_trace() == start.state_trace(),
            old(self).wf(),
            start.wf(),
            step_runs_handler(start),
            after_pop(start, popped, *old(self)),
        ensures
            r is Err ==> final(self).next_transition() == start.next_transition() && final(self).last_transition_at() == start.last_transition_at(),
            r is Err ==> final(self).state_trace() == start.state_trace(),
            final(self).wf(),
            same_config(*final(self), start),
            r matches Err(e) ==> same_execution(*final(self), start) && fails_with(final(self).status(), e),
            step_effect(start, popped.event, Ok(outcome), r, *final(self)),
    {
        let ghost ev = popped.event;
        let ghost o = outcome;
        let ghost w = start.world_view();
        let ghost p = start.profile();
        proof {
            lemma_after_pop(start, popped, *self);
        }
        match find_regression(&self.scheduler_profile, popped.event.time, &outcome.queued) {
            Some(k) => {
                let child_phase = outcome.queued[k].phase;
                let parent = popped.event.time;
                proof {
                    lemma_refused_regression(p, ev.time, w, o, k as int);
                }
                let error = PhysicsEngineError::CausalOrderViolation { parent, child_phase };
                return Err(self.reject(popped, error, Ghost(start)));
            },
            None => {},
        }
        if outcome.delta.is_some() && outcome.changes.len() > 0 {
            proof {
                lemma_refused_mixed(p, ev.time, w, o);
            }
            return Err(self.reject(popped, PhysicsEngineError::InvalidOutcome, Ghost(start)));
        }
        let EventOutcome { changes, delta, queued } = outcome;
        let ghost before_apply = *self;
        let transition = match self.apply_outcome_world(&popped.event, changes, delta) {
            Err(e) => {
                proof {
                    lemma_refused_world(p, ev.time, w, o, e);
                    lemma_popped_from_kept(start, popped, before_apply, *self);
                }
                return Err(self.reject(popped, e, Ghost(start)));
            },
            Ok(t) => t,
        };
        proof {
            lemma_accepted(p, ev.time, w, o);
        }
        let Popped { event, checkpoint: _, previous_time: _, previous_microsteps: _ } = popped;
        let step = self.record_step(event, transition, &queued);
        Ok(Some(step))
    }

    /// Executes at most one pending event with `handler` and reports the
    /// event record and the transition it produced. A rejected event goes
    /// back to the queue with the scheduler state it had, and the trace is
    /// marked failed.
    pub fn step_transition<F: FnMut(&PhysicsEvent, &World) -> Result<EventOutcome, PhysicsEngineError>>(
        &mut self,
        handler: &mut F,
    ) -> (r: Result<Option<TransitionStep>, PhysicsEngineError>)
        requires
            old(self).wf(),
            forall|h: F, e: &PhysicsEvent, w: &World| w.wf() ==> call_requires(h, (e, w)),
        ensures
            r is Err ==> final(self).next_transition() == old(self).next_transition() && final(self).last_transition_at() == old(self).last_transition_at(),
            r is Err ==> final(self).state_trace() == old(self).state_trace(),
            r matches Ok(None) ==> final(self).state_trace() == old(self).state_trace(),
            final(self).wf(),
            same_config(*final(self), *old(self)),
            r matches Err(e) ==> same_execution(*final(self), *old(self)) && fails_with(final(self).status(), e),
            step_before_handler(*old(self), r, *final(self)),
            r matches Ok(Some(_)) ==> !(final(self).status() is Failed),
            step_runs_handler(*old(self)) ==> exists|res: Result<EventOutcome, PhysicsEngineError>|
                #[trigger] call_ensures(*old(handler), (&next_event(*old(self)), &old(self).world_view()), res) && step_effect(
                    *old(self),
                    next_event(*old(self)),
                    res,
                    r,
                    *final(self),
                ),
    {
        let ghost start = *self;
        let popped = match self.begin_step() {
            Err(e) => {
                return Err(e);
            },
            Ok(None) => {
                return Ok(None);
            },
            Ok(Some(p)) => p,
        };
        proof {
            lemma_after_pop(start, popped, *self);
        }
        let ghost h0 = *handler;
        let res = handler(&popped.event, &self.world);
        assert(call_ensures(h0, (&next_event(start), &start.world_view()), res));
        self.finish_step(popped, res, Ghost(start))
    }

    /// Runs events with `handler` until the queue is empty, an event is
    /// rejected or a limit is reached.
    pub fn run_until_idle_checked<F: FnMut(&PhysicsEvent, &World) -> Result<EventOutcome, PhysicsEngineError>>(
        &mut self,
        handler: F,
    ) -> (r: Result<(), PhysicsEngineError>)
        requires
            old(self).wf(),
            forall|h: F, e: &PhysicsEvent, w: &World| w.wf() ==> call_requires(h, (e, w)),
        ensures
            final(self).wf(),
            same_config(*final(self), *old(self)),
            !old(self).profile().valid() ==> r == Err::<(), PhysicsEngineError>(
                PhysicsEngineError::InvalidSchedulerProfile(profile_problem(old(self).profile().order())->0),
            ),
            r is Ok ==> final(self).pending().len() == 0,
            r is Ok ==> final(self).status() is Complete || (old(self).status() is Failed && old(self).pending().len() == 0
                && final(self).status() == old(self).status()),
            r matches Err(e) ==> fails_with(final(self).status(), e),
            final(self).processed() >= old(self).processed(),
            old(self).profile().valid() && old(self).pending().len() == 0 ==> r is Ok && same_execution(*final(self), *old(self)),
            old(self).profile().valid() ==> handler_run_result(handler, *old(self), r, *final(self)),
    {
        let ghost h0 = handler;
        let mut current = handler;
        match self.scheduler_profile.validate() {
            Err(e) => {
                let error = PhysicsEngineError::InvalidSchedulerProfile(e);
                self.mark_trace_failed(&error);
                return Err(error);
            },
            Ok(()) => {},
        }
        proof {
            reveal(same_orders);
        }
        let ghost mut hs: Seq<F> = seq![current];
        let ghost mut run: Seq<PhysicsEngine> = seq![*self];
        let ghost mut moved = false;
        loop
            invariant_except_break
                run.last() == *self,
                hs.last() == current,
                !moved ==> *self == *old(self),
            invariant
                moved ==> !(self.status() is Failed),
                h0 == handler,
                handler_run(hs, run),
                hs[0] == h0,
                run[0] == *old(self),
                self.wf(),
                same_config(*self, *old(self)),
                self.processed() >= old(self).processed(),
                self.processed() <= self.event_limit() || self.processed() == old(self).processed(),
                forall|h: F, e: &PhysicsEvent, w: &World| w.wf() ==> call_requires(h, (e, w)),
                old(self).profile().valid() && old(self).pending().len() == 0 ==> same_execution(*self, *old(self)),
            ensures
                self.wf(),
                same_config(*self, *old(self)),
                self.processed() >= old(self).processed(),
                self.pending().len() == 0,
                old(self).profile().valid() && old(self).pending().len() == 0 ==> same_execution(*self, *old(self)),
                handler_run(hs, run),
                hs[0] == h0,
                run[0] == *old(self),
                run.last().pending().len() == 0,
                same_execution(*self, run.last()),
                self.state_trace() == run.last().state_trace(),
                self.status() is Complete || (old(self).status() is Failed && old(self).pending().len() == 0
                    && self.status() == old(self).status()),
            decreases self.event_limit() + old(self).processed() + 1 - self.processed(),
        {
            proof {
                reveal(same_orders);
            }
            let ghost start = *self;
            let ghost hb = current;
            let stepped = self.step_transition(&mut current);
            proof {
                lemma_handler_step(hb, start, stepped, *self);
            }
            match stepped {
                Err(e) => {
                    proof {
                        lemma_handler_result(h0, hs, run, *old(self), Err(e), *self);
                    }
                    return Err(e);
                },
                Ok(None) => {
                    break;
                },
                Ok(Some(_)) => {
                    proof {
                        lemma_handler_push(hs, run, current, *self);
                        hs = hs.push(current);
                        run = run.push(*self);
                        moved = true;
                    }
                },
            }
        }
        if !self.transition_trace.status.is_failed() {
            self.mark_trace_complete();
        }
        Ok(())
    }

    /// Runs events with a handler that cannot reject them.
    pub fn run_until_idle<F: FnMut(&PhysicsEvent, &World) -> EventOutcome>(&mut self, handler: F) -> (r: Result<(), PhysicsEngineError>)
        requires
            old(self).wf(),
            forall|h: F, e: &PhysicsEvent, w: &World| w.wf() ==> call_requires(h, (e, w)),
        ensures
            final(self).wf(),
            same_config(*final(self), *old(self)),
            !old(self).profile().valid() ==> r == Err::<(), PhysicsEngineError>(
                PhysicsEngineError::InvalidSchedulerProfile(profile_problem(old(self).profile().order())->0),
            ),
            r is Ok ==> final(self).pending().len() == 0,
            r is Ok ==> final(self).status() is Complete || (old(self).status() is Failed && old(self).pending().len() == 0
                && final(self).status() == old(self).status()),
            r matches Err(e) ==> fails_with(final(self).status(), e),
            final(self).processed() >= old(self).processed(),
            old(self).profile().valid() && old(self).pending().len() == 0 ==> r is Ok && same_execution(*final(self), *old(self)),
            old(self).profile().valid() ==> outcome_run_result(handler, *old(self), r, *final(self)),
    {
        let ghost h0 = handler;
        let mut current = handler;
        match self.scheduler_profile.validate() {
            Err(e) => {
                let error = PhysicsEngineError::InvalidSchedulerProfile(e);
                self.mark_trace_failed(&error);
                return Err(error);
            },
            Ok(()) => {},
        }
        proof {
            reveal(same_orders);
        }
        let ghost mut hs: Seq<F> = seq![current];
        let ghost mut run: Seq<PhysicsEngine> = seq![*self];
        let ghost mut moved = false;
        loop
            invariant_except_break
                run.last() == *self,
                hs.last() == current,
                !moved ==> *self == *old(self),
            invariant
                moved ==> !(self.status() is Failed),
                h0 == handler,
                outcome_run(hs, run),
                hs[0] == h0,
                run[0] == *old(self),
                self.wf(),
                same_config(*self, *old(self)),
                self.processed() >= old(self).processed(),
                self.processed() <= self.event_limit() || self.processed() == old(self).processed(),
                forall|h: F, e: &PhysicsEvent, w: &World| w.wf() ==> call_requires(h, (e, w)),
                old(self).profile().valid() && old(self).pending().len() == 0 ==> same_execution(*self, *old(self)),
            ensures
                self.wf(),
                same_config(*self, *old(self)),
                self.processed() >= old(self).processed(),
                self.pending().len() == 0,
                old(self).profile().valid() && old(self).pending().len() == 0 ==> same_execution(*self, *old(self)),
                outcome_run(hs, run),
                hs[0] == h0,
                run[0] == *old(self),
                run.last().pending().len() == 0,
                same_execution(*self, run.last()),
                self.state_trace() == run.last().state_trace(),
                self.status() is Complete || (old(self).status() is Failed && old(self).pending().len() == 0
                    && self.status() == old(self).status()),
            decreases self.event_limit() + old(self).processed() + 1 - self.processed(),
        {
            proof {
                reveal(same_orders);
            }
            let ghost start = *self;
            let popped = match self.begin_step() {
                Err(e) => {
                    proof {
                        lemma_outcome_gate(current, start, e, *self);
                        lemma_outcome_result(h0, hs, run, *old(self), Err(e), *self);
                    }
                    return Err(e);
                },
                Ok(None) => {
                    break;
                },
                Ok(Some(p)) => p,
            };
            proof {
                lemma_after_pop(start, popped, *self);
            }
            let ghost hb = current;
            let outcome = current(&popped.event, &self.world);
            assert(call_ensures(hb, (&next_event(start), &start.world_view()), outcome));
            let finished = self.finish_step(popped, Ok(outcome), Ghost(start));
            proof {
                lemma_outcome_step(hb, start, outcome, finished, *self);
            }
            match finished {
                Err(e) => {
                    proof {
                        lemma_outcome_result(h0, hs, run, *old(self), Err(e), *self);
                    }
                    return Err(e);
                },
                Ok(_) => {
                    proof {
                        lemma_outcome_push(hs, run, current, *self);
                        hs = hs.push(current);
                        run = run.push(*self);
                        moved = true;
                    }
                },
            }
        }
        if !self.transition_trace.status.is_failed() {
            self.mark_trace_complete();
        }
        Ok(())
    }
}


// ---------------------------------------------------------------------------
// The built-in runners.
// ---------------------------------------------------------------------------

/// `b` follows `a` by one event run with the handler in state `h`: the
/// handler's result for the next event in `a`'s world is accepted.
#[verifier::opaque]
pub open spec fn handler_step<F: FnMut(&PhysicsEvent, &World) -> Result<EventOutcome, PhysicsEngineError>>(
    h: F,
    a: PhysicsEngine,
    b: PhysicsEngine,
) -> bool {
    &&& step_runs_handler(a)
    &&& exists|res: Result<EventOutcome, PhysicsEngineError>, step: TransitionStep|
        call_ensures(h, (&next_event(a), &a.world_view()), res) && #[trigger] step_effect(a, next_event(a), res, Ok(Some(step)), b)
}

/// `s` lists the engine states of a run with a handler whose states before
/// each call are `hs`.
pub open spec fn handler_run<F: FnMut(&PhysicsEvent, &World) -> Result<EventOutcome, PhysicsEngineError>>(
    hs: Seq<F>,
    s: Seq<PhysicsEngine>,
) -> bool {
    &&& s.len() > 0
    &&& hs.len() == s.len()
    &&& forall|k: int| 0 <= k < s.len() - 1 ==> handler_step(hs[k], #[trigger] s[k], s[k + 1])
}

/// A run with a handler in state `h` stops at `a` with `e`: a gate refuses
/// the step or the next event would run backwards (the causal-order, event
/// limit and microstep limit errors), or the handler's result for the next
/// event is an error or is refused.
#[verifier::opaque]
pub open spec fn handler_stops<F: FnMut(&PhysicsEvent, &World) -> Result<EventOutcome, PhysicsEngineError>>(
    h: F,
    a: PhysicsEngine,
    e: PhysicsEngineError,
) -> bool {
    if step_runs_handler(a) {
        exists|res: Result<EventOutcome, PhysicsEngineError>|
            call_ensures(h, (&next_event(a), &a.world_view()), res) && #[trigger] step_effect(a, next_event(a), res, Err(e), a)
    } else {
        step_before_handler(a, Err(e), a)
    }
}

/// What a run with `handler` from `start` ends with: on success, the state
/// of a run that emptied the queue; on failure, the state of a run that
/// stops with that error.
pub open spec fn handler_run_result<F: FnMut(&PhysicsEvent, &World) -> Result<EventOutcome, PhysicsEngineError>>(
    handler: F,
    start: PhysicsEngine,
    r: Result<(), PhysicsEngineError>,
    end: PhysicsEngine,
) -> bool {
    match r {
        Ok(()) => exists|hs: Seq<F>, s: Seq<PhysicsEngine>|
            #[trigger] handler_run(hs, s) && hs[0] == handler && s[0] == start && s.last().pending().len() == 0 && same_execution(
                end,
                s.last(),
            ) && end.state_trace() == s.last().state_trace(),
        Err(e) => exists|hs: Seq<F>, s: Seq<PhysicsEngine>|
            #[trigger] handler_run(hs, s) && hs[0] == handler && s[0] == start && handler_stops(hs.last(), s.last(), e)
                && same_execution(end, s.last()) && end.state_trace() == s.last().state_trace(),
    }
}

proof fn lemma_handler_step<F: FnMut(&PhysicsEvent, &World) -> Result<EventOutcome, PhysicsEngineError>>(
    h: F,
    a: PhysicsEngine,
    r: Result<Option<TransitionStep>, PhysicsEngineError>,
    b: PhysicsEngine,
)
    requires
        step_before_handler(a, r, b),
        step_runs_handler(a) ==> exists|res: Result<EventOutcome, PhysicsEngineError>|
            #[trigger] call_ensures(h, (&next_event(a), &a.world_view()), res) && step_effect(a, next_event(a), res, r, b),
    ensures
        r matches Ok(Some(_)) ==> handler_step(h, a, b),
        r matches Err(e) ==> handler_stops(h, a, e),
        r matches Ok(None) ==> !step_runs_handler(a) && a.pending().len() == 0,
{
    reveal(handler_step);
    reveal(handler_stops);
    if step_runs_handler(a) {
        let res = choose|res: Result<EventOutcome, PhysicsEngineError>|
            #[trigger] call_ensures(h, (&next_event(a), &a.world_view()), res) && step_effect(a, next_event(a), res, r, b);
        if r is Ok {
            if r->Ok_0 is Some {
                let st = r->Ok_0->0;
                assert(step_effect(a, next_event(a), res, Ok(Some(st)), b));
            }
        } else {
            let e = r->Err_0;
            assert(step_effect(a, next_event(a), res, Err(e), a));
        }
    }
}

proof fn lemma_handler_push<F: FnMut(&PhysicsEvent, &World) -> Result<EventOutcome, PhysicsEngineError>>(
    hs: Seq<F>,
    s: Seq<PhysicsEngine>,
    h: F,
    b: PhysicsEngine,
)
    requires
        handler_run(hs, s),
        handler_step(hs.last(), s.last(), b),
    ensures
        handler_run(hs.push(h), s.push(b)),
        hs.push(h)[0] == hs[0],
        s.push(b)[0] == s[0],
{
    let hs2 = hs.push(h);
    let s2 = s.push(b);
    assert forall|k: int| 0 <= k < s2.len() - 1 implies handler_step(hs2[k], #[trigger] s2[k], s2[k + 1]) by {
        if k < s.len() - 1 {
            assert(hs2[k] == hs[k] && s2[k] == s[k] && s2[k + 1] == s[k + 1]);
        } else {
            assert(hs2[k] == hs.last() && s2[k] == s.last());
        }
    }
}

proof fn lemma_handler_result<F: FnMut(&PhysicsEvent, &World) -> Result<EventOutcome, PhysicsEngineError>>(
    h0: F,
    hs: Seq<F>,
    run: Seq<PhysicsEngine>,
    start: PhysicsEngine,
    r: Result<(), PhysicsEngineError>,
    end: PhysicsEngine,
)
    requires
        handler_run(hs, run),
        hs[0] == h0,
        run[0] == start,
        same_execution(end, run.last()),
        end.state_trace() == run.last().state_trace(),
        r is Ok ==> run.last().pending().len() == 0,
        r matches Err(e) ==> handler_stops(hs.last(), run.last(), e),
    ensures
        handler_run_result(h0, start, r, end),
{
}

/// `b` follows `a` by one event run with the non-rejecting handler in
/// state `h`: the handler's outcome for the next event in `a`'s world is
/// accepted.
#[verifier::opaque]
pub open spec fn outcome_step<F: FnMut(&PhysicsEvent, &World) -> EventOutcome>(h: F, a: PhysicsEngine, b: PhysicsEngine) -> bool {
    &&& step_runs_handler(a)
    &&& exists|o: EventOutcome, step: TransitionStep|
        call_ensures(h, (&next_event(a), &a.world_view()), o) && #[trigger] step_effect(
            a,
            next_event(a),
            Ok(o),
            Ok(Some(step)),
            b,
        )
}

/// `s` lists the engine states of a run with a non-rejecting handler whose
/// states before each call are `hs`.
pub open spec fn outcome_run<F: FnMut(&PhysicsEvent, &World) -> EventOutcome>(hs: Seq<F>, s: Seq<PhysicsEngine>) -> bool {
    &&& s.len() > 0
    &&& hs.len() == s.len()
    &&& forall|k: int| 0 <= k < s.len() - 1 ==> outcome_step(hs[k], #[trigger] s[k], s[k + 1])
}

/// A run with a non-rejecting handler in state `h` stops at `a` with `e`:
/// a gate refuses the step or the next event would run backwards, or the
/// handler's outcome for the next event is refused.
#[verifier::opaque]
pub open spec fn outcome_stops<F: FnMut(&PhysicsEvent, &World) -> EventOutcome>(h: F, a: PhysicsEngine, e: PhysicsEngineError) -> bool {
    if step_runs_handler(a) {
        exists|o: EventOutcome|
            call_ensures(h, (&next_event(a), &a.world_view()), o) && #[trigger] step_effect(a, next_event(a), Ok(o), Err(e), a)
    } else {
        step_before_handler(a, Err(e), a)
    }
}

/// What a run with a non-rejecting `handler` from `start` ends with.
pub open spec fn outcome_run_result<F: FnMut(&PhysicsEvent, &World) -> EventOutcome>(handler: F, start: PhysicsEngine, r: Result<(), PhysicsEngineError>, end: PhysicsEngine) -> bool {
    match r {
        Ok(()) => exists|hs: Seq<F>, s: Seq<PhysicsEngine>|
            #[trigger] outcome_run(hs, s) && hs[0] == handler && s[0] == start && s.last().pending().len() == 0 && same_execution(
                end,
                s.last(),
            ) && end.state_trace() == s.last().state_trace(),
        Err(e) => exists|hs: Seq<F>, s: Seq<PhysicsEngine>|
            #[trigger] outcome_run(hs, s) && hs[0] == handler && s[0] == start && outcome_stops(hs.last(), s.last(), e)
                && same_execution(end, s.last()) && end.state_trace() == s.last().state_trace(),
    }
}

proof fn lemma_outcome_step<F: FnMut(&PhysicsEvent, &World) -> EventOutcome>(h: F, a: PhysicsEngine, o: EventOutcome, r: Result<Option<TransitionStep>, PhysicsEngineError>, b: PhysicsEngine)
    requires
        step_runs_handler(a),
        call_ensures(h, (&next_event(a), &a.world_view()), o),
        step_effect(a, next_event(a), Ok(o), r, b),
    ensures
        r is Ok ==> outcome_step(h, a, b),
        r matches Err(e) ==> outcome_stops(h, a, e),
{
    reveal(outcome_step);
    reveal(outcome_stops);
    if r is Ok {
        let st = r->Ok_0->0;
        assert(step_effect(a, next_event(a), Ok(o), Ok(Some(st)), b));
    } else {
        let e = r->Err_0;
        assert(step_effect(a, next_event(a), Ok(o), Err(e), a));
    }
}

proof fn lemma_outcome_gate<F: FnMut(&PhysicsEvent, &World) -> EventOutcome>(h: F, a: PhysicsEngine, e: PhysicsEngineError, b: PhysicsEngine)
    requires
        !step_runs_handler(a),
        step_before_handler(a, Err(e), b),
    ensures
        outcome_stops(h, a, e),
{
    reveal(outcome_stops);
}

proof fn lemma_outcome_push<F: FnMut(&PhysicsEvent, &World) -> EventOutcome>(hs: Seq<F>, s: Seq<PhysicsEngine>, h: F, b: PhysicsEngine)
    requires
        outcome_run(hs, s),
        outcome_step(hs.last(), s.last(), b),
    ensures
        outcome_run(hs.push(h), s.push(b)),
        hs.push(h)[0] == hs[0],
        s.push(b)[0] == s[0],
{
    let hs2 = hs.push(h);
    let s2 = s.push(b);
    assert forall|k: int| 0 <= k < s2.len() - 1 implies outcome_step(hs2[k], #[trigger] s2[k], s2[k + 1]) by {
        if k < s.len() - 1 {
            assert(hs2[k] == hs[k] && s2[k] == s[k] && s2[k + 1] == s[k + 1]);
        } else {
            assert(hs2[k] == hs.last() && s2[k] == s.last());
        }
    }
}

proof fn lemma_outcome_result<F: FnMut(&PhysicsEvent, &World) -> EventOutcome>(
    h0: F,
    hs: Seq<F>,
    run: Seq<PhysicsEngine>,
    start: PhysicsEngine,
    r: Result<(), PhysicsEngineError>,
    end: PhysicsEngine,
)
    requires
        outcome_run(hs, run),
        hs[0] == h0,
        run[0] == start,
        same_execution(end, run.last()),
        end.state_trace() == run.last().state_trace(),
        r is Ok ==> run.last().pending().len() == 0,
        r matches Err(e) ==> outcome_stops(hs.last(), run.last(), e),
    ensures
        outcome_run_result(h0, start, r, end),
{
}

/// Some pending event, in listing order, is one the runner in `mode` does
/// not handle.
pub open spec fn has_unhandled(mode: RunnerMode, e: PhysicsEngine) -> bool {
    exists|k: int|
        0 <= k < e.pending().len() && !handles(
            mode,
            e.pending()[crate::time::queue::listing(crate::time::scheduler::all_phases(), e.pending(), e.pending().len())[k]].kind,
        )
}

/// `b` follows `a` by one event run with the built-in handler in `mode`:
/// the next event runs with an outcome the handler gives for it in `a`'s
/// world, and the engine accepts that outcome.
pub open spec fn builtin_step(mode: RunnerMode, a: PhysicsEngine, b: PhysicsEngine) -> bool {
    &&& step_runs_handler(a)
    &&& exists|res: Result<EventOutcome, PhysicsEngineError>, step: TransitionStep|
        builtin_result(
            mode,
            a.motion().initial_delay_max_game_ticks,
            a.motion().movement_game_ticks,
            a.region(),
            next_event(a),
            a.world_view(),
            res,
        ) && #[trigger] step_effect(a, next_event(a), res, Ok(Some(step)), b)
}

/// `s` lists the engine states of a run with the built-in handler in
/// `mode`, each following the one before by one event.
pub open spec fn builtin_run(mode: RunnerMode, s: Seq<PhysicsEngine>) -> bool {
    &&& s.len() > 0
    &&& forall|k: int| 0 <= k < s.len() - 1 ==> builtin_step(mode, #[trigger] s[k], s[k + 1])
}

/// A run with the built-in handler in `mode` stops at `a` with `e`: a gate
/// refuses the step or the next event would run backwards, or the
/// handler's outcome for the next event fails or is refused.
pub open spec fn builtin_stops(mode: RunnerMode, a: PhysicsEngine, e: PhysicsEngineError) -> bool {
    if step_runs_handler(a) {
        exists|res: Result<EventOutcome, PhysicsEngineError>|
            builtin_result(
                mode,
                a.motion().initial_delay_max_game_ticks,
                a.motion().movement_game_ticks,
                a.region(),
                next_event(a),
                a.world_view(),
                res,
            ) && #[trigger] step_effect(a, next_event(a), res, Err(e), a)
    } else {
        step_before_handler(a, Err(e), a)
    }
}

/// What a built-in runner in `mode` ends with, once its motion profile and
/// pending events passed the checks: on success, the state of a run from
/// `start` that emptied the queue; on failure, the state of a run from
/// `start` that stops with that error.
pub open spec fn builtin_run_result(mode: RunnerMode, start: PhysicsEngine, r: Result<(), PhysicsEngineError>, end: PhysicsEngine) -> bool {
    match r {
        Ok(()) => exists|s: Seq<PhysicsEngine>|
            #[trigger] builtin_run(mode, s) && s[0] == start && s.last().pending().len() == 0 && same_execution(end, s.last())
                && end.state_trace() == s.last().state_trace(),
        Err(e) => exists|s: Seq<PhysicsEngine>|
            #[trigger] builtin_run(mode, s) && s[0] == start && builtin_stops(mode, s.last(), e) && same_execution(end, s.last())
                && end.state_trace() == s.last().state_trace(),
    }
}

proof fn lemma_run_push(mode: RunnerMode, run: Seq<PhysicsEngine>, b: PhysicsEngine)
    requires
        builtin_run(mode, run),
        builtin_step(mode, run.last(), b),
    ensures
        builtin_run(mode, run.push(b)),
        run.push(b)[0] == run[0],
        run.push(b).last() == b,
{
    let r2 = run.push(b);
    assert forall|k: int| 0 <= k < r2.len() - 1 implies builtin_step(mode, #[trigger] r2[k], r2[k + 1]) by {
        if k < run.len() - 1 {
            assert(r2[k] == run[k] && r2[k + 1] == run[k + 1]);
        } else {
            assert(r2[k] == run.last());
        }
    }
}

proof fn lemma_builtin_step(
    mode: RunnerMode,
    a: PhysicsEngine,
    res: Result<EventOutcome, PhysicsEngineError>,
    r: Result<Option<TransitionStep>, PhysicsEngineError>,
    b: PhysicsEngine,
)
    requires
        step_runs_handler(a),
        builtin_result(
            mode,
            a.motion().initial_delay_max_game_ticks,
            a.motion().movement_game_ticks,
            a.region(),
            next_event(a),
            a.world_view(),
            res,
        ),
        step_effect(a, next_event(a), res, r, b),
    ensures
        r is Ok ==> builtin_step(mode, a, b),
        r matches Err(e) ==> builtin_stops(mode, a, e),
{
    if r is Ok {
        let st = r->Ok_0->0;
        assert(step_effect(a, next_event(a), res, Ok(Some(st)), b));
    }
    if r is Err {
        let e = r->Err_0;
        assert(step_effect(a, next_event(a), res, Err(e), a));
    }
}

/// Listing position `k` holds the first pending event that the runner in
/// `mode` does not handle.
pub open spec fn first_unhandled(mode: RunnerMode, e: PhysicsEngine, k: int) -> bool {
    let ls = crate::time::queue::listing(crate::time::scheduler::all_phases(), e.pending(), e.pending().len());
    &&& 0 <= k < e.pending().len()
    &&& !handles(mode, e.pending()[ls[k]].kind)
    &&& forall|j: int| 0 <= j < k ==> handles(mode, e.pending()[#[trigger] ls[j]].kind)
}

/// Copies of a kind other than a completion carry the same data.
proof fn lemma_same_kind_trans(a: PhysicsEventKind, b: PhysicsEventKind, c: PhysicsEventKind)
    requires
        crate::time::event::same_kind(a, b),
        crate::time::event::same_kind(b, c),
        !(b is PistonComplete),
    ensures
        crate::time::event::same_kind(a, c),
{
    match (a, b, c) {
        (PhysicsEventKind::WorldChange { after: x }, PhysicsEventKind::WorldChange { after: y }, PhysicsEventKind::WorldChange {
            after: z,
        }) => {
            crate::world::lemma_same_block_trans(*x, *y, *z);
        },
        _ => {},
    }
}

/// The piston motion profile has a valid initial delay range.
pub open spec fn motion_valid(p: PistonMotionProfile) -> bool {
    p.initial_delay_min_game_ticks <= p.initial_delay_max_game_ticks
}

impl PhysicsEngine {
    /// Runs queued events with the built-in handler in `mode`. The motion
    /// profile and every pending event are checked before any event runs.
    fn run_piston_events_with_mode(&mut self, mode: RunnerMode) -> (r: Result<(), PhysicsEngineError>)
        requires
            old(self).wf(),
        ensures
            final(self).wf(),
            same_config(*final(self), *old(self)),
            !motion_valid(old(self).motion()) ==> r == Err::<(), PhysicsEngineError>(
                PhysicsEngineError::InvalidPistonMotionProfile(
                    PistonMotionProfileError::InvalidInitialDelayRange {
                        minimum_game_ticks: old(self).motion().initial_delay_min_game_ticks,
                        maximum_game_ticks: old(self).motion().initial_delay_max_game_ticks,
                    },
                ),
            ) && same_execution(*final(self), *old(self)) && final(self).state_trace() == old(self).state_trace(),
            motion_valid(old(self).motion()) && has_unhandled(mode, *old(self)) ==> (r matches Err(
                PhysicsEngineError::UnsupportedEvent { .. },
            ) && same_execution(*final(self), *old(self)) && final(self).state_trace() == old(self).state_trace()),
            motion_valid(old(self).motion()) && has_unhandled(mode, *old(self)) ==> exists|k: int|
                #[trigger] first_unhandled(mode, *old(self), k) && ({
                    let ev = old(self).pending()[crate::time::queue::listing(
                        crate::time::scheduler::all_phases(),
                        old(self).pending(),
                        old(self).pending().len(),
                    )[k]];
                    r matches Err(PhysicsEngineError::UnsupportedEvent { time, kind }) && time == ev.time && crate::time::event::same_kind(
                        kind,
                        ev.kind,
                    )
                }),
            r is Ok ==> final(self).pending().len() == 0,
            r is Ok ==> final(self).status() is Complete || (old(self).status() is Failed && old(self).pending().len() == 0
                && final(self).status() == old(self).status()),
            r matches Err(e) ==> fails_with(final(self).status(), e),
            final(self).processed() >= old(self).processed(),
            motion_valid(old(self).motion()) && !has_unhandled(mode, *old(self)) ==> builtin_run_result(
                mode,
                *old(self),
                r,
                *final(self),
            ),
    {
        match self.piston_motion_profile.validate() {
            Err(e) => {
                let error = PhysicsEngineError::InvalidPistonMotionProfile(e);
                self.mark_trace_failed(&error);
                proof {
                    reveal(same_orders);
                }
                return Err(error);
            },
            Ok(()) => {},
        }
        let listed = self.queue.iter();
        let n = listed.len();
        let mut i: usize = 0;
        while i < n
            invariant
                n == listed@.len(),
                n == self.pending().len(),
                i <= n,
                *self == *old(self),
                self.wf(),
                motion_valid(self.motion()),
                forall|k: int|
                    0 <= k < n ==> crate::time::event::same_event(
                        #[trigger] listed@[k],
                        self.pending()[crate::time::queue::listing(crate::time::scheduler::all_phases(), self.pending(), self.pending().len())[k]],
                    ),
                forall|k: int|
                    0 <= k < i ==> handles(
                        mode,
                        self.pending()[crate::time::queue::listing(crate::time::scheduler::all_phases(), self.pending(), self.pending().len())[k]].kind,
                    ),
            decreases n - i,
        {
            if !handles_kind(mode, &listed[i].kind) {
                let kind = listed[i].kind.copy();
                let error = PhysicsEngineError::UnsupportedEvent { time: listed[i].time, kind };
                self.mark_trace_failed(&error);
                proof {
                    reveal(same_orders);
                    let ls = crate::time::queue::listing(crate::time::scheduler::all_phases(), self.pending(), self.pending().len());
                    let ev = self.pending()[ls[i as int]];
                    assert(crate::time::event::same_event(listed@[i as int], ev));
                    lemma_same_kind_trans(kind, listed@[i as int].kind, ev.kind);
                    assert(first_unhandled(mode, *old(self), i as int));
                }
                return Err(error);
            }
            i = i + 1;
        }
        let activation = self.piston_motion_profile.initial_delay_max_game_ticks;
        let movement = self.piston_motion_profile.stable_completion_delay_game_ticks();
        let region = self.piston_planning_region;
        match self.scheduler_profile.validate() {
            Err(e) => {
                let error = PhysicsEngineError::InvalidSchedulerProfile(e);
                self.mark_trace_failed(&error);
                proof {
                    reveal(same_orders);
                    let s = seq![*old(self)];
                    assert(builtin_run(mode, s));
                    assert(builtin_stops(mode, s.last(), error));
                }
                return Err(error);
            },
            Ok(()) => {},
        }
        let ghost mut run: Seq<PhysicsEngine> = seq![*self];
        let ghost end: PhysicsEngine = *self;
        let ghost mut moved = false;
        loop
            invariant_except_break
                run.last() == *self,
                !moved ==> *self == *old(self),
            invariant
                moved ==> !(self.status() is Failed),
                self.wf(),
                same_config(*self, *old(self)),
                self.processed() >= old(self).processed(),
                self.processed() <= self.event_limit() || self.processed() == old(self).processed(),
                motion_valid(old(self).motion()),
                !has_unhandled(mode, *old(self)),
                activation == old(self).motion().initial_delay_max_game_ticks,
                movement == old(self).motion().movement_game_ticks,
                region == old(self).region(),
                builtin_run(mode, run),
                run[0] == *old(self),
            ensures
                self.wf(),
                same_config(*self, *old(self)),
                self.processed() >= old(self).processed(),
                self.pending().len() == 0,
                builtin_run(mode, run),
                run[0] == *old(self),
                run.last().pending().len() == 0,
                same_execution(*self, run.last()),
                self.state_trace() == run.last().state_trace(),
                self.status() is Complete || (old(self).status() is Failed && old(self).pending().len() == 0
                    && self.status() == old(self).status()),
            decreases self.event_limit() + old(self).processed() + 1 - self.processed(),
        {
            let ghost start = *self;
            let popped = match self.begin_step() {
                Err(e) => {
                    proof {
                        assert(builtin_stops(mode, run.last(), e));
                    }
                    return Err(e);
                },
                Ok(None) => {
                    break;
                },
                Ok(Some(p)) => p,
            };
            proof {
                lemma_after_pop(start, popped, *self);
            }
            let res = builtin_outcome(mode, activation, movement, region, &popped.event, &self.world);
            let finished = self.finish_step(popped, res, Ghost(start));
            proof {
                lemma_builtin_step(mode, start, res, finished, *self);
            }
            match finished {
                Err(e) => {
                    return Err(e);
                },
                Ok(_) => {
                    proof {
                        lemma_run_push(mode, run, *self);
                        run = run.push(*self);
                        moved = true;
                    }
                },
            }
        }
        proof {
            reveal(same_orders);
        }
        if !self.transition_trace.status.is_failed() {
            self.mark_trace_complete();
        }
        Ok(())
    }

    /// Runs queued piston block events: a block event records the moving
    /// state and queues its completion after the motion profile's delay;
    /// the completion applies the stable movement atomically. Any other
    /// pending event is refused before anything runs.
    pub fn run_piston_events(&mut self) -> (r: Result<(), PhysicsEngineError>)
        requires
            old(self).wf(),
        ensures
            final(self).wf(),
            same_config(*final(self), *old(self)),
            motion_valid(old(self).motion()) && has_unhandled(RunnerMode::PistonOnly, *old(self)) ==> (r matches Err(
                PhysicsEngineError::UnsupportedEvent { .. },
            ) && same_execution(*final(self), *old(self)) && final(self).state_trace() == old(self).state_trace()),
            !motion_valid(old(self).motion()) ==> r is Err && same_execution(*final(self), *old(self)) && final(self).state_trace() == old(self).state_trace(),
            r is Ok ==> final(self).pending().len() == 0,
            r is Ok ==> final(self).status() is Complete || (old(self).status() is Failed && old(self).pending().len() == 0
                && final(self).status() == old(self).status()),
            r matches Err(e) ==> fails_with(final(self).status(), e),
            motion_valid(old(self).motion()) && !has_unhandled(RunnerMode::PistonOnly, *old(self)) ==> builtin_run_result(
                RunnerMode::PistonOnly,
                *old(self),
                r,
                *final(self),
            ),
            motion_valid(old(self).motion()) && has_unhandled(RunnerMode::PistonOnly, *old(self)) ==> exists|k: int|
                #[trigger] first_unhandled(RunnerMode::PistonOnly, *old(self), k) && ({
                    let ev = old(self).pending()[crate::time::queue::listing(
                        crate::time::scheduler::all_phases(),
                        old(self).pending(),
                        old(self).pending().len(),
                    )[k]];
                    r matches Err(PhysicsEngineError::UnsupportedEvent { time, kind }) && time == ev.time
                        && crate::time::event::same_kind(kind, ev.kind)
                }),
    {
        self.run_piston_events_with_mode(RunnerMode::PistonOnly)
    }

    /// Runs a directly redstone-driven piston queue: an input edge updates
    /// its source and notifies adjacent pistons, which schedule the block
    /// event their input power calls for.
    pub fn run_redstone_piston_events(&mut self) -> (r: Result<(), PhysicsEngineError>)
        requires
            old(self).wf(),
        ensures
            final(self).wf(),
            same_config(*final(self), *old(self)),
            motion_valid(old(self).motion()) && has_unhandled(RunnerMode::DirectPiston, *old(self)) ==> (r matches Err(
                PhysicsEngineError::UnsupportedEvent { .. },
            ) && same_execution(*final(self), *old(self)) && final(self).state_trace() == old(self).state_trace()),
            !motion_valid(old(self).motion()) ==> r is Err && same_execution(*final(self), *old(self)) && final(self).state_trace() == old(self).state_trace(),
            r is Ok ==> final(self).pending().len() == 0,
            r is Ok ==> final(self).status() is Complete || (old(self).status() is Failed && old(self).pending().len() == 0
                && final(self).status() == old(self).status()),
            r matches Err(e) ==> fails_with(final(self).status(), e),
            motion_valid(old(self).motion()) && !has_unhandled(RunnerMode::DirectPiston, *old(self)) ==> builtin_run_result(
                RunnerMode::DirectPiston,
                *old(self),
                r,
                *final(self),
            ),
            motion_valid(old(self).motion()) && has_unhandled(RunnerMode::DirectPiston, *old(self)) ==> exists|k: int|
                #[trigger] first_unhandled(RunnerMode::DirectPiston, *old(self), k) && ({
                    let ev = old(self).pending()[crate::time::queue::listing(
                        crate::time::scheduler::all_phases(),
                        old(self).pending(),
                        old(self).pending().len(),
                    )[k]];
                    r matches Err(PhysicsEngineError::UnsupportedEvent { time, kind }) && time == ev.time
                        && crate::time::event::same_kind(kind, ev.kind)
                }),
    {
        self.run_piston_events_with_mode(RunnerMode::DirectPiston)
    }

    /// Runs the bounded world-driven redstone subset: world changes and
    /// input edges propagate through wire, lamps and repeaters until no
    /// update is pending; pistons reuse the moving and completion phases.
    pub fn run_redstone_propagation(&mut self) -> (r: Result<(), PhysicsEngineError>)
        requires
            old(self).wf(),
        ensures
            final(self).wf(),
            same_config(*final(self), *old(self)),
            motion_valid(old(self).motion()) && has_unhandled(RunnerMode::Propagation, *old(self)) ==> (r matches Err(
                PhysicsEngineError::UnsupportedEvent { .. },
            ) && same_execution(*final(self), *old(self)) && final(self).state_trace() == old(self).state_trace()),
            !motion_valid(old(self).motion()) ==> r is Err && same_execution(*final(self), *old(self)) && final(self).state_trace() == old(self).state_trace(),
            r is Ok ==> final(self).pending().len() == 0,
            r is Ok ==> final(self).status() is Complete || (old(self).status() is Failed && old(self).pending().len() == 0
                && final(self).status() == old(self).status()),
            r matches Err(e) ==> fails_with(final(self).status(), e),
            motion_valid(old(self).motion()) && !has_unhandled(RunnerMode::Propagation, *old(self)) ==> builtin_run_result(
                RunnerMode::Propagation,
                *old(self),
                r,
                *final(self),
            ),
            motion_valid(old(self).motion()) && has_unhandled(RunnerMode::Propagation, *old(self)) ==> exists|k: int|
                #[trigger] first_unhandled(RunnerMode::Propagation, *old(self), k) && ({
                    let ev = old(self).pending()[crate::time::queue::listing(
                        crate::time::scheduler::all_phases(),
                        old(self).pending(),
                        old(self).pending().len(),
                    )[k]];
                    r matches Err(PhysicsEngineError::UnsupportedEvent { time, kind }) && time == ev.time
                        && crate::time::event::same_kind(kind, ev.kind)
                }),
    {
        self.run_piston_events_with_mode(RunnerMode::Propagation)
    }
}

} // verus!
