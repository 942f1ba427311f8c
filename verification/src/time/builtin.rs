//! The built-in event handler: piston block events and completions, direct
//! redstone inputs, and the bounded world-driven wire/lamp/repeater subset.

use vstd::prelude::*;

use crate::delta::{before_matches, ChangeReason, DeltaCause, Region, WorldDelta, WorldDeltaError};
use crate::piston::{
    has_planning_room, planning_room, piston_state, plan_made, plan_outcome, plan_piston, plan_piston_in_region, PistonAction,
    PistonError, PistonPlan,
};
use crate::redstone::{
    direct_piston_neighbors, external_world_delta, piston_input_powered_in_region,
    redstone_input_delta, redstone_lamp_delta, redstone_position_known,
    redstone_repeater_delay_game_ticks, redstone_repeater_delta,
    redstone_repeater_input_powered, redstone_repeater_output_position,
    redstone_repeater_powered, redstone_update_positions, redstone_wire_delta, reevaluation_result,
    repeater_input, repeater_output, repeater_reevaluation, single_change, update_target,
    RedstonePropagationError, RedstoneFailure, Reevaluation, known_failure, reports_redstone,
    wire_reevaluation, lamp_reevaluation, piston_powered_upto, sorted_pos,
};
use crate::time::engine::{EventOutcome, PhysicsEngineError};
use crate::time::event::{
    BlockEventKind, PhysicsEvent, PhysicsEventKind, PhysicsEventPhase, QueuedEvent,
};
use crate::world::{kind_of, neighbor, neighbors_in_range, pos_lt, same_block, Block, BlockKind, Facing, PistonState, Pos, World};

verus! {

/// Which events the built-in runner accepts.
#[derive(Clone, Copy, Debug, PartialEq, Eq, Structural)]
pub enum RunnerMode {
    /// Piston block events and completions only.
    PistonOnly,
    /// Also typed redstone inputs driving directly adjacent pistons.
    DirectPiston,
    /// Also world changes and repeater ticks propagated through wire, lamps
    /// and repeaters.
    Propagation,
}

/// Every coordinate of `p` is at least `m` away from the `i32` bounds.
pub open spec fn margin(p: Pos, m: int) -> bool {
    &&& i32::MIN + m <= p.x <= i32::MAX - m
    &&& i32::MIN + m <= p.y <= i32::MAX - m
    &&& i32::MIN + m <= p.z <= i32::MAX - m
}

/// The room around the target that the handler needs for an event of
/// `kind` in `w`: a piston block event plans the piston, which needs room
/// ahead of its facing; a neighbor update of an empty position reads
/// nothing around it; every other event reads positions at most three
/// steps away.
pub open spec fn handler_range(w: World, kind: PhysicsEventKind, p: Pos) -> bool {
    match kind {
        PhysicsEventKind::BlockEvent { .. } => planning_room(w, p),
        PhysicsEventKind::NeighborUpdate { .. } => w.block_at(p) is None || margin(p, 3),
        _ => margin(p, 3),
    }
}

fn in_margin3(p: Pos) -> (r: bool)
    ensures
        r == margin(p, 3),
{
    let lo: i32 = i32::MIN + 3;
    let hi: i32 = i32::MAX - 3;
    lo <= p.x && p.x <= hi && lo <= p.y && p.y <= hi && lo <= p.z && p.z <= hi
}

/// Whether the target of an event of `kind` leaves the room the handler
/// needs in `world`.
pub fn in_handler_range(world: &World, kind: &PhysicsEventKind, p: Pos) -> (r: bool)
    requires
        world.wf(),
    ensures
        r == handler_range(*world, *kind, p),
{
    match kind {
        PhysicsEventKind::BlockEvent { .. } => has_planning_room(world, p),
        PhysicsEventKind::NeighborUpdate { .. } => world.get(p).is_none() || in_margin3(p),
        _ => in_margin3(p),
    }
}

proof fn lemma_neighbor_margin(p: Pos, f: Facing, m: int)
    requires
        margin(p, m),
        1 <= m <= 16,
    ensures
        margin(neighbor(p, f), m - 1),
{
}

proof fn lemma_update_margin(p: Pos, include_self: bool, q: Pos, m: int)
    requires
        margin(p, m),
        1 <= m <= 16,
        update_target(p, include_self, q),
    ensures
        margin(q, m - 1),
{
    if !(include_self && q == p) {
        let f = choose|f: Facing| q == #[trigger] neighbor(p, f);
        lemma_neighbor_margin(p, f, m);
    }
}

/// The child completes a piston `action`.
pub open spec fn completes(q: QueuedEvent, action: PistonAction) -> bool {
    q.kind matches PhysicsEventKind::PistonComplete { action: a, .. } && a == action
}

/// The outcome applies a copy of `d`.
pub open spec fn carries(o: EventOutcome, d: WorldDelta) -> bool {
    o.delta matches Some(x) && crate::delta::same_delta(x, d)
}

/// Whether the runner in `mode` handles events of `kind`.
pub open spec fn handles(mode: RunnerMode, kind: PhysicsEventKind) -> bool {
    let piston_event = match kind {
        PhysicsEventKind::BlockEvent { event } => event is PistonExtend || event is PistonRetract,
        PhysicsEventKind::PistonComplete { .. } => true,
        _ => false,
    };
    let input_event = !(mode is PistonOnly) && (kind is RedstoneInput || kind is NeighborUpdate);
    let world_event = mode is Propagation && (kind is WorldChange || kind is RepeaterTick);
    piston_event || input_event || world_event
}

/// Whether the runner in `mode` handles events of `kind`.
pub fn handles_kind(mode: RunnerMode, kind: &PhysicsEventKind) -> (r: bool)
    ensures
        r == handles(mode, *kind),
{
    let piston_event = match kind {
        PhysicsEventKind::BlockEvent { event } => match event {
            BlockEventKind::PistonExtend => true,
            BlockEventKind::PistonRetract => true,
            BlockEventKind::Custom { .. } => false,
        },
        PhysicsEventKind::PistonComplete { .. } => true,
        _ => false,
    };
    let inputs = match mode {
        RunnerMode::PistonOnly => false,
        _ => true,
    };
    let propagation = match mode {
        RunnerMode::Propagation => true,
        _ => false,
    };
    let input_event = inputs && match kind {
        PhysicsEventKind::RedstoneInput { .. } => true,
        PhysicsEventKind::NeighborUpdate { .. } => true,
        _ => false,
    };
    let world_event = propagation && match kind {
        PhysicsEventKind::WorldChange { .. } => true,
        PhysicsEventKind::RepeaterTick { .. } => true,
        _ => false,
    };
    piston_event || input_event || world_event
}

fn from_piston(e: PistonError) -> (r: PhysicsEngineError)
    ensures
        r == PhysicsEngineError::Piston(Box::new(e)),
{
    PhysicsEngineError::Piston(Box::new(e))
}

fn from_redstone(e: RedstonePropagationError) -> (r: PhysicsEngineError)
    ensures
        r == PhysicsEngineError::Redstone(Box::new(e)),
{
    PhysicsEngineError::Redstone(Box::new(e))
}

fn from_delta(e: WorldDeltaError) -> (r: PhysicsEngineError)
    ensures
        r == PhysicsEngineError::WorldDelta(Box::new(e)),
{
    PhysicsEngineError::WorldDelta(Box::new(e))
}

fn unsupported(event: &PhysicsEvent) -> (r: PhysicsEngineError)
    ensures
        r matches PhysicsEngineError::UnsupportedEvent { time, kind } && time == event.time
            && crate::time::event::same_kind(kind, event.kind),
{
    PhysicsEngineError::UnsupportedEvent { time: event.time, kind: event.kind.copy() }
}

/// A neighbor update from `source` to each position it reaches, in `phase`.
pub fn queue_redstone_neighbors_in_phase(source: Pos, include_self: bool, phase: PhysicsEventPhase) -> (r: Vec<QueuedEvent>)
    requires
        neighbors_in_range(source),
    ensures
        forall|k: int|
            0 <= k < r@.len() ==> (#[trigger] r@[k]).delay_ticks == 0 && r@[k].phase == phase
                && r@[k].kind == (PhysicsEventKind::NeighborUpdate { source }) && update_target(
                source,
                include_self,
                r@[k].target,
            ),
        forall|q: Pos| update_target(source, include_self, q) ==> exists|k: int| 0 <= k < r@.len() && (#[trigger] r@[k]).target == q,
{
    let positions = redstone_update_positions(source, include_self);
    let n = positions.len();
    let mut out: Vec<QueuedEvent> = Vec::new();
    let mut i: usize = 0;
    while i < n
        invariant
            n == positions@.len(),
            i <= n,
            out@.len() == i,
            forall|q: Pos| positions@.contains(q) <==> update_target(source, include_self, q),
            forall|k: int|
                0 <= k < i ==> (#[trigger] out@[k]).delay_ticks == 0 && out@[k].phase == phase
                    && out@[k].kind == (PhysicsEventKind::NeighborUpdate { source }) && out@[k].target
                    == positions@[k],
        decreases n - i,
    {
        out.push(
            QueuedEvent {
                delay_ticks: 0,
                target: positions[i],
                phase,
                kind: PhysicsEventKind::NeighborUpdate { source },
            },
        );
        i = i + 1;
    }
    proof {
        assert forall|k: int| 0 <= k < out@.len() implies update_target(source, include_self, (#[trigger] out@[k]).target) by {
            assert(positions@.contains(positions@[k]));
        }
        assert forall|q: Pos| update_target(source, include_self, q) implies exists|k: int|
            0 <= k < out@.len() && (#[trigger] out@[k]).target == q by {
            assert(positions@.contains(q));
            let k = choose|k: int| 0 <= k < positions@.len() && positions@[k] == q;
            assert(out@[k].target == q);
        }
    }
    out
}

/// A neighbor update from `source` to each position it reaches.
pub fn queue_redstone_neighbors(source: Pos, include_self: bool) -> (r: Vec<QueuedEvent>)
    requires
        neighbors_in_range(source),
    ensures
        forall|k: int|
            0 <= k < r@.len() ==> (#[trigger] r@[k]).delay_ticks == 0 && r@[k].phase == PhysicsEventPhase::NeighborUpdate
                && r@[k].kind == (PhysicsEventKind::NeighborUpdate { source }) && update_target(
                source,
                include_self,
                r@[k].target,
            ),
        forall|q: Pos| update_target(source, include_self, q) ==> exists|k: int| 0 <= k < r@.len() && (#[trigger] r@[k]).target == q,
{
    queue_redstone_neighbors_in_phase(source, include_self, PhysicsEventPhase::NeighborUpdate)
}

/// The first failure a repeater preflight at `p` meets, if any: evaluating
/// its input, its state, its delay or its output, or an output outside the
/// known region.
pub open spec fn repeater_check(w: World, known: Option<Region>, p: Pos) -> Option<RedstoneFailure> {
    match repeater_input(w, known, p) {
        Err(f) => Some(f),
        Ok(_) => match crate::redstone::repeater_powered(w, p) {
            Err(f) => Some(f),
            Ok(_) => match crate::redstone::repeater_delay(w, p) {
                Err(f) => Some(f),
                Ok(_) => match repeater_output(w, known, p) {
                    Err(f) => Some(f),
                    Ok(o) => known_failure(known, o, BlockKind::Air),
                },
            },
        },
    }
}

/// `r` is `Ok` without a failure, and otherwise the redstone error that
/// reports it.
pub open spec fn fails_with(r: Result<(), PhysicsEngineError>, f: Option<RedstoneFailure>) -> bool {
    match f {
        None => r is Ok,
        Some(f) => r matches Err(PhysicsEngineError::Redstone(e)) && reports_redstone(*e, f),
    }
}

/// The wire at `p` has the repeater `q` among its update targets, and the
/// preflight of `q` fails.
pub open spec fn repeater_neighbor_fails(w: World, known: Option<Region>, p: Pos, q: Pos) -> bool {
    update_target(p, false, q) && kind_of(w.block_at(q)) == BlockKind::Repeater && repeater_check(w, known, q) is Some
}

/// The preflight of `p` passes: the position is known and its component can
/// be evaluated (a wire together with the repeaters it updates).
pub open spec fn target_ok(w: World, known: Option<Region>, p: Pos) -> bool {
    &&& known_failure(known, p, BlockKind::Air) is None
    &&& match kind_of(w.block_at(p)) {
        BlockKind::RedstoneWire => !(wire_reevaluation(w, known, p) is Fails) && forall|q: Pos|
            !#[trigger] repeater_neighbor_fails(w, known, p, q),
        BlockKind::RedstoneLamp => !(lamp_reevaluation(w, known, p) is Fails),
        BlockKind::Piston => piston_powered_upto(w, known, p, 6) is Ok,
        BlockKind::Repeater => repeater_check(w, known, p) is None,
        _ => true,
    }
}

/// `e` is what the preflight of `p` reports when it fails: an unknown
/// position, the failure of its component, or for a wire the failure of
/// the first failing repeater it updates.
pub open spec fn target_error(w: World, known: Option<Region>, p: Pos, e: RedstonePropagationError) -> bool {
    match known_failure(known, p, BlockKind::Air) {
        Some(f) => reports_redstone(e, f),
        None => match kind_of(w.block_at(p)) {
            BlockKind::RedstoneWire => match wire_reevaluation(w, known, p) {
                Reevaluation::Fails(f) => reports_redstone(e, f),
                _ => exists|q: Pos|
                    #[trigger] repeater_neighbor_fails(w, known, p, q) && (forall|q2: Pos|
                        pos_lt(q2, q) ==> !#[trigger] repeater_neighbor_fails(w, known, p, q2)) && reports_redstone(
                        e,
                        repeater_check(w, known, q)->0,
                    ),
            },
            BlockKind::RedstoneLamp => lamp_reevaluation(w, known, p) matches Reevaluation::Fails(f) && reports_redstone(e, f),
            BlockKind::Piston => piston_powered_upto(w, known, p, 6) matches Err(f) && reports_redstone(e, f),
            BlockKind::Repeater => repeater_check(w, known, p) matches Some(f) && reports_redstone(e, f),
            _ => false,
        },
    }
}

/// Checks the repeater at `position`: its input, state, delay and output
/// must all be evaluable inside the known region.
fn preflight_repeater(world: &World, known_region: Option<Region>, position: Pos) -> (r: Result<(), PhysicsEngineError>)
    requires
        world.wf(),
        neighbors_in_range(position),
    ensures
        fails_with(r, repeater_check(*world, known_region, position)),
{
    match redstone_repeater_input_powered(world, position, known_region) {
        Err(e) => return Err(from_redstone(e)),
        Ok(_) => {},
    }
    match redstone_repeater_powered(world, position) {
        Err(e) => return Err(from_redstone(e)),
        Ok(_) => {},
    }
    match redstone_repeater_delay_game_ticks(world, position) {
        Err(e) => return Err(from_redstone(e)),
        Ok(_) => {},
    }
    let output = match redstone_repeater_output_position(world, position, known_region) {
        Err(e) => return Err(from_redstone(e)),
        Ok(o) => o,
    };
    match redstone_position_known(known_region, output) {
        Err(e) => Err(from_redstone(e)),
        Ok(()) => Ok(()),
    }
}

/// Validates every position an update would reach before the update is
/// accepted, so that an unknown or malformed component refuses the whole
/// event instead of leaving a partial propagation behind.
pub fn preflight_redstone_targets(world: &World, known_region: Option<Region>, positions: &Vec<Pos>) -> (r: Result<(), PhysicsEngineError>)
    requires
        world.wf(),
        forall|k: int| 0 <= k < positions@.len() ==> margin(#[trigger] positions@[k], 2),
    ensures
        r is Ok <==> forall|k: int| 0 <= k < positions@.len() ==> target_ok(*world, known_region, #[trigger] positions@[k]),
        r matches Err(x) ==> x matches PhysicsEngineError::Redstone(e) && exists|i: int|
            0 <= i < positions@.len() && (forall|k: int| 0 <= k < i ==> target_ok(*world, known_region, #[trigger] positions@[k]))
                && #[trigger] target_error(*world, known_region, positions@[i], *e),
{
    let n = positions.len();
    let mut i: usize = 0;
    while i < n
        invariant
            n == positions@.len(),
            i <= n,
            world.wf(),
            forall|k: int| 0 <= k < positions@.len() ==> margin(#[trigger] positions@[k], 2),
            forall|k: int| 0 <= k < i ==> target_ok(*world, known_region, #[trigger] positions@[k]),
        decreases n - i,
    {
        let position = positions[i];
        assert(margin(positions@[i as int], 2));
        match redstone_position_known(known_region, position) {
            Err(e) => {
                proof {
                    assert(target_error(*world, known_region, positions@[i as int], e));
                }
                return Err(from_redstone(e));
            },
            Ok(()) => {},
        }
        match world.kind_at(position) {
            BlockKind::RedstoneWire => {
                match redstone_wire_delta(world, position, known_region) {
                    Err(e) => {
                        proof {
                            assert(target_error(*world, known_region, positions@[i as int], e));
                        }
                        return Err(from_redstone(e));
                    },
                    Ok(_) => {},
                }
                let neighbors = redstone_update_positions(position, false);
                let m = neighbors.len();
                let mut j: usize = 0;
                while j < m
                    invariant
                        m == neighbors@.len(),
                        j <= m,
                        world.wf(),
                        margin(position, 2),
                        i < n,
                        n == positions@.len(),
                        position == positions@[i as int],
                        forall|k: int| 0 <= k < i ==> target_ok(*world, known_region, #[trigger] positions@[k]),
                        known_failure(known_region, position, BlockKind::Air) is None,
                        kind_of(world.block_at(position)) == BlockKind::RedstoneWire,
                        !(wire_reevaluation(*world, known_region, position) is Fails),
                        sorted_pos(neighbors@),
                        forall|q: Pos| neighbors@.contains(q) <==> update_target(position, false, q),
                        forall|t: int| 0 <= t < j ==> !repeater_neighbor_fails(*world, known_region, position, #[trigger] neighbors@[t]),
                    decreases m - j,
                {
                    let q = neighbors[j];
                    proof {
                        assert(neighbors@.contains(q));
                        lemma_update_margin(position, false, q, 2);
                    }
                    if world.kind_at(q) == BlockKind::Repeater {
                        match preflight_repeater(world, known_region, q) {
                            Err(e) => {
                                proof {
                                    assert(repeater_neighbor_fails(*world, known_region, position, q));
                                    assert forall|q2: Pos| pos_lt(q2, q) implies !#[trigger] repeater_neighbor_fails(
                                        *world,
                                        known_region,
                                        position,
                                        q2,
                                    ) by {
                                        if repeater_neighbor_fails(*world, known_region, position, q2) {
                                            assert(neighbors@.contains(q2));
                                            let t = choose|t: int| 0 <= t < m && neighbors@[t] == q2;
                                            if t >= j {
                                                if t > j {
                                                    assert(pos_lt(neighbors@[j as int], neighbors@[t]));
                                                }
                                            }
                                        }
                                    }
                                    let bx = e->Redstone_0;
                            let ee = *bx;
                                    assert(target_error(*world, known_region, positions@[i as int], ee));
                                }
                                return Err(e);
                            },
                            Ok(()) => {},
                        }
                    }
                    j = j + 1;
                }
                proof {
                    assert forall|q: Pos| !#[trigger] repeater_neighbor_fails(*world, known_region, position, q) by {
                        if repeater_neighbor_fails(*world, known_region, position, q) {
                            assert(neighbors@.contains(q));
                            let t = choose|t: int| 0 <= t < m && neighbors@[t] == q;
                        }
                    }
                }
            },
            BlockKind::RedstoneLamp => {
                match redstone_lamp_delta(world, position, known_region) {
                    Err(e) => {
                        proof {
                            assert(target_error(*world, known_region, positions@[i as int], e));
                        }
                        return Err(from_redstone(e));
                    },
                    Ok(_) => {},
                }
            },
            BlockKind::Piston => {
                match piston_input_powered_in_region(world, known_region, position) {
                    Err(e) => {
                        proof {
                            assert(target_error(*world, known_region, positions@[i as int], e));
                        }
                        return Err(from_redstone(e));
                    },
                    Ok(_) => {},
                }
            },
            BlockKind::Repeater => {
                match preflight_repeater(world, known_region, position) {
                    Err(e) => {
                        proof {
                            let bx = e->Redstone_0;
                            let ee = *bx;
                            assert(target_error(*world, known_region, positions@[i as int], ee));
                        }
                        return Err(e);
                    },
                    Ok(()) => {},
                }
            },
            _ => {},
        }
        assert(target_ok(*world, known_region, positions@[i as int]));
        i = i + 1;
    }
    Ok(())
}

/// The positions an update from `source` reaches, each far enough from the
/// bounds for a preflight.
fn update_positions(source: Pos, include_self: bool) -> (r: Vec<Pos>)
    requires
        margin(source, 3),
    ensures
        forall|k: int| 0 <= k < r@.len() ==> margin(#[trigger] r@[k], 2),
        sorted_pos(r@),
        forall|q: Pos| r@.contains(q) <==> update_target(source, include_self, q),
{
    let positions = redstone_update_positions(source, include_self);
    proof {
        assert forall|k: int| 0 <= k < positions@.len() implies margin(#[trigger] positions@[k], 2) by {
            assert(positions@.contains(positions@[k]));
            lemma_update_margin(source, include_self, positions@[k], 3);
        }
    }
    positions
}

/// Plans a piston action at `target`, inside `region` when one is known.
fn plan_for(world: &World, region: Option<Region>, target: Pos, action: PistonAction) -> (r: Result<PistonPlan, PistonError>)
    requires
        world.wf(),
        planning_room(*world, target),
    ensures
        match crate::piston::plan_outcome(*world, region, target, action) {
            crate::piston::ChainScan::Length(k) => r matches Ok(plan) && plan_made(*world, target, action, k, plan),
            crate::piston::ChainScan::Fails(f) => r matches Err(e) && crate::piston::reports_failure(e, f),
        },
{
    match region {
        Some(region) => plan_piston_in_region(world, region, target, action),
        None => plan_piston(world, target, action),
    }
}

/// `c` is a copy of `w`: the same positions holding blocks with the same
/// data.
pub open spec fn copied(w: World, c: World) -> bool {
    &&& c.wf()
    &&& c@.len() == w@.len()
    &&& forall|i: int| 0 <= i < w@.len() ==> (#[trigger] c@[i]).0 == w@[i].0 && same_block(c@[i].1, w@[i].1)
}

/// A copy of `w` refuses the delta `d`.
pub open spec fn copy_rejects(w: World, d: WorldDelta) -> bool {
    exists|c: World| #[trigger] copied(w, c) && !(crate::delta::delta_check(d, c) is Valid)
}

/// `s` is a copy of `w` with the delta `d` applied, or a plain copy when
/// there is no delta.
pub open spec fn staged(w: World, d: Option<WorldDelta>, s: World) -> bool {
    match d {
        None => copied(w, s),
        Some(d) => s.wf() && exists|c: World|
            #[trigger] copied(w, c) && crate::delta::delta_check(d, c) is Valid && crate::delta::applied_world(c, d.changes@, s),
    }
}

/// In a world staged from `w` by `d`, the preflight of an update target of
/// `source` fails with `e`.
pub open spec fn staged_target_fails(
    w: World,
    d: Option<WorldDelta>,
    region: Option<Region>,
    source: Pos,
    include_self: bool,
    e: RedstonePropagationError,
) -> bool {
    exists|st: World, q: Pos| #[trigger] staged(w, d, st) && update_target(source, include_self, q) && #[trigger] target_error(st, region, q, e)
}

/// What a successful piston block event yields: the moving start delta of
/// the planned movement now, and its completion after `movement` game ticks.
pub open spec fn started(w: World, target: Pos, action: PistonAction, movement: u64, r: Result<EventOutcome, PhysicsEngineError>) -> bool {
    r matches Ok(o) ==> {
        &&& o.changes@.len() == 0
        &&& o.delta is Some
        &&& o.queued@.len() == 1
        &&& o.queued@[0].delay_ticks == movement
        &&& o.queued@[0].target == target
        &&& o.queued@[0].phase == PhysicsEventPhase::BlockEntity
        &&& completes(o.queued@[0], action)
        &&& exists|plan: PistonPlan, k: nat| plan_made(w, target, action, k, plan) && crate::piston::starts_with(o.delta->0, plan)
    }
}

/// `x` is the error of a failing piston block event at `target`: the
/// planning failure, a copy of the world refusing the plan's start delta,
/// or the plan going stale once the start delta is applied.
pub open spec fn piston_block_fails(w: World, region: Option<Region>, target: Pos, action: PistonAction, x: PhysicsEngineError) -> bool {
    match plan_outcome(w, region, target, action) {
        crate::piston::ChainScan::Fails(f) => x matches PhysicsEngineError::Piston(e) && crate::piston::reports_failure(*e, f),
        crate::piston::ChainScan::Length(k) => exists|plan: PistonPlan, d: WorldDelta|
            #[trigger] plan_made(w, target, action, k, plan) && #[trigger] crate::piston::starts_with(d, plan) && {
                ||| x is WorldDelta && copy_rejects(w, d)
                ||| exists|st: World|
                    #[trigger] staged(w, Some(d), st) && (crate::piston::completion_stale(plan, st) matches Some(p) && x
                        == PhysicsEngineError::Piston(Box::new(PistonError::StalePlan { position: p })))
            },
    }
}

/// The outcome of a piston block event: the moving start delta now and
/// the completion after the motion delay.
fn piston_block_outcome(world: &World, region: Option<Region>, target: Pos, action: PistonAction, movement: u64) -> (r: Result<EventOutcome, PhysicsEngineError>)
    requires
        world.wf(),
        planning_room(*world, target),
    ensures
        started(*world, target, action, movement, r),
        r matches Err(x) ==> piston_block_fails(*world, region, target, action, x),
{
    let plan = match plan_for(world, region, target, action) {
        Err(e) => return Err(from_piston(e)),
        Ok(p) => p,
    };
    let ghost k = plan_outcome(*world, region, target, action)->Length_0;
    let start_delta = plan.start_delta();
    let mut started = world.copy();
    let ghost c = started;
    match start_delta.apply(&mut started) {
        Err(e) => {
            assert(copied(*world, c));
            return Err(from_delta(e));
        },
        Ok(()) => {},
    }
    let completion = match plan.completion_plan(&started) {
        Err(e) => {
            assert(copied(*world, c));
            assert(staged(*world, Some(start_delta), started));
            return Err(from_piston(e));
        },
        Ok(c) => c,
    };
    let mut queued: Vec<QueuedEvent> = Vec::new();
    queued.push(
        QueuedEvent {
            delay_ticks: movement,
            target,
            phase: PhysicsEventPhase::BlockEntity,
            kind: PhysicsEventKind::PistonComplete { action, plan: Box::new(completion) },
        },
    );
    Ok(EventOutcome { changes: Vec::new(), delta: Some(start_delta), queued })
}

/// The piston at `target` is not in the state `ready` that a block event
/// starts from.
pub open spec fn not_ready(w: World, target: Pos, ready: PistonState) -> bool {
    w.block_at(target) matches Some(b) && b.kind == BlockKind::Piston && crate::piston::spec_piston_state(b) != ready
}

/// Whether a duplicate or reversed block event finds the piston already
/// moving or in the requested state, which the input runners keep as a
/// no-op.
fn piston_not_ready(world: &World, target: Pos, ready: PistonState) -> (r: bool)
    requires
        world.wf(),
    ensures
        r == not_ready(*world, target, ready),
{
    match world.get(target) {
        Some(piston) => piston.kind == BlockKind::Piston && piston_state(piston) != ready,
        None => false,
    }
}

/// `q` notifies, in update order, each piston directly next to `source`.
pub open spec fn notifies_pistons(q: Seq<QueuedEvent>, w: World, source: Pos) -> bool {
    &&& crate::redstone::sorted_pos(q.map_values(|e: QueuedEvent| e.target))
    &&& forall|k: int|
        0 <= k < q.len() ==> (#[trigger] q[k]).delay_ticks == 0 && q[k].phase == PhysicsEventPhase::NeighborUpdate
            && q[k].kind == (PhysicsEventKind::NeighborUpdate { source }) && update_target(source, false, q[k].target)
            && crate::redstone::holds_piston(w, q[k].target)
    &&& forall|p: Pos|
        update_target(source, false, p) && crate::redstone::holds_piston(w, p) ==> exists|k: int|
            0 <= k < q.len() && (#[trigger] q[k]).target == p
}

/// What a successful redstone input edge yields: the input takes the new
/// state and, when it changes, its neighbors are updated (every neighbor
/// when propagating, the adjacent pistons otherwise).
pub open spec fn redstone_input_result(
    w: World,
    target: Pos,
    powered: bool,
    propagation: bool,
    r: Result<EventOutcome, PhysicsEngineError>,
) -> bool {
    r matches Ok(o) ==> {
        &&& o.changes@.len() == 0
        &&& reevaluation_result(
            Ok(o.delta),
            crate::redstone::input_reevaluation(w, target, powered),
            w,
            target,
            ChangeReason::ExternalInput,
            DeltaCause::External,
        )
        &&& o.delta is None ==> o.queued@.len() == 0
        &&& o.delta is Some && propagation ==> notifies(o.queued@, target, false, PhysicsEventPhase::NeighborUpdate)
        &&& o.delta is Some && !propagation ==> notifies_pistons(o.queued@, w, target)
    }
}

/// In a world staged from `w` by `d`, the input of a piston next to
/// `source` fails to evaluate with `e`.
pub open spec fn staged_piston_fails(w: World, d: Option<WorldDelta>, region: Option<Region>, source: Pos, e: RedstonePropagationError) -> bool {
    exists|st: World, n: Pos|
        #[trigger] staged(w, d, st) && update_target(source, false, n) && crate::redstone::holds_piston(w, n) && (
        #[trigger] piston_powered_upto(st, region, n, 6) matches Err(f) && reports_redstone(e, f))
}

/// `x` is the error of a failing check after a redstone input edge at
/// `source`: when propagating, the preflight of a neighbor; otherwise the
/// input of an adjacent piston; both in the world with the edge applied.
pub open spec fn staged_input_fails(w: World, d: Option<WorldDelta>, region: Option<Region>, source: Pos, propagation: bool, x: PhysicsEngineError) -> bool {
    x matches PhysicsEngineError::Redstone(e) && if propagation {
        staged_target_fails(w, d, region, source, false, *e)
    } else {
        staged_piston_fails(w, d, region, source, *e)
    }
}

/// `x` is the error of a failing redstone input edge at `t`: the position
/// is outside the known region (a redstone error when propagating, a
/// piston error otherwise), the input cannot be re-evaluated, a copy of the
/// world refuses its change, or a check in the world with the edge applied
/// fails.
pub open spec fn redstone_input_fails(
    w: World,
    region: Option<Region>,
    t: Pos,
    powered: bool,
    propagation: bool,
    x: PhysicsEngineError,
) -> bool {
    if propagation && known_failure(region, t, BlockKind::Air) is Some {
        redstone_error(x, known_failure(region, t, BlockKind::Air)->0)
    } else if !propagation && !crate::piston::known_at(region, t) {
        x == PhysicsEngineError::Piston(Box::new(PistonError::UnknownSpace { position: t }))
    } else {
        match crate::redstone::input_reevaluation(w, t, powered) {
            Reevaluation::Fails(f) => redstone_error(x, f),
            Reevaluation::Unchanged => staged_input_fails(w, None, region, t, propagation, x),
            Reevaluation::Changes => exists|d: WorldDelta|
                #[trigger] single_change(d, w, t, ChangeReason::ExternalInput, DeltaCause::External) && {
                    ||| x is WorldDelta && copy_rejects(w, d)
                    ||| staged_input_fails(w, Some(d), region, t, propagation, x)
                },
        }
    }
}

/// The outcome of a typed redstone input edge.
fn redstone_input_outcome(world: &World, region: Option<Region>, target: Pos, powered: bool, propagation: bool) -> (r: Result<EventOutcome, PhysicsEngineError>)
    requires
        world.wf(),
        margin(target, 3),
    ensures
        redstone_input_result(*world, target, powered, propagation, r),
        r matches Err(x) ==> redstone_input_fails(*world, region, target, powered, propagation, x),
{
    if propagation {
        match redstone_position_known(region, target) {
            Err(e) => return Err(from_redstone(e)),
            Ok(()) => {},
        }
    }
    let mut neighbors: Vec<Pos> = Vec::new();
    if !propagation {
        match direct_piston_neighbors(world, region, target) {
            Err(e) => return Err(from_piston(e)),
            Ok(v) => {
                proof {
                    assert forall|k: int| 0 <= k < v@.len() implies neighbors_in_range(#[trigger] v@[k]) by {
                        assert(v@.contains(v@[k]));
                        lemma_update_margin(target, false, v@[k], 3);
                    }
                }
                neighbors = v;
            },
        }
    }
    assert(forall|k: int| 0 <= k < neighbors@.len() ==> neighbors_in_range(#[trigger] neighbors@[k]));
    let delta = match redstone_input_delta(world, target, powered) {
        Err(e) => return Err(from_redstone(e)),
        Ok(d) => d,
    };
    let stage = match &delta {
        Some(d) => {
            let mut updated = world.copy();
            let ghost c = updated;
            match d.apply(&mut updated) {
                Err(e) => {
                    assert(copied(*world, c));
                    return Err(from_delta(e));
                },
                Ok(()) => {},
            }
            assert(copied(*world, c));
            updated
        },
        None => world.copy(),
    };
    assert(staged(*world, delta, stage));
    if propagation {
        let positions = update_positions(target, false);
        match preflight_redstone_targets(&stage, region, &positions) {
            Err(e) => {
                proof {
                    let ee = *(e->Redstone_0);
                    let i = choose|i: int|
                        0 <= i < positions@.len() && (forall|k: int| 0 <= k < i ==> target_ok(stage, region, #[trigger] positions@[k]))
                            && #[trigger] target_error(stage, region, positions@[i], ee);
                    assert(positions@.contains(positions@[i]));
                    assert(staged_target_fails(*world, delta, region, target, false, ee));
                }
                return Err(e);
            },
            Ok(()) => {},
        }
    } else {
        let n = neighbors.len();
        let mut i: usize = 0;
        while i < n
            invariant
                n == neighbors@.len(),
                i <= n,
                stage.wf(),
                staged(*world, delta, stage),
                !propagation,
                crate::piston::known_at(region, target),
                reevaluation_result(
                    Ok(delta),
                    crate::redstone::input_reevaluation(*world, target, powered),
                    *world,
                    target,
                    ChangeReason::ExternalInput,
                    DeltaCause::External,
                ),
                forall|k: int| 0 <= k < n ==> neighbors_in_range(#[trigger] neighbors@[k]),
                forall|q: Pos| #[trigger] neighbors@.contains(q) <==> (update_target(target, false, q) && crate::redstone::holds_piston(*world, q)),
            decreases n - i,
        {
            match piston_input_powered_in_region(&stage, region, neighbors[i]) {
                Err(e) => {
                    proof {
                        assert(neighbors@.contains(neighbors@[i as int]));
                        assert(staged_piston_fails(*world, delta, region, target, e));
                        let x = PhysicsEngineError::Redstone(Box::new(e));
                        assert(staged_input_fails(*world, delta, region, target, propagation, x));
                        match delta {
                            Some(d) => {
                                assert(single_change(d, *world, target, ChangeReason::ExternalInput, DeltaCause::External));
                            },
                            None => {},
                        }
                    }
                    return Err(from_redstone(e));
                },
                Ok(_) => {},
            }
            i = i + 1;
        }
    }
    let queued = if delta.is_some() {
        if propagation {
            queue_redstone_neighbors(target, false)
        } else {
            let mut out: Vec<QueuedEvent> = Vec::new();
            let n = neighbors.len();
            let mut i: usize = 0;
            while i < n
                invariant
                    n == neighbors@.len(),
                    i <= n,
                    out@.len() == i,
                    forall|k: int|
                        0 <= k < i ==> #[trigger] out@[k] == (QueuedEvent {
                            delay_ticks: 0,
                            target: neighbors@[k],
                            phase: PhysicsEventPhase::NeighborUpdate,
                            kind: PhysicsEventKind::NeighborUpdate { source: target },
                        }),
                decreases n - i,
            {
                out.push(
                    QueuedEvent {
                        delay_ticks: 0,
                        target: neighbors[i],
                        phase: PhysicsEventPhase::NeighborUpdate,
                        kind: PhysicsEventKind::NeighborUpdate { source: target },
                    },
                );
                i = i + 1;
            }
            proof {
                assert(out@.map_values(|e: QueuedEvent| e.target) =~= neighbors@);
                assert forall|p: Pos|
                    update_target(target, false, p) && crate::redstone::holds_piston(*world, p) implies exists|k: int|
                        0 <= k < out@.len() && (#[trigger] out@[k]).target == p by {
                    assert(neighbors@.contains(p));
                    let k = choose|k: int| 0 <= k < neighbors@.len() && neighbors@[k] == p;
                    assert(out@[k].target == p);
                }
                assert forall|k: int| 0 <= k < out@.len() implies update_target(target, false, (#[trigger] out@[k]).target)
                    && crate::redstone::holds_piston(*world, out@[k].target) by {
                    assert(neighbors@.contains(neighbors@[k]));
                }
            }
            out
        }
    } else {
        Vec::new()
    };
    Ok(EventOutcome { changes: Vec::new(), delta, queued })
}

/// The block event a piston in state `state` calls for under input
/// `powered`: extend when retracted and powered, retract when extended and
/// unpowered.
pub open spec fn piston_call(state: PistonState, powered: bool) -> Option<BlockEventKind> {
    if state == PistonState::Retracted && powered {
        Some(BlockEventKind::PistonExtend)
    } else if state == PistonState::Extended && !powered {
        Some(BlockEventKind::PistonRetract)
    } else {
        None
    }
}

/// What a successful neighbor update yields. When propagating, a wire or
/// lamp re-evaluates its own state (a changed wire updates its neighbors in
/// the same phase) and a repeater whose input disagrees with its state
/// schedules a tick after its delay. Otherwise a piston schedules the block
/// event its input calls for after `activation` game ticks, and anything
/// else is a no-op.
pub open spec fn neighbor_update_result(
    w: World,
    region: Option<Region>,
    ev: PhysicsEvent,
    propagation: bool,
    activation: u64,
    r: Result<EventOutcome, PhysicsEngineError>,
) -> bool {
    let t = ev.target;
    let kind = crate::world::kind_of(w.block_at(t));
    r matches Ok(o) ==> {
        &&& o.changes@.len() == 0
        &&& propagation && kind is RedstoneWire ==> {
            &&& reevaluation_result(
                Ok(o.delta),
                crate::redstone::wire_reevaluation(w, region, t),
                w,
                t,
                ChangeReason::NeighborUpdate,
                DeltaCause::NeighborUpdate,
            )
            &&& o.delta is None ==> o.queued@.len() == 0
            &&& o.delta is Some ==> notifies(o.queued@, t, false, ev.time.phase)
        }
        &&& propagation && kind is RedstoneLamp ==> reevaluation_result(
            Ok(o.delta),
            crate::redstone::lamp_reevaluation(w, region, t),
            w,
            t,
            ChangeReason::NeighborUpdate,
            DeltaCause::NeighborUpdate,
        ) && o.queued@.len() == 0
        &&& propagation && kind is Repeater ==> {
            &&& o.delta is None
            &&& repeater_input(w, region, t) matches Ok(expected)
            &&& crate::redstone::repeater_powered(w, t) matches Ok(current)
            &&& current == expected ==> o.queued@.len() == 0
            &&& current != expected ==> (crate::redstone::repeater_delay(w, t) matches Ok(d) && o.queued@ == seq![
                QueuedEvent {
                    delay_ticks: d,
                    target: t,
                    phase: PhysicsEventPhase::ScheduledTick,
                    kind: PhysicsEventKind::RepeaterTick { expected_powered: expected },
                },
            ])
        }
        &&& !(propagation && (kind is RedstoneWire || kind is RedstoneLamp || kind is Repeater)) ==> {
            &&& o.delta is None
            &&& !(kind is Piston) ==> o.queued@.len() == 0
            &&& kind is Piston ==> (crate::redstone::piston_powered_upto(w, region, t, 6) matches Ok(powered) && match piston_call(
                crate::piston::spec_piston_state(w.block_at(t)->0),
                powered,
            ) {
                Some(call) => o.queued@ == seq![
                    QueuedEvent {
                        delay_ticks: activation,
                        target: t,
                        phase: PhysicsEventPhase::BlockEvent,
                        kind: PhysicsEventKind::BlockEvent { event: call },
                    },
                ],
                None => o.queued@.len() == 0,
            })
        }
    }
}

/// `x` is the redstone error that reports `f`.
pub open spec fn redstone_error(x: PhysicsEngineError, f: RedstoneFailure) -> bool {
    x matches PhysicsEngineError::Redstone(e) && reports_redstone(*e, f)
}

/// A neighbor update at `t` succeeds: when propagating, a wire or lamp
/// there can be re-evaluated, and a repeater there can evaluate its input
/// and state and, when they disagree, its delay, its output and the
/// preflight of the output; otherwise, or for any other block, a piston
/// there can evaluate its input.
pub open spec fn neighbor_update_ok(w: World, region: Option<Region>, t: Pos, propagation: bool) -> bool {
    let kind = kind_of(w.block_at(t));
    if propagation && kind is RedstoneWire {
        !(wire_reevaluation(w, region, t) is Fails)
    } else if propagation && kind is RedstoneLamp {
        !(lamp_reevaluation(w, region, t) is Fails)
    } else if propagation && kind is Repeater {
        match (repeater_input(w, region, t), crate::redstone::repeater_powered(w, t)) {
            (Ok(expected), Ok(current)) => current == expected || (crate::redstone::repeater_delay(w, t) is Ok && (repeater_output(
                w,
                region,
                t,
            ) matches Ok(o) && target_ok(w, region, o))),
            _ => false,
        }
    } else {
        kind is Piston ==> piston_powered_upto(w, region, t, 6) is Ok
    }
}

/// `x` is the error of a failing neighbor update at `t`: the first failure
/// met in the order of `neighbor_update_ok`.
pub open spec fn neighbor_update_fails(w: World, region: Option<Region>, t: Pos, propagation: bool, x: PhysicsEngineError) -> bool {
    let kind = kind_of(w.block_at(t));
    if propagation && kind is RedstoneWire {
        wire_reevaluation(w, region, t) matches Reevaluation::Fails(f) && redstone_error(x, f)
    } else if propagation && kind is RedstoneLamp {
        lamp_reevaluation(w, region, t) matches Reevaluation::Fails(f) && redstone_error(x, f)
    } else if propagation && kind is Repeater {
        match repeater_input(w, region, t) {
            Err(f) => redstone_error(x, f),
            Ok(expected) => match crate::redstone::repeater_powered(w, t) {
                Err(f) => redstone_error(x, f),
                Ok(current) => current != expected && match crate::redstone::repeater_delay(w, t) {
                    Err(f) => redstone_error(x, f),
                    Ok(_) => match repeater_output(w, region, t) {
                        Err(f) => redstone_error(x, f),
                        Ok(o) => x matches PhysicsEngineError::Redstone(e) && target_error(w, region, o, *e),
                    },
                },
            },
        }
    } else {
        kind is Piston && (piston_powered_upto(w, region, t, 6) matches Err(f) && redstone_error(x, f))
    }
}

/// The outcome of a neighbor update at `target`.
fn neighbor_update_outcome(world: &World, region: Option<Region>, event: &PhysicsEvent, propagation: bool, activation: u64) -> (r: Result<EventOutcome, PhysicsEngineError>)
    requires
        world.wf(),
        margin(event.target, 3) || world.block_at(event.target) is None,
    ensures
        neighbor_update_result(*world, region, *event, propagation, activation, r),
        r is Ok <==> neighbor_update_ok(*world, region, event.target, propagation),
        r matches Err(x) ==> neighbor_update_fails(*world, region, event.target, propagation, x),
{
    let target = event.target;
    if propagation {
        match world.kind_at(target) {
            BlockKind::RedstoneWire => {
                let delta = match redstone_wire_delta(world, target, region) {
                    Err(e) => return Err(from_redstone(e)),
                    Ok(d) => d,
                };
                let queued = if delta.is_some() {
                    queue_redstone_neighbors_in_phase(target, false, event.time.phase)
                } else {
                    Vec::new()
                };
                return Ok(EventOutcome { changes: Vec::new(), delta, queued });
            },
            BlockKind::RedstoneLamp => {
                let delta = match redstone_lamp_delta(world, target, region) {
                    Err(e) => return Err(from_redstone(e)),
                    Ok(d) => d,
                };
                return Ok(EventOutcome { changes: Vec::new(), delta, queued: Vec::new() });
            },
            BlockKind::Repeater => {
                let expected_powered = match redstone_repeater_input_powered(world, target, region) {
                    Err(e) => return Err(from_redstone(e)),
                    Ok(p) => p,
                };
                let current_powered = match redstone_repeater_powered(world, target) {
                    Err(e) => return Err(from_redstone(e)),
                    Ok(p) => p,
                };
                if current_powered == expected_powered {
                    return Ok(EventOutcome::none());
                }
                let delay_game_ticks = match redstone_repeater_delay_game_ticks(world, target) {
                    Err(e) => return Err(from_redstone(e)),
                    Ok(d) => d,
                };
                let output = match redstone_repeater_output_position(world, target, region) {
                    Err(e) => return Err(from_redstone(e)),
                    Ok(o) => o,
                };
                proof {
                    let f = choose|f: Facing| output == #[trigger] neighbor(target, f);
                    lemma_neighbor_margin(target, f, 3);
                }
                let mut outputs: Vec<Pos> = Vec::new();
                outputs.push(output);
                match preflight_redstone_targets(world, region, &outputs) {
                    Err(e) => return Err(e),
                    Ok(()) => {},
                }
                assert(outputs@[0] == output);
                assert(target_ok(*world, region, outputs@[0]));
                let mut queued: Vec<QueuedEvent> = Vec::new();
                queued.push(
                    QueuedEvent {
                        delay_ticks: delay_game_ticks,
                        target,
                        phase: PhysicsEventPhase::ScheduledTick,
                        kind: PhysicsEventKind::RepeaterTick { expected_powered },
                    },
                );
                return Ok(EventOutcome { changes: Vec::new(), delta: None, queued });
            },
            _ => {},
        }
    }
    let piston = match world.get(target) {
        None => return Ok(EventOutcome::none()),
        Some(p) => p,
    };
    if piston.kind != BlockKind::Piston {
        return Ok(EventOutcome::none());
    }
    let state = piston_state(piston);
    let powered = match piston_input_powered_in_region(world, region, target) {
        Err(e) => return Err(from_redstone(e)),
        Ok(p) => p,
    };
    let event_kind = if state == PistonState::Retracted && powered {
        Some(BlockEventKind::PistonExtend)
    } else if state == PistonState::Extended && !powered {
        Some(BlockEventKind::PistonRetract)
    } else {
        None
    };
    let mut queued: Vec<QueuedEvent> = Vec::new();
    match event_kind {
        Some(kind) => {
            queued.push(
                QueuedEvent {
                    delay_ticks: activation,
                    target,
                    phase: PhysicsEventPhase::BlockEvent,
                    kind: PhysicsEventKind::BlockEvent { event: kind },
                },
            );
        },
        None => {},
    }
    Ok(EventOutcome { changes: Vec::new(), delta: None, queued })
}

/// A delayed repeater tick at `t` succeeds: the repeater's input can be
/// evaluated and, when it still matches `expected`, its output can be found
/// and passes the preflight, and the repeater can be re-evaluated.
pub open spec fn repeater_tick_ok(w: World, region: Option<Region>, t: Pos, expected: bool) -> bool {
    match repeater_input(w, region, t) {
        Err(_) => false,
        Ok(current) => current != expected || (repeater_output(w, region, t) matches Ok(o) && target_ok(w, region, o)
            && !(repeater_reevaluation(w, region, t, expected) is Fails)),
    }
}

/// `x` is the error of a failing repeater tick at `t`: the first failure
/// met in the order of `repeater_tick_ok`.
pub open spec fn repeater_tick_fails(w: World, region: Option<Region>, t: Pos, expected: bool, x: PhysicsEngineError) -> bool {
    match repeater_input(w, region, t) {
        Err(f) => redstone_error(x, f),
        Ok(current) => current == expected && match repeater_output(w, region, t) {
            Err(f) => redstone_error(x, f),
            Ok(o) => if !target_ok(w, region, o) {
                x matches PhysicsEngineError::Redstone(e) && target_error(w, region, o, *e)
            } else {
                repeater_reevaluation(w, region, t, expected) matches Reevaluation::Fails(f) && redstone_error(x, f)
            },
        },
    }
}

/// The outcome of a delayed repeater tick.
fn repeater_tick_outcome(world: &World, region: Option<Region>, target: Pos, expected_powered: bool) -> (r: Result<EventOutcome, PhysicsEngineError>)
    requires
        world.wf(),
        margin(target, 3),
    ensures
        repeater_tick_result(*world, region, target, expected_powered, r),
        r is Ok <==> repeater_tick_ok(*world, region, target, expected_powered),
        r matches Err(x) ==> repeater_tick_fails(*world, region, target, expected_powered, x),
{
    let current_input = match redstone_repeater_input_powered(world, target, region) {
        Err(e) => return Err(from_redstone(e)),
        Ok(p) => p,
    };
    if current_input != expected_powered {
        return Ok(EventOutcome::none());
    }
    let output = match redstone_repeater_output_position(world, target, region) {
        Err(e) => return Err(from_redstone(e)),
        Ok(o) => o,
    };
    proof {
        let f = choose|f: Facing| output == #[trigger] neighbor(target, f);
        lemma_neighbor_margin(target, f, 3);
    }
    let mut outputs: Vec<Pos> = Vec::new();
    outputs.push(output);
    match preflight_redstone_targets(world, region, &outputs) {
        Err(e) => {
            assert(outputs@[0] == output);
            return Err(e);
        },
        Ok(()) => {},
    }
    assert(outputs@[0] == output);
    assert(target_ok(*world, region, outputs@[0]));
    let delta = match redstone_repeater_delta(world, target, expected_powered, region) {
        Err(e) => return Err(from_redstone(e)),
        Ok(d) => d,
    };
    let mut queued: Vec<QueuedEvent> = Vec::new();
    if delta.is_some() {
        queued.push(
            QueuedEvent {
                delay_ticks: 0,
                target: output,
                phase: PhysicsEventPhase::ScheduledTick,
                kind: PhysicsEventKind::NeighborUpdate { source: target },
            },
        );
    }
    Ok(EventOutcome { changes: Vec::new(), delta, queued })
}

/// `q` notifies every neighbor of `source` (and `source` itself when
/// `include_self`) in `phase`, without delay, and nothing else.
pub open spec fn notifies(q: Seq<QueuedEvent>, source: Pos, include_self: bool, phase: PhysicsEventPhase) -> bool {
    &&& forall|k: int|
        0 <= k < q.len() ==> (#[trigger] q[k]).delay_ticks == 0 && q[k].phase == phase && q[k].kind
            == (PhysicsEventKind::NeighborUpdate { source }) && update_target(source, include_self, q[k].target)
    &&& forall|p: Pos| update_target(source, include_self, p) ==> exists|k: int| 0 <= k < q.len() && (#[trigger] q[k]).target == p
}

/// What a successful external world change at `target` yields: the change
/// itself unless the block is already there, and then an update of the
/// position and its neighbors.
pub open spec fn world_change_result(w: World, target: Pos, after: Block, r: Result<EventOutcome, PhysicsEngineError>) -> bool {
    r matches Ok(o) ==> {
        &&& o.changes@.len() == 0
        &&& (o.delta is None <==> before_matches(w, target, after))
        &&& o.delta is None ==> o.queued@.len() == 0
        &&& o.delta matches Some(d) ==> (single_change(d, w, target, ChangeReason::ExternalInput, DeltaCause::External)
            && same_block(d.changes@[0].after, after) && notifies(o.queued@, target, true, PhysicsEventPhase::NeighborUpdate))
    }
}

/// What a successful delayed repeater tick yields: nothing when the input
/// changed back; otherwise the repeater takes the expected state and, when
/// it changes, its output is updated.
pub open spec fn repeater_tick_result(
    w: World,
    region: Option<Region>,
    target: Pos,
    expected: bool,
    r: Result<EventOutcome, PhysicsEngineError>,
) -> bool {
    r matches Ok(o) ==> {
        &&& o.changes@.len() == 0
        &&& repeater_input(w, region, target) is Ok
        &&& repeater_input(w, region, target) != Ok::<bool, crate::redstone::RedstoneFailure>(expected) ==> o.delta is None
            && o.queued@.len() == 0
        &&& repeater_input(w, region, target) == Ok::<bool, crate::redstone::RedstoneFailure>(expected) ==> {
            &&& reevaluation_result(
                Ok(o.delta),
                repeater_reevaluation(w, region, target, expected),
                w,
                target,
                ChangeReason::RepeaterState { repeater: target },
                DeltaCause::RepeaterTick { repeater: target },
            )
            &&& o.delta is None ==> o.queued@.len() == 0
            &&& o.delta is Some ==> (repeater_output(w, region, target) matches Ok(out) && o.queued@ == seq![
                QueuedEvent {
                    delay_ticks: 0,
                    target: out,
                    phase: PhysicsEventPhase::ScheduledTick,
                    kind: PhysicsEventKind::NeighborUpdate { source: target },
                },
            ])
        }
    }
}

/// `d` is a delta that records an external change of `t` to `after`.
pub open spec fn external_delta(w: World, t: Pos, after: Block, d: WorldDelta) -> bool {
    single_change(d, w, t, ChangeReason::ExternalInput, DeltaCause::External) && same_block(d.changes@[0].after, after)
}

/// `x` is the error of a failing external change of `t` to `after`: the
/// position is outside the known region, or the block changes and either a
/// copy of the world refuses the change or, with the change applied, the
/// preflight of the position or one of its neighbors fails.
pub open spec fn world_change_fails(w: World, region: Option<Region>, t: Pos, after: Block, x: PhysicsEngineError) -> bool {
    match known_failure(region, t, BlockKind::Air) {
        Some(f) => redstone_error(x, f),
        None => !before_matches(w, t, after) && exists|d: WorldDelta|
            #[trigger] external_delta(w, t, after, d) && {
                ||| x is WorldDelta && copy_rejects(w, d)
                ||| x matches PhysicsEngineError::Redstone(e) && staged_target_fails(w, Some(d), region, t, true, *e)
            },
    }
}

/// The outcome of an externally observed world change.
fn world_change_outcome(world: &World, region: Option<Region>, target: Pos, after: &crate::world::Block) -> (r: Result<EventOutcome, PhysicsEngineError>)
    requires
        world.wf(),
        margin(target, 3),
    ensures
        world_change_result(*world, target, *after, r),
        r matches Err(x) ==> world_change_fails(*world, region, target, *after, x),
{
    match redstone_position_known(region, target) {
        Err(e) => return Err(from_redstone(e)),
        Ok(()) => {},
    }
    let delta = external_world_delta(world, target, after);
    let queued = match &delta {
        Some(d) => {
            let mut updated = world.copy();
            let ghost c = updated;
            match d.apply(&mut updated) {
                Err(e) => {
                    assert(copied(*world, c));
                    assert(external_delta(*world, target, *after, *d));
                    return Err(from_delta(e));
                },
                Ok(()) => {},
            }
            let positions = update_positions(target, true);
            match preflight_redstone_targets(&updated, region, &positions) {
                Err(e) => {
                    proof {
                        assert(copied(*world, c));
                        assert(staged(*world, Some(*d), updated));
                        assert(external_delta(*world, target, *after, *d));
                        let ee = *(e->Redstone_0);
                        let i = choose|i: int|
                            0 <= i < positions@.len() && (forall|k: int| 0 <= k < i ==> target_ok(updated, region, #[trigger] positions@[k]))
                                && #[trigger] target_error(updated, region, positions@[i], ee);
                        assert(positions@.contains(positions@[i]));
                        assert(staged_target_fails(*world, Some(*d), region, target, true, ee));
                    }
                    return Err(e);
                },
                Ok(()) => {},
            }
            queue_redstone_neighbors(target, true)
        },
        None => Vec::new(),
    };
    Ok(EventOutcome { changes: Vec::new(), delta, queued })
}

/// What the built-in handler returns for `event` in `world`, as
/// `builtin_outcome` states it.
pub open spec fn builtin_result(
    mode: RunnerMode,
    activation: u64,
    movement: u64,
    region: Option<Region>,
    event: PhysicsEvent,
    world: World,
    r: Result<EventOutcome, PhysicsEngineError>,
) -> bool {
    &&& (!handles(mode, event.kind) ==> (r matches Err(PhysicsEngineError::UnsupportedEvent { time, .. }) && time == event.time))
    &&& (r matches Ok(o) ==> o.changes@.len() == 0)
    &&& (event.kind matches PhysicsEventKind::PistonComplete { action, plan } ==> (action != plan.action ==> r
        == Err::<EventOutcome, PhysicsEngineError>(PhysicsEngineError::InvalidOutcome)) && (action == plan.action ==> (r
        matches Ok(o) && o.queued@.len() == 0 && carries(o, plan.delta))))
    &&& (handles(mode, event.kind) && !(event.kind is PistonComplete) && !handler_range(world, event.kind, event.target) ==> (r matches Err(
        PhysicsEngineError::UnsupportedEvent { time, .. },
    ) && time == event.time))
    &&& (handles(mode, event.kind) && handler_range(world, event.kind, event.target) ==> {
        &&& event.kind matches PhysicsEventKind::WorldChange { after } ==> world_change_result(world, event.target, *after, r)
        &&& event.kind matches PhysicsEventKind::RedstoneInput { powered } ==> redstone_input_result(
            world,
            event.target,
            powered,
            mode is Propagation,
            r,
        )
        &&& event.kind is NeighborUpdate ==> neighbor_update_result(world, region, event, mode is Propagation, activation, r)
        &&& event.kind matches PhysicsEventKind::RepeaterTick { expected_powered } ==> repeater_tick_result(
            world,
            region,
            event.target,
            expected_powered,
            r,
        )
        &&& event.kind matches PhysicsEventKind::WorldChange { after } ==> (r matches Err(x) ==> world_change_fails(
            world,
            region,
            event.target,
            *after,
            x,
        ))
        &&& event.kind matches PhysicsEventKind::RedstoneInput { powered } ==> (r matches Err(x) ==> redstone_input_fails(
            world,
            region,
            event.target,
            powered,
            mode is Propagation,
            x,
        ))
        &&& event.kind is NeighborUpdate ==> (r is Ok <==> neighbor_update_ok(world, region, event.target, mode is Propagation))
            && (r matches Err(x) ==> neighbor_update_fails(world, region, event.target, mode is Propagation, x))
        &&& event.kind matches PhysicsEventKind::RepeaterTick { expected_powered } ==> (r is Ok <==> repeater_tick_ok(
            world,
            region,
            event.target,
            expected_powered,
        )) && (r matches Err(x) ==> repeater_tick_fails(world, region, event.target, expected_powered, x))
    })
    &&& (event.kind matches PhysicsEventKind::BlockEvent { event: BlockEventKind::PistonExtend } && planning_room(world, event.target) ==> {
        &&& !(mode is PistonOnly) && not_ready(world, event.target, PistonState::Retracted) ==> (r matches Ok(o)
            && o.changes@.len() == 0 && o.delta is None && o.queued@.len() == 0)
        &&& (mode is PistonOnly || !not_ready(world, event.target, PistonState::Retracted)) ==> started(
            world,
            event.target,
            PistonAction::Extend,
            movement,
            r,
        ) && (r matches Err(x) ==> piston_block_fails(world, region, event.target, PistonAction::Extend, x))
    })
    &&& (event.kind matches PhysicsEventKind::BlockEvent { event: BlockEventKind::PistonRetract } && planning_room(world, event.target) ==> {
        &&& !(mode is PistonOnly) && not_ready(world, event.target, PistonState::Extended) ==> (r matches Ok(o)
            && o.changes@.len() == 0 && o.delta is None && o.queued@.len() == 0)
        &&& (mode is PistonOnly || !not_ready(world, event.target, PistonState::Extended)) ==> started(
            world,
            event.target,
            PistonAction::Retract,
            movement,
            r,
        ) && (r matches Err(x) ==> piston_block_fails(world, region, event.target, PistonAction::Retract, x))
    })
}

/// The built-in handler's outcome for one event.
///
/// Piston block events plan the movement, apply the moving start delta and
/// queue the completion after `movement` game ticks; a completion applies
/// the stable movement delta. The input runners turn a redstone edge into
/// neighbor updates, and a neighbor update into a piston block event after
/// `activation` game ticks. Events the mode does not handle, and targets too
/// close to the coordinate bounds to plan a piston, are unsupported.
pub fn builtin_outcome(
    mode: RunnerMode,
    activation: u64,
    movement: u64,
    region: Option<Region>,
    event: &PhysicsEvent,
    world: &World,
) -> (r: Result<EventOutcome, PhysicsEngineError>)
    requires
        world.wf(),
    ensures
        builtin_result(mode, activation, movement, region, *event, *world, r),
{
    if !handles_kind(mode, &event.kind) {
        return Err(unsupported(event));
    }
    let inputs = match mode {
        RunnerMode::PistonOnly => false,
        _ => true,
    };
    let propagation = match mode {
        RunnerMode::Propagation => true,
        _ => false,
    };
    match &event.kind {
        PhysicsEventKind::PistonComplete { action, plan } => {
            if *action != plan.action {
                return Err(PhysicsEngineError::InvalidOutcome);
            }
            return Ok(EventOutcome { changes: Vec::new(), delta: Some(plan.world_delta().copy()), queued: Vec::new() });
        },
        _ => {},
    }
    if !in_handler_range(world, &event.kind, event.target) {
        return Err(unsupported(event));
    }
    match &event.kind {
        PhysicsEventKind::WorldChange { after } => world_change_outcome(world, region, event.target, after),
        PhysicsEventKind::RedstoneInput { powered } => redstone_input_outcome(world, region, event.target, *powered, propagation),
        PhysicsEventKind::NeighborUpdate { .. } => neighbor_update_outcome(world, region, event, propagation, activation),
        PhysicsEventKind::RepeaterTick { expected_powered } => repeater_tick_outcome(world, region, event.target, *expected_powered),
        PhysicsEventKind::BlockEvent { event: BlockEventKind::PistonExtend } => {
            if inputs && piston_not_ready(world, event.target, PistonState::Retracted) {
                return Ok(EventOutcome::none());
            }
            piston_block_outcome(world, region, event.target, PistonAction::Extend, movement)
        },
        PhysicsEventKind::BlockEvent { event: BlockEventKind::PistonRetract } => {
            if inputs && piston_not_ready(world, event.target, PistonState::Extended) {
                return Ok(EventOutcome::none());
            }
            piston_block_outcome(world, region, event.target, PistonAction::Retract, movement)
        },
        _ => Err(unsupported(event)),
    }
}

} // verus!
