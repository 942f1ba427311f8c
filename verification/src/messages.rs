//! Human-readable descriptions of the library's errors, as their `Display`
//! forms print them: each message is specified character by character.

use vstd::prelude::*;

use crate::delta::{ShapeId, WorldDeltaError};
use crate::piston::{PistonAction, PistonError, PistonMotionProfileError};
use crate::redstone::RedstonePropagationError;
use crate::text::{i32_to_string, spec_decimal, spec_signed_decimal, u64_to_string};
use crate::time::engine::PhysicsEngineError;
use crate::time::event::PhysicsEventPhase;
use crate::time::scheduler::SchedulerProfileError;
use crate::validation::WorldValidationError;
use crate::world::{BlockKind, Facing, PistonState, Pos, SupportError};

verus! {

/// The debug name of a block kind.
pub open spec fn spec_kind_name(v: BlockKind) -> Seq<char> {
    match v {
        BlockKind::Air => "Air"@,
        BlockKind::Solid => "Solid"@,
        BlockKind::Transparent => "Transparent"@,
        BlockKind::RedstoneWire => "RedstoneWire"@,
        BlockKind::RedstoneTorch => "RedstoneTorch"@,
        BlockKind::Repeater => "Repeater"@,
        BlockKind::Comparator => "Comparator"@,
        BlockKind::Lever => "Lever"@,
        BlockKind::Button => "Button"@,
        BlockKind::PressurePlate => "PressurePlate"@,
        BlockKind::RedstoneLamp => "RedstoneLamp"@,
        BlockKind::RedstoneBlock => "RedstoneBlock"@,
        BlockKind::Observer => "Observer"@,
        BlockKind::Piston => "Piston"@,
        BlockKind::PistonHead => "PistonHead"@,
        BlockKind::MovingPiston => "MovingPiston"@,
    }
}

pub fn kind_name(v: BlockKind) -> (r: &'static str)
    ensures
        r@ == spec_kind_name(v),
{
    match v {
        BlockKind::Air => "Air",
        BlockKind::Solid => "Solid",
        BlockKind::Transparent => "Transparent",
        BlockKind::RedstoneWire => "RedstoneWire",
        BlockKind::RedstoneTorch => "RedstoneTorch",
        BlockKind::Repeater => "Repeater",
        BlockKind::Comparator => "Comparator",
        BlockKind::Lever => "Lever",
        BlockKind::Button => "Button",
        BlockKind::PressurePlate => "PressurePlate",
        BlockKind::RedstoneLamp => "RedstoneLamp",
        BlockKind::RedstoneBlock => "RedstoneBlock",
        BlockKind::Observer => "Observer",
        BlockKind::Piston => "Piston",
        BlockKind::PistonHead => "PistonHead",
        BlockKind::MovingPiston => "MovingPiston",
    }
}

/// The debug name of a direction.
pub open spec fn spec_facing_name(v: Facing) -> Seq<char> {
    match v {
        Facing::North => "North"@,
        Facing::East => "East"@,
        Facing::South => "South"@,
        Facing::West => "West"@,
        Facing::Up => "Up"@,
        Facing::Down => "Down"@,
    }
}

pub fn facing_name(v: Facing) -> (r: &'static str)
    ensures
        r@ == spec_facing_name(v),
{
    match v {
        Facing::North => "North",
        Facing::East => "East",
        Facing::South => "South",
        Facing::West => "West",
        Facing::Up => "Up",
        Facing::Down => "Down",
    }
}

/// The debug name of an event phase.
pub open spec fn spec_phase_name(v: PhysicsEventPhase) -> Seq<char> {
    match v {
        PhysicsEventPhase::External => "External"@,
        PhysicsEventPhase::NeighborUpdate => "NeighborUpdate"@,
        PhysicsEventPhase::ScheduledTick => "ScheduledTick"@,
        PhysicsEventPhase::BlockEvent => "BlockEvent"@,
        PhysicsEventPhase::BlockEntity => "BlockEntity"@,
        PhysicsEventPhase::Observation => "Observation"@,
    }
}

pub fn phase_name(v: PhysicsEventPhase) -> (r: &'static str)
    ensures
        r@ == spec_phase_name(v),
{
    match v {
        PhysicsEventPhase::External => "External",
        PhysicsEventPhase::NeighborUpdate => "NeighborUpdate",
        PhysicsEventPhase::ScheduledTick => "ScheduledTick",
        PhysicsEventPhase::BlockEvent => "BlockEvent",
        PhysicsEventPhase::BlockEntity => "BlockEntity",
        PhysicsEventPhase::Observation => "Observation",
    }
}

/// The debug name of a piston state.
pub open spec fn spec_state_name(v: PistonState) -> Seq<char> {
    match v {
        PistonState::Retracted => "Retracted"@,
        PistonState::Extending => "Extending"@,
        PistonState::Extended => "Extended"@,
        PistonState::Retracting => "Retracting"@,
    }
}

pub fn state_name(v: PistonState) -> (r: &'static str)
    ensures
        r@ == spec_state_name(v),
{
    match v {
        PistonState::Retracted => "Retracted",
        PistonState::Extending => "Extending",
        PistonState::Extended => "Extended",
        PistonState::Retracting => "Retracting",
    }
}

/// The debug name of a piston action.
pub open spec fn spec_action_name(v: PistonAction) -> Seq<char> {
    match v {
        PistonAction::Extend => "Extend"@,
        PistonAction::Retract => "Retract"@,
    }
}

pub fn action_name(v: PistonAction) -> (r: &'static str)
    ensures
        r@ == spec_action_name(v),
{
    match v {
        PistonAction::Extend => "Extend",
        PistonAction::Retract => "Retract",
    }
}

/// A position written as `(x, y, z)`.
pub open spec fn spec_coords(p: Pos) -> Seq<char> {
    "("@ + spec_signed_decimal(p.x) + ", "@ + spec_signed_decimal(p.y) + ", "@ + spec_signed_decimal(p.z) + ")"@
}

pub fn coords(p: Pos) -> (r: String)
    ensures
        r@ == spec_coords(p),
{
    let mut out = String::new();
    out.append("(");
    out.append(i32_to_string(p.x).as_str());
    out.append(", ");
    out.append(i32_to_string(p.y).as_str());
    out.append(", ");
    out.append(i32_to_string(p.z).as_str());
    out.append(")");
    out
}

/// A shape identity as its debug form prints it.
pub open spec fn spec_shape_text(s: ShapeId) -> Seq<char> {
    "ShapeId("@ + spec_decimal(s.0 as nat) + ")"@
}

fn shape_text(s: ShapeId) -> (r: String)
    ensures
        r@ == spec_shape_text(s),
{
    let mut out = String::new();
    out.append("ShapeId(");
    out.append(u64_to_string(s.0).as_str());
    out.append(")");
    out
}

/// The message of a support error.
pub open spec fn support_error_text(e: SupportError) -> Seq<char> {
    spec_decimal(e.0@.len()) + " component(s) have invalid support"@
}

impl SupportError {
    pub fn message(&self) -> (r: String)
        ensures
            r@ == support_error_text(*self),
    {
        let mut out = u64_to_string(self.0.len() as u64);
        out.append(" component(s) have invalid support");
        out
    }
}

/// The message of a world validation error.
pub open spec fn validation_error_text(e: WorldValidationError) -> Seq<char> {
    "world failed placement validation ("@ + spec_decimal(e.issues@.len()) + " issues)"@
}

impl WorldValidationError {
    pub fn message(&self) -> (r: String)
        ensures
            r@ == validation_error_text(*self),
    {
        let mut out = String::new();
        out.append("world failed placement validation (");
        out.append(u64_to_string(self.issues.len() as u64).as_str());
        out.append(" issues)");
        out
    }
}

/// The message of a redstone propagation error.
pub open spec fn redstone_error_text(e: RedstonePropagationError) -> Seq<char> {
    match e {
        RedstonePropagationError::UnknownState { position, kind, reason } => "redstone state for "@ + spec_kind_name(kind)
            + " at "@ + spec_coords(position) + " is unavailable: "@ + reason@,
        RedstonePropagationError::UnsupportedComponent { position, kind, reason } => "redstone propagation for "@
            + spec_kind_name(kind) + " at "@ + spec_coords(position) + " is outside the MVP: "@ + reason@,
        RedstonePropagationError::InvalidRepeaterDelay { position, delay } => "repeater at "@ + spec_coords(position)
            + " has invalid delay "@ + spec_decimal(delay as nat) + "; expected 1..=4 redstone ticks"@,
    }
}

impl RedstonePropagationError {
    pub fn message(&self) -> (r: String)
        ensures
            r@ == redstone_error_text(*self),
    {
        let mut out = String::new();
        match self {
            RedstonePropagationError::UnknownState { position, kind, reason } => {
                out.append("redstone state for ");
                out.append(kind_name(*kind));
                out.append(" at ");
                out.append(coords(*position).as_str());
                out.append(" is unavailable: ");
                out.append(reason.as_str());
            },
            RedstonePropagationError::UnsupportedComponent { position, kind, reason } => {
                out.append("redstone propagation for ");
                out.append(kind_name(*kind));
                out.append(" at ");
                out.append(coords(*position).as_str());
                out.append(" is outside the MVP: ");
                out.append(reason.as_str());
            },
            RedstonePropagationError::InvalidRepeaterDelay { position, delay } => {
                out.append("repeater at ");
                out.append(coords(*position).as_str());
                out.append(" has invalid delay ");
                out.append(u64_to_string(*delay as u64).as_str());
                out.append("; expected 1..=4 redstone ticks");
            },
        }
        out
    }
}

/// The message of a piston motion profile error.
pub open spec fn profile_error_text(e: PistonMotionProfileError) -> Seq<char> {
    match e {
        PistonMotionProfileError::InvalidInitialDelayRange { minimum_game_ticks, maximum_game_ticks } =>
            "piston initial delay range is invalid: minimum "@ + spec_decimal(minimum_game_ticks as nat) + " exceeds maximum "@
            + spec_decimal(maximum_game_ticks as nat),
    }
}

impl PistonMotionProfileError {
    pub fn message(&self) -> (r: String)
        ensures
            r@ == profile_error_text(*self),
    {
        let mut out = String::new();
        match self {
            PistonMotionProfileError::InvalidInitialDelayRange { minimum_game_ticks, maximum_game_ticks } => {
                out.append("piston initial delay range is invalid: minimum ");
                out.append(u64_to_string(*minimum_game_ticks).as_str());
                out.append(" exceeds maximum ");
                out.append(u64_to_string(*maximum_game_ticks).as_str());
            },
        }
        out
    }
}

/// The message of a world delta error.
pub open spec fn delta_error_text(e: WorldDeltaError) -> Seq<char> {
    match e {
        WorldDeltaError::ParentShapeMismatch { expected, actual } => "world shape changed (expected "@ + spec_shape_text(
            expected,
        ) + ", found "@ + spec_shape_text(actual) + ")"@,
        WorldDeltaError::DuplicatePosition { position } => "world delta contains duplicate position "@ + spec_coords(
            position,
        ),
        WorldDeltaError::BeforeMismatch { position, .. } => "world delta before-state mismatch at "@ + spec_coords(
            position,
        ),
        WorldDeltaError::MoveNotRepresented { from, to } => "world delta move from "@ + spec_coords(from) + " to "@
            + spec_coords(to) + " is not represented"@,
    }
}

impl WorldDeltaError {
    pub fn message(&self) -> (r: String)
        ensures
            r@ == delta_error_text(*self),
    {
        let mut out = String::new();
        match self {
            WorldDeltaError::ParentShapeMismatch { expected, actual } => {
                out.append("world shape changed (expected ");
                out.append(shape_text(*expected).as_str());
                out.append(", found ");
                out.append(shape_text(*actual).as_str());
                out.append(")");
            },
            WorldDeltaError::DuplicatePosition { position } => {
                out.append("world delta contains duplicate position ");
                out.append(coords(*position).as_str());
            },
            WorldDeltaError::BeforeMismatch { position, .. } => {
                out.append("world delta before-state mismatch at ");
                out.append(coords(*position).as_str());
            },
            WorldDeltaError::MoveNotRepresented { from, to } => {
                out.append("world delta move from ");
                out.append(coords(*from).as_str());
                out.append(" to ");
                out.append(coords(*to).as_str());
                out.append(" is not represented");
            },
        }
        out
    }
}

/// The message of a piston error.
pub open spec fn piston_error_text(e: PistonError) -> Seq<char> {
    match e {
        PistonError::MissingPiston { position } => "no piston exists at "@ + spec_coords(position),
        PistonError::WrongBlock { position, actual } => "expected a piston at "@ + spec_coords(position) + ", found "@
            + spec_kind_name(actual),
        PistonError::UnsupportedFacing { position, facing } => "piston at "@ + spec_coords(position)
            + " has unsupported facing "@ + spec_facing_name(facing),
        PistonError::InvalidState { position, action, state } => "cannot "@ + spec_action_name(action) + " piston at "@
            + spec_coords(position) + " from "@ + spec_state_name(state),
        PistonError::Obstructed { position, kind } => "piston movement is obstructed at "@ + spec_coords(position) + " by "@
            + spec_kind_name(kind),
        PistonError::UnsupportedMovingBlock { position, kind, reason } => "block "@ + spec_kind_name(kind) + " at "@
            + spec_coords(position) + " is outside the piston subset: "@ + reason@,
        PistonError::UnknownSpace { position } => "piston planning reached an unknown coordinate at "@ + spec_coords(
            position,
        ) + "; the observed region is incomplete"@,
        PistonError::PushLimitExceeded { limit, attempted } => "piston push limit "@ + spec_decimal(limit as nat)
            + " exceeded by "@ + spec_decimal(attempted as nat) + " blocks"@,
        PistonError::DestinationOccupied { position, kind } => "piston pull destination at "@ + spec_coords(position)
            + " is occupied by "@ + spec_kind_name(kind),
        PistonError::StalePlan { position } => "piston plan is stale at "@ + spec_coords(position),
        PistonError::DeltaApplication(error) => "piston delta could not apply: "@ + delta_error_text(*error),
    }
}

impl PistonError {
    pub fn message(&self) -> (r: String)
        ensures
            r@ == piston_error_text(*self),
    {
        let mut out = String::new();
        match self {
            PistonError::MissingPiston { position } => {
                out.append("no piston exists at ");
                out.append(coords(*position).as_str());
            },
            PistonError::WrongBlock { position, actual } => {
                out.append("expected a piston at ");
                out.append(coords(*position).as_str());
                out.append(", found ");
                out.append(kind_name(*actual));
            },
            PistonError::UnsupportedFacing { position, facing } => {
                out.append("piston at ");
                out.append(coords(*position).as_str());
                out.append(" has unsupported facing ");
                out.append(facing_name(*facing));
            },
            PistonError::InvalidState { position, action, state } => {
                out.append("cannot ");
                out.append(action_name(*action));
                out.append(" piston at ");
                out.append(coords(*position).as_str());
                out.append(" from ");
                out.append(state_name(*state));
            },
            PistonError::Obstructed { position, kind } => {
                out.append("piston movement is obstructed at ");
                out.append(coords(*position).as_str());
                out.append(" by ");
                out.append(kind_name(*kind));
            },
            PistonError::UnsupportedMovingBlock { position, kind, reason } => {
                out.append("block ");
                out.append(kind_name(*kind));
                out.append(" at ");
                out.append(coords(*position).as_str());
                out.append(" is outside the piston subset: ");
                out.append(reason.as_str());
            },
            PistonError::UnknownSpace { position } => {
                out.append("piston planning reached an unknown coordinate at ");
                out.append(coords(*position).as_str());
                out.append("; the observed region is incomplete");
            },
            PistonError::PushLimitExceeded { limit, attempted } => {
                out.append("piston push limit ");
                out.append(u64_to_string(*limit as u64).as_str());
                out.append(" exceeded by ");
                out.append(u64_to_string(*attempted as u64).as_str());
                out.append(" blocks");
            },
            PistonError::DestinationOccupied { position, kind } => {
                out.append("piston pull destination at ");
                out.append(coords(*position).as_str());
                out.append(" is occupied by ");
                out.append(kind_name(*kind));
            },
            PistonError::StalePlan { position } => {
                out.append("piston plan is stale at ");
                out.append(coords(*position).as_str());
            },
            PistonError::DeltaApplication(error) => {
                out.append("piston delta could not apply: ");
                out.append(error.message().as_str());
            },
        }
        out
    }
}

/// The message of a scheduler profile error.
pub open spec fn scheduler_error_text(e: SchedulerProfileError) -> Seq<char> {
    match e {
        SchedulerProfileError::DuplicatePhase { phase } => "scheduler profile repeats phase "@ + spec_phase_name(phase),
        SchedulerProfileError::MissingPhase { phase } => "scheduler profile omits phase "@ + spec_phase_name(phase),
    }
}

impl SchedulerProfileError {
    pub fn message(&self) -> (r: String)
        ensures
            r@ == scheduler_error_text(*self),
    {
        let mut out = String::new();
        match self {
            SchedulerProfileError::DuplicatePhase { phase } => {
                out.append("scheduler profile repeats phase ");
                out.append(phase_name(*phase));
            },
            SchedulerProfileError::MissingPhase { phase } => {
                out.append("scheduler profile omits phase ");
                out.append(phase_name(*phase));
            },
        }
        out
    }
}

/// The message of a physics engine error.
pub open spec fn engine_error_text(e: PhysicsEngineError) -> Seq<char> {
    match e {
        PhysicsEngineError::EventLimitExceeded { limit, .. } => "Minecraft physics event limit "@ + spec_decimal(
            limit as nat,
        ) + " exceeded"@,
        PhysicsEngineError::MicrostepLimitExceeded { game_tick, limit, .. } => "Minecraft physics microstep limit "@
            + spec_decimal(limit as nat) + " exceeded at game tick "@ + spec_decimal(game_tick as nat),
        PhysicsEngineError::UnsupportedEvent { time, .. } => "event is not supported by this physics runner at game tick "@
            + spec_decimal(time.game_tick as nat) + " phase "@ + spec_phase_name(time.phase),
        PhysicsEngineError::CausalOrderViolation { parent, child_phase } => "event cannot move from phase "@
            + spec_phase_name(parent.phase) + " back to phase "@ + spec_phase_name(child_phase) + " at game tick "@
            + spec_decimal(parent.game_tick as nat),
        PhysicsEngineError::InvalidPistonMotionProfile(error) => profile_error_text(error),
        PhysicsEngineError::Piston(error) => "piston event failed: "@ + piston_error_text(*error),
        PhysicsEngineError::Redstone(error) => "redstone propagation failed: "@ + redstone_error_text(*error),
        PhysicsEngineError::WorldDelta(error) => "world delta failed: "@ + delta_error_text(*error),
        PhysicsEngineError::InvalidOutcome => "event outcome cannot contain both changes and a delta"@,
        PhysicsEngineError::InvalidSchedulerProfile(error) => scheduler_error_text(error),
    }
}

impl PhysicsEngineError {
    pub fn message(&self) -> (r: String)
        ensures
            r@ == engine_error_text(*self),
    {
        match self {
            PhysicsEngineError::EventLimitExceeded { limit, .. } => {
                let mut out = String::new();
                out.append("Minecraft physics event limit ");
                out.append(u64_to_string(*limit as u64).as_str());
                out.append(" exceeded");
                out
            },
            PhysicsEngineError::MicrostepLimitExceeded { game_tick, limit, .. } => {
                let mut out = String::new();
                out.append("Minecraft physics microstep limit ");
                out.append(u64_to_string(*limit as u64).as_str());
                out.append(" exceeded at game tick ");
                out.append(u64_to_string(*game_tick).as_str());
                out
            },
            PhysicsEngineError::UnsupportedEvent { time, .. } => {
                let mut out = String::new();
                out.append("event is not supported by this physics runner at game tick ");
                out.append(u64_to_string(time.game_tick).as_str());
                out.append(" phase ");
                out.append(phase_name(time.phase));
                out
            },
            PhysicsEngineError::CausalOrderViolation { parent, child_phase } => {
                let mut out = String::new();
                out.append("event cannot move from phase ");
                out.append(phase_name(parent.phase));
                out.append(" back to phase ");
                out.append(phase_name(*child_phase));
                out.append(" at game tick ");
                out.append(u64_to_string(parent.game_tick).as_str());
                out
            },
            PhysicsEngineError::InvalidPistonMotionProfile(error) => error.message(),
            PhysicsEngineError::Piston(error) => {
                let mut out = String::new();
                out.append("piston event failed: ");
                out.append(error.message().as_str());
                out
            },
            PhysicsEngineError::Redstone(error) => {
                let mut out = String::new();
                out.append("redstone propagation failed: ");
                out.append(error.message().as_str());
                out
            },
            PhysicsEngineError::WorldDelta(error) => {
                let mut out = String::new();
                out.append("world delta failed: ");
                out.append(error.message().as_str());
                out
            },
            PhysicsEngineError::InvalidOutcome => "event outcome cannot contain both changes and a delta".to_string(),
            PhysicsEngineError::InvalidSchedulerProfile(error) => error.message(),
        }
    }
}

} // verus!
