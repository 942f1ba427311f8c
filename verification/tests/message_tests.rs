use dustroute::delta::{ShapeId, WorldDeltaError};
use dustroute::messages::{action_name, facing_name, kind_name, phase_name, state_name};
use dustroute::piston::{PistonAction, PistonError, PistonMotionProfileError};
use dustroute::redstone::RedstonePropagationError;
use dustroute::time::engine::{EventOutcome, PhysicsEngine, PhysicsEngineError};
use dustroute::time::event::{PhysicsEvent, PhysicsEventKind, PhysicsEventPhase, PhysicsTime};
use dustroute::time::scheduler::SchedulerProfileError;
use dustroute::time::transition::TraceStatus;
use dustroute::world::{BlockKind, Facing, PistonState, Pos, SupportError, World};

#[test]
fn debug_names_match_the_debug_format() {
    for kind in [
        BlockKind::Air,
        BlockKind::Solid,
        BlockKind::Transparent,
        BlockKind::RedstoneWire,
        BlockKind::RedstoneTorch,
        BlockKind::Repeater,
        BlockKind::Comparator,
        BlockKind::Lever,
        BlockKind::Button,
        BlockKind::PressurePlate,
        BlockKind::RedstoneLamp,
        BlockKind::RedstoneBlock,
        BlockKind::Observer,
        BlockKind::Piston,
        BlockKind::PistonHead,
        BlockKind::MovingPiston,
    ] {
        assert_eq!(kind_name(kind), format!("{kind:?}"));
    }
    for facing in [
        Facing::North,
        Facing::East,
        Facing::South,
        Facing::West,
        Facing::Up,
        Facing::Down,
    ] {
        assert_eq!(facing_name(facing), format!("{facing:?}"));
    }
    for phase in [
        PhysicsEventPhase::External,
        PhysicsEventPhase::NeighborUpdate,
        PhysicsEventPhase::ScheduledTick,
        PhysicsEventPhase::BlockEvent,
        PhysicsEventPhase::BlockEntity,
        PhysicsEventPhase::Observation,
    ] {
        assert_eq!(phase_name(phase), format!("{phase:?}"));
    }
    for state in [
        PistonState::Retracted,
        PistonState::Extending,
        PistonState::Extended,
        PistonState::Retracting,
    ] {
        assert_eq!(state_name(state), format!("{state:?}"));
    }
    assert_eq!(action_name(PistonAction::Extend), "Extend");
    assert_eq!(action_name(PistonAction::Retract), "Retract");
}

#[test]
fn piston_errors_describe_position_and_cause() {
    assert_eq!(
        PistonError::MissingPiston {
            position: Pos::new(1, -2, 3)
        }
        .message(),
        "no piston exists at (1, -2, 3)"
    );
    assert_eq!(
        PistonError::WrongBlock {
            position: Pos::new(0, 0, 0),
            actual: BlockKind::Solid,
        }
        .message(),
        "expected a piston at (0, 0, 0), found Solid"
    );
    assert_eq!(
        PistonError::InvalidState {
            position: Pos::new(4, 5, 6),
            action: PistonAction::Retract,
            state: PistonState::Extending,
        }
        .message(),
        "cannot Retract piston at (4, 5, 6) from Extending"
    );
    assert_eq!(
        PistonError::PushLimitExceeded {
            limit: 12,
            attempted: 13,
        }
        .message(),
        "piston push limit 12 exceeded by 13 blocks"
    );
    assert_eq!(
        PistonError::DeltaApplication(Box::new(WorldDeltaError::DuplicatePosition {
            position: Pos::new(-7, 0, 2)
        }))
        .message(),
        "piston delta could not apply: world delta contains duplicate position (-7, 0, 2)"
    );
}

#[test]
fn engine_errors_nest_their_causes() {
    let piston = PhysicsEngineError::Piston(Box::new(PistonError::UnknownSpace {
        position: Pos::new(2, 2, 2),
    }));
    assert_eq!(
        piston.message(),
        "piston event failed: piston planning reached an unknown coordinate at (2, 2, 2); the observed region is incomplete"
    );
    let redstone = PhysicsEngineError::Redstone(Box::new(
        RedstonePropagationError::InvalidRepeaterDelay {
            position: Pos::new(1, 2, 3),
            delay: 7,
        },
    ));
    assert_eq!(
        redstone.message(),
        "redstone propagation failed: repeater at (1, 2, 3) has invalid delay 7; expected 1..=4 redstone ticks"
    );
    let delta = PhysicsEngineError::WorldDelta(Box::new(WorldDeltaError::ParentShapeMismatch {
        expected: ShapeId(5),
        actual: ShapeId(7),
    }));
    assert_eq!(
        delta.message(),
        "world delta failed: world shape changed (expected ShapeId(5), found ShapeId(7))"
    );
    let causal = PhysicsEngineError::CausalOrderViolation {
        parent: PhysicsTime {
            game_tick: 9,
            phase: PhysicsEventPhase::BlockEvent,
            sub_tick_order: 0,
        },
        child_phase: PhysicsEventPhase::NeighborUpdate,
    };
    assert_eq!(
        causal.message(),
        "event cannot move from phase BlockEvent back to phase NeighborUpdate at game tick 9"
    );
    let profile = PhysicsEngineError::InvalidPistonMotionProfile(
        PistonMotionProfileError::InvalidInitialDelayRange {
            minimum_game_ticks: 3,
            maximum_game_ticks: 1,
        },
    );
    assert_eq!(
        profile.message(),
        "piston initial delay range is invalid: minimum 3 exceeds maximum 1"
    );
    let scheduler = PhysicsEngineError::InvalidSchedulerProfile(SchedulerProfileError::MissingPhase {
        phase: PhysicsEventPhase::Observation,
    });
    assert_eq!(scheduler.message(), "scheduler profile omits phase Observation");
    assert_eq!(
        PhysicsEngineError::EventLimitExceeded {
            limit: 100,
            processed: 100,
            next_time: None,
        }
        .message(),
        "Minecraft physics event limit 100 exceeded"
    );
}

#[test]
fn support_errors_count_their_components() {
    let error = SupportError(vec![(Pos::new(0, 1, 0), BlockKind::RedstoneWire, None)]);
    assert_eq!(error.message(), "1 component(s) have invalid support");
    let redstone = RedstonePropagationError::UnknownState {
        position: Pos::new(0, 0, 0),
        kind: BlockKind::Observer,
        reason: "observer pulses".to_owned(),
    };
    assert_eq!(
        redstone.message(),
        "redstone state for Observer at (0, 0, 0) is unavailable: observer pulses"
    );
}

#[test]
fn a_rejected_event_records_its_message_in_the_trace() {
    let mut engine = PhysicsEngine::new(World::new(), 8);
    engine.schedule_external(0, Pos::new(1, 0, 0), PhysicsEventKind::ScheduledBlockTick);
    let mut handler =
        |_: &PhysicsEvent, _: &World| -> Result<EventOutcome, PhysicsEngineError> {
            Err(PhysicsEngineError::Piston(Box::new(PistonError::StalePlan {
                position: Pos::new(1, 0, 0),
            })))
        };
    let error = engine.step_transition(&mut handler).unwrap_err();
    assert_eq!(
        engine.trace_status(),
        &TraceStatus::Failed {
            error: error.message()
        }
    );
    assert_eq!(
        error.message(),
        "piston event failed: piston plan is stale at (1, 0, 0)"
    );
}
