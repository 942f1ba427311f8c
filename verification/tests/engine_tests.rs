use dustroute::delta::{ChangeReason, DeltaCause, Region};
use dustroute::piston::{
    default_piston_motion_profile, piston_state, PistonAction, PistonError, PistonMotionProfile,
    PistonMotionProfileError,
};
use dustroute::redstone::RedstonePropagationError;
use dustroute::time::engine::{EventOutcome, PhysicsEngine, PhysicsEngineError, WorldChange};
use dustroute::time::event::{
    BlockEventKind, EventCause, PhysicsEvent, PhysicsEventKind, PhysicsEventPhase, PhysicsTime,
    QueuedEvent,
};
use dustroute::time::scheduler::{SchedulerProfile, ZeroDelayPolicy};
use dustroute::time::transition::{EventExecutionStatus, TransitionElapsed, TransitionId};
use dustroute::world::{
    Block, BlockKind, Facing, ObservationClassification, PistonState, PistonVariant, Pos, World,
};

fn redstone_piston_world(variant: PistonVariant) -> (World, Pos, Pos, Region) {
    let piston_pos = Pos::new(0, 1, 0);
    let input_pos = Pos::new(-1, 1, 0);
    let mut world = World::new();
    world.set(Pos::new(0, 0, 0), Block::new(BlockKind::Solid));
    let mut piston = Block::new(BlockKind::Piston);
    piston.facing = Some(Facing::East);
    piston.piston_variant = Some(variant);
    piston.piston_state = Some(PistonState::Retracted);
    world.set(piston_pos, piston);
    let mut lever = Block::new(BlockKind::Lever);
    lever.powered = Some(false);
    world.set(input_pos, lever);
    world.set(Pos::new(1, 1, 0), Block::new(BlockKind::Solid));
    let known_region = Region::new(Pos::new(-1, 0, -1), Pos::new(2, 2, 1));
    (world, piston_pos, input_pos, known_region)
}

fn world_driven_wire_piston_world() -> (World, Pos, Pos, Pos, Region) {
    let piston_pos = Pos::new(0, 1, 0);
    let wire_pos = Pos::new(-1, 1, 0);
    let input_pos = Pos::new(-2, 1, 0);
    let mut world = World::new();
    for x in -2..=3 {
        world.set(Pos::new(x, 0, 0), Block::new(BlockKind::Solid));
    }
    let mut piston = Block::new(BlockKind::Piston);
    piston.facing = Some(Facing::East);
    piston.piston_variant = Some(PistonVariant::Normal);
    piston.piston_state = Some(PistonState::Retracted);
    world.set(piston_pos, piston);
    let mut input = Block::new(BlockKind::Lever);
    input.powered = Some(false);
    world.set(input_pos, input);
    world.set(wire_pos, Block::new(BlockKind::RedstoneWire));
    world.set(Pos::new(1, 1, 0), Block::new(BlockKind::Solid));
    let known_region = Region::new(Pos::new(-3, 0, -1), Pos::new(4, 2, 1));
    (world, piston_pos, wire_pos, input_pos, known_region)
}

fn world_driven_repeater_world(delay: u8) -> (World, Pos, Pos, Pos, Pos, Region) {
    let source_pos = Pos::new(-2, 1, 0);
    let input_wire_pos = Pos::new(-1, 1, 0);
    let repeater_pos = Pos::new(0, 1, 0);
    let output_wire_pos = Pos::new(1, 1, 0);
    let lamp_pos = Pos::new(2, 1, 0);
    let mut world = World::new();
    for x in -2..=2 {
        world.set(Pos::new(x, 0, 0), Block::new(BlockKind::Solid));
    }
    let mut source = Block::new(BlockKind::Lever);
    source.powered = Some(false);
    world.set(source_pos, source);
    world.set(input_wire_pos, Block::new(BlockKind::RedstoneWire));
    let mut repeater = Block::new(BlockKind::Repeater);
    repeater.facing = Some(Facing::East);
    repeater.powered = Some(false);
    repeater.delay = Some(delay);
    world.set(repeater_pos, repeater);
    world.set(output_wire_pos, Block::new(BlockKind::RedstoneWire));
    world.set(lamp_pos, Block::new(BlockKind::RedstoneLamp));
    let known_region = Region::new(Pos::new(-3, 0, -1), Pos::new(3, 2, 1));
    (
        world,
        source_pos,
        input_wire_pos,
        repeater_pos,
        output_wire_pos,
        known_region,
    )
}

fn pending_ids(engine: &PhysicsEngine) -> Vec<dustroute::time::event::EventId> {
    engine
        .checkpoint()
        .pending_events()
        .iter()
        .map(|event| event.id)
        .collect()
}

#[test]
fn scheduler_profile_is_retained_in_checkpoint_and_state_key() {
    let profile = SchedulerProfile::minecraft_java_1_21_11_modelled();
    let engine = PhysicsEngine::new(World::new(), 8).with_scheduler_profile(profile);
    assert_eq!(engine.scheduler_profile(), profile);
    assert_eq!(engine.checkpoint().scheduler_profile(), profile);
    assert_eq!(engine.execution_state_key().scheduler_profile, profile);
}

#[test]
fn zero_delay_policy_can_move_child_to_next_game_tick() {
    let profile = SchedulerProfile {
        zero_delay: ZeroDelayPolicy::NextGameTick,
        ..SchedulerProfile::default()
    };
    let pos = Pos::new(1, 2, 3);
    let mut engine = PhysicsEngine::new(World::new(), 8).with_scheduler_profile(profile);
    engine.schedule_external(
        4,
        pos,
        PhysicsEventKind::UserAction {
            action: "parent".to_owned(),
        },
    );
    let mut handler = |event: &PhysicsEvent, _world: &World| {
        let queued = matches!(
            &event.kind,
            PhysicsEventKind::UserAction { action } if action == "parent"
        )
        .then_some(QueuedEvent {
            delay_ticks: 0,
            target: pos,
            phase: PhysicsEventPhase::Observation,
            kind: PhysicsEventKind::UserAction {
                action: "child".to_owned(),
            },
        })
        .into_iter()
        .collect();
        Ok(EventOutcome {
            queued,
            ..EventOutcome::default()
        })
    };

    let first = engine.step_transition(&mut handler).unwrap().unwrap();
    let second = engine.step_transition(&mut handler).unwrap().unwrap();
    assert_eq!(first.event.event.time.game_tick, 4);
    assert_eq!(second.event.event.time.game_tick, 5);
    assert_eq!(second.event.event.time.phase, PhysicsEventPhase::Observation);
}

#[test]
fn records_same_tick_transitions_in_causal_order() {
    let pos = Pos::new(1, 2, 3);
    let mut engine = PhysicsEngine::new(World::new(), 8);
    engine.schedule_external(
        10,
        pos,
        PhysicsEventKind::UserAction {
            action: "pulse".into(),
        },
    );
    engine
        .run_until_idle(|event, _| {
            let powered = event.time.sub_tick_order == 0;
            EventOutcome {
                changes: vec![WorldChange {
                    position: pos,
                    after: Block::new(if powered {
                        BlockKind::RedstoneBlock
                    } else {
                        BlockKind::Air
                    }),
                }],
                delta: None,
                queued: powered
                    .then_some(QueuedEvent {
                        delay_ticks: 0,
                        target: pos,
                        phase: PhysicsEventPhase::NeighborUpdate,
                        kind: PhysicsEventKind::NeighborUpdate { source: pos },
                    })
                    .into_iter()
                    .collect(),
            }
        })
        .unwrap();
    assert_eq!(engine.trace().len(), 2);
    assert_eq!(engine.trace()[0].time.game_tick, 10);
    assert_eq!(engine.trace()[0].time.sub_tick_order, 0);
    assert_eq!(engine.trace()[1].time.sub_tick_order, 1);
    assert_eq!(engine.world().kind_at(pos), BlockKind::Air);
}

#[test]
fn step_transition_exposes_elapsed_time_and_noop_events_separately() {
    let pos = Pos::new(1, 2, 3);
    let mut engine = PhysicsEngine::new(World::new(), 8);
    engine.schedule_external(
        10,
        pos,
        PhysicsEventKind::UserAction {
            action: "pulse".into(),
        },
    );
    let mut handler = |event: &PhysicsEvent, _world: &World| {
        if matches!(
            &event.kind,
            PhysicsEventKind::UserAction { action } if action == "pulse"
        ) {
            return Ok(EventOutcome {
                changes: vec![WorldChange {
                    position: pos,
                    after: Block::new(BlockKind::RedstoneBlock),
                }],
                delta: None,
                queued: vec![
                    QueuedEvent {
                        delay_ticks: 0,
                        target: pos,
                        phase: PhysicsEventPhase::NeighborUpdate,
                        kind: PhysicsEventKind::NeighborUpdate { source: pos },
                    },
                    QueuedEvent {
                        delay_ticks: 0,
                        target: pos,
                        phase: PhysicsEventPhase::Observation,
                        kind: PhysicsEventKind::UserAction {
                            action: "observation".into(),
                        },
                    },
                ],
            });
        }
        if matches!(event.kind, PhysicsEventKind::NeighborUpdate { .. }) {
            return Ok(EventOutcome {
                changes: vec![WorldChange {
                    position: pos,
                    after: Block::new(BlockKind::Air),
                }],
                delta: None,
                queued: Vec::new(),
            });
        }
        Ok(EventOutcome::default())
    };

    let first = engine.step_transition(&mut handler).unwrap().unwrap();
    let second = engine.step_transition(&mut handler).unwrap().unwrap();
    let third = engine.step_transition(&mut handler).unwrap().unwrap();
    assert!(engine.step_transition(&mut handler).unwrap().is_none());
    assert!(matches!(
        first.event.status,
        EventExecutionStatus::Transition {
            id: TransitionId(0)
        }
    ));
    assert!(matches!(
        second.event.status,
        EventExecutionStatus::Transition {
            id: TransitionId(1)
        }
    ));
    assert!(matches!(third.event.status, EventExecutionStatus::NoTransition));
    assert_eq!(engine.transition_trace().len(), 2);
    assert_eq!(engine.transition_trace().records[0].elapsed_from_previous, None);
    assert_eq!(
        engine.transition_trace().records[1].elapsed_from_previous,
        Some(TransitionElapsed::Zero { order_delta: 1 })
    );
    assert_eq!(engine.event_trace().len(), 3);
    assert_eq!(engine.event_trace().records[2].event.id, third.event.event.id);
    assert_eq!(
        engine.transition_trace().records[0].from_state,
        World::new().state_id()
    );
}

#[test]
fn stops_an_unbounded_update_chain() {
    let pos = Pos::new(0, 0, 0);
    let mut engine = PhysicsEngine::new(World::new(), 3);
    engine.schedule_external(0, pos, PhysicsEventKind::ScheduledBlockTick);
    let error = engine
        .run_until_idle(|_, _| EventOutcome {
            changes: Vec::new(),
            delta: None,
            queued: vec![QueuedEvent {
                delay_ticks: 0,
                target: pos,
                phase: PhysicsEventPhase::ScheduledTick,
                kind: PhysicsEventKind::ScheduledBlockTick,
            }],
        })
        .unwrap_err();
    assert!(matches!(
        error,
        PhysicsEngineError::EventLimitExceeded { processed: 3, .. }
    ));
}

#[test]
fn piston_runner_rejects_without_consuming_non_piston_events() {
    let pos = Pos::new(0, 0, 0);
    let mut engine = PhysicsEngine::new(World::new(), 8);
    let event_id =
        engine.schedule_external(4, pos, PhysicsEventKind::NeighborUpdate { source: pos });
    let error = engine.run_piston_events().unwrap_err();
    assert!(matches!(
        error,
        PhysicsEngineError::UnsupportedEvent { kind: PhysicsEventKind::NeighborUpdate { source }, .. }
            if source == pos
    ));
    assert_eq!(engine.pending_event_count(), 1);
    assert_eq!(engine.peek_event().map(|event| event.id), Some(event_id));
    assert_eq!(engine.processed_events(), 0);
    assert!(engine.trace().is_empty());
}

#[test]
fn piston_runner_preflights_a_mixed_queue_before_partial_application() {
    let piston_pos = Pos::new(0, 1, 0);
    let mut world = World::new();
    world.set(Pos::new(0, 0, 0), Block::new(BlockKind::Solid));
    let mut piston = Block::new(BlockKind::Piston);
    piston.facing = Some(Facing::East);
    world.set(piston_pos, piston);
    world.set(Pos::new(1, 1, 0), Block::new(BlockKind::Solid));
    let mut engine = PhysicsEngine::new(world.clone(), 8);
    let piston_event = engine.schedule_piston_action(0, piston_pos, PistonAction::Extend);
    let other_event = engine.schedule_external(
        1,
        piston_pos,
        PhysicsEventKind::NeighborUpdate { source: piston_pos },
    );

    let error = engine.run_piston_events().unwrap_err();
    assert!(matches!(
        error,
        PhysicsEngineError::UnsupportedEvent {
            kind: PhysicsEventKind::NeighborUpdate { source },
            ..
        } if source == piston_pos
    ));
    assert_eq!(engine.world(), &world);
    assert_eq!(engine.pending_event_count(), 2);
    assert_eq!(pending_ids(&engine), vec![piston_event, other_event]);
    assert!(engine.trace().is_empty());
}

#[test]
fn zero_delay_child_cannot_move_back_to_an_earlier_phase() {
    let pos = Pos::new(0, 0, 0);
    let mut engine = PhysicsEngine::new(World::new(), 8);
    engine.schedule_external_in_phase(
        4,
        pos,
        PhysicsEventPhase::BlockEvent,
        PhysicsEventKind::UserAction {
            action: "phase-test".into(),
        },
    );
    let error = engine
        .run_until_idle(|_, _| EventOutcome {
            changes: Vec::new(),
            delta: None,
            queued: vec![QueuedEvent {
                delay_ticks: 0,
                target: pos,
                phase: PhysicsEventPhase::NeighborUpdate,
                kind: PhysicsEventKind::NeighborUpdate { source: pos },
            }],
        })
        .unwrap_err();
    assert!(matches!(
        error,
        PhysicsEngineError::CausalOrderViolation {
            parent: PhysicsTime {
                game_tick: 4,
                phase: PhysicsEventPhase::BlockEvent,
                ..
            },
            child_phase: PhysicsEventPhase::NeighborUpdate,
        }
    ));
    assert_eq!(engine.pending_event_count(), 1);
    assert_eq!(engine.processed_events(), 0);
    assert!(engine.trace().is_empty());
}

#[test]
fn invalid_piston_profile_is_rejected_before_consuming_events() {
    let piston_pos = Pos::new(0, 1, 0);
    let mut world = World::new();
    world.set(Pos::new(0, 0, 0), Block::new(BlockKind::Solid));
    let mut piston = Block::new(BlockKind::Piston);
    piston.facing = Some(Facing::East);
    world.set(piston_pos, piston);
    let profile = PistonMotionProfile {
        initial_delay_min_game_ticks: 2,
        initial_delay_max_game_ticks: 1,
        movement_game_ticks: 0,
    };
    let mut engine = PhysicsEngine::new(world, 8).with_piston_motion_profile(profile);
    let event_id = engine.schedule_piston_action(4, piston_pos, PistonAction::Extend);

    let error = engine.run_piston_events().unwrap_err();
    assert!(matches!(
        error,
        PhysicsEngineError::InvalidPistonMotionProfile(
            PistonMotionProfileError::InvalidInitialDelayRange {
                minimum_game_ticks: 2,
                maximum_game_ticks: 1
            }
        )
    ));
    assert_eq!(engine.pending_event_count(), 1);
    assert_eq!(engine.peek_event().map(|event| event.id), Some(event_id));
    assert_eq!(engine.processed_events(), 0);
}

#[test]
fn bounded_piston_runner_rejects_unknown_space_without_mutation() {
    let piston_pos = Pos::new(0, 1, 0);
    let mut world = World::new();
    world.set(Pos::new(0, 0, 0), Block::new(BlockKind::Solid));
    let mut piston = Block::new(BlockKind::Piston);
    piston.facing = Some(Facing::East);
    world.set(piston_pos, piston);
    world.set(Pos::new(1, 1, 0), Block::new(BlockKind::Solid));
    let known_region = Region::new(Pos::new(-1, 0, -1), Pos::new(1, 2, 1));
    let mut engine =
        PhysicsEngine::new(world.clone(), 8).with_piston_planning_region(known_region);
    let event_id = engine.schedule_piston_action(0, piston_pos, PistonAction::Extend);

    let error = engine.run_piston_events().unwrap_err();
    assert!(matches!(
        error,
        PhysicsEngineError::Piston(error)
            if matches!(error.as_ref(), PistonError::UnknownSpace { position }
                if *position == Pos::new(2, 1, 0))
    ));
    assert_eq!(engine.world(), &world);
    assert_eq!(engine.peek_event().map(|event| event.id), Some(event_id));
    assert!(engine.trace().is_empty());
}

#[test]
fn checkpoint_round_trip_restores_world_queue_and_trace_cursors() {
    let pos = Pos::new(2, 0, 0);
    let mut engine = PhysicsEngine::new(World::new(), 8);
    engine.schedule_external(
        4,
        pos,
        PhysicsEventKind::UserAction {
            action: "set".to_owned(),
        },
    );
    let checkpoint = engine.checkpoint();
    assert_eq!(checkpoint.pending_event_count(), 1);
    assert_eq!(checkpoint.state_key(), engine.execution_state_key());

    let mut handler = |_: &PhysicsEvent, _: &World| {
        Ok(EventOutcome {
            changes: vec![WorldChange {
                position: pos,
                after: Block::new(BlockKind::RedstoneBlock),
            }],
            delta: None,
            queued: Vec::new(),
        })
    };
    engine.step_transition(&mut handler).unwrap();
    assert_ne!(engine.checkpoint(), checkpoint);

    engine.restore(&checkpoint);
    assert_eq!(engine.checkpoint(), checkpoint);
    assert_eq!(engine.execution_state_key(), checkpoint.state_key());
    assert_eq!(engine.pending_event_count(), 1);
    assert_eq!(engine.world().kind_at(pos), BlockKind::Air);
}

#[test]
fn rejected_step_restores_scheduler_state_and_retry_order() {
    let pos = Pos::new(2, 0, 0);
    let mut engine = PhysicsEngine::new(World::new(), 8);
    engine.schedule_external(0, pos, PhysicsEventKind::ScheduledBlockTick);
    let mut warmup = |_: &PhysicsEvent, _: &World| Ok(EventOutcome::default());
    engine.step_transition(&mut warmup).unwrap();
    engine.schedule_external(
        4,
        pos,
        PhysicsEventKind::UserAction {
            action: "retry".to_owned(),
        },
    );
    let before_key = engine.execution_state_key();
    let before_time = engine.time();
    let mut attempts = 0;
    let mut handler = |_: &PhysicsEvent, _: &World| {
        attempts += 1;
        if attempts == 1 {
            return Err(PhysicsEngineError::InvalidOutcome);
        }
        Ok(EventOutcome {
            changes: vec![WorldChange {
                position: pos,
                after: Block::new(BlockKind::RedstoneBlock),
            }],
            delta: None,
            queued: Vec::new(),
        })
    };

    let error = engine.step_transition(&mut handler).unwrap_err();
    assert_eq!(error, PhysicsEngineError::InvalidOutcome);
    assert_eq!(engine.execution_state_key(), before_key);
    assert_eq!(engine.time(), before_time);
    assert_eq!(engine.pending_event_count(), 1);
    assert!(engine.trace().is_empty());
    assert!(engine.trace_status().is_failed());

    let retry = engine.step_transition(&mut handler).unwrap().unwrap();
    assert_eq!(retry.event.event.time.sub_tick_order, 0);
    assert_eq!(engine.world().kind_at(pos), BlockKind::RedstoneBlock);
    assert!(engine.trace_status().is_complete());
}

#[test]
fn legacy_outcome_duplicate_changes_are_rejected_atomically() {
    let pos = Pos::new(2, 0, 0);
    let mut engine = PhysicsEngine::new(World::new(), 8);
    engine.schedule_external(1, pos, PhysicsEventKind::ScheduledBlockTick);
    let before = engine.execution_state_key();
    let mut handler = |_: &PhysicsEvent, _: &World| {
        Ok(EventOutcome {
            changes: vec![
                WorldChange {
                    position: pos,
                    after: Block::new(BlockKind::RedstoneBlock),
                },
                WorldChange {
                    position: pos,
                    after: Block::new(BlockKind::Air),
                },
            ],
            delta: None,
            queued: Vec::new(),
        })
    };
    assert_eq!(
        engine.step_transition(&mut handler).unwrap_err(),
        PhysicsEngineError::InvalidOutcome
    );
    assert_eq!(engine.execution_state_key(), before);
    assert_eq!(engine.world().kind_at(pos), BlockKind::Air);
    assert_eq!(engine.pending_event_count(), 1);
}

#[test]
fn execution_keys_distinguish_same_world_with_different_pending_work() {
    let pos = Pos::new(0, 0, 0);
    let world = World::new();
    let first = PhysicsEngine::new(world.clone(), 8);
    let mut second = PhysicsEngine::new(world, 8);
    second.schedule_external(2, pos, PhysicsEventKind::ScheduledBlockTick);
    assert_ne!(first.execution_state_key(), second.execution_state_key());
    assert_eq!(first.state_id(), second.state_id());
}

#[test]
fn checked_external_schedule_rejects_a_past_same_tick_phase() {
    let pos = Pos::new(0, 0, 0);
    let mut engine = PhysicsEngine::new(World::new(), 8);
    engine.schedule_external_in_phase(
        4,
        pos,
        PhysicsEventPhase::BlockEvent,
        PhysicsEventKind::UserAction {
            action: "phase".to_owned(),
        },
    );
    let mut handler = |_: &PhysicsEvent, _: &World| Ok(EventOutcome::default());
    engine.step_transition(&mut handler).unwrap();
    let key = engine.execution_state_key();
    let error = engine
        .schedule_external_in_phase_checked(
            4,
            pos,
            PhysicsEventPhase::NeighborUpdate,
            PhysicsEventKind::NeighborUpdate { source: pos },
        )
        .unwrap_err();
    assert!(matches!(
        error,
        PhysicsEngineError::CausalOrderViolation {
            parent: PhysicsTime {
                game_tick: 4,
                phase: PhysicsEventPhase::BlockEvent,
                ..
            },
            child_phase: PhysicsEventPhase::NeighborUpdate,
        }
    ));
    assert_eq!(engine.execution_state_key(), key);
    assert!(engine.trace_status().is_failed());
    engine
        .run_until_idle_checked(|_: &PhysicsEvent, _: &World| Ok(EventOutcome::default()))
        .unwrap();
    assert!(engine.trace_status().is_failed());
}

#[test]
fn unchecked_external_phase_regression_is_rejected_before_handler() {
    let pos = Pos::new(0, 0, 0);
    let mut engine = PhysicsEngine::new(World::new(), 8);
    engine.schedule_external_in_phase(
        4,
        pos,
        PhysicsEventPhase::BlockEvent,
        PhysicsEventKind::UserAction {
            action: "phase".to_owned(),
        },
    );
    let mut handler = |_: &PhysicsEvent, _: &World| Ok(EventOutcome::default());
    engine.step_transition(&mut handler).unwrap();
    engine.schedule_external_in_phase(
        4,
        pos,
        PhysicsEventPhase::NeighborUpdate,
        PhysicsEventKind::NeighborUpdate { source: pos },
    );
    let before_key = engine.execution_state_key();
    let error = engine.step_transition(&mut handler).unwrap_err();
    assert!(matches!(
        error,
        PhysicsEngineError::CausalOrderViolation {
            parent: PhysicsTime {
                game_tick: 4,
                phase: PhysicsEventPhase::BlockEvent,
                ..
            },
            child_phase: PhysicsEventPhase::NeighborUpdate,
        }
    ));
    assert_eq!(engine.execution_state_key(), before_key);
    assert_eq!(engine.pending_event_count(), 1);
}

#[test]
fn same_tick_microstep_budget_is_independent_from_total_event_budget() {
    let pos = Pos::new(0, 0, 0);
    let mut engine = PhysicsEngine::new(World::new(), 100).with_max_microsteps_per_game_tick(2);
    engine.schedule_external(4, pos, PhysicsEventKind::ScheduledBlockTick);
    let error = engine
        .run_until_idle(|_, _| EventOutcome {
            changes: Vec::new(),
            delta: None,
            queued: vec![QueuedEvent {
                delay_ticks: 0,
                target: pos,
                phase: PhysicsEventPhase::ScheduledTick,
                kind: PhysicsEventKind::ScheduledBlockTick,
            }],
        })
        .unwrap_err();
    assert!(matches!(
        error,
        PhysicsEngineError::MicrostepLimitExceeded {
            game_tick: 4,
            limit: 2,
            processed: 2,
            ..
        }
    ));
    assert_eq!(engine.pending_event_count(), 1);
    assert_eq!(engine.processed_events(), 2);
}

#[test]
fn runs_a_piston_block_event_as_ordered_start_and_completion() {
    let piston_pos = Pos::new(0, 1, 0);
    let mut world = World::new();
    world.set(Pos::new(0, 0, 0), Block::new(BlockKind::Solid));
    let mut piston = Block::new(BlockKind::Piston);
    piston.facing = Some(Facing::East);
    world.set(piston_pos, piston);
    world.set(Pos::new(1, 1, 0), Block::new(BlockKind::Solid));
    let mut engine = PhysicsEngine::new(world, 8);
    let event_id = engine.schedule_piston_action(4, piston_pos, PistonAction::Extend);
    engine.run_piston_events().unwrap();
    assert_eq!(engine.world().kind_at(Pos::new(1, 1, 0)), BlockKind::PistonHead);
    assert_eq!(engine.world().kind_at(Pos::new(2, 1, 0)), BlockKind::Solid);
    assert_eq!(
        piston_state(engine.world().get(piston_pos).unwrap()),
        PistonState::Extended
    );
    let completion_tick = 4 + default_piston_motion_profile().stable_completion_delay_game_ticks();
    assert_eq!(engine.time().game_tick, completion_tick);
    assert_eq!(engine.trace().len(), 6);
    assert_eq!(engine.trace()[0].cause, event_id);
    assert_eq!(engine.trace()[0].time.game_tick, 4);
    assert_eq!(piston_state(&engine.trace()[0].after), PistonState::Extending);
    assert!(engine.trace()[1..3]
        .iter()
        .all(|transition| { transition.time.game_tick == 4 && transition.cause == event_id }));
    assert!(engine.trace()[3..].iter().all(|transition| {
        transition.time.game_tick == completion_tick && transition.cause != event_id
    }));
    assert_eq!(engine.shape_transitions().len(), 2);
    let start = &engine.shape_transitions()[0];
    assert_eq!(start.cause, event_id);
    assert_ne!(start.from, start.to);
    assert_eq!(start.delta.moves.len(), 1);
    let completion = &engine.shape_transitions()[1];
    assert_ne!(completion.cause, event_id);
    assert_ne!(completion.from, completion.to);
    assert_eq!(completion.time.game_tick, completion_tick);
    assert_eq!(completion.delta.moves.len(), 1);
    assert!(engine.trace().iter().all(|transition| {
        matches!(
            &transition.delta_cause,
            Some(DeltaCause::PistonExtend { piston }) if *piston == piston_pos
        )
    }));
    assert_eq!(engine.transition_trace().len(), 2);
    let transitions = &engine.transition_trace().records;
    assert_eq!(transitions[0].trigger, event_id);
    assert_eq!(transitions[0].time.game_tick, 4);
    assert_eq!(transitions[0].elapsed_from_previous, None);
    assert_ne!(transitions[0].from_state, transitions[0].to_state);
    assert_eq!(transitions[1].time.game_tick, completion_tick);
    assert_eq!(
        transitions[1].elapsed_from_previous,
        Some(TransitionElapsed::ExactGameTicks {
            game_ticks: default_piston_motion_profile().stable_completion_delay_game_ticks(),
        })
    );
    assert_ne!(transitions[1].from_state, transitions[1].to_state);
    assert_eq!(transitions[1].moves.len(), 1);
}

#[test]
fn redstone_input_drives_normal_piston_through_neighbor_block_event_and_completion() {
    let (world, piston_pos, input_pos, known_region) = redstone_piston_world(PistonVariant::Normal);
    let mut engine = PhysicsEngine::new(world, 16).with_piston_planning_region(known_region);
    let input_id = engine.schedule_redstone_input(0, input_pos, true);
    engine.run_redstone_piston_events().unwrap();

    assert_eq!(engine.world().kind_at(Pos::new(1, 1, 0)), BlockKind::PistonHead);
    assert_eq!(engine.world().kind_at(Pos::new(2, 1, 0)), BlockKind::Solid);
    assert_eq!(
        piston_state(engine.world().get(piston_pos).unwrap()),
        PistonState::Extended
    );
    assert_eq!(engine.time().game_tick, 3);
    assert!(engine.trace_status().is_complete());
    assert_eq!(engine.transition_trace().len(), 3);

    let events = &engine.event_trace().records;
    assert_eq!(events.len(), 4);
    assert_eq!(events[0].event.id, input_id);
    assert!(matches!(
        events[0].event.kind,
        PhysicsEventKind::RedstoneInput { powered: true }
    ));
    assert_eq!(events[0].event.cause, EventCause::External);
    assert!(matches!(
        events[1].event.kind,
        PhysicsEventKind::NeighborUpdate { source } if source == input_pos
    ));
    assert_eq!(events[1].event.cause, EventCause::Event { id: input_id });
    assert!(matches!(
        events[2].event.kind,
        PhysicsEventKind::BlockEvent {
            event: BlockEventKind::PistonExtend
        }
    ));
    assert_eq!(
        events[2].event.cause,
        EventCause::Event {
            id: events[1].event.id
        }
    );
    assert!(matches!(
        events[3].event.kind,
        PhysicsEventKind::PistonComplete {
            action: PistonAction::Extend,
            ..
        }
    ));
    assert_eq!(
        events[3].event.cause,
        EventCause::Event {
            id: events[2].event.id
        }
    );
    assert_eq!(events[0].event.time.game_tick, 0);
    assert_eq!(events[1].event.time.game_tick, 0);
    assert_eq!(events[2].event.time.game_tick, 1);
    assert_eq!(events[3].event.time.game_tick, 3);
    assert_eq!(
        engine.transition_trace().records[0].changes[0].reason,
        ChangeReason::ExternalInput
    );
}

#[test]
fn redstone_input_off_retracts_normal_and_sticky_pistons() {
    for variant in [PistonVariant::Normal, PistonVariant::Sticky] {
        let (world, piston_pos, input_pos, known_region) = redstone_piston_world(variant);
        let mut engine = PhysicsEngine::new(world, 32).with_piston_planning_region(known_region);
        engine.schedule_redstone_input(0, input_pos, true);
        engine.run_redstone_piston_events().unwrap();
        let off_tick = engine.time().game_tick.saturating_add(1);
        engine.schedule_redstone_input(off_tick, input_pos, false);
        engine.run_redstone_piston_events().unwrap();

        assert_eq!(
            piston_state(engine.world().get(piston_pos).unwrap()),
            PistonState::Retracted,
            "variant {variant:?} should retract"
        );
        assert_eq!(
            engine.world().kind_at(Pos::new(1, 1, 0)),
            if variant == PistonVariant::Sticky {
                BlockKind::Solid
            } else {
                BlockKind::Air
            }
        );
        assert_eq!(
            engine.world().kind_at(Pos::new(2, 1, 0)),
            if variant == PistonVariant::Sticky {
                BlockKind::Air
            } else {
                BlockKind::Solid
            }
        );
        assert_eq!(engine.event_trace().records.len(), 8);
        assert!(matches!(
            engine.event_trace().records[6].event.kind,
            PhysicsEventKind::BlockEvent {
                event: BlockEventKind::PistonRetract
            }
        ));
    }
}

#[test]
fn simultaneous_direct_inputs_do_not_schedule_duplicate_piston_motion() {
    let (mut world, piston_pos, west_input, known_region) =
        redstone_piston_world(PistonVariant::Normal);
    let north_input = Pos::new(0, 1, -1);
    let mut north_lever = Block::new(BlockKind::Lever);
    north_lever.powered = Some(false);
    world.set(north_input, north_lever);
    let mut engine = PhysicsEngine::new(world, 32).with_piston_planning_region(known_region);
    engine.schedule_redstone_input(0, west_input, true);
    engine.schedule_redstone_input(0, north_input, true);

    engine.run_redstone_piston_events().unwrap();

    assert_eq!(
        piston_state(engine.world().get(piston_pos).unwrap()),
        PistonState::Extended
    );
    assert_eq!(engine.world().kind_at(Pos::new(1, 1, 0)), BlockKind::PistonHead);
    assert_eq!(
        engine
            .event_trace()
            .records
            .iter()
            .filter(|record| {
                matches!(
                    record.event.kind,
                    PhysicsEventKind::BlockEvent {
                        event: BlockEventKind::PistonExtend
                    }
                )
            })
            .count(),
        2,
        "both neighbor updates are retained as evidence"
    );
    assert!(engine.trace_status().is_complete());
}

#[test]
fn turning_one_input_off_does_not_retract_while_another_stays_powered() {
    let (mut world, piston_pos, west_input, known_region) =
        redstone_piston_world(PistonVariant::Normal);
    let north_input = Pos::new(0, 1, -1);
    let mut north_lever = Block::new(BlockKind::Lever);
    north_lever.powered = Some(false);
    world.set(north_input, north_lever);
    let mut engine = PhysicsEngine::new(world, 32).with_piston_planning_region(known_region);
    engine.schedule_redstone_input(0, west_input, true);
    engine.run_redstone_piston_events().unwrap();

    let north_tick = engine.time().game_tick.saturating_add(1);
    engine.schedule_redstone_input(north_tick, north_input, true);
    engine.run_redstone_piston_events().unwrap();
    let off_tick = engine.time().game_tick.saturating_add(1);
    engine.schedule_redstone_input(off_tick, west_input, false);
    engine.run_redstone_piston_events().unwrap();

    assert_eq!(
        piston_state(engine.world().get(piston_pos).unwrap()),
        PistonState::Extended
    );
    assert_eq!(engine.world().kind_at(Pos::new(1, 1, 0)), BlockKind::PistonHead);
    assert_eq!(engine.world().kind_at(Pos::new(2, 1, 0)), BlockKind::Solid);
    assert!(engine.trace_status().is_complete());
    assert!(!engine.event_trace().records.iter().any(|record| {
        matches!(
            record.event.kind,
            PhysicsEventKind::BlockEvent {
                event: BlockEventKind::PistonRetract
            }
        )
    }));
}

#[test]
fn observed_source_power_is_resolved_from_the_explicit_input_edge() {
    let (mut world, piston_pos, input_pos, known_region) =
        redstone_piston_world(PistonVariant::Normal);
    let mut input = world.get(input_pos).expect("helper creates the input").clone();
    input.observed_name = Some("minecraft:lever".to_owned());
    input.observation_classification = ObservationClassification::Exact;
    input.observed_properties.clear();
    world.set(input_pos, input);
    let mut engine = PhysicsEngine::new(world, 16).with_piston_planning_region(known_region);
    engine.schedule_redstone_input(0, input_pos, true);
    engine.run_redstone_piston_events().unwrap();

    assert_eq!(
        piston_state(engine.world().get(piston_pos).unwrap()),
        PistonState::Extended
    );
    assert_eq!(
        engine.world().get(input_pos).and_then(|block| block.powered),
        Some(true)
    );
}

#[test]
fn redstone_runner_rejects_unknown_input_boundary_before_mutation() {
    let (world, _piston_pos, input_pos, _) = redstone_piston_world(PistonVariant::Normal);
    let known_region = Region::new(Pos::new(0, 0, -1), Pos::new(2, 2, 1));
    let mut engine =
        PhysicsEngine::new(world.clone(), 16).with_piston_planning_region(known_region);
    let input_id = engine.schedule_redstone_input(0, input_pos, true);
    let error = engine.run_redstone_piston_events().unwrap_err();

    assert!(matches!(
        error,
        PhysicsEngineError::Piston(error)
            if matches!(error.as_ref(), PistonError::UnknownSpace { position }
                if *position == input_pos)
    ));
    assert_eq!(engine.world(), &world);
    assert_eq!(engine.pending_event_count(), 1);
    assert_eq!(engine.event_trace().records.len(), 0);
    assert!(engine.event_trace().status.is_failed());
    assert_eq!(
        engine.execution_state_key().pending_events[0].kind,
        PhysicsEventKind::RedstoneInput { powered: true }
    );
    assert_eq!(
        engine
            .checkpoint()
            .pending_events()
            .first()
            .map(|event| event.id),
        Some(input_id)
    );
}

#[test]
fn redstone_runner_keeps_piston_stationary_when_block_event_is_obstructed() {
    let (mut world, piston_pos, input_pos, known_region) =
        redstone_piston_world(PistonVariant::Normal);
    world.set(Pos::new(1, 1, 0), Block::new(BlockKind::RedstoneWire));
    let mut engine =
        PhysicsEngine::new(world.clone(), 16).with_piston_planning_region(known_region);
    engine.schedule_redstone_input(0, input_pos, true);
    let error = engine.run_redstone_piston_events().unwrap_err();

    assert!(matches!(
        error,
        PhysicsEngineError::Piston(error)
            if matches!(error.as_ref(), PistonError::UnsupportedMovingBlock { position, kind, .. }
                if *position == Pos::new(1, 1, 0) && *kind == BlockKind::RedstoneWire)
    ));
    assert_eq!(engine.world().kind_at(piston_pos), BlockKind::Piston);
    assert_eq!(
        piston_state(engine.world().get(piston_pos).unwrap()),
        PistonState::Retracted
    );
    assert_eq!(engine.world().kind_at(input_pos), BlockKind::Lever);
    assert_eq!(
        engine.world().get(input_pos).and_then(|block| block.powered),
        Some(true)
    );
    assert!(engine.trace_status().is_failed());
    assert_eq!(engine.pending_event_count(), 1);
    assert!(matches!(
        engine.peek_event().map(|event| &event.kind),
        Some(PhysicsEventKind::BlockEvent {
            event: BlockEventKind::PistonExtend
        })
    ));
}

#[test]
fn world_change_propagates_through_wire_into_piston() {
    let (world, piston_pos, wire_pos, input_pos, known_region) = world_driven_wire_piston_world();
    let mut engine = PhysicsEngine::new(world, 128).with_piston_planning_region(known_region);
    let input = {
        let mut block = Block::new(BlockKind::Lever);
        block.powered = Some(true);
        block
    };
    let world_change_id = engine.schedule_world_change(0, input_pos, input);
    engine.run_redstone_propagation().unwrap();

    assert_eq!(
        engine.world().get(wire_pos).and_then(|block| block.power_level),
        Some(15)
    );
    assert_eq!(engine.world().kind_at(Pos::new(1, 1, 0)), BlockKind::PistonHead);
    assert_eq!(
        piston_state(engine.world().get(piston_pos).unwrap()),
        PistonState::Extended
    );
    assert_eq!(engine.event_trace().records[0].event.id, world_change_id);
    assert!(matches!(
        engine.event_trace().records[0].event.kind,
        PhysicsEventKind::WorldChange { .. }
    ));
    assert!(engine.event_trace().records.iter().any(|record| {
        matches!(
            record.event.kind,
            PhysicsEventKind::NeighborUpdate { source } if source == wire_pos
        )
    }));
    assert!(engine.trace_status().is_complete());
}

#[test]
fn typed_redstone_input_can_enter_the_same_world_propagation_runner() {
    let (world, piston_pos, wire_pos, input_pos, known_region) = world_driven_wire_piston_world();
    let mut engine = PhysicsEngine::new(world, 128).with_piston_planning_region(known_region);
    engine.schedule_redstone_input(0, input_pos, true);
    engine.run_redstone_propagation().unwrap();

    assert_eq!(
        engine.world().get(wire_pos).and_then(|block| block.power_level),
        Some(15)
    );
    assert_eq!(
        piston_state(engine.world().get(piston_pos).unwrap()),
        PistonState::Extended
    );
}

#[test]
fn world_change_off_reaches_wire_and_retracts_piston() {
    let (world, piston_pos, wire_pos, input_pos, known_region) = world_driven_wire_piston_world();
    let mut engine = PhysicsEngine::new(world, 256).with_piston_planning_region(known_region);
    let mut on = Block::new(BlockKind::Lever);
    on.powered = Some(true);
    engine.schedule_world_change(0, input_pos, on);
    engine.run_redstone_propagation().unwrap();

    let mut off = Block::new(BlockKind::Lever);
    off.powered = Some(false);
    engine.schedule_world_change(engine.time().game_tick + 1, input_pos, off);
    engine.run_redstone_propagation().unwrap();

    assert_eq!(
        engine.world().get(wire_pos).and_then(|block| block.power_level),
        Some(0)
    );
    assert_eq!(
        piston_state(engine.world().get(piston_pos).unwrap()),
        PistonState::Retracted
    );
    assert_eq!(engine.world().kind_at(Pos::new(1, 1, 0)), BlockKind::Air);
    assert!(engine.trace_status().is_complete());
}

#[test]
fn world_driven_wire_fixed_point_powers_lamp_and_decays_on_removal() {
    let input_pos = Pos::new(0, 1, 0);
    let wire_positions = [Pos::new(1, 1, 0), Pos::new(2, 1, 0), Pos::new(3, 1, 0)];
    let lamp_pos = Pos::new(4, 1, 0);
    let mut world = World::new();
    for x in 0..=4 {
        world.set(Pos::new(x, 0, 0), Block::new(BlockKind::Solid));
    }
    let mut input = Block::new(BlockKind::Lever);
    input.powered = Some(false);
    world.set(input_pos, input);
    for position in wire_positions {
        world.set(position, Block::new(BlockKind::RedstoneWire));
    }
    world.set(lamp_pos, Block::new(BlockKind::RedstoneLamp));
    let known_region = Region::new(Pos::new(-1, 0, -1), Pos::new(5, 2, 1));
    let mut engine = PhysicsEngine::new(world, 256).with_piston_planning_region(known_region);

    let mut on = Block::new(BlockKind::Lever);
    on.powered = Some(true);
    engine.schedule_world_change(0, input_pos, on);
    engine.run_redstone_propagation().unwrap();
    assert_eq!(
        wire_positions
            .iter()
            .map(|position| engine.world().get(*position).unwrap().power_level)
            .collect::<Vec<_>>(),
        [Some(15), Some(14), Some(13)]
    );
    assert_eq!(
        engine.world().get(lamp_pos).and_then(|block| block.powered),
        Some(true)
    );

    let mut off = Block::new(BlockKind::Lever);
    off.powered = Some(false);
    engine.schedule_world_change(1, input_pos, off);
    engine.run_redstone_propagation().unwrap();
    assert_eq!(
        wire_positions
            .iter()
            .map(|position| engine.world().get(*position).unwrap().power_level)
            .collect::<Vec<_>>(),
        [Some(0), Some(0), Some(0)]
    );
    assert_eq!(
        engine.world().get(lamp_pos).and_then(|block| block.powered),
        Some(false)
    );
}

#[test]
fn repeater_delay_is_two_game_ticks_per_redstone_tick() {
    for delay in 1..=4 {
        let (world, source_pos, input_wire_pos, repeater_pos, output_wire_pos, known_region) =
            world_driven_repeater_world(delay);
        let mut engine = PhysicsEngine::new(world, 256).with_piston_planning_region(known_region);
        let mut on = Block::new(BlockKind::Lever);
        on.powered = Some(true);
        engine.schedule_world_change(0, source_pos, on);
        engine.run_redstone_propagation().unwrap();

        assert_eq!(
            engine.world().get(input_wire_pos).and_then(|block| block.power_level),
            Some(15)
        );
        assert_eq!(
            engine.world().get(repeater_pos).and_then(|block| block.powered),
            Some(true)
        );
        assert_eq!(
            engine.world().get(output_wire_pos).and_then(|block| block.power_level),
            Some(15)
        );
        assert_eq!(
            engine.world().get(Pos::new(2, 1, 0)).and_then(|block| block.powered),
            Some(true)
        );
        let tick = engine
            .event_trace()
            .records
            .iter()
            .find(|record| matches!(record.event.kind, PhysicsEventKind::RepeaterTick { .. }))
            .expect("repeater scheduled tick should be retained in the event trace");
        assert_eq!(tick.event.time.game_tick, u64::from(delay) * 2);
        let repeater_transition = engine
            .transition_trace()
            .records
            .iter()
            .find(|record| record.changes.iter().any(|change| change.position == repeater_pos))
            .expect("repeater output transition should be retained");
        assert_eq!(
            repeater_transition.cause,
            Some(DeltaCause::RepeaterTick {
                repeater: repeater_pos
            })
        );
        assert!(engine.trace_status().is_complete());
    }
}

#[test]
fn repeater_off_edge_is_delayed_and_reaches_lamp() {
    let (world, source_pos, _input_wire_pos, repeater_pos, output_wire_pos, known_region) =
        world_driven_repeater_world(2);
    let mut engine = PhysicsEngine::new(world, 256).with_piston_planning_region(known_region);
    let mut on = Block::new(BlockKind::Lever);
    on.powered = Some(true);
    engine.schedule_world_change(0, source_pos, on);
    engine.run_redstone_propagation().unwrap();
    let off_tick = engine.time().game_tick + 1;
    let mut off = Block::new(BlockKind::Lever);
    off.powered = Some(false);
    engine.schedule_world_change(off_tick, source_pos, off);
    engine.run_redstone_propagation().unwrap();

    assert_eq!(
        engine.world().get(repeater_pos).and_then(|block| block.powered),
        Some(false)
    );
    assert_eq!(
        engine
            .world()
            .get(output_wire_pos)
            .and_then(|block| block.power_level)
            .unwrap_or(0),
        0
    );
    assert_eq!(
        engine.world().get(Pos::new(2, 1, 0)).and_then(|block| block.powered),
        Some(false)
    );
    assert!(engine.trace_status().is_complete());
}

#[test]
fn repeater_output_drives_a_piston_block_event() {
    let (mut world, source_pos, _input_wire_pos, _repeater_pos, _output_wire_pos, known_region) =
        world_driven_repeater_world(1);
    world.remove(Pos::new(2, 1, 0));
    let piston_pos = Pos::new(2, 1, 0);
    let mut piston = Block::new(BlockKind::Piston);
    piston.facing = Some(Facing::East);
    piston.piston_state = Some(PistonState::Retracted);
    world.set(piston_pos, piston);
    let mut engine = PhysicsEngine::new(world, 256).with_piston_planning_region(known_region);
    let mut on = Block::new(BlockKind::Lever);
    on.powered = Some(true);
    engine.schedule_world_change(0, source_pos, on);
    engine.run_redstone_propagation().unwrap();

    assert_eq!(
        piston_state(engine.world().get(piston_pos).unwrap()),
        PistonState::Extended
    );
    assert_eq!(engine.world().kind_at(Pos::new(3, 1, 0)), BlockKind::PistonHead);
    let block_event = engine
        .event_trace()
        .records
        .iter()
        .find(|record| {
            matches!(
                record.event.kind,
                PhysicsEventKind::BlockEvent {
                    event: BlockEventKind::PistonExtend
                }
            )
        })
        .expect("repeater output should reach the piston block-event boundary");
    assert_eq!(block_event.event.time.game_tick, 3);
    assert_eq!(block_event.event.time.phase, PhysicsEventPhase::BlockEvent);
    assert_eq!(
        engine
            .transition_trace()
            .records
            .iter()
            .filter(|record| record.time.game_tick == 2)
            .count(),
        2
    );
    assert!(engine.trace_status().is_complete());
}

#[test]
fn stale_repeater_tick_is_a_retained_noop_after_input_reversal() {
    let (world, source_pos, _input_wire_pos, repeater_pos, output_wire_pos, known_region) =
        world_driven_repeater_world(1);
    let mut engine = PhysicsEngine::new(world, 256).with_piston_planning_region(known_region);
    let mut on = Block::new(BlockKind::Lever);
    on.powered = Some(true);
    engine.schedule_world_change(0, source_pos, on);
    let mut off = Block::new(BlockKind::Lever);
    off.powered = Some(false);
    engine.schedule_world_change(1, source_pos, off);
    engine.run_redstone_propagation().unwrap();

    assert_eq!(
        engine.world().get(repeater_pos).and_then(|block| block.powered),
        Some(false)
    );
    assert_eq!(
        engine
            .world()
            .get(output_wire_pos)
            .and_then(|block| block.power_level)
            .unwrap_or(0),
        0
    );
    let stale = engine
        .event_trace()
        .records
        .iter()
        .find(|record| {
            matches!(
                record.event.kind,
                PhysicsEventKind::RepeaterTick {
                    expected_powered: true
                }
            )
        })
        .expect("reversed input should leave the original tick as evidence");
    assert_eq!(stale.status, EventExecutionStatus::NoTransition);
    assert!(engine.trace_status().is_complete());
}

#[test]
fn repeater_rejects_vertical_facing_before_world_mutation() {
    let (mut world, source_pos, _input_wire_pos, repeater_pos, _output_wire_pos, known_region) =
        world_driven_repeater_world(1);
    let mut repeater = world.get(repeater_pos).unwrap().clone();
    repeater.facing = Some(Facing::Up);
    world.set(repeater_pos, repeater);
    let before = world.clone();
    let mut engine = PhysicsEngine::new(world, 128).with_piston_planning_region(known_region);
    let mut on = Block::new(BlockKind::Lever);
    on.powered = Some(true);
    let event_id = engine.schedule_world_change(0, source_pos, on);
    let error = engine.run_redstone_propagation().unwrap_err();

    assert!(matches!(
        error,
        PhysicsEngineError::Redstone(error)
            if matches!(error.as_ref(), RedstonePropagationError::UnsupportedComponent {
                position, kind: BlockKind::Repeater, ..
            } if *position == repeater_pos)
    ));
    assert_eq!(engine.world(), &before);
    assert_eq!(engine.pending_event_count(), 1);
    assert_eq!(engine.peek_event().map(|event| event.id), Some(event_id));
}

#[test]
fn repeater_rejects_invalid_delay_before_world_mutation() {
    let (world, source_pos, _input_wire_pos, repeater_pos, _output_wire_pos, known_region) =
        world_driven_repeater_world(0);
    let before = world.clone();
    let mut engine = PhysicsEngine::new(world, 128).with_piston_planning_region(known_region);
    let mut on = Block::new(BlockKind::Lever);
    on.powered = Some(true);
    let event_id = engine.schedule_world_change(0, source_pos, on);
    let error = engine.run_redstone_propagation().unwrap_err();

    assert!(matches!(
        error,
        PhysicsEngineError::Redstone(error)
            if matches!(error.as_ref(), RedstonePropagationError::InvalidRepeaterDelay {
                position, delay: 0
            } if *position == repeater_pos)
    ));
    assert_eq!(engine.world(), &before);
    assert_eq!(engine.pending_event_count(), 1);
    assert_eq!(engine.peek_event().map(|event| event.id), Some(event_id));
}

#[test]
fn repeater_rejects_an_output_outside_the_complete_region() {
    let (world, source_pos, _input_wire_pos, _repeater_pos, _output_wire_pos, _) =
        world_driven_repeater_world(1);
    let before = world.clone();
    let known_region = Region::new(Pos::new(-3, 0, -1), Pos::new(0, 2, 1));
    let mut engine = PhysicsEngine::new(world, 128).with_piston_planning_region(known_region);
    let mut on = Block::new(BlockKind::Lever);
    on.powered = Some(true);
    let event_id = engine.schedule_world_change(0, source_pos, on);
    let error = engine.run_redstone_propagation().unwrap_err();

    assert!(matches!(
        error,
        PhysicsEngineError::Redstone(error)
            if matches!(error.as_ref(), RedstonePropagationError::UnknownState {
                position, ..
            } if *position == Pos::new(1, 1, 0))
    ));
    assert_eq!(engine.world(), &before);
    assert_eq!(engine.pending_event_count(), 1);
    assert_eq!(engine.peek_event().map(|event| event.id), Some(event_id));
}

#[test]
fn propagation_rejects_a_wire_outside_the_complete_region_before_mutation() {
    let (world, _piston_pos, _wire_pos, input_pos, _known_region) =
        world_driven_wire_piston_world();
    let known_region = Region::new(Pos::new(-2, 0, -1), Pos::new(-2, 2, 1));
    let mut engine =
        PhysicsEngine::new(world.clone(), 64).with_piston_planning_region(known_region);
    let mut on = Block::new(BlockKind::Lever);
    on.powered = Some(true);
    let event_id = engine.schedule_world_change(0, input_pos, on);
    let error = engine.run_redstone_propagation().unwrap_err();

    assert!(matches!(
        error,
        PhysicsEngineError::Redstone(error)
            if matches!(error.as_ref(), RedstonePropagationError::UnknownState { .. })
    ));
    assert_eq!(engine.world(), &world);
    assert_eq!(engine.pending_event_count(), 1);
    assert_eq!(engine.peek_event().map(|event| event.id), Some(event_id));
    assert!(engine.trace_status().is_failed());
}

#[test]
fn propagation_rejects_an_observed_wire_without_connection_shape() {
    let input_pos = Pos::new(0, 1, 0);
    let wire_pos = Pos::new(1, 1, 0);
    let mut world = World::new();
    world.set(Pos::new(0, 0, 0), Block::new(BlockKind::Solid));
    let mut input = Block::new(BlockKind::Lever);
    input.powered = Some(false);
    world.set(input_pos, input);
    world.set(Pos::new(1, 0, 0), Block::new(BlockKind::Solid));
    let mut wire = Block::new(BlockKind::RedstoneWire);
    wire.observed_name = Some("minecraft:redstone_wire".to_owned());
    wire.observation_classification = ObservationClassification::Exact;
    wire.power_level = Some(0);
    world.set(wire_pos, wire);
    let known_region = Region::new(Pos::new(-1, 0, -1), Pos::new(2, 2, 1));
    let mut engine =
        PhysicsEngine::new(world.clone(), 64).with_piston_planning_region(known_region);
    let mut on = Block::new(BlockKind::Lever);
    on.powered = Some(true);
    let event_id = engine.schedule_world_change(0, input_pos, on);
    let error = engine.run_redstone_propagation().unwrap_err();

    assert!(matches!(
        error,
        PhysicsEngineError::Redstone(error)
            if matches!(
                error.as_ref(),
                RedstonePropagationError::UnknownState { position, .. }
                    if *position == wire_pos
            )
    ));
    assert_eq!(engine.world(), &world);
    assert_eq!(engine.peek_event().map(|event| event.id), Some(event_id));
}

#[test]
fn zero_motion_profile_preserves_same_tick_causal_order() {
    let piston_pos = Pos::new(0, 1, 0);
    let mut world = World::new();
    world.set(Pos::new(0, 0, 0), Block::new(BlockKind::Solid));
    let mut piston = Block::new(BlockKind::Piston);
    piston.facing = Some(Facing::East);
    world.set(piston_pos, piston);
    world.set(Pos::new(1, 1, 0), Block::new(BlockKind::Solid));
    let profile = PistonMotionProfile {
        initial_delay_min_game_ticks: 0,
        initial_delay_max_game_ticks: 0,
        movement_game_ticks: 0,
    };
    let mut engine = PhysicsEngine::new(world, 8).with_piston_motion_profile(profile);
    let event_id = engine.schedule_piston_action(4, piston_pos, PistonAction::Extend);
    engine.run_piston_events().unwrap();
    assert_eq!(engine.shape_transitions().len(), 2);
    assert_eq!(engine.shape_transitions()[0].time.game_tick, 4);
    assert_eq!(engine.shape_transitions()[1].time.game_tick, 4);
    assert_eq!(engine.shape_transitions()[0].time.sub_tick_order, 0);
    assert_eq!(engine.shape_transitions()[1].time.sub_tick_order, 1);
    assert_eq!(engine.shape_transitions()[0].cause, event_id);
    assert_ne!(engine.shape_transitions()[1].cause, event_id);
    assert_eq!(engine.world().kind_at(Pos::new(2, 1, 0)), BlockKind::Solid);
}

#[test]
fn piston_event_failure_leaves_the_world_unchanged() {
    let piston_pos = Pos::new(0, 1, 0);
    let mut world = World::new();
    world.set(Pos::new(0, 0, 0), Block::new(BlockKind::Solid));
    let mut piston = Block::new(BlockKind::Piston);
    piston.facing = Some(Facing::East);
    world.set(piston_pos, piston);
    world.set(Pos::new(1, 1, 0), Block::new(BlockKind::RedstoneWire));
    let mut engine = PhysicsEngine::new(world.clone(), 8);
    let event_id = engine.schedule_piston_action(0, piston_pos, PistonAction::Extend);
    let error = engine.run_piston_events().unwrap_err();
    assert!(matches!(
        error,
        PhysicsEngineError::Piston(error)
            if matches!(error.as_ref(), PistonError::UnsupportedMovingBlock { .. })
    ));
    assert_eq!(engine.world(), &world);
    assert_eq!(engine.pending_event_count(), 1);
    assert_eq!(engine.peek_event().map(|event| event.id), Some(event_id));
    assert!(engine.trace().is_empty());
}

#[test]
fn running_an_empty_queue_succeeds_and_changes_nothing() {
    let mut world = World::new();
    world.set(Pos::new(0, 0, 0), Block::new(BlockKind::Solid));
    let mut engine = PhysicsEngine::new(world.clone(), 4);
    engine
        .run_until_idle_checked(|_: &PhysicsEvent, _: &World| Err(PhysicsEngineError::InvalidOutcome))
        .unwrap();
    assert_eq!(engine.world(), &world);
    assert_eq!(engine.processed_events(), 0);
    engine.run_until_idle(|_, _| EventOutcome::default()).unwrap();
    assert_eq!(engine.world(), &world);
    assert!(engine.trace().is_empty());
}

#[test]
fn scheduling_records_the_event_and_keeps_the_clock() {
    let mut engine = PhysicsEngine::new(World::new(), 4);
    let first = engine.schedule_redstone_input(3, Pos::new(1, 2, 3), true);
    let second = engine.schedule_piston_action(1, Pos::new(0, 1, 0), PistonAction::Retract);
    assert_eq!(engine.time().game_tick, 0);
    assert_eq!(engine.pending_event_count(), 2);
    assert_eq!(pending_ids(&engine), vec![second, first]);
    assert!(engine.trace().is_empty());
}

#[test]
fn world_change_near_the_coordinate_bound_runs_under_propagation() {
    let position = Pos::new(i32::MAX - 3, 0, i32::MIN + 3);
    let mut engine = PhysicsEngine::new(World::new(), 64);
    engine.schedule_world_change(0, position, Block::new(BlockKind::Solid));
    engine.run_redstone_propagation().unwrap();

    assert_eq!(
        engine.world().get(position).map(|block| block.kind),
        Some(BlockKind::Solid)
    );
    assert_eq!(engine.pending_event_count(), 0);
    assert!(engine.trace_status().is_complete());
}

#[test]
fn accepted_children_run_at_parent_tick_plus_delay_caused_by_the_parent() {
    let pos = Pos::new(0, 0, 0);
    let child = Pos::new(1, 0, 0);
    let mut engine = PhysicsEngine::new(World::new(), 8);
    let parent = engine.schedule_external(3, pos, PhysicsEventKind::ScheduledBlockTick);
    let mut handler = |event: &PhysicsEvent, _: &World| {
        if event.target == pos {
            Ok(EventOutcome {
                changes: vec![WorldChange {
                    position: pos,
                    after: Block::new(BlockKind::Solid),
                }],
                delta: None,
                queued: vec![QueuedEvent {
                    delay_ticks: 2,
                    target: child,
                    phase: PhysicsEventPhase::ScheduledTick,
                    kind: PhysicsEventKind::ScheduledBlockTick,
                }],
            })
        } else {
            Ok(EventOutcome::default())
        }
    };
    let step = engine.step_transition(&mut handler).unwrap().unwrap();
    let transition = step.transition.unwrap();
    assert_eq!(transition.trigger, parent);
    assert_eq!(transition.from_state, World::new().state_id());
    assert_eq!(transition.to_state, engine.world().state_id());
    assert_eq!(engine.transition_trace().records.last(), Some(&transition));
    assert_eq!(engine.trace().len(), 1);
    assert_eq!(engine.trace()[0].cause, parent);

    let pending = engine.checkpoint().pending_events();
    assert_eq!(pending.len(), 1);
    assert_eq!(pending[0].time.game_tick, 5);
    assert_eq!(pending[0].target, child);
    assert_eq!(pending[0].cause, EventCause::Event { id: parent });
}

#[test]
fn restore_brings_back_ledgers_counters_and_the_transition_cursor() {
    let pos = Pos::new(2, 0, 0);
    let mut engine = PhysicsEngine::new(World::new(), 8);
    engine.schedule_external(0, pos, PhysicsEventKind::ScheduledBlockTick);
    engine.schedule_external(1, pos, PhysicsEventKind::ScheduledBlockTick);
    let mut handler = |_: &PhysicsEvent, world: &World| {
        let after = if world.kind_at(pos) == BlockKind::Air {
            BlockKind::Solid
        } else {
            BlockKind::Air
        };
        Ok(EventOutcome {
            changes: vec![WorldChange {
                position: pos,
                after: Block::new(after),
            }],
            delta: None,
            queued: Vec::new(),
        })
    };
    engine.step_transition(&mut handler).unwrap();
    let checkpoint = engine.checkpoint();
    let second = engine.step_transition(&mut handler).unwrap().unwrap();
    assert_eq!(second.transition.unwrap().id, TransitionId(1));

    engine.restore(&checkpoint);
    assert_eq!(engine.checkpoint(), checkpoint);
    assert_eq!(engine.transition_trace().len(), 1);
    assert_eq!(engine.trace().len(), 1);
    let again = engine.step_transition(&mut handler).unwrap().unwrap();
    assert_eq!(again.transition.unwrap().id, TransitionId(1));
}
