use dustroute::delta::{
    BlockChange, ChangeReason, DeltaCause, RegionSet, WorldDelta, WorldDeltaError,
};
use dustroute::redstone::{redstone_update_positions, redstone_wire_delta};
use dustroute::time::event::{BlockEventKind, EventCause, PhysicsEventKind, PhysicsEventPhase};
use dustroute::time::queue::PhysicsEventQueue;
use dustroute::time::scheduler::{
    SamePhaseOrder, SchedulerProfile, SchedulerProfileError, ZeroDelayPolicy,
};
use dustroute::validation::{ValidatedWorld, WorldValidationIssue};
use dustroute::world::{Block, BlockKind, Facing, PistonState, PistonVariant, Pos, World};

#[test]
fn signal_only_changes_keep_shape_identity() {
    let mut world = World::new();
    let mut lever = Block::new(BlockKind::Lever);
    lever.powered = Some(false);
    world.set(Pos::new(0, 0, 0), lever);
    let before = world.shape_id();
    let state_before = world.state_id();
    let mut edited = world.get(Pos::new(0, 0, 0)).unwrap().clone();
    edited.powered = Some(true);
    world.set(Pos::new(0, 0, 0), edited);
    assert_eq!(world.shape_id(), before);
    assert_ne!(world.state_id(), state_before);
}

#[test]
fn piston_state_changes_shape_identity() {
    let mut world = World::new();
    let mut piston = Block::new(BlockKind::Piston);
    piston.facing = Some(Facing::East);
    piston.piston_variant = Some(PistonVariant::Normal);
    piston.piston_state = Some(PistonState::Retracted);
    world.set(Pos::new(0, 0, 0), piston);
    let before = world.shape_id();
    let mut edited = world.get(Pos::new(0, 0, 0)).unwrap().clone();
    edited.piston_state = Some(PistonState::Extended);
    world.set(Pos::new(0, 0, 0), edited);
    assert_ne!(world.shape_id(), before);
}

#[test]
fn delta_application_is_atomic_on_before_mismatch() {
    let position = Pos::new(1, 2, 3);
    let mut world = World::new();
    world.set(position, Block::new(BlockKind::Solid));
    let delta = WorldDelta {
        parent_shape: world.shape_id(),
        changes: vec![BlockChange {
            position,
            before: Block::new(BlockKind::Transparent),
            after: Block::new(BlockKind::Air),
            reason: ChangeReason::Unknown,
        }],
        moves: Vec::new(),
        dirty_region: RegionSet::around_positions(vec![position], 1),
        cause: DeltaCause::External,
    };
    let before = world.clone();
    assert!(matches!(
        delta.apply(&mut world),
        Err(WorldDeltaError::BeforeMismatch { .. })
    ));
    assert_eq!(world, before);
}

#[test]
fn update_positions_are_sorted_and_include_all_six_neighbors() {
    let position = Pos::new(2, 3, 4);
    let positions = redstone_update_positions(position, true);
    assert_eq!(positions.len(), 7);
    assert!(positions.contains(&position.offset(0, 1, 0)));
    assert!(positions.contains(&position.offset(0, -1, 0)));
}

#[test]
fn synthetic_wire_reaches_fixed_point_one_level_at_a_time() {
    let source_pos = Pos::new(0, 1, 0);
    let first_wire = Pos::new(1, 1, 0);
    let second_wire = Pos::new(2, 1, 0);
    let mut world = World::new();
    let mut source = Block::new(BlockKind::Lever);
    source.powered = Some(true);
    world.set(source_pos, source);
    world.set(first_wire, Block::new(BlockKind::RedstoneWire));
    world.set(second_wire, Block::new(BlockKind::RedstoneWire));

    let first = redstone_wire_delta(&world, first_wire, None)
        .unwrap()
        .expect("source should power first wire");
    first.apply(&mut world).unwrap();
    assert_eq!(world.get(first_wire).unwrap().power_level, Some(15));
    let second = redstone_wire_delta(&world, second_wire, None)
        .unwrap()
        .expect("first wire should power second wire");
    second.apply(&mut world).unwrap();
    assert_eq!(world.get(second_wire).unwrap().power_level, Some(14));
}

#[test]
fn editing_a_copy_requires_new_validation() {
    let mut world = World::new();
    world.place(BlockKind::Solid, Pos::new(0, 0, 0));
    world.place(BlockKind::RedstoneWire, Pos::new(0, 1, 0));
    let checked = ValidatedWorld::try_new(world).unwrap();
    let mut edited = checked.clone().into_world();
    edited.remove(Pos::new(0, 0, 0));
    assert!(ValidatedWorld::try_new(edited).is_err());
    assert!(checked.world().placement_issues().is_empty());
}

#[test]
fn aggregates_support_capability_and_synthetic_state_failures() {
    let mut world = World::new();
    world.place(BlockKind::Repeater, Pos::new(0, 1, 0));
    world.set(Pos::new(2, 1, 0), Block::new(BlockKind::Piston));
    let mut source = Block::new(BlockKind::RedstoneBlock);
    source.powered = Some(false);
    world.set(Pos::new(3, 1, 0), source);
    let error = ValidatedWorld::try_new(world).unwrap_err();
    assert!(error
        .issues
        .iter()
        .any(|i| matches!(i, WorldValidationIssue::InvalidSupport { .. })));
    assert!(error
        .issues
        .iter()
        .any(|i| matches!(i, WorldValidationIssue::UnsupportedPlacement { .. })));
    assert!(error.issues.iter().any(|i| matches!(i, WorldValidationIssue::InvalidState { position, .. } if *position == Pos::new(3, 1, 0))));
}

#[test]
fn default_profile_matches_legacy_phase_order() {
    let profile = SchedulerProfile::default();
    assert_eq!(profile.phase_rank(PhysicsEventPhase::External), 0);
    assert_eq!(profile.phase_rank(PhysicsEventPhase::Observation), 5);
    assert_eq!(profile.same_phase_order, SamePhaseOrder::Insertion);
    assert!(profile.validate().is_ok());
}

#[test]
fn zero_delay_policy_is_explicit_and_zero_capable() {
    let same_tick = SchedulerProfile::default();
    assert_eq!(same_tick.game_tick_after_delay(7, 0), 7);
    assert_eq!(same_tick.game_tick_after_delay(7, 2), 9);

    let next_tick = SchedulerProfile {
        zero_delay: ZeroDelayPolicy::NextGameTick,
        ..same_tick
    };
    assert_eq!(next_tick.game_tick_after_delay(7, 0), 8);
}

#[test]
fn invalid_phase_order_is_rejected() {
    let invalid = SchedulerProfile {
        phase_order: [
            PhysicsEventPhase::External,
            PhysicsEventPhase::External,
            PhysicsEventPhase::ScheduledTick,
            PhysicsEventPhase::BlockEvent,
            PhysicsEventPhase::BlockEntity,
            PhysicsEventPhase::Observation,
        ],
        ..SchedulerProfile::default()
    };
    assert!(matches!(
        invalid.validate(),
        Err(SchedulerProfileError::DuplicatePhase {
            phase: PhysicsEventPhase::External
        })
    ));
}

#[test]
fn orders_by_tick_then_insertion_order() {
    let mut queue = PhysicsEventQueue::default();
    let kind = PhysicsEventKind::ScheduledBlockTick;
    queue.schedule(4, Pos::new(4, 0, 0), EventCause::External, kind.clone());
    queue.schedule(2, Pos::new(2, 0, 0), EventCause::External, kind.clone());
    queue.schedule(2, Pos::new(3, 0, 0), EventCause::External, kind);
    let events = [
        queue.pop().unwrap(),
        queue.pop().unwrap(),
        queue.pop().unwrap(),
    ];
    assert_eq!(events.each_ref().map(|event| event.target.x), [2, 3, 4]);
    assert!(events
        .iter()
        .all(|event| { event.time.phase == PhysicsEventPhase::ScheduledTick }));
    assert_eq!(events[0].time.sub_tick_order, 0);
    assert_eq!(events[1].time.sub_tick_order, 1);
}

#[test]
fn orders_phases_before_same_phase_insertion_order() {
    let mut queue = PhysicsEventQueue::default();
    queue.schedule_in_phase(
        2,
        Pos::new(2, 0, 0),
        EventCause::External,
        PhysicsEventPhase::BlockEvent,
        PhysicsEventKind::BlockEvent {
            event: BlockEventKind::Custom {
                event_type: 1,
                data: 0,
            },
        },
    );
    queue.schedule_in_phase(
        2,
        Pos::new(0, 0, 0),
        EventCause::External,
        PhysicsEventPhase::NeighborUpdate,
        PhysicsEventKind::NeighborUpdate {
            source: Pos::new(0, 0, 0),
        },
    );
    queue.schedule_in_phase(
        2,
        Pos::new(1, 0, 0),
        EventCause::External,
        PhysicsEventPhase::BlockEvent,
        PhysicsEventKind::BlockEvent {
            event: BlockEventKind::Custom {
                event_type: 2,
                data: 0,
            },
        },
    );

    let events = [
        queue.pop().unwrap(),
        queue.pop().unwrap(),
        queue.pop().unwrap(),
    ];
    assert_eq!(events.each_ref().map(|event| event.target.x), [0, 2, 1]);
    assert_eq!(events[0].time.phase, PhysicsEventPhase::NeighborUpdate);
    assert_eq!(events[1].time.phase, PhysicsEventPhase::BlockEvent);
    assert_eq!(events[2].time.phase, PhysicsEventPhase::BlockEvent);
    assert_eq!(
        events.each_ref().map(|event| event.time.sub_tick_order),
        [0, 1, 2]
    );
}

#[test]
fn custom_profile_controls_same_tick_phase_order() {
    let mut queue = PhysicsEventQueue::default();
    let profile = SchedulerProfile {
        phase_order: [
            PhysicsEventPhase::BlockEvent,
            PhysicsEventPhase::External,
            PhysicsEventPhase::NeighborUpdate,
            PhysicsEventPhase::ScheduledTick,
            PhysicsEventPhase::BlockEntity,
            PhysicsEventPhase::Observation,
        ],
        ..SchedulerProfile::default()
    };
    queue.schedule_in_phase(
        2,
        Pos::new(1, 0, 0),
        EventCause::External,
        PhysicsEventPhase::External,
        PhysicsEventKind::UserAction {
            action: "external".to_owned(),
        },
    );
    queue.schedule_in_phase(
        2,
        Pos::new(2, 0, 0),
        EventCause::External,
        PhysicsEventPhase::BlockEvent,
        PhysicsEventKind::BlockEvent {
            event: BlockEventKind::Custom {
                event_type: 1,
                data: 0,
            },
        },
    );

    let first = queue.pop_with_profile(&profile).unwrap();
    let second = queue.pop_with_profile(&profile).unwrap();
    assert_eq!(first.time.phase, PhysicsEventPhase::BlockEvent);
    assert_eq!(second.time.phase, PhysicsEventPhase::External);
}

#[test]
fn requeued_event_keeps_its_id_and_phase() {
    let mut queue = PhysicsEventQueue::default();
    let id = queue.schedule(
        4,
        Pos::new(4, 0, 0),
        EventCause::External,
        PhysicsEventKind::ScheduledBlockTick,
    );
    let event = queue.pop().unwrap();
    assert_eq!(event.id, id);
    queue.push_front(event);
    let restored = queue.pop().unwrap();
    assert_eq!(restored.id, id);
    assert_eq!(restored.time.phase, PhysicsEventPhase::ScheduledTick);
}

#[test]
fn any_order_of_six_distinct_phases_is_valid() {
    let reversed = SchedulerProfile {
        phase_order: [
            PhysicsEventPhase::Observation,
            PhysicsEventPhase::BlockEntity,
            PhysicsEventPhase::BlockEvent,
            PhysicsEventPhase::ScheduledTick,
            PhysicsEventPhase::NeighborUpdate,
            PhysicsEventPhase::External,
        ],
        ..SchedulerProfile::default()
    };
    assert!(reversed.validate().is_ok());
    assert_eq!(reversed.phase_rank(PhysicsEventPhase::External), 5);
}

#[test]
fn pops_follow_the_listing_of_iter() {
    let mut queue = PhysicsEventQueue::default();
    queue.schedule(3, Pos::new(3, 0, 0), EventCause::External, PhysicsEventKind::ScheduledBlockTick);
    queue.schedule_in_phase(
        1,
        Pos::new(1, 0, 0),
        EventCause::External,
        PhysicsEventPhase::BlockEvent,
        PhysicsEventKind::ScheduledBlockTick,
    );
    queue.schedule_in_phase(
        1,
        Pos::new(0, 0, 0),
        EventCause::External,
        PhysicsEventPhase::External,
        PhysicsEventKind::ScheduledBlockTick,
    );
    let listed = queue.iter().iter().map(|event| event.id).collect::<Vec<_>>();
    let mut popped = Vec::new();
    while let Some(event) = queue.pop() {
        popped.push(event.id);
    }
    assert_eq!(listed.len(), 3);
    assert_eq!(popped, listed);
    assert!(queue.pop().is_none());
}
