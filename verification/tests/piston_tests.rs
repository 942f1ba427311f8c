use dustroute::delta::Region;
use dustroute::piston::{
    piston_state, piston_variant, plan_piston, plan_piston_in_region, PistonAction, PistonError,
    PistonPlanningContext, PISTON_PUSH_LIMIT,
};
use dustroute::world::{
    Block, BlockKind, Facing, ObservationClassification, PistonState, PistonVariant, Pos, World,
};

fn retracted_piston(variant: PistonVariant) -> (World, Pos) {
    let piston_pos = Pos::new(0, 1, 0);
    let mut world = World::new();
    world.set(Pos::new(0, 0, 0), Block::new(BlockKind::Solid));
    let mut piston = Block::new(BlockKind::Piston);
    piston.facing = Some(Facing::East);
    piston.piston_variant = Some(variant);
    piston.piston_state = Some(PistonState::Retracted);
    world.set(piston_pos, piston);
    (world, piston_pos)
}

#[test]
fn extension_plans_and_applies_a_single_ordinary_block_atomically() {
    let (mut world, piston) = retracted_piston(PistonVariant::Normal);
    world.set(Pos::new(1, 1, 0), Block::new(BlockKind::Solid));
    let plan = plan_piston(&world, piston, PistonAction::Extend).unwrap();
    assert_eq!(plan.moved_count(), 1);
    assert_eq!(plan.moved[0].from, Pos::new(1, 1, 0));
    assert_eq!(plan.moved[0].to, Pos::new(2, 1, 0));
    plan.apply(&mut world).unwrap();
    assert_eq!(world.kind_at(Pos::new(1, 1, 0)), BlockKind::PistonHead);
    assert_eq!(world.kind_at(Pos::new(2, 1, 0)), BlockKind::Solid);
    assert_eq!(piston_state(world.get(piston).unwrap()), PistonState::Extended);
}

#[test]
fn extension_refuses_an_unsupported_redstone_block_without_mutation() {
    let (mut world, piston) = retracted_piston(PistonVariant::Normal);
    world.set(Pos::new(1, 1, 0), Block::new(BlockKind::RedstoneWire));
    let before = world.clone();
    let error = plan_piston(&world, piston, PistonAction::Extend).unwrap_err();
    assert!(matches!(error, PistonError::UnsupportedMovingBlock { .. }));
    assert_eq!(world, before);
}

#[test]
fn bounded_planner_rejects_unknown_space_after_a_known_prefix() {
    let (mut world, piston) = retracted_piston(PistonVariant::Normal);
    world.set(Pos::new(1, 1, 0), Block::new(BlockKind::Solid));
    let known_region = Region::new(Pos::new(-1, 0, -1), Pos::new(1, 2, 1));
    assert!(matches!(
        plan_piston_in_region(&world, known_region, piston, PistonAction::Extend),
        Err(PistonError::UnknownSpace { position }) if position == Pos::new(2, 1, 0)
    ));
}

#[test]
fn bounded_planner_treats_an_empty_coordinate_as_air_when_it_is_known() {
    let (mut world, piston) = retracted_piston(PistonVariant::Normal);
    world.set(Pos::new(1, 1, 0), Block::new(BlockKind::Solid));
    let known_region = Region::new(Pos::new(-1, 0, -1), Pos::new(2, 2, 1));
    let plan = PistonPlanningContext::new(known_region)
        .plan(&world, piston, PistonAction::Extend)
        .unwrap();
    assert_eq!(plan.moved_count(), 1);
    assert_eq!(plan.moved[0].to, Pos::new(2, 1, 0));
}

#[test]
fn extension_refuses_a_known_immovable_block() {
    let (mut world, piston) = retracted_piston(PistonVariant::Normal);
    let mut bedrock = Block::new(BlockKind::Solid);
    bedrock.observed_name = Some("minecraft:bedrock".to_owned());
    bedrock.observation_classification = ObservationClassification::Exact;
    world.set(Pos::new(1, 1, 0), bedrock);
    assert!(matches!(
        plan_piston(&world, piston, PistonAction::Extend),
        Err(PistonError::UnsupportedMovingBlock { .. })
    ));
}

#[test]
fn extension_rejects_more_than_the_push_limit() {
    let (mut world, piston) = retracted_piston(PistonVariant::Normal);
    for x in 1..=(PISTON_PUSH_LIMIT as i32 + 1) {
        world.set(Pos::new(x, 1, 0), Block::new(BlockKind::Solid));
    }
    assert!(matches!(
        plan_piston(&world, piston, PistonAction::Extend),
        Err(PistonError::PushLimitExceeded { .. })
    ));
}

#[test]
fn extension_delta_collapses_a_multi_block_push_into_final_coordinate_states() {
    let (mut world, piston) = retracted_piston(PistonVariant::Normal);
    world.set(Pos::new(1, 1, 0), Block::new(BlockKind::Solid));
    world.set(Pos::new(2, 1, 0), Block::new(BlockKind::Transparent));
    let plan = plan_piston(&world, piston, PistonAction::Extend).unwrap();
    assert_eq!(plan.delta.changes.len(), 4);
    assert_eq!(plan.delta.moves.len(), 2);
    plan.apply(&mut world).unwrap();
    assert_eq!(world.kind_at(Pos::new(1, 1, 0)), BlockKind::PistonHead);
    assert_eq!(world.kind_at(Pos::new(2, 1, 0)), BlockKind::Solid);
    assert_eq!(world.kind_at(Pos::new(3, 1, 0)), BlockKind::Transparent);
}

#[test]
fn sticky_retraction_pulls_one_ordinary_block_and_preserves_variant() {
    let (mut world, piston) = retracted_piston(PistonVariant::Sticky);
    let body = world.get(piston).cloned().unwrap();
    let mut extended = body;
    extended.piston_state = Some(PistonState::Extended);
    world.set(piston, extended);
    world.set(Pos::new(2, 1, 0), Block::new(BlockKind::Solid));
    let plan = plan_piston(&world, piston, PistonAction::Retract).unwrap();
    assert_eq!(plan.moved[0].from, Pos::new(2, 1, 0));
    assert_eq!(plan.moved[0].to, Pos::new(1, 1, 0));
    plan.apply(&mut world).unwrap();
    assert_eq!(world.kind_at(Pos::new(1, 1, 0)), BlockKind::Solid);
    assert_eq!(world.kind_at(Pos::new(2, 1, 0)), BlockKind::Air);
    assert_eq!(piston_variant(world.get(piston).unwrap()), PistonVariant::Sticky);
    assert_eq!(piston_state(world.get(piston).unwrap()), PistonState::Retracted);
}

#[test]
fn sticky_retraction_transitions_through_typed_head_and_block_entities() {
    let (mut world, piston) = retracted_piston(PistonVariant::Sticky);
    let body = world.get(piston).cloned().unwrap();
    let mut extended = body;
    extended.piston_state = Some(PistonState::Extended);
    world.set(piston, extended.clone());
    let head = Pos::new(1, 1, 0);
    world.set(head, Block::piston_head(Facing::East, PistonVariant::Sticky, false));
    world.set(Pos::new(2, 1, 0), Block::new(BlockKind::Solid));

    let plan = plan_piston(&world, piston, PistonAction::Retract).unwrap();
    let start = plan.start_delta();
    start.apply(&mut world).unwrap();
    assert_eq!(world.kind_at(head), BlockKind::MovingPiston);
    assert_eq!(world.kind_at(Pos::new(2, 1, 0)), BlockKind::MovingPiston);
    assert_eq!(
        world
            .get(head)
            .and_then(|block| block.piston_entity.as_deref())
            .map(|entity| entity.extending),
        Some(false)
    );

    let completion = plan.completion_plan(&world).unwrap();
    completion.apply(&mut world).unwrap();
    assert_eq!(world.kind_at(head), BlockKind::Solid);
    assert_eq!(world.kind_at(Pos::new(2, 1, 0)), BlockKind::Air);
    assert_eq!(piston_state(world.get(piston).unwrap()), PistonState::Retracted);
}

#[test]
fn normal_retraction_removes_typed_head_through_a_moving_state() {
    let (mut world, piston) = retracted_piston(PistonVariant::Normal);
    let mut extended = world.get(piston).cloned().unwrap();
    extended.piston_state = Some(PistonState::Extended);
    world.set(piston, extended);
    let head = Pos::new(1, 1, 0);
    world.set(head, Block::piston_head(Facing::East, PistonVariant::Normal, false));

    let plan = plan_piston(&world, piston, PistonAction::Retract).unwrap();
    plan.start_delta().apply(&mut world).unwrap();
    assert_eq!(world.kind_at(head), BlockKind::MovingPiston);
    let completion = plan.completion_plan(&world).unwrap();
    completion.apply(&mut world).unwrap();
    assert_eq!(world.kind_at(head), BlockKind::Air);
    assert_eq!(piston_state(world.get(piston).unwrap()), PistonState::Retracted);
}

#[test]
fn extension_start_exposes_head_and_moving_block_metadata() {
    let (mut world, piston) = retracted_piston(PistonVariant::Normal);
    let source = Pos::new(1, 1, 0);
    let destination = Pos::new(2, 1, 0);
    world.set(source, Block::new(BlockKind::Solid));
    let plan = plan_piston(&world, piston, PistonAction::Extend).unwrap();
    let start = plan.start_delta();
    start.apply(&mut world).unwrap();
    let head = world.get(source).unwrap();
    assert_eq!(head.kind, BlockKind::MovingPiston);
    assert!(head.piston_entity.as_deref().is_some_and(|entity| {
        entity.source && entity.extending && entity.pushed_block.kind == BlockKind::PistonHead
    }));
    let moved = world.get(destination).unwrap();
    assert!(moved.piston_entity.as_deref().is_some_and(|entity| {
        !entity.source && entity.extending && entity.pushed_block.kind == BlockKind::Solid
    }));
    let completion = plan.completion_plan(&world).unwrap();
    completion.apply(&mut world).unwrap();
    assert_eq!(world.kind_at(source), BlockKind::PistonHead);
    assert_eq!(world.kind_at(destination), BlockKind::Solid);
}

#[test]
fn stale_plan_does_not_leave_a_partial_move() {
    let (mut world, piston) = retracted_piston(PistonVariant::Normal);
    world.set(Pos::new(1, 1, 0), Block::new(BlockKind::Solid));
    let plan = plan_piston(&world, piston, PistonAction::Extend).unwrap();
    world.set(Pos::new(2, 1, 0), Block::new(BlockKind::Solid));
    let before = world.clone();
    assert!(matches!(plan.apply(&mut world), Err(PistonError::StalePlan { .. })));
    assert_eq!(world, before);
}

#[test]
fn completion_rejects_piston_geometry_changed_during_motion() {
    let (mut world, piston) = retracted_piston(PistonVariant::Normal);
    world.set(Pos::new(1, 1, 0), Block::new(BlockKind::Solid));
    let plan = plan_piston(&world, piston, PistonAction::Extend).unwrap();
    let start = plan.start_delta();
    start.apply(&mut world).unwrap();
    let mut turned = world.get(piston).unwrap().clone();
    turned.facing = Some(Facing::West);
    world.set(piston, turned);

    assert!(matches!(
        plan.completion_plan(&world),
        Err(PistonError::StalePlan { position }) if position == piston
    ));
}

#[test]
fn a_piston_near_a_coordinate_bound_plans_when_its_facing_has_room() {
    let piston_pos = Pos::new(0, i32::MAX - 2, i32::MIN + 1);
    let mut world = World::new();
    let mut piston = Block::new(BlockKind::Piston);
    piston.facing = Some(Facing::East);
    piston.piston_variant = Some(PistonVariant::Normal);
    piston.piston_state = Some(PistonState::Retracted);
    world.set(piston_pos, piston);
    world.set(Pos::new(1, i32::MAX - 2, i32::MIN + 1), Block::new(BlockKind::Solid));

    let plan = plan_piston(&world, piston_pos, PistonAction::Extend).unwrap();
    assert_eq!(plan.moved_count(), 1);
    assert_eq!(plan.moved[0].to, Pos::new(2, i32::MAX - 2, i32::MIN + 1));
}
