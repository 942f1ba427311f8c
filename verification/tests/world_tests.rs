use dustroute::behavior::{behavior_profile, UpdateModel};
use dustroute::world::{
    Block, BlockKind, CapabilityLevel, ObservationClassification, OccupiedShape, Pos, World,
};

#[test]
fn air_is_not_stored_and_bounds_are_deterministic() {
    let mut world = World::new();
    world.set(Pos::new(3, 2, -1), Block::new(BlockKind::Solid));
    world.set(Pos::new(-2, 5, 4), Block::new(BlockKind::Solid));
    world.set(Pos::new(3, 2, -1), Block::new(BlockKind::Air));
    assert_eq!(world.bounds(), Some((Pos::new(-2, 5, 4), Pos::new(-2, 5, 4))));
}

#[test]
fn validates_component_support() {
    let mut world = World::new();
    world.set(Pos::new(0, 0, 0), Block::new(BlockKind::Solid));
    world.place(BlockKind::RedstoneWire, Pos::new(0, 1, 0));
    assert!(world.validate_supports().is_ok());
    world.remove(Pos::new(0, 0, 0));
    assert!(world.validate_supports().is_err());
}

#[test]
fn reports_capabilities_without_discarding_an_unknown_observation() {
    let mut block = Block::new(BlockKind::Solid);
    block.observed_name = Some("minecraft:target".to_owned());
    block.observation_classification = ObservationClassification::Coarse;
    block
        .observed_properties
        .insert("power".to_owned(), "7".to_owned());
    assert_eq!(
        block.capabilities().physical_classification,
        CapabilityLevel::Unsupported
    );
    assert_eq!(block.observed_name.as_deref(), Some("minecraft:target"));
    assert_eq!(
        block.observed_properties.get("power").map(|v| v.as_str()),
        Some("7")
    );
}

#[test]
fn known_redstone_observations_are_fail_closed_and_do_not_conduct() {
    let mut block = Block::new(BlockKind::Solid);
    block.observed_name = Some("minecraft:target".to_owned());
    block.observation_classification = ObservationClassification::Coarse;
    assert!(block.requires_live_observation());
    let traits = block.redstone_traits();
    assert!(!traits.conducts_weak_power);
    assert!(!traits.conducts_strong_power);
    assert_eq!(block.capabilities().steady_state, CapabilityLevel::Unsupported);
}

#[test]
fn button_and_pressure_plate_require_physical_support() {
    let mut world = World::new();
    world.place(BlockKind::Button, Pos::new(0, 1, 0));
    world.place(BlockKind::PressurePlate, Pos::new(1, 1, 0));
    assert_eq!(world.support_issues().len(), 2);
    world.set(Pos::new(0, 0, 0), Block::new(BlockKind::Solid));
    world.set(Pos::new(1, 0, 0), Block::new(BlockKind::Solid));
    assert!(world.support_issues().is_empty());
}

#[test]
fn top_and_bottom_slabs_resolve_to_different_support_traits() {
    let mut top = Block::new(BlockKind::Transparent);
    top.observed_name = Some("minecraft:stone_slab".to_owned());
    top.observed_properties
        .insert("type".to_owned(), "top".to_owned());
    let mut bottom = top.clone();
    bottom
        .observed_properties
        .insert("type".to_owned(), "bottom".to_owned());

    assert_eq!(top.redstone_traits().occupied_shape, OccupiedShape::TopHalf);
    assert!(top.redstone_traits().supports_dust_on_top);
    assert!(!top.redstone_traits().conducts_weak_power);
    assert_eq!(
        bottom.redstone_traits().occupied_shape,
        OccupiedShape::BottomHalf
    );
    assert!(!bottom.redstone_traits().supports_dust_on_top);
}

#[test]
fn temporal_components_are_explicitly_classified() {
    assert_eq!(
        behavior_profile(BlockKind::Repeater).update_model,
        UpdateModel::ScheduledBlockTick
    );
    assert_eq!(
        behavior_profile(BlockKind::Piston).update_model,
        UpdateModel::BlockEvent
    );
    assert_eq!(
        behavior_profile(BlockKind::Observer).update_model,
        UpdateModel::ScheduledBlockTick
    );
    assert!(behavior_profile(BlockKind::Observer).order_sensitive);
    assert!(behavior_profile(BlockKind::RedstoneWire).order_sensitive);
}
