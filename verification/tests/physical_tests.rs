use dustroute::physical::circuit::{
    ComponentId, ConnectionKind, FragmentId, GapEvidence, PhysicalComponent, PhysicalConnection,
    VerifiedTopology,
};
use dustroute::physical::patch::{PhysicalBlockChange, PhysicalPatch, RepairImpact, RepairReason};
use dustroute::physical::scene::{
    CapabilityStage, Confidence, FrontierReason, Observation, ObservationFrontier, ObservedRegion,
    PhysicalDiagnostic, PhysicalEvidence, PhysicalScene, PortChannel, PortRole,
    RegionCompleteness, SceneBounds, TransferKind,
};
use dustroute::physical::temporal::{TemporalReason, TemporalRequirement};
use dustroute::world::{Block, BlockKind, CapabilityLevel, Facing, Pos, World};

fn component(id: usize, x: i32) -> PhysicalComponent {
    PhysicalComponent {
        id: ComponentId(id),
        pos: Pos::new(x, 64, 0),
        block: Block::new(BlockKind::RedstoneWire),
    }
}

fn support(id: usize, x: i32) -> PhysicalComponent {
    PhysicalComponent {
        id: ComponentId(id),
        pos: Pos::new(x, 64, 0),
        block: Block::new(BlockKind::Solid),
    }
}

#[test]
fn unions_only_verified_connections() {
    let circuit = VerifiedTopology::from_parts(
        vec![component(0, 0), component(1, 1), component(2, 3)],
        vec![PhysicalConnection {
            source: ComponentId(0),
            sink: ComponentId(1),
            kind: ConnectionKind::Dust,
        }],
    );
    assert_eq!(circuit.fragments.len(), 2);
    assert_eq!(circuit.fragments[0].components.len(), 2);
    assert_eq!(circuit.fragments[1].components.len(), 1);
}

#[test]
fn proximity_discovers_broken_fragments_without_unioning_them() {
    let circuit = VerifiedTopology::from_parts(
        vec![component(0, 0), component(1, 1), component(2, 3)],
        vec![PhysicalConnection {
            source: ComponentId(0),
            sink: ComponentId(1),
            kind: ConnectionKind::Dust,
        }],
    );
    let nearby = circuit.discover_nearby_fragments(FragmentId(0), 2);
    assert_eq!(nearby, vec![FragmentId(0), FragmentId(1)]);
    assert_eq!(circuit.fragments.len(), 2);
}

#[test]
fn directional_devices_separate_nets_without_splitting_fragments() {
    let circuit = VerifiedTopology::from_parts(
        vec![component(0, 0), component(1, 1), component(2, 2)],
        vec![
            PhysicalConnection {
                source: ComponentId(0),
                sink: ComponentId(1),
                kind: ConnectionKind::DirectionalInput,
            },
            PhysicalConnection {
                source: ComponentId(1),
                sink: ComponentId(2),
                kind: ConnectionKind::DirectionalOutput,
            },
        ],
    );
    assert_eq!(circuit.nets.len(), 3);
    assert_eq!(circuit.fragments.len(), 1);
    assert_eq!(circuit.fragments[0].nets.len(), 3);
}

#[test]
fn structural_supports_do_not_create_proximity_candidates() {
    let circuit = VerifiedTopology::from_parts(
        vec![component(0, 0), support(1, 4), support(2, 5), component(3, 10)],
        vec![
            PhysicalConnection {
                source: ComponentId(0),
                sink: ComponentId(1),
                kind: ConnectionKind::Support,
            },
            PhysicalConnection {
                source: ComponentId(2),
                sink: ComponentId(3),
                kind: ConnectionKind::Support,
            },
        ],
    );
    assert!(circuit.gap_candidates(2).is_empty());
}

#[test]
fn gap_candidate_reports_the_nearest_pair() {
    let circuit = VerifiedTopology::from_parts(
        vec![component(0, 0), component(1, 1), component(2, 3)],
        vec![PhysicalConnection {
            source: ComponentId(0),
            sink: ComponentId(1),
            kind: ConnectionKind::Dust,
        }],
    );
    let candidates = circuit.gap_candidates(2);
    assert_eq!(candidates.len(), 1);
    assert_eq!(candidates[0].left, FragmentId(0));
    assert_eq!(candidates[0].right, FragmentId(1));
    assert_eq!(
        candidates[0].evidence,
        vec![GapEvidence::Nearby {
            left: ComponentId(1),
            right: ComponentId(2),
            manhattan_distance: 2,
        }]
    );
    assert!(circuit.gap_candidates(1).is_empty());
}

#[test]
fn discovery_beyond_the_limit_keeps_only_the_seed() {
    let circuit = VerifiedTopology::from_parts(
        vec![component(0, 0), component(1, 1), component(2, 3)],
        vec![PhysicalConnection {
            source: ComponentId(0),
            sink: ComponentId(1),
            kind: ConnectionKind::Dust,
        }],
    );
    assert_eq!(circuit.discover_nearby_fragments(FragmentId(1), 1), vec![FragmentId(1)]);
}

#[test]
fn inverse_restores_exact_captured_blocks() {
    let patch = PhysicalPatch {
        reason: RepairReason::ConnectMissingWire,
        affected_fragments: vec![FragmentId(0), FragmentId(1)],
        confidence_percent: 90,
        explanation: "bridge one missing wire".into(),
        changes: vec![PhysicalBlockChange {
            pos: Pos::new(1, 64, 0),
            before: Block::new(BlockKind::Air),
            after: Block::new(BlockKind::RedstoneWire),
        }],
    };
    let inverse = patch.inverse();
    assert_eq!(inverse.changes[0].after.kind, BlockKind::Air);
    assert_eq!(inverse.changes[0].before.kind, BlockKind::RedstoneWire);
}

#[test]
fn virtual_patch_checks_the_captured_before_state() {
    let world = World::new();
    let patch = PhysicalPatch {
        reason: RepairReason::ConnectMissingWire,
        affected_fragments: Vec::new(),
        confidence_percent: 80,
        explanation: "test".into(),
        changes: vec![PhysicalBlockChange {
            pos: Pos::new(1, 2, 3),
            before: Block::new(BlockKind::Air),
            after: Block::new(BlockKind::RedstoneWire),
        }],
    };
    let changed = patch.apply_virtual(&world).unwrap();
    assert_eq!(changed.kind_at(Pos::new(1, 2, 3)), BlockKind::RedstoneWire);
    assert!(patch.apply_virtual(&changed).is_err());
}

#[test]
fn applying_a_patch_and_its_inverse_gives_back_the_world() {
    let mut world = World::new();
    world.set(Pos::new(0, 0, 0), Block::new(BlockKind::Solid));
    let patch = PhysicalPatch {
        reason: RepairReason::RestoreComponentSupport,
        affected_fragments: vec![FragmentId(3)],
        confidence_percent: 70,
        explanation: "swap support".into(),
        changes: vec![
            PhysicalBlockChange {
                pos: Pos::new(0, 0, 0),
                before: Block::new(BlockKind::Solid),
                after: Block::new(BlockKind::Air),
            },
            PhysicalBlockChange {
                pos: Pos::new(0, 1, 0),
                before: Block::new(BlockKind::Air),
                after: Block::new(BlockKind::Transparent),
            },
        ],
    };
    let changed = patch.apply_virtual(&world).unwrap();
    assert_eq!(changed.kind_at(Pos::new(0, 0, 0)), BlockKind::Air);
    assert_eq!(changed.kind_at(Pos::new(0, 1, 0)), BlockKind::Transparent);
    let inverse = patch.inverse();
    assert_eq!(inverse.confidence_percent, 100);
    assert_eq!(inverse.explanation, "undo: swap support");
    assert_eq!(inverse.affected_fragments, vec![FragmentId(3)]);
    let restored = inverse.apply_virtual(&changed).unwrap();
    assert_eq!(restored, world);
    assert_eq!(world.kind_at(Pos::new(0, 0, 0)), BlockKind::Solid);
}

#[test]
fn stale_patch_reports_the_first_mismatch() {
    let world = World::new();
    let patch = PhysicalPatch {
        reason: RepairReason::OptimizePlacement,
        affected_fragments: Vec::new(),
        confidence_percent: 50,
        explanation: "stale".into(),
        changes: vec![
            PhysicalBlockChange {
                pos: Pos::new(1, 2, 3),
                before: Block::new(BlockKind::Air),
                after: Block::new(BlockKind::Solid),
            },
            PhysicalBlockChange {
                pos: Pos::new(4, -5, 6),
                before: Block::new(BlockKind::Solid),
                after: Block::new(BlockKind::Air),
            },
        ],
    };
    let error = patch.apply_virtual(&world).unwrap_err();
    assert_eq!(error.position, Pos::new(4, -5, 6));
    assert_eq!(error.expected.kind, BlockKind::Solid);
    assert_eq!(error.actual.kind, BlockKind::Air);
    assert_eq!(error.message(), "stale physical patch at Pos { x: 4, y: -5, z: 6 }");
    assert_eq!(
        error.message(),
        format!("stale physical patch at {:?}", Pos::new(4, -5, 6))
    );
}

#[test]
fn repair_impact_improves_only_without_regressions() {
    let base = RepairImpact {
        fragments_before: 2,
        fragments_after: 1,
        invalid_supports_before: 0,
        invalid_supports_after: 0,
        undriven_required_inputs_before: 0,
        undriven_required_inputs_after: 0,
        external_input_waiting_before: 0,
        external_input_waiting_after: 0,
        drive_reachable_components_before: 3,
        drive_reachable_components_after: 3,
        instantaneous_solve_converged_before: true,
        instantaneous_solve_converged_after: true,
        energized_positions_before: 0,
        energized_positions_after: 0,
        temporal_requirement_after: TemporalRequirement::SteadyStateSafe,
        requires_temporal_validation: false,
    };
    assert!(base.improves());
    let mut unchanged = base;
    unchanged.fragments_after = 2;
    assert!(!unchanged.improves());
    let mut diverged = base;
    diverged.instantaneous_solve_converged_after = false;
    assert!(!diverged.improves());
    let mut lost_reach = base;
    lost_reach.drive_reachable_components_after = 2;
    assert!(!lost_reach.improves());
}

#[test]
fn world_support_is_valid_even_when_support_is_not_a_signal_component() {
    let mut wire = Block::new(BlockKind::RedstoneWire);
    wire.support_offset = Some(Pos::new(0, -1, 0));
    let topology = VerifiedTopology::from_parts(
        vec![PhysicalComponent {
            id: ComponentId(0),
            pos: Pos::new(0, 1, 0),
            block: wire.clone(),
        }],
        vec![],
    );
    let mut world = World::new();
    world.set(Pos::new(0, 0, 0), Block::new(BlockKind::Transparent));
    world.set(Pos::new(0, 1, 0), wire);
    let scene = PhysicalScene::from_topology_and_world(
        Observation::complete(
            "minecraft:overworld",
            SceneBounds::new(Pos::new(0, 0, 0), Pos::new(0, 1, 0)),
        ),
        &topology,
        &world,
    );
    assert_eq!(scene.components.len(), 1);
    assert_eq!(
        scene.components[0].support.map(|support| support.valid),
        Some(true)
    );
    assert!(scene.diagnostics.is_empty());
}

#[test]
fn unsupported_wire_is_diagnosed() {
    let mut wire = Block::new(BlockKind::RedstoneWire);
    wire.support_offset = Some(Pos::new(0, -1, 0));
    let topology = VerifiedTopology::from_parts(
        vec![PhysicalComponent {
            id: ComponentId(4),
            pos: Pos::new(0, 1, 0),
            block: wire,
        }],
        vec![],
    );
    let scene = PhysicalScene::from_unvalidated_topology(
        Observation::complete(
            "minecraft:overworld",
            SceneBounds::new(Pos::new(0, 0, 0), Pos::new(0, 1, 0)),
        ),
        &topology,
    );
    assert_eq!(
        scene.components[0].support.map(|support| support.valid),
        Some(false)
    );
    assert_eq!(
        scene.diagnostics,
        vec![PhysicalDiagnostic::InvalidSupport {
            component: ComponentId(4),
            expected: Pos::new(0, 0, 0),
        }]
    );
}

#[test]
fn repeater_ports_preserve_direction_and_physical_origin() {
    let wire = PhysicalComponent {
        id: ComponentId(0),
        pos: Pos::new(0, 1, 0),
        block: Block::new(BlockKind::RedstoneWire),
    };
    let mut repeater_block = Block::new(BlockKind::Repeater);
    repeater_block.facing = Some(Facing::East);
    let repeater = PhysicalComponent {
        id: ComponentId(1),
        pos: Pos::new(1, 1, 0),
        block: repeater_block,
    };
    let topology = VerifiedTopology::from_parts(
        vec![wire, repeater],
        vec![PhysicalConnection {
            source: ComponentId(0),
            sink: ComponentId(1),
            kind: ConnectionKind::DirectionalInput,
        }],
    );
    let scene = PhysicalScene::from_unvalidated_topology(
        Observation::complete(
            "minecraft:overworld",
            SceneBounds::new(Pos::new(0, 0, 0), Pos::new(2, 2, 0)),
        ),
        &topology,
    );
    assert_eq!(scene.connections.len(), 1);
    let repeater = scene.component_at(Pos::new(1, 1, 0)).unwrap();
    assert!(repeater
        .ports
        .iter()
        .any(|port| port.role == PortRole::Input && port.face == Facing::West));
    assert!(repeater
        .ports
        .iter()
        .any(|port| port.role == PortRole::Output && port.face == Facing::East));
}

#[test]
fn repeater_port_layout_is_numbered_in_order() {
    let mut block = Block::new(BlockKind::Repeater);
    block.facing = Some(Facing::North);
    let ports = dustroute::physical::scene::ports_for(&block);
    assert_eq!(ports.len(), 6 + 5);
    for (index, port) in ports.iter().enumerate() {
        assert_eq!(port.id.0 as usize, index);
    }
    assert_eq!(ports[6].role, PortRole::Output);
    assert_eq!(ports[6].face, Facing::North);
    assert_eq!(ports[7].role, PortRole::Input);
    assert_eq!(ports[7].face, Facing::South);
    assert_eq!(ports[8].face, Facing::East);
    assert_eq!(ports[9].face, Facing::West);
    assert_eq!(ports[10].channel, PortChannel::Structure);
    assert!(dustroute::physical::scene::ports_for(&Block::new(BlockKind::Air)).is_empty());
}

#[test]
fn observer_ports_keep_front_observation_separate_from_back_power() {
    let mut observer_block = Block::new(BlockKind::Observer);
    observer_block.facing = Some(Facing::East);
    let topology = VerifiedTopology::from_parts(
        vec![
            PhysicalComponent {
                id: ComponentId(0),
                pos: Pos::new(0, 1, 0),
                block: Block::new(BlockKind::Solid),
            },
            PhysicalComponent {
                id: ComponentId(1),
                pos: Pos::new(1, 1, 0),
                block: observer_block,
            },
            PhysicalComponent {
                id: ComponentId(2),
                pos: Pos::new(2, 1, 0),
                block: Block::new(BlockKind::RedstoneWire),
            },
        ],
        vec![
            PhysicalConnection {
                source: ComponentId(0),
                sink: ComponentId(1),
                kind: ConnectionKind::ObserverInput,
            },
            PhysicalConnection {
                source: ComponentId(1),
                sink: ComponentId(2),
                kind: ConnectionKind::ObserverOutput,
            },
        ],
    );
    let scene = PhysicalScene::from_unvalidated_topology(
        Observation::complete(
            "minecraft:overworld",
            SceneBounds::new(Pos::new(0, 0, 0), Pos::new(2, 2, 0)),
        ),
        &topology,
    );
    assert_eq!(scene.connections.len(), 2);
    assert!(scene
        .connections
        .iter()
        .any(|connection| connection.transfer == TransferKind::Observation));
    assert!(scene
        .connections
        .iter()
        .any(|connection| connection.transfer == TransferKind::StrongPower));
    let observer = scene.component_at(Pos::new(1, 1, 0)).unwrap();
    assert!(observer.ports.iter().any(|port| {
        port.role == PortRole::Input
            && port.face == Facing::West
            && port.channel == PortChannel::Observation
    }));
    assert!(observer.ports.iter().any(|port| {
        port.role == PortRole::Output
            && port.face == Facing::East
            && port.channel == PortChannel::StrongPower
    }));
}

#[test]
fn floor_button_and_pressure_plate_keep_their_downward_power_port() {
    for kind in [BlockKind::Button, BlockKind::PressurePlate] {
        let mut block = Block::new(kind);
        block.support_offset = Some(Pos::new(0, -1, 0));
        let topology = VerifiedTopology::from_parts(
            vec![
                PhysicalComponent {
                    id: ComponentId(0),
                    pos: Pos::new(0, 1, 0),
                    block,
                },
                PhysicalComponent {
                    id: ComponentId(1),
                    pos: Pos::new(0, 0, 0),
                    block: Block::new(BlockKind::Solid),
                },
            ],
            vec![PhysicalConnection {
                source: ComponentId(0),
                sink: ComponentId(1),
                kind: ConnectionKind::DirectSource,
            }],
        );
        let scene = PhysicalScene::from_unvalidated_topology(
            Observation::complete(
                "minecraft:overworld",
                SceneBounds::new(Pos::new(0, 0, 0), Pos::new(0, 1, 0)),
            ),
            &topology,
        );
        assert_eq!(scene.connections.len(), 1);
        let source = scene.component_at(Pos::new(0, 1, 0)).unwrap();
        let downward = source
            .ports
            .iter()
            .find(|port| port.face == Facing::Down)
            .expect("floor input has a downward source port");
        assert_eq!(scene.connections[0].source.port, downward.id);
        assert_eq!(scene.connections[0].transfer, TransferKind::DirectSignal);
    }
}

#[test]
fn vertical_dust_connection_preserves_its_minecraft_rule() {
    let topology = VerifiedTopology::from_parts(
        vec![
            PhysicalComponent {
                id: ComponentId(0),
                pos: Pos::new(0, 1, 0),
                block: Block::new(BlockKind::RedstoneWire),
            },
            PhysicalComponent {
                id: ComponentId(1),
                pos: Pos::new(1, 2, 0),
                block: Block::new(BlockKind::RedstoneWire),
            },
        ],
        vec![PhysicalConnection {
            source: ComponentId(0),
            sink: ComponentId(1),
            kind: ConnectionKind::DustRise,
        }],
    );
    let scene = PhysicalScene::from_unvalidated_topology(
        Observation::complete(
            "minecraft:overworld",
            SceneBounds::new(Pos::new(0, 1, 0), Pos::new(1, 2, 0)),
        ),
        &topology,
    );
    assert_eq!(scene.connections[0].confidence, Confidence::Certain);
    assert!(scene.connections[0].evidence.iter().any(|evidence| {
        matches!(
            evidence,
            PhysicalEvidence::MinecraftRule { rule }
                if rule == "java.redstone.dust_connection.vertical_rise"
        )
    }));
}

#[test]
fn connection_evidence_lists_adjacency_then_rule() {
    let topology = VerifiedTopology::from_parts(
        vec![component(0, 0), component(1, 1)],
        vec![PhysicalConnection {
            source: ComponentId(0),
            sink: ComponentId(1),
            kind: ConnectionKind::Dust,
        }],
    );
    let scene = PhysicalScene::from_unvalidated_topology(
        Observation::complete(
            "minecraft:overworld",
            SceneBounds::new(Pos::new(0, 64, 0), Pos::new(1, 64, 0)),
        ),
        &topology,
    );
    assert_eq!(scene.connections.len(), 1);
    let connection = &scene.connections[0];
    assert_eq!(connection.transfer, TransferKind::DustPropagation);
    assert_eq!(
        connection.evidence,
        vec![
            PhysicalEvidence::AdjacentBlocks {
                source: Pos::new(0, 64, 0),
                sink: Pos::new(1, 64, 0),
            },
            PhysicalEvidence::MinecraftRule {
                rule: "java.redstone.dust_connection.horizontal".to_owned(),
            },
        ]
    );
    // The first output port facing east on the source (its observation
    // port), and the first bidirectional signal port facing west on the sink.
    assert_eq!(connection.source.port.0, 1);
    assert_eq!(connection.sink.port.0, 9);
}

#[test]
fn distant_components_yield_no_port_connection() {
    let topology = VerifiedTopology::from_parts(
        vec![component(0, 0), component(1, 3)],
        vec![PhysicalConnection {
            source: ComponentId(0),
            sink: ComponentId(1),
            kind: ConnectionKind::Dust,
        }],
    );
    let scene = PhysicalScene::from_unvalidated_topology(
        Observation::complete(
            "minecraft:overworld",
            SceneBounds::new(Pos::new(0, 64, 0), Pos::new(3, 64, 0)),
        ),
        &topology,
    );
    assert!(scene.connections.is_empty());
    assert_eq!(scene.components.len(), 2);
}

#[test]
fn open_boundary_is_not_reported_as_a_complete_scene() {
    let frontier = ObservationFrontier {
        position: Pos::new(0, 1, 0),
        direction: Facing::West,
        reason: FrontierReason::ScanLimitReached,
    };
    let observation = Observation {
        dimension: "minecraft:overworld".to_owned(),
        regions: vec![ObservedRegion {
            bounds: SceneBounds::new(Pos::new(0, 0, 0), Pos::new(2, 2, 2)),
            completeness: RegionCompleteness::OpenBoundary,
        }],
        frontier: vec![frontier],
    };
    let scene = PhysicalScene::from_unvalidated_topology(observation, &VerifiedTopology::default());
    assert!(!scene.observation.is_complete());
    assert!(matches!(
        scene.diagnostics[0],
        PhysicalDiagnostic::OpenObservationBoundary { .. }
    ));
}

#[test]
fn frontier_components_are_sorted_ids() {
    let topology = VerifiedTopology::from_parts(
        vec![component(5, 0), component(2, 1), component(9, 7)],
        vec![],
    );
    let mut observation = Observation::complete(
        "minecraft:overworld",
        SceneBounds::new(Pos::new(0, 64, 0), Pos::new(7, 64, 0)),
    );
    for x in [1, 0, 3, 1] {
        observation.frontier.push(ObservationFrontier {
            position: Pos::new(x, 64, 0),
            direction: Facing::East,
            reason: FrontierReason::ConnectedComponentContinues,
        });
    }
    let scene = PhysicalScene::from_unvalidated_topology(observation, &topology);
    assert_eq!(
        scene.open_frontier_components(),
        vec![ComponentId(2), ComponentId(5)]
    );
    assert_eq!(scene.diagnostics.len(), 4);
}

#[test]
fn scene_bounds_order_their_corners() {
    let bounds = SceneBounds::new(Pos::new(3, -1, 2), Pos::new(-4, 5, 2));
    assert_eq!(bounds.min, Pos::new(-4, -1, 2));
    assert_eq!(bounds.max, Pos::new(3, 5, 2));
    assert!(bounds.contains(Pos::new(0, 0, 2)));
    assert!(!bounds.contains(Pos::new(0, 0, 3)));
}

#[test]
fn scene_gap_candidates_match_the_topology() {
    let topology = VerifiedTopology::from_parts(
        vec![component(0, 0), component(1, 1), component(2, 3)],
        vec![PhysicalConnection {
            source: ComponentId(0),
            sink: ComponentId(1),
            kind: ConnectionKind::Dust,
        }],
    );
    let scene = PhysicalScene::from_unvalidated_topology(
        Observation::complete(
            "minecraft:overworld",
            SceneBounds::new(Pos::new(0, 64, 0), Pos::new(3, 64, 0)),
        ),
        &topology,
    );
    assert_eq!(scene.gap_candidates(2), topology.gap_candidates(2));
    assert_eq!(
        scene.discover_nearby_fragments(FragmentId(1), 2),
        vec![FragmentId(0), FragmentId(1)]
    );
    assert_eq!(scene.physical_traversal_groups().len(), 2);
}

#[test]
fn capability_report_groups_by_kind_and_name() {
    let mut named = Block::new(BlockKind::Solid);
    named.observed_name = Some("minecraft:stone".to_owned());
    let topology = VerifiedTopology::from_parts(
        vec![
            component(0, 0),
            component(1, 1),
            PhysicalComponent {
                id: ComponentId(2),
                pos: Pos::new(2, 64, 0),
                block: named.clone(),
            },
            PhysicalComponent {
                id: ComponentId(3),
                pos: Pos::new(3, 64, 0),
                block: Block::new(BlockKind::Solid),
            },
        ],
        vec![],
    );
    let scene = PhysicalScene::from_unvalidated_topology(
        Observation::complete(
            "minecraft:overworld",
            SceneBounds::new(Pos::new(0, 64, 0), Pos::new(3, 64, 0)),
        ),
        &topology,
    );
    let report = scene.capability_report();
    assert_eq!(report.groups.len(), 3);
    assert_eq!(report.groups[0].kind, BlockKind::RedstoneWire);
    assert_eq!(report.groups[0].count, 2);
    assert_eq!(report.groups[1].observed_name.as_deref(), Some("minecraft:stone"));
    assert_eq!(report.groups[1].count, 1);
    assert_eq!(report.groups[2].observed_name, None);
    assert_eq!(report.groups[2].capabilities, Block::new(BlockKind::Solid).capabilities());
    for issue in &report.issues {
        assert!(matches!(
            issue.level,
            CapabilityLevel::Partial | CapabilityLevel::Unsupported
        ));
        let capabilities = scene.components[issue.component.0].block.capabilities();
        let level = match issue.stage {
            CapabilityStage::PhysicalClassification => capabilities.physical_classification,
            CapabilityStage::Connectivity => capabilities.connectivity,
            CapabilityStage::SteadyState => capabilities.steady_state,
            CapabilityStage::Temporal => capabilities.temporal,
            CapabilityStage::Repair => capabilities.repair,
            CapabilityStage::Placement => capabilities.placement,
        };
        assert_eq!(level, issue.level);
    }
}

fn scene(kind: BlockKind) -> PhysicalScene {
    let topology = VerifiedTopology::from_parts(
        vec![PhysicalComponent {
            id: ComponentId(0),
            pos: Pos::new(0, 1, 0),
            block: Block::new(kind),
        }],
        vec![],
    );
    PhysicalScene::from_topology(
        Observation::complete(
            "minecraft:overworld",
            SceneBounds::new(Pos::new(-1, 0, -1), Pos::new(1, 2, 1)),
        ),
        &topology,
    )
}

#[test]
fn classifies_ordered_scheduled_and_block_event_components() {
    assert_eq!(
        scene(BlockKind::RedstoneWire).temporal_assessment().requirement,
        TemporalRequirement::OrderedUpdates
    );
    assert_eq!(
        scene(BlockKind::Repeater).temporal_assessment().requirement,
        TemporalRequirement::ScheduledTicks
    );
    assert_eq!(
        scene(BlockKind::Piston).temporal_assessment().requirement,
        TemporalRequirement::BlockEvents
    );
}

#[test]
fn incomplete_observation_is_unsupported() {
    let mut scene = scene(BlockKind::RedstoneWire);
    scene.observation.frontier.push(ObservationFrontier {
        position: Pos::new(1, 1, 0),
        direction: Facing::East,
        reason: FrontierReason::ScanLimitReached,
    });
    assert_eq!(
        scene.temporal_assessment().requirement,
        TemporalRequirement::Unsupported
    );
    assert_eq!(
        scene.temporal_assessment().reasons,
        vec![TemporalReason::IncompleteObservation]
    );
}

#[test]
fn temporal_requirement_is_the_strongest_and_lists_each_component() {
    let mut repeater = Block::new(BlockKind::Repeater);
    repeater.facing = Some(Facing::East);
    let topology = VerifiedTopology::from_parts(
        vec![
            component(0, 0),
            PhysicalComponent {
                id: ComponentId(1),
                pos: Pos::new(1, 64, 0),
                block: repeater,
            },
            support(2, 5),
        ],
        vec![],
    );
    let scene = PhysicalScene::from_topology(
        Observation::complete(
            "minecraft:overworld",
            SceneBounds::new(Pos::new(0, 64, 0), Pos::new(5, 64, 0)),
        ),
        &topology,
    );
    let assessment = scene.temporal_assessment();
    assert_eq!(assessment.requirement, TemporalRequirement::ScheduledTicks);
    assert_eq!(
        assessment.reasons,
        vec![
            TemporalReason::OrderSensitiveComponent {
                component: ComponentId(0),
                block: BlockKind::RedstoneWire,
            },
            TemporalReason::ScheduledTickComponent {
                component: ComponentId(1),
                block: BlockKind::Repeater,
            },
        ]
    );
    assert!(TemporalRequirement::OrderedUpdates < TemporalRequirement::BlockEvents);
}
