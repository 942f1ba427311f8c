use dustroute::delta::{
    BlockChange, ChangeReason, DeltaCause, RegionSet, WorldDelta, WorldDeltaError,
};
use dustroute::delta::Region;
use dustroute::optimize::physical::{
    PhasedPhysicalScore, PhysicalOptimizationSearchBudget, PhysicalOptimizationSearchStats,
};
use dustroute::optimize::safety::{
    GuardedOptimizationCandidate, OptimizationSafety, OptimizationSafetyReason,
};
use dustroute::optimize::wire_geometry::{
    axis_segment, connected_count, horizontal_neighbors, induced_path, ordered_edge,
    orthogonal_path, score_positions, strength_preserving_paths,
};
use dustroute::physical::patch::{PhysicalBlockChange, PhysicalPatch, PhysicalPatchReason};
use dustroute::physical::temporal::{TemporalAssessment, TemporalRequirement};
use dustroute::world::{Block, BlockKind, Pos, World};

fn wire_patch() -> PhysicalPatch {
    PhysicalPatch {
        reason: PhysicalPatchReason::ConnectMissingWire,
        affected_fragments: Vec::new(),
        confidence_percent: 90,
        explanation: "bridge one missing wire".into(),
        changes: vec![PhysicalBlockChange {
            pos: Pos::new(1, 64, 0),
            before: Block::new(BlockKind::Air),
            after: Block::new(BlockKind::RedstoneWire),
        }],
    }
}

fn steady() -> TemporalAssessment {
    TemporalAssessment {
        requirement: TemporalRequirement::SteadyStateSafe,
        reasons: Vec::new(),
    }
}

#[test]
fn only_a_verified_candidate_offers_its_patch_for_automatic_apply() {
    let verified = GuardedOptimizationCandidate::new(
        wire_patch(),
        OptimizationSafety::Verified { temporal: steady() },
    );
    assert_eq!(verified.automatic_patch(), Some(&wire_patch()));
    assert_eq!(verified.preview_patch(), &wire_patch());

    let preview = GuardedOptimizationCandidate::new(
        wire_patch(),
        OptimizationSafety::PreviewOnly {
            temporal: steady(),
            reasons: vec![OptimizationSafetyReason::BehavioralVerificationUnavailable(
                "no inputs".into(),
            )],
        },
    );
    assert_eq!(preview.automatic_patch(), None);
    assert_eq!(preview.preview_patch(), &wire_patch());
    assert!(!preview.safety().permits_automatic_apply());
}

#[test]
fn ordered_edge_puts_the_smaller_end_first() {
    let a = Pos::new(1, 0, 0);
    let b = Pos::new(0, 5, 5);
    assert_eq!(ordered_edge(a, b), (b, a));
    assert_eq!(ordered_edge(b, a), (b, a));
    assert_eq!(ordered_edge(a, a), (a, a));
}

#[test]
fn horizontal_neighbors_are_east_west_south_north() {
    assert_eq!(
        horizontal_neighbors(Pos::new(0, 5, 0)),
        [
            Pos::new(1, 5, 0),
            Pos::new(-1, 5, 0),
            Pos::new(0, 5, 1),
            Pos::new(0, 5, -1),
        ]
    );
}

#[test]
fn axis_segment_walks_both_ends_included() {
    assert_eq!(
        axis_segment(Pos::new(3, 1, 0), Pos::new(0, 1, 0)),
        vec![
            Pos::new(3, 1, 0),
            Pos::new(2, 1, 0),
            Pos::new(1, 1, 0),
            Pos::new(0, 1, 0),
        ]
    );
    assert_eq!(
        axis_segment(Pos::new(0, 0, 0), Pos::new(0, 0, 0)),
        vec![Pos::new(0, 0, 0)]
    );
}

#[test]
fn orthogonal_path_turns_once_and_lists_the_corner_once() {
    assert_eq!(
        orthogonal_path(Pos::new(0, 0, 0), Pos::new(2, 0, 2), true),
        vec![
            Pos::new(0, 0, 0),
            Pos::new(1, 0, 0),
            Pos::new(2, 0, 0),
            Pos::new(2, 0, 1),
            Pos::new(2, 0, 2),
        ]
    );
    assert_eq!(
        orthogonal_path(Pos::new(0, 0, 0), Pos::new(2, 0, 2), false),
        vec![
            Pos::new(0, 0, 0),
            Pos::new(0, 0, 1),
            Pos::new(0, 0, 2),
            Pos::new(1, 0, 2),
            Pos::new(2, 0, 2),
        ]
    );
}

#[test]
fn induced_path_rejects_a_path_that_touches_itself() {
    let straight = vec![Pos::new(0, 0, 0), Pos::new(1, 0, 0), Pos::new(2, 0, 0)];
    assert!(induced_path(&straight));
    let folded = vec![
        Pos::new(0, 0, 0),
        Pos::new(1, 0, 0),
        Pos::new(1, 0, 1),
        Pos::new(0, 0, 1),
    ];
    assert!(!induced_path(&folded));
}

#[test]
fn score_positions_measures_box_count_and_connectors() {
    let positions = vec![Pos::new(0, 0, 0), Pos::new(2, 1, 0), Pos::new(1, 0, 3)];
    assert_eq!(
        score_positions(&positions),
        PhasedPhysicalScore {
            bounding_volume: 24,
            occupied_blocks: 3,
            connector_length: 2,
        }
    );
    assert_eq!(
        score_positions(&Vec::new()),
        PhasedPhysicalScore {
            bounding_volume: 1,
            occupied_blocks: 0,
            connector_length: 0,
        }
    );
}

#[test]
fn connected_count_counts_the_reachable_part_of_the_network() {
    let a = Pos::new(0, 0, 0);
    let b = Pos::new(1, 0, 0);
    let c = Pos::new(2, 0, 0);
    let d = Pos::new(9, 0, 9);
    let adjacency = vec![
        (a, vec![b]),
        (b, vec![a, c]),
        (c, vec![b]),
        (d, Vec::new()),
    ];
    assert_eq!(connected_count(&adjacency, a), 3);
    assert_eq!(connected_count(&adjacency, d), 1);
}

#[test]
fn a_delta_validates_only_with_distinct_matching_changes() {
    let world = World::new();
    let change = |x: i32| BlockChange {
        position: Pos::new(x, 0, 0),
        before: Block::new(BlockKind::Air),
        after: Block::new(BlockKind::Solid),
        reason: ChangeReason::ExternalInput,
    };
    let delta = |changes: Vec<BlockChange>| WorldDelta {
        parent_shape: world.shape_id(),
        changes,
        moves: Vec::new(),
        dirty_region: RegionSet::new(Vec::new()),
        cause: DeltaCause::External,
    };
    assert!(delta(vec![change(0), change(1)]).validate(&world).is_ok());
    assert_eq!(
        delta(vec![change(0), change(0)]).validate(&world),
        Err(WorldDeltaError::DuplicatePosition {
            position: Pos::new(0, 0, 0)
        })
    );
}

#[test]
fn strength_preserving_paths_finds_the_detours_of_the_requested_length() {
    let mut world = World::new();
    for x in 0..=2 {
        for z in -1..=1 {
            world.set(Pos::new(x, 0, z), Block::new(BlockKind::Solid));
        }
    }
    let original = vec![Pos::new(0, 1, 0), Pos::new(1, 1, 0), Pos::new(2, 1, 0)];
    for position in &original {
        world.set(*position, Block::new(BlockKind::RedstoneWire));
    }
    let focus = Region {
        min: Pos::new(0, 1, -1),
        max: Pos::new(2, 1, 1),
    };
    let budget = PhysicalOptimizationSearchBudget {
        max_expansions: 10_000,
        max_candidates: 10,
        max_millis: 0,
    };
    let mut stats = PhysicalOptimizationSearchStats::default();
    let paths = strength_preserving_paths(
        &world,
        focus,
        &original,
        Pos::new(0, 1, 0),
        Pos::new(2, 1, 0),
        5,
        budget,
        &mut stats,
        &|| false,
    );
    assert_eq!(
        paths,
        vec![
            vec![
                Pos::new(0, 1, 0),
                Pos::new(0, 1, 1),
                Pos::new(1, 1, 1),
                Pos::new(2, 1, 1),
                Pos::new(2, 1, 0),
            ],
            vec![
                Pos::new(0, 1, 0),
                Pos::new(0, 1, -1),
                Pos::new(1, 1, -1),
                Pos::new(2, 1, -1),
                Pos::new(2, 1, 0),
            ],
        ]
    );
    assert_eq!(stats.candidates, 2);

    let straight = strength_preserving_paths(
        &world,
        focus,
        &original,
        Pos::new(0, 1, 0),
        Pos::new(2, 1, 0),
        3,
        budget,
        &mut stats,
        &|| false,
    );
    assert!(straight.is_empty());
}
