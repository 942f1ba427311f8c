use dustroute::optimize::contract::{
    assess_macro_contract, assess_pulses, assess_timing, settle_tick, transient_widths,
    transition_unavailable_code, AnalogContract, ContractCheckState, MutationContract,
    OptimizationContract, TimingContract, TimingContractMode,
};
use dustroute::optimize::macro_realize::{
    validate_macro_structure, MacroBoundaryDirection, MacroBoundaryPort, MacroPortRoute,
    ContextualVerificationState, MacroSteadyStateReport, MacroStructuralReport,
    MacroTransitionCase, MacroTransitionReport, TruthTableComparison,
};
use dustroute::optimize::macro_search::{
    compatible, permutations, truth_table_mapping, ComponentCompatibility, ComponentLogic,
    ObservedMacroMetrics, ObservedTruthRow, ObservedTruthTable,
};
use dustroute::optimize::physical::{select_phased_physical_scores, PhasedPhysicalScore};
use dustroute::optimize::safety::{
    assess_optimization_safety, BehavioralEquivalence, OptimizationSafety,
    OptimizationSafetyReason, TemporalCapabilities,
};
use dustroute::physical::temporal::{TemporalAssessment, TemporalRequirement};
use dustroute::world::{Block, BlockKind, Pos, World};

#[test]
fn default_contract_rejects_a_new_pulse_even_when_final_values_match() {
    let report = MacroTransitionReport {
        state: ContextualVerificationState::Failed,
        cases: vec![MacroTransitionCase {
            from: vec![false],
            to: vec![false],
            original_outputs: vec![vec![false]; 4],
            candidate_outputs: vec![vec![false], vec![true], vec![false], vec![false]],
            equivalent: false,
            first_difference_tick: Some(1),
        }],
        differing_cases: 1,
        reason: None,
    };
    let assessment = assess_pulses(OptimizationContract::default().pulse, Some(&report));
    assert_eq!(assessment.state, ContractCheckState::Failed);
}

#[test]
fn pulse_detection_handles_a_transition_that_temporarily_reverts() {
    let report = MacroTransitionReport {
        state: ContextualVerificationState::Failed,
        cases: vec![MacroTransitionCase {
            from: vec![false],
            to: vec![true],
            original_outputs: vec![vec![false], vec![true], vec![true], vec![true]],
            candidate_outputs: vec![vec![false], vec![true], vec![false], vec![true]],
            equivalent: false,
            first_difference_tick: Some(2),
        }],
        differing_cases: 1,
        reason: None,
    };
    let assessment = assess_pulses(OptimizationContract::default().pulse, Some(&report));
    assert_eq!(assessment.state, ContractCheckState::Failed);
}

#[test]
fn bounded_delay_accepts_a_shift_within_the_budget_but_exact_trace_rejects_it() {
    let report = MacroTransitionReport {
        state: ContextualVerificationState::Failed,
        cases: vec![MacroTransitionCase {
            from: vec![false],
            to: vec![true],
            original_outputs: vec![vec![false], vec![true], vec![true], vec![true]],
            candidate_outputs: vec![vec![false], vec![false], vec![true], vec![true]],
            equivalent: false,
            first_difference_tick: Some(1),
        }],
        differing_cases: 1,
        reason: None,
    };
    let bounded = assess_timing(
        TimingContract {
            mode: TimingContractMode::BoundedDelay,
            maximum_added_redstone_ticks: 1,
            settle_deadline_redstone_ticks: 4,
        },
        Some(&report),
    );
    let exact = assess_timing(
        TimingContract {
            mode: TimingContractMode::ExactTrace,
            maximum_added_redstone_ticks: 0,
            settle_deadline_redstone_ticks: 4,
        },
        Some(&report),
    );
    let exact_transitions = assess_timing(
        TimingContract {
            mode: TimingContractMode::ExactTransitions,
            maximum_added_redstone_ticks: 0,
            settle_deadline_redstone_ticks: 4,
        },
        Some(&report),
    );
    assert_eq!(bounded.state, ContractCheckState::Passed);
    assert_eq!(exact.state, ContractCheckState::Failed);
    assert_eq!(exact_transitions.state, ContractCheckState::Failed);
}

#[test]
fn mutation_contract_rejects_an_oversized_patch() {
    let structural = MacroStructuralReport {
        candidate_collisions: Vec::new(),
        route_collisions: Vec::new(),
        route_cross_net_contacts: Vec::new(),
        candidate_support_issues: Vec::new(),
        required_route_supports: Vec::new(),
        blocked_route_supports: Vec::new(),
    };
    let assessment = assess_macro_contract(
        OptimizationContract {
            mutation: MutationContract {
                maximum_changed_blocks: 2,
                ..OptimizationContract::default().mutation
            },
            ..OptimizationContract::default()
        },
        &structural,
        None,
        None,
        3,
        None,
    );
    assert_eq!(assessment.mutation.state, ContractCheckState::Failed);
}

#[test]
fn pending_transition_measurement_is_unavailable_not_passed() {
    let report = MacroTransitionReport {
        state: ContextualVerificationState::Pending,
        cases: Vec::new(),
        differing_cases: 0,
        reason: Some("too many inputs".to_owned()),
    };
    let assessment = assess_timing(OptimizationContract::default().timing, Some(&report));
    assert_eq!(assessment.state, ContractCheckState::Unavailable);
    assert_eq!(assessment.reason_codes, ["too_many_inputs"]);
    assert_eq!(assessment.reasons, ["too many inputs"]);
}

#[test]
fn empty_transition_measurement_is_unavailable_not_vacuously_passed() {
    let report = MacroTransitionReport {
        state: ContextualVerificationState::Passed,
        cases: Vec::new(),
        differing_cases: 0,
        reason: None,
    };
    let timing = assess_timing(OptimizationContract::default().timing, Some(&report));
    let pulse = assess_pulses(OptimizationContract::default().pulse, Some(&report));
    assert_eq!(timing.state, ContractCheckState::Unavailable);
    assert_eq!(timing.reason_codes, ["transition_evidence_insufficient"]);
    assert_eq!(pulse.state, ContractCheckState::Unavailable);
    assert_eq!(pulse.reason_codes, ["pulse_evidence_insufficient"]);
}

#[test]
fn passed_steady_measurement_without_interface_evidence_is_unavailable() {
    let structural = MacroStructuralReport::default();
    let steady = MacroSteadyStateReport {
        state: ContextualVerificationState::Passed,
        comparison: Some(TruthTableComparison {
            comparable: true,
            expected_inputs: 0,
            actual_inputs: 0,
            expected_outputs: 0,
            actual_outputs: 0,
            differing_rows: 0,
            differing_bits: 0,
            terminal_count_delta: 0,
            fitness_penalty: 0,
        }),
        input_mapping: Vec::new(),
        output_mapping: Vec::new(),
        differing_assignments: Vec::new(),
        reason: None,
    };
    let assessment = assess_macro_contract(
        OptimizationContract::default(),
        &structural,
        Some(&steady),
        None,
        0,
        None,
    );
    assert_eq!(assessment.logical.state, ContractCheckState::Unavailable);
    assert_eq!(
        assessment.logical.reason_codes,
        ["interface_evidence_insufficient"]
    );
}

fn case(original: Vec<Vec<bool>>, candidate: Vec<Vec<bool>>) -> MacroTransitionCase {
    MacroTransitionCase {
        from: vec![false],
        to: vec![true],
        original_outputs: original,
        candidate_outputs: candidate,
        equivalent: false,
        first_difference_tick: None,
    }
}

fn report(cases: Vec<MacroTransitionCase>) -> MacroTransitionReport {
    MacroTransitionReport {
        state: ContextualVerificationState::Failed,
        differing_cases: cases.len(),
        cases,
        reason: None,
    }
}

fn bits(values: &[u8]) -> Vec<Vec<bool>> {
    values.iter().map(|value| vec![*value == 1]).collect()
}

#[test]
fn settle_tick_is_one_past_the_last_change() {
    assert_eq!(settle_tick(&Vec::new()), 0);
    assert_eq!(settle_tick(&bits(&[1, 1, 1])), 0);
    assert_eq!(settle_tick(&bits(&[0, 1, 1, 1])), 1);
    assert_eq!(settle_tick(&bits(&[0, 1, 0, 0, 1])), 4);
}

#[test]
fn transient_widths_skip_the_first_and_last_run() {
    assert_eq!(transient_widths(&Vec::new()), Vec::<usize>::new());
    assert_eq!(transient_widths(&bits(&[0, 0, 1, 1])), Vec::<usize>::new());
    assert_eq!(transient_widths(&bits(&[0, 1, 1, 0, 1, 1, 1, 0])), vec![2, 1, 3]);
}

#[test]
fn transition_edges_record_ticks_and_values() {
    let c = case(bits(&[0, 1, 1, 0]), bits(&[0, 0, 1, 0]));
    let original = c.original_transition_edges();
    assert_eq!(original.len(), 2);
    assert_eq!(original[0].tick, 1);
    assert_eq!(original[0].from, vec![false]);
    assert_eq!(original[0].to, vec![true]);
    assert_eq!(original[1].tick, 3);
    let candidate = c.candidate_transition_edges();
    assert_eq!(candidate[0].tick, 2);
}

#[test]
fn preserve_order_ignores_ticks_but_exact_transitions_does_not() {
    let shifted = report(vec![case(bits(&[0, 1, 1, 0]), bits(&[0, 0, 1, 0]))]);
    let order = TimingContract {
        mode: TimingContractMode::PreserveOrder,
        maximum_added_redstone_ticks: 0,
        settle_deadline_redstone_ticks: 0,
    };
    assert_eq!(assess_timing(order, Some(&shifted)).state, ContractCheckState::Passed);
    let exact = TimingContract {
        mode: TimingContractMode::ExactTransitions,
        ..order
    };
    let failed = assess_timing(exact, Some(&shifted));
    assert_eq!(failed.state, ContractCheckState::Failed);
    assert_eq!(failed.reason_codes, ["timing_contract_violated"]);
    let settled = TimingContract {
        mode: TimingContractMode::SettledValueOnly,
        ..order
    };
    assert_eq!(assess_timing(settled, Some(&shifted)).state, ContractCheckState::Passed);
}

#[test]
fn bounded_delay_respects_the_settle_deadline() {
    let late = report(vec![case(bits(&[0, 1, 1, 1]), bits(&[0, 0, 0, 1]))]);
    let contract = TimingContract {
        mode: TimingContractMode::BoundedDelay,
        maximum_added_redstone_ticks: 5,
        settle_deadline_redstone_ticks: 2,
    };
    assert_eq!(assess_timing(contract, Some(&late)).state, ContractCheckState::Failed);
    let relaxed = TimingContract {
        settle_deadline_redstone_ticks: 3,
        ..contract
    };
    assert_eq!(assess_timing(relaxed, Some(&late)).state, ContractCheckState::Passed);
}

#[test]
fn pulse_failures_name_their_cause() {
    let removed = report(vec![case(bits(&[0, 1, 0, 0]), bits(&[0, 0, 0, 0]))]);
    let check = assess_pulses(OptimizationContract::default().pulse, Some(&removed));
    assert_eq!(check.reason_codes, ["existing_pulse_removed"]);
    assert_eq!(check.reasons, ["candidate removes an existing transient pulse"]);
    let wider = report(vec![case(bits(&[0, 1, 0, 0]), bits(&[0, 1, 1, 0]))]);
    let check = assess_pulses(OptimizationContract::default().pulse, Some(&wider));
    assert_eq!(check.reason_codes, ["pulse_width_changed"]);
    let check = assess_pulses(OptimizationContract::default().pulse, None);
    assert_eq!(check.state, ContractCheckState::Unavailable);
    assert_eq!(check.reason_codes, ["pulse_unavailable"]);
}

#[test]
fn unavailable_codes_classify_the_pending_reason() {
    assert_eq!(
        transition_unavailable_code("cannot exhaustively enumerate 12 inputs"),
        "too_many_inputs"
    );
    assert_eq!(
        transition_unavailable_code("terminal mapping is ambiguous"),
        "ambiguous_terminal_mapping"
    );
    assert_eq!(
        transition_unavailable_code("outputs are not comparable"),
        "ambiguous_terminal_mapping"
    );
    assert_eq!(transition_unavailable_code("pistons"), "unsupported_physics");
    let pending = MacroTransitionReport {
        state: ContextualVerificationState::Pending,
        cases: Vec::new(),
        differing_cases: 0,
        reason: None,
    };
    let check = assess_pulses(OptimizationContract::default().pulse, Some(&pending));
    assert_eq!(check.reason_codes, ["unsupported_physics"]);
    assert_eq!(check.reasons, ["pulse traces were unavailable"]);
}

#[test]
fn whole_contract_reports_each_part() {
    let mut structural = MacroStructuralReport::default();
    let steady = MacroSteadyStateReport {
        state: ContextualVerificationState::Failed,
        comparison: None,
        input_mapping: vec![0],
        output_mapping: vec![0],
        differing_assignments: vec![vec![true], vec![false]],
        reason: None,
    };
    let transitions = report(vec![case(bits(&[0, 1, 1]), bits(&[0, 1, 1]))]);
    let contract = OptimizationContract {
        analog: AnalogContract {
            preserve_strength: true,
        },
        ..OptimizationContract::default()
    };
    let assessment = assess_macro_contract(
        contract,
        &structural,
        Some(&steady),
        Some(&transitions),
        501,
        None,
    );
    assert_eq!(assessment.logical.state, ContractCheckState::Failed);
    assert_eq!(assessment.logical.reasons, ["2 truth-table assignment(s) differ"]);
    assert_eq!(assessment.timing.state, ContractCheckState::Passed);
    assert_eq!(assessment.pulse.state, ContractCheckState::Passed);
    assert_eq!(assessment.analog.reason_codes, ["analog_strength_unavailable"]);
    assert_eq!(assessment.boundary.state, ContractCheckState::Passed);
    assert_eq!(
        assessment.mutation.reasons,
        ["501 changed blocks exceeds contract maximum 500"]
    );
    assert!(!assessment.satisfied());
    structural.route_collisions.push(Pos::new(1, 2, 3));
    assert!(!structural.valid());
    let assessment = assess_macro_contract(contract, &structural, None, None, 0, Some(false));
    assert_eq!(assessment.boundary.reason_codes, ["boundary_structure_invalid"]);
    assert_eq!(assessment.analog.reason_codes, ["analog_strength_changed"]);
    assert_eq!(assessment.logical.reason_codes, ["steady_state_unavailable"]);
    assert_eq!(assessment.timing.reason_codes, ["transition_unavailable"]);
}

#[test]
fn a_fully_verified_candidate_satisfies_the_default_contract() {
    let steady = MacroSteadyStateReport {
        state: ContextualVerificationState::Passed,
        comparison: Some(TruthTableComparison {
            comparable: true,
            expected_inputs: 1,
            actual_inputs: 1,
            expected_outputs: 1,
            actual_outputs: 1,
            differing_rows: 0,
            differing_bits: 0,
            terminal_count_delta: 0,
            fitness_penalty: 0,
        }),
        input_mapping: vec![0],
        output_mapping: vec![0],
        differing_assignments: Vec::new(),
        reason: None,
    };
    let transitions = report(vec![case(bits(&[0, 1, 1]), bits(&[0, 0, 1]))]);
    let assessment = assess_macro_contract(
        OptimizationContract::default(),
        &MacroStructuralReport::default(),
        Some(&steady),
        Some(&transitions),
        12,
        None,
    );
    assert!(assessment.satisfied());
    assert!(assessment.logical.reason_codes.is_empty());
}

#[test]
fn local_density_can_spend_connector_length_before_global_recovery() {
    let baseline = PhasedPhysicalScore {
        bounding_volume: 120,
        occupied_blocks: 30,
        connector_length: 12,
    };
    let local = PhasedPhysicalScore {
        bounding_volume: 60,
        occupied_blocks: 26,
        connector_length: 17,
    };
    let recovered = PhasedPhysicalScore {
        bounding_volume: 48,
        occupied_blocks: 22,
        connector_length: 10,
    };
    let selected = select_phased_physical_scores(baseline, vec![local], vec![recovered], 6).unwrap();
    assert_eq!(selected.local_density, local);
    assert!(selected.local_density.connector_length > baseline.connector_length);
    assert_eq!(selected.final_global, recovered);
    let score = |s: PhasedPhysicalScore| (s.bounding_volume, s.occupied_blocks, s.connector_length);
    assert!(score(selected.final_global) < score(baseline));
}

#[test]
fn rejects_a_dense_local_move_when_no_final_global_improvement_exists() {
    let baseline = PhasedPhysicalScore {
        bounding_volume: 40,
        occupied_blocks: 20,
        connector_length: 8,
    };
    let local = PhasedPhysicalScore {
        bounding_volume: 30,
        occupied_blocks: 18,
        connector_length: 12,
    };
    assert_eq!(
        select_phased_physical_scores(baseline, vec![local], vec![baseline], 4),
        None
    );
}

#[test]
fn phased_selection_picks_the_best_within_budget() {
    let baseline = PhasedPhysicalScore {
        bounding_volume: 50,
        occupied_blocks: 10,
        connector_length: 9,
    };
    let over_budget = PhasedPhysicalScore {
        bounding_volume: 10,
        occupied_blocks: 10,
        connector_length: 20,
    };
    let small = PhasedPhysicalScore {
        bounding_volume: 30,
        occupied_blocks: 12,
        connector_length: 11,
    };
    let smaller = PhasedPhysicalScore {
        bounding_volume: 30,
        occupied_blocks: 11,
        connector_length: 11,
    };
    let selected = select_phased_physical_scores(
        baseline,
        vec![over_budget, small, smaller],
        vec![small, baseline, smaller],
        2,
    )
    .unwrap();
    assert_eq!(selected.local_density, smaller);
    assert_eq!(selected.final_global, smaller);
    assert_eq!(
        select_phased_physical_scores(baseline, vec![over_budget], vec![small], 2),
        None
    );
}

#[test]
fn macro_metrics_measure_the_observed_world() {
    let mut world = World::new();
    world.set(Pos::new(0, 0, 0), Block::new(BlockKind::Solid));
    world.set(Pos::new(2, 1, 0), Block::new(BlockKind::RedstoneWire));
    world.set(Pos::new(1, 1, -3), Block::new(BlockKind::RedstoneWire));
    world.set(Pos::new(1, 1, 0), Block::new(BlockKind::Repeater));
    let metrics = ObservedMacroMetrics::from_world(&world);
    assert_eq!(metrics.bounding_size, [3, 2, 4]);
    assert_eq!(metrics.occupied_blocks, 4);
    assert_eq!(metrics.dust_blocks, 2);
    assert_eq!(metrics.repeater_count, 1);
    assert_eq!(metrics.bounding_volume(), 24);
    let empty = ObservedMacroMetrics::from_world(&World::new());
    assert_eq!(empty.bounding_size, [0, 0, 0]);
    let huge = ObservedMacroMetrics {
        bounding_size: [usize::MAX, 2, 1],
        occupied_blocks: 0,
        dust_blocks: 0,
        repeater_count: 0,
    };
    assert_eq!(huge.bounding_volume(), usize::MAX);
}

fn assessment(requirement: TemporalRequirement) -> TemporalAssessment {
    TemporalAssessment {
        requirement,
        reasons: Vec::new(),
    }
}

fn comparison(inputs: usize) -> TruthTableComparison {
    TruthTableComparison {
        comparable: true,
        expected_inputs: inputs,
        actual_inputs: inputs,
        expected_outputs: 1,
        actual_outputs: 1,
        differing_rows: 0,
        differing_bits: 0,
        terminal_count_delta: 0,
        fitness_penalty: 0,
    }
}

#[test]
fn temporal_capabilities_support_up_to_ordered_updates() {
    let current = TemporalCapabilities::current();
    assert!(current.supports(TemporalRequirement::SteadyStateSafe));
    assert!(current.supports(TemporalRequirement::OrderedUpdates));
    assert!(!current.supports(TemporalRequirement::ScheduledTicks));
    assert!(!current.supports(TemporalRequirement::BlockEvents));
    let all = TemporalCapabilities {
        maximum_verified: TemporalRequirement::Unsupported,
    };
    assert!(!all.supports(TemporalRequirement::Unsupported));
}

#[test]
fn ordered_verified_candidate_may_be_applied() {
    let safety = assess_optimization_safety(
        true,
        &BehavioralEquivalence::Verified(comparison(1)),
        &Vec::new(),
        &Vec::new(),
        false,
        assessment(TemporalRequirement::OrderedUpdates),
        TemporalCapabilities::current(),
    );
    assert!(safety.permits_automatic_apply());
}

#[test]
fn scheduled_candidate_is_preview_only() {
    let safety = assess_optimization_safety(
        true,
        &BehavioralEquivalence::Unavailable("too many inputs".to_owned()),
        &Vec::new(),
        &Vec::new(),
        false,
        assessment(TemporalRequirement::ScheduledTicks),
        TemporalCapabilities::current(),
    );
    assert!(!safety.permits_automatic_apply());
    assert_eq!(
        safety,
        OptimizationSafety::PreviewOnly {
            temporal: assessment(TemporalRequirement::ScheduledTicks),
            reasons: vec![
                OptimizationSafetyReason::BehavioralVerificationUnavailable(
                    "too many inputs".to_owned()
                ),
                OptimizationSafetyReason::TemporalModelUnavailable {
                    required: TemporalRequirement::ScheduledTicks,
                    available: TemporalRequirement::OrderedUpdates,
                },
            ],
        }
    );
}

#[test]
fn unsafe_candidate_is_rejected_with_every_reason() {
    let safety = assess_optimization_safety(
        false,
        &BehavioralEquivalence::Verified(comparison(0)),
        &vec![Pos::new(3, 0, 0), Pos::new(1, 0, 0)],
        &vec![Pos::new(1, 0, 0), Pos::new(0, 5, 0)],
        true,
        assessment(TemporalRequirement::Unsupported),
        TemporalCapabilities::current(),
    );
    assert_eq!(
        safety,
        OptimizationSafety::Rejected {
            temporal: assessment(TemporalRequirement::Unsupported),
            reasons: vec![
                OptimizationSafetyReason::LogicalTopologyChanged,
                OptimizationSafetyReason::InsufficientBehavioralEvidence,
                OptimizationSafetyReason::UnsupportedObservedPhysics {
                    blocks: vec![Pos::new(0, 5, 0), Pos::new(1, 0, 0), Pos::new(3, 0, 0)],
                },
                OptimizationSafetyReason::InvalidPhysicalSupport,
                OptimizationSafetyReason::IncompleteObservation,
            ],
        }
    );
    let mismatch = assess_optimization_safety(
        true,
        &BehavioralEquivalence::Mismatch(comparison(1)),
        &Vec::new(),
        &Vec::new(),
        false,
        assessment(TemporalRequirement::SteadyStateSafe),
        TemporalCapabilities::current(),
    );
    assert!(matches!(
        mismatch,
        OptimizationSafety::Rejected { ref reasons, .. }
            if reasons == &vec![OptimizationSafetyReason::BehavioralMismatch]
    ));
}

#[test]
fn permutations_come_in_lexicographic_order() {
    assert_eq!(permutations(0), vec![Vec::<usize>::new()]);
    assert_eq!(permutations(1), vec![vec![0]]);
    assert_eq!(
        permutations(3),
        vec![
            vec![0, 1, 2],
            vec![0, 2, 1],
            vec![1, 0, 2],
            vec![1, 2, 0],
            vec![2, 0, 1],
            vec![2, 1, 0],
        ]
    );
    assert_eq!(permutations(5).len(), 120);
}

fn names(list: &[&str]) -> Vec<String> {
    list.iter().map(|name| name.to_string()).collect()
}

fn observed(input_count: usize, output_count: usize, rows: &[(&[bool], &[bool])]) -> ObservedTruthTable {
    ObservedTruthTable {
        input_count,
        output_count,
        rows: rows
            .iter()
            .map(|(inputs, outputs)| ObservedTruthRow { inputs: inputs.to_vec(), outputs: outputs.to_vec() })
            .collect(),
    }
}

/// `a AND NOT b` as a catalog component with inputs `a`, `b` and output `out`.
fn and_not_logic() -> ComponentLogic {
    ComponentLogic {
        stateful: false,
        input_names: names(&["a", "b"]),
        output_names: names(&["out"]),
        truth_table: vec![
            vec![false, false, false],
            vec![false, true, false],
            vec![true, false, true],
            vec![true, true, false],
        ],
    }
}

#[test]
fn mapping_swaps_inputs_when_the_observation_is_mirrored() {
    // observed: out = NOT x AND y, so observed input 0 drives `b`
    let table = observed(
        2,
        1,
        &[
            (&[false, false], &[false]),
            (&[false, true], &[true]),
            (&[true, false], &[false]),
            (&[true, true], &[false]),
        ],
    );
    let (inputs, outputs) = truth_table_mapping(&and_not_logic(), &table).unwrap();
    assert_eq!(inputs, names(&["b", "a"]));
    assert_eq!(outputs, names(&["out"]));

    let direct = observed(2, 1, &[(&[true, false], &[true]), (&[true, true], &[false])]);
    let (inputs, outputs) = truth_table_mapping(&and_not_logic(), &direct).unwrap();
    assert_eq!(inputs, names(&["a", "b"]));
    assert_eq!(outputs, names(&["out"]));
}

#[test]
fn symmetric_component_takes_the_first_mapping() {
    let xor = ComponentLogic {
        stateful: false,
        input_names: names(&["a", "b"]),
        output_names: names(&["out"]),
        truth_table: vec![
            vec![false, false, false],
            vec![false, true, true],
            vec![true, false, true],
            vec![true, true, false],
        ],
    };
    let table = observed(
        2,
        1,
        &[
            (&[false, false], &[false]),
            (&[false, true], &[true]),
            (&[true, false], &[true]),
            (&[true, true], &[false]),
        ],
    );
    let (inputs, outputs) = truth_table_mapping(&xor, &table).unwrap();
    assert_eq!(inputs, names(&["a", "b"]));
    assert_eq!(outputs, names(&["out"]));
}

#[test]
fn mapping_is_refused_for_state_counts_and_mismatches() {
    let table = observed(2, 1, &[(&[true, false], &[true])]);
    let mut stateful = and_not_logic();
    stateful.stateful = true;
    assert_eq!(truth_table_mapping(&stateful, &table), None);

    let wrong_count = observed(1, 1, &[(&[true], &[true])]);
    assert_eq!(truth_table_mapping(&and_not_logic(), &wrong_count), None);

    // no mapping makes `a AND NOT b` give true on both inputs set
    let impossible = observed(2, 1, &[(&[true, true], &[true])]);
    assert_eq!(truth_table_mapping(&and_not_logic(), &impossible), None);

    // an input combination the component does not list is no match
    let mut partial = and_not_logic();
    partial.truth_table.truncate(2);
    let missing = observed(2, 1, &[(&[true, true], &[false])]);
    assert_eq!(truth_table_mapping(&partial, &missing), None);

    let seven = ComponentLogic {
        stateful: false,
        input_names: names(&["a", "b", "c", "d", "e", "f", "g"]),
        output_names: names(&["out"]),
        truth_table: Vec::new(),
    };
    assert_eq!(truth_table_mapping(&seven, &observed(7, 1, &[])), None);
}

#[test]
fn later_rows_of_a_component_table_win() {
    let mut logic = and_not_logic();
    logic.truth_table.push(vec![true, false, false]);
    logic.truth_table.push(vec![true]);
    let table = observed(2, 1, &[(&[true, false], &[false])]);
    let (inputs, _) = truth_table_mapping(&logic, &table).unwrap();
    assert_eq!(inputs, names(&["a", "b"]));
    let earlier = observed(2, 1, &[(&[true, false], &[true])]);
    assert_eq!(truth_table_mapping(&logic, &earlier), None);
}

#[test]
fn compatibility_needs_the_edition_and_an_allowed_version() {
    let record = ComponentCompatibility {
        edition: "java".to_string(),
        versions: Vec::new(),
        incompatible_versions: names(&["1.20.1"]),
    };
    assert!(compatible(&Some(record.clone()), "java", "1.21.11"));
    assert!(!compatible(&Some(record.clone()), "bedrock", "1.21.11"));
    assert!(!compatible(&Some(record.clone()), "java", "1.20.1"));
    assert!(!compatible(&None, "java", "1.21.11"));
    let listed = ComponentCompatibility { versions: names(&["1.21.10", "1.21.11"]), ..record };
    assert!(compatible(&Some(listed.clone()), "java", "1.21.11"));
    assert!(!compatible(&Some(listed), "java", "1.21.9"));
}

fn route(path: &[(i32, i32, i32)]) -> MacroPortRoute {
    let path: Vec<Pos> = path.iter().map(|(x, y, z)| Pos::new(*x, *y, *z)).collect();
    MacroPortRoute {
        boundary: MacroBoundaryPort {
            observed_index: 0,
            name: "out".to_string(),
            position: *path.last().unwrap(),
            direction: MacroBoundaryDirection::Output,
        },
        candidate_port: "out".to_string(),
        candidate_position: path[0],
        path,
    }
}

fn structural_fixture() -> (Vec<(Pos, Block)>, Vec<MacroPortRoute>, World) {
    let mut observed = World::new();
    observed.set(Pos::new(0, 0, 0), Block::new(BlockKind::Solid));
    observed.set(Pos::new(6, 0, 0), Block::new(BlockKind::Solid));
    observed.set(Pos::new(6, 0, 3), Block::new(BlockKind::Lever));
    observed.set(Pos::new(6, 1, 3), Block::new(BlockKind::Solid));
    let mut dust = Block::new(BlockKind::RedstoneWire);
    dust.support_offset = Some(Pos::new(0, -1, 0));
    let blocks = vec![
        (Pos::new(0, 0, 0), Block::new(BlockKind::Transparent)),
        (Pos::new(20, 1, 0), dust),
    ];
    let routes = vec![
        route(&[(5, 1, 0), (6, 1, 0), (7, 1, 0), (8, 1, 0)]),
        route(&[(5, 1, 3), (6, 1, 3), (7, 1, 3)]),
        route(&[(5, 1, 1), (5, 2, 1)]),
    ];
    (blocks, routes, observed)
}

#[test]
fn structural_validation_reports_each_kind_of_problem() {
    let (blocks, routes, observed) = structural_fixture();
    let report = validate_macro_structure(&blocks, &routes, &observed, &Vec::new());
    assert_eq!(report.candidate_collisions, vec![Pos::new(0, 0, 0)]);
    assert_eq!(report.candidate_support_issues, vec![Pos::new(20, 1, 0)]);
    assert_eq!(report.route_collisions, vec![Pos::new(6, 1, 3)]);
    assert_eq!(report.required_route_supports, vec![Pos::new(7, 0, 0)]);
    assert_eq!(report.blocked_route_supports, vec![Pos::new(6, 0, 3)]);
    assert_eq!(
        report.route_cross_net_contacts,
        vec![
            (0, 2, Pos::new(5, 1, 0), Pos::new(5, 1, 1)),
            (0, 2, Pos::new(5, 1, 0), Pos::new(5, 2, 1)),
        ]
    );
    assert!(!report.valid());
}

#[test]
fn replaceable_positions_are_no_obstacles() {
    let (blocks, routes, observed) = structural_fixture();
    let replaceable = vec![Pos::new(0, 0, 0), Pos::new(6, 1, 3), Pos::new(6, 0, 3)];
    let report = validate_macro_structure(&blocks, &routes, &observed, &replaceable);
    assert!(report.candidate_collisions.is_empty());
    assert!(report.route_collisions.is_empty());
    assert!(report.blocked_route_supports.is_empty());
    assert_eq!(report.required_route_supports, vec![Pos::new(6, 0, 3), Pos::new(7, 0, 0)]);
}

#[test]
fn the_last_candidate_block_at_a_position_counts() {
    let mut observed = World::new();
    observed.set(Pos::new(1, 0, 0), Block::new(BlockKind::Solid));
    let blocks = vec![
        (Pos::new(1, 0, 0), Block::new(BlockKind::Transparent)),
        (Pos::new(1, 0, 0), Block::new(BlockKind::Solid)),
    ];
    let report = validate_macro_structure(&blocks, &Vec::new(), &observed, &Vec::new());
    assert!(report.candidate_collisions.is_empty());
    assert!(report.valid());
}

#[test]
fn identical_paths_touch_everywhere() {
    let routes = vec![route(&[(0, 1, 0), (1, 1, 0)]), route(&[(0, 1, 0), (1, 1, 0)])];
    let mut observed = World::new();
    observed.set(Pos::new(0, 0, 0), Block::new(BlockKind::Solid));
    observed.set(Pos::new(1, 0, 0), Block::new(BlockKind::Solid));
    let report = validate_macro_structure(&Vec::new(), &routes, &observed, &Vec::new());
    assert_eq!(report.route_cross_net_contacts.len(), 4);
    assert_eq!(report.route_cross_net_contacts[0], (0, 1, Pos::new(0, 1, 0), Pos::new(0, 1, 0)));
    assert_eq!(report.route_cross_net_contacts[3], (0, 1, Pos::new(1, 1, 0), Pos::new(1, 1, 0)));
}
