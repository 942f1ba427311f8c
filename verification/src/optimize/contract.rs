//! Optimization contracts: what a candidate must preserve of the original
//! (logic, timing, pulses, analog strength, boundary, size of the change),
//! and the assessment of a candidate's verification reports against them.

use vstd::prelude::*;

use crate::optimize::macro_realize::{
    copy_bits, same_bits, spec_edges, trace_view, ContextualVerificationState,
    MacroSteadyStateReport, MacroStructuralReport, MacroTransitionCase, MacroTransitionEdge,
    MacroTransitionReport, TruthTableComparison,
};
use crate::text::{contains_text, seq_contains_text, spec_decimal, u64_to_string};

verus! {

#[derive(Clone, Copy, Debug, PartialEq, Eq, Structural)]
pub enum LogicalContractMode {
    ExactTruthTable,
}

#[derive(Clone, Copy, Debug, PartialEq, Eq, Structural)]
pub enum TimingContractMode {
    ExactTrace,
    /// Compare only state-changing edges and their sampled transition times.
    /// This is the transition-first alternative to comparing every sample.
    ExactTransitions,
    BoundedDelay,
    SettledValueOnly,
    PreserveOrder,
}

#[derive(Clone, Copy, Debug, PartialEq, Eq, Structural)]
pub struct TimingContract {
    pub mode: TimingContractMode,
    pub maximum_added_redstone_ticks: usize,
    pub settle_deadline_redstone_ticks: usize,
}

#[derive(Clone, Copy, Debug, PartialEq, Eq, Structural)]
pub struct PulseContract {
    pub allow_new_pulses: bool,
    pub allow_removed_pulses: bool,
    pub maximum_width_delta_redstone_ticks: usize,
}

#[derive(Clone, Copy, Debug, PartialEq, Eq, Structural)]
pub struct AnalogContract {
    pub preserve_strength: bool,
}

#[derive(Clone, Copy, Debug, PartialEq, Eq, Structural)]
pub struct BoundaryContract {
    pub preserve_blocks: bool,
    pub preserve_facing: bool,
    pub preserve_driver_positions: bool,
}

#[derive(Clone, Copy, Debug, PartialEq, Eq, Structural)]
pub struct MutationContract {
    pub focus_only: bool,
    pub allow_temporary_expansion: bool,
    pub maximum_changed_blocks: usize,
    pub automatic_apply: bool,
}

#[derive(Clone, Copy, Debug, PartialEq, Eq, Structural)]
pub struct OptimizationContract {
    pub logical: LogicalContractMode,
    pub timing: TimingContract,
    pub pulse: PulseContract,
    pub analog: AnalogContract,
    pub boundary: BoundaryContract,
    pub mutation: MutationContract,
}

/// The default contract: exact logic, at most five added ticks and a
/// twenty-tick settle deadline, no new or removed pulses, boundary blocks,
/// facings and drivers preserved, and at most 500 changed blocks inside
/// the focus, never applied automatically.
pub open spec fn default_contract() -> OptimizationContract {
    OptimizationContract {
        logical: LogicalContractMode::ExactTruthTable,
        timing: TimingContract {
            mode: TimingContractMode::BoundedDelay,
            maximum_added_redstone_ticks: 5,
            settle_deadline_redstone_ticks: 20,
        },
        pulse: PulseContract {
            allow_new_pulses: false,
            allow_removed_pulses: false,
            maximum_width_delta_redstone_ticks: 0,
        },
        analog: AnalogContract { preserve_strength: false },
        boundary: BoundaryContract { preserve_blocks: true, preserve_facing: true, preserve_driver_positions: true },
        mutation: MutationContract {
            focus_only: true,
            allow_temporary_expansion: true,
            maximum_changed_blocks: 500,
            automatic_apply: false,
        },
    }
}

impl Default for OptimizationContract {
    fn default() -> (r: OptimizationContract)
        ensures
            r == default_contract(),
    {
        OptimizationContract {
            logical: LogicalContractMode::ExactTruthTable,
            timing: TimingContract {
                mode: TimingContractMode::BoundedDelay,
                maximum_added_redstone_ticks: 5,
                settle_deadline_redstone_ticks: 20,
            },
            pulse: PulseContract {
                allow_new_pulses: false,
                allow_removed_pulses: false,
                maximum_width_delta_redstone_ticks: 0,
            },
            analog: AnalogContract { preserve_strength: false },
            boundary: BoundaryContract { preserve_blocks: true, preserve_facing: true, preserve_driver_positions: true },
            mutation: MutationContract {
                focus_only: true,
                allow_temporary_expansion: true,
                maximum_changed_blocks: 500,
                automatic_apply: false,
            },
        }
    }
}

#[derive(Clone, Copy, Debug, PartialEq, Eq, Structural)]
pub enum ContractCheckState {
    Passed,
    Failed,
    Unavailable,
}

#[derive(Clone, Debug, PartialEq, Eq)]
pub struct ContractCheck {
    pub state: ContractCheckState,
    pub reason_codes: Vec<String>,
    pub reasons: Vec<String>,
}

#[derive(Clone, Debug, PartialEq, Eq)]
pub struct OptimizationContractAssessment {
    pub logical: ContractCheck,
    pub timing: ContractCheck,
    pub pulse: ContractCheck,
    pub analog: ContractCheck,
    pub boundary: ContractCheck,
    pub mutation: ContractCheck,
}

impl OptimizationContractAssessment {
    /// Every part of the contract passed.
    pub open spec fn spec_satisfied(&self) -> bool {
        &&& self.logical.state == ContractCheckState::Passed
        &&& self.timing.state == ContractCheckState::Passed
        &&& self.pulse.state == ContractCheckState::Passed
        &&& self.analog.state == ContractCheckState::Passed
        &&& self.boundary.state == ContractCheckState::Passed
        &&& self.mutation.state == ContractCheckState::Passed
    }

    pub fn satisfied(&self) -> (r: bool)
        ensures
            r == self.spec_satisfied(),
    {
        self.logical.state == ContractCheckState::Passed && self.timing.state == ContractCheckState::Passed
            && self.pulse.state == ContractCheckState::Passed && self.analog.state == ContractCheckState::Passed
            && self.boundary.state == ContractCheckState::Passed && self.mutation.state
            == ContractCheckState::Passed
    }
}

// ---------------------------------------------------------------------------
// Checks.
// ---------------------------------------------------------------------------

/// The characters of each string.
pub open spec fn texts(v: Seq<String>) -> Seq<Seq<char>> {
    v.map_values(|s: String| s@)
}

/// `c` has `state`, with one reason code and one reason.
pub open spec fn is_check(c: ContractCheck, state: ContractCheckState, code: Seq<char>, reason: Seq<char>) -> bool {
    &&& c.state == state
    &&& texts(c.reason_codes@) == seq![code]
    &&& texts(c.reasons@) == seq![reason]
}

/// `c` passed, with no reasons.
pub open spec fn is_passed(c: ContractCheck) -> bool {
    &&& c.state == ContractCheckState::Passed
    &&& c.reason_codes@.len() == 0
    &&& c.reasons@.len() == 0
}

fn passed() -> (r: ContractCheck)
    ensures
        is_passed(r),
{
    ContractCheck { state: ContractCheckState::Passed, reason_codes: Vec::new(), reasons: Vec::new() }
}

fn check_with(state: ContractCheckState, code: &str, reason: String) -> (r: ContractCheck)
    ensures
        is_check(r, state, code@, reason@),
{
    let mut reason_codes: Vec<String> = Vec::new();
    reason_codes.push(code.to_string());
    let mut reasons: Vec<String> = Vec::new();
    reasons.push(reason);
    assert(texts(reason_codes@) =~= seq![code@]);
    assert(texts(reasons@) =~= seq![reason@]);
    ContractCheck { state, reason_codes, reasons }
}

fn failed_code(code: &str, reason: String) -> (r: ContractCheck)
    ensures
        is_check(r, ContractCheckState::Failed, code@, reason@),
{
    check_with(ContractCheckState::Failed, code, reason)
}

fn unavailable_code(code: &str, reason: String) -> (r: ContractCheck)
    ensures
        is_check(r, ContractCheckState::Unavailable, code@, reason@),
{
    check_with(ContractCheckState::Unavailable, code, reason)
}

/// The code of a measurement that could not be made, read from its reason.
pub open spec fn spec_unavailable_code(reason: Seq<char>) -> Seq<char> {
    if seq_contains_text(reason, "cannot exhaustively enumerate"@) || seq_contains_text(reason, "too many inputs"@) {
        "too_many_inputs"@
    } else if seq_contains_text(reason, "ambiguous"@) || seq_contains_text(reason, "not comparable"@) {
        "ambiguous_terminal_mapping"@
    } else {
        "unsupported_physics"@
    }
}

pub fn transition_unavailable_code(reason: &str) -> (r: &'static str)
    ensures
        r@ == spec_unavailable_code(reason@),
{
    if contains_text(reason, "cannot exhaustively enumerate") || contains_text(reason, "too many inputs") {
        "too_many_inputs"
    } else if contains_text(reason, "ambiguous") || contains_text(reason, "not comparable") {
        "ambiguous_terminal_mapping"
    } else {
        "unsupported_physics"
    }
}

/// The reason a pending report gives, or `default` when it gives none.
pub open spec fn pending_reason(reason: Option<String>, default: Seq<char>) -> Seq<char> {
    match reason {
        Some(s) => s@,
        None => default,
    }
}

fn reason_or(reason: &Option<String>, default: &str) -> (r: String)
    ensures
        r@ == pending_reason(*reason, default@),
{
    match reason {
        Some(s) => s.clone(),
        None => default.to_string(),
    }
}

// ---------------------------------------------------------------------------
// Traces.
// ---------------------------------------------------------------------------

/// The length of the prefix of `t[..n]` that ends with its last sample
/// different from `f`.
pub open spec fn settle_from(t: Seq<Seq<bool>>, f: Seq<bool>, n: int) -> int
    decreases n,
{
    if n <= 0 {
        0
    } else if t[n - 1] != f {
        n
    } else {
        settle_from(t, f, n - 1)
    }
}

/// The tick from which a trace holds its final value: one past the last
/// sample that differs from the final one, 0 for a constant or empty
/// trace.
pub open spec fn spec_settle_tick(t: Seq<Seq<bool>>) -> int {
    if t.len() == 0 {
        0
    } else {
        settle_from(t, t.last(), t.len() as int)
    }
}

pub fn settle_tick(trace: &Vec<Vec<bool>>) -> (r: usize)
    ensures
        r == spec_settle_tick(trace_view(trace@)),
{
    let ghost t = trace_view(trace@);
    let n = trace.len();
    if n == 0 {
        return 0;
    }
    let last = &trace[n - 1];
    let mut i: usize = n;
    while i > 0
        invariant
            n == trace@.len(),
            t == trace_view(trace@),
            n > 0,
            *last == trace@[n - 1],
            i <= n,
            settle_from(t, t.last(), i as int) == settle_from(t, t.last(), n as int),
        decreases i,
    {
        if !same_bits(&trace[i - 1], last) {
            return i;
        }
        i = i - 1;
    }
    0
}

/// The widths of the maximal runs of equal samples, in order.
pub open spec fn run_widths(t: Seq<Seq<bool>>) -> Seq<int>
    decreases t.len(),
{
    if t.len() == 0 {
        Seq::empty()
    } else if t.len() == 1 {
        seq![1int]
    } else {
        let w = run_widths(t.drop_last());
        if t[t.len() - 1] == t[t.len() - 2] {
            w.update(w.len() - 1, w.last() + 1)
        } else {
            w.push(1)
        }
    }
}

proof fn lemma_run_widths_nonempty(t: Seq<Seq<bool>>)
    requires
        t.len() > 0,
    ensures
        run_widths(t).len() > 0,
    decreases t.len(),
{
    if t.len() > 1 {
        lemma_run_widths_nonempty(t.drop_last());
    }
}

/// The widths of the transient pulses of a trace: every run but the first
/// and the last.
pub open spec fn spec_transient_widths(t: Seq<Seq<bool>>) -> Seq<int> {
    let w = run_widths(t);
    if w.len() <= 2 {
        Seq::empty()
    } else {
        w.subrange(1, w.len() - 1)
    }
}

fn widths_of_runs(trace: &Vec<Vec<bool>>) -> (r: Vec<usize>)
    ensures
        r@.map_values(|w: usize| w as int) == run_widths(trace_view(trace@)),
{
    let ghost t = trace_view(trace@);
    let mut widths: Vec<usize> = Vec::new();
    let n = trace.len();
    if n == 0 {
        assert(widths@.map_values(|w: usize| w as int) =~= run_widths(t));
        return widths;
    }
    widths.push(1);
    assert(widths@.map_values(|w: usize| w as int) =~= run_widths(t.take(1)));
    let mut i: usize = 1;
    while i < n
        invariant
            n == trace@.len(),
            t == trace_view(trace@),
            1 <= i <= n,
            widths@.len() > 0,
            widths@.map_values(|w: usize| w as int) == run_widths(t.take(i as int)),
            forall|k: int| 0 <= k < widths@.len() ==> (#[trigger] widths@[k]) <= i,
        decreases n - i,
    {
        proof {
            assert(t.take(i + 1).drop_last() =~= t.take(i as int));
            assert(t.take(i + 1)[i as int] == t[i as int]);
            assert(t.take(i + 1)[i - 1] == t[i - 1]);
        }
        let ghost before = widths@;
        if same_bits(&trace[i], &trace[i - 1]) {
            let last = widths.len() - 1;
            let w = widths[last];
            widths.set(last, w + 1);
            assert forall|k: int| 0 <= k < widths@.len() implies (#[trigger] widths@[k]) <= i + 1 by {
                if k != last {
                    assert(widths@[k] == before[k]);
                }
            }
        } else {
            widths.push(1);
            assert forall|k: int| 0 <= k < widths@.len() implies (#[trigger] widths@[k]) <= i + 1 by {
                if k < before.len() {
                    assert(widths@[k] == before[k]);
                }
            }
        }
        assert(widths@.map_values(|w: usize| w as int) =~= run_widths(t.take(i + 1)));
        i = i + 1;
    }
    assert(t.take(n as int) =~= t);
    widths
}

pub fn transient_widths(trace: &Vec<Vec<bool>>) -> (r: Vec<usize>)
    ensures
        r@.map_values(|w: usize| w as int) == spec_transient_widths(trace_view(trace@)),
{
    let runs = widths_of_runs(trace);
    let ghost w = runs@.map_values(|x: usize| x as int);
    let mut out: Vec<usize> = Vec::new();
    if runs.len() <= 2 {
        assert(out@.map_values(|x: usize| x as int) =~= spec_transient_widths(trace_view(trace@)));
        return out;
    }
    let end = runs.len() - 1;
    let mut i: usize = 1;
    while i < end
        invariant
            end == runs@.len() - 1,
            w == runs@.map_values(|x: usize| x as int),
            1 <= i <= end,
            out@.map_values(|x: usize| x as int) == w.subrange(1, i as int),
        decreases end - i,
    {
        let ghost before = out@;
        out.push(runs[i]);
        assert(w[i as int] == runs@[i as int] as int);
        assert(out@.map_values(|x: usize| x as int) =~= before.map_values(|x: usize| x as int).push(w[i as int]));
        assert(w.subrange(1, i + 1) =~= w.subrange(1, i as int).push(w[i as int]));
        i = i + 1;
    }
    out
}

/// Both traces end on the same sample, or both are empty.
pub open spec fn final_match(a: Seq<Seq<bool>>, b: Seq<Seq<bool>>) -> bool {
    if a.len() == 0 || b.len() == 0 {
        a.len() == 0 && b.len() == 0
    } else {
        a.last() == b.last()
    }
}

pub fn final_values_match(case: &MacroTransitionCase) -> (r: bool)
    ensures
        r == final_match(trace_view(case.original_outputs@), trace_view(case.candidate_outputs@)),
{
    let a = &case.original_outputs;
    let b = &case.candidate_outputs;
    if a.len() == 0 || b.len() == 0 {
        a.len() == 0 && b.len() == 0
    } else {
        same_bits(&a[a.len() - 1], &b[b.len() - 1])
    }
}

/// The sample pairs of a list of edges, without their ticks.
pub open spec fn edge_signature(e: Seq<(int, Seq<bool>, Seq<bool>)>) -> Seq<(Seq<bool>, Seq<bool>)> {
    e.map_values(|x: (int, Seq<bool>, Seq<bool>)| (x.1, x.2))
}

pub fn transition_signature(edges: &Vec<MacroTransitionEdge>) -> (r: Vec<(Vec<bool>, Vec<bool>)>)
    ensures
        r@.map_values(|p: (Vec<bool>, Vec<bool>)| (p.0@, p.1@)) == edge_signature(
            edges@.map_values(|e: MacroTransitionEdge| crate::optimize::macro_realize::edge_view(e)),
        ),
{
    let ghost ev = edges@.map_values(|e: MacroTransitionEdge| crate::optimize::macro_realize::edge_view(e));
    let mut out: Vec<(Vec<bool>, Vec<bool>)> = Vec::new();
    let n = edges.len();
    let mut i: usize = 0;
    while i < n
        invariant
            n == edges@.len(),
            ev == edges@.map_values(|e: MacroTransitionEdge| crate::optimize::macro_realize::edge_view(e)),
            i <= n,
            out@.map_values(|p: (Vec<bool>, Vec<bool>)| (p.0@, p.1@)) == edge_signature(ev.take(i as int)),
        decreases n - i,
    {
        let ghost before = out@;
        out.push((copy_bits(&edges[i].from), copy_bits(&edges[i].to)));
        assert(ev[i as int] == crate::optimize::macro_realize::edge_view(edges@[i as int]));
        assert(ev.take(i + 1) =~= ev.take(i as int).push(ev[i as int]));
        assert(out@.map_values(|p: (Vec<bool>, Vec<bool>)| (p.0@, p.1@)) =~= before.map_values(
            |p: (Vec<bool>, Vec<bool>)| (p.0@, p.1@),
        ).push((ev[i as int].1, ev[i as int].2)));
        assert(edge_signature(ev.take(i + 1)) =~= edge_signature(ev.take(i as int)).push((ev[i as int].1, ev[i as int].2)));
        i = i + 1;
    }
    assert(ev.take(n as int) =~= ev);
    out
}

/// Whether two edge lists are equal, with or without their ticks.
fn same_edges(a: &Vec<MacroTransitionEdge>, b: &Vec<MacroTransitionEdge>, with_ticks: bool) -> (r: bool)
    ensures
        with_ticks ==> r == (a@.map_values(|e: MacroTransitionEdge| crate::optimize::macro_realize::edge_view(e))
            == b@.map_values(|e: MacroTransitionEdge| crate::optimize::macro_realize::edge_view(e))),
        !with_ticks ==> r == (edge_signature(
            a@.map_values(|e: MacroTransitionEdge| crate::optimize::macro_realize::edge_view(e)),
        ) == edge_signature(b@.map_values(|e: MacroTransitionEdge| crate::optimize::macro_realize::edge_view(e)))),
{
    let ghost av = a@.map_values(|e: MacroTransitionEdge| crate::optimize::macro_realize::edge_view(e));
    let ghost bv = b@.map_values(|e: MacroTransitionEdge| crate::optimize::macro_realize::edge_view(e));
    if a.len() != b.len() {
        assert(av.len() != bv.len());
        assert(edge_signature(av).len() != edge_signature(bv).len());
        return false;
    }
    let n = a.len();
    let mut i: usize = 0;
    while i < n
        invariant
            n == a@.len(),
            n == b@.len(),
            av == a@.map_values(|e: MacroTransitionEdge| crate::optimize::macro_realize::edge_view(e)),
            bv == b@.map_values(|e: MacroTransitionEdge| crate::optimize::macro_realize::edge_view(e)),
            i <= n,
            with_ticks ==> forall|j: int| 0 <= j < i ==> av[j] == bv[j],
            !with_ticks ==> forall|j: int| 0 <= j < i ==> edge_signature(av)[j] == edge_signature(bv)[j],
        decreases n - i,
    {
        let same = (!with_ticks || a[i].tick == b[i].tick) && same_bits(&a[i].from, &b[i].from) && same_bits(
            &a[i].to,
            &b[i].to,
        );
        if !same {
            assert(edge_signature(av)[i as int] == (av[i as int].1, av[i as int].2));
            assert(edge_signature(bv)[i as int] == (bv[i as int].1, bv[i as int].2));
            return false;
        }
        i = i + 1;
    }
    assert(with_ticks ==> av =~= bv);
    assert(!with_ticks ==> edge_signature(av) =~= edge_signature(bv));
    true
}

// ---------------------------------------------------------------------------
// Timing.
// ---------------------------------------------------------------------------

/// `a + b`, saturated at `usize::MAX`.
pub open spec fn saturating_sum(a: int, b: int) -> int {
    if a + b > usize::MAX {
        usize::MAX as int
    } else {
        a + b
    }
}

/// One transition case meets the timing mode (the exact-trace mode is
/// decided by the report's count of differing cases instead).
pub open spec fn case_meets_timing(contract: TimingContract, c: MacroTransitionCase) -> bool {
    let o = trace_view(c.original_outputs@);
    let k = trace_view(c.candidate_outputs@);
    match contract.mode {
        TimingContractMode::ExactTrace => true,
        TimingContractMode::ExactTransitions => spec_edges(o) == spec_edges(k),
        TimingContractMode::SettledValueOnly => final_match(o, k),
        TimingContractMode::BoundedDelay => {
            &&& final_match(o, k)
            &&& spec_settle_tick(k) <= saturating_sum(spec_settle_tick(o), contract.maximum_added_redstone_ticks as int)
            &&& spec_settle_tick(k) <= contract.settle_deadline_redstone_ticks
        },
        TimingContractMode::PreserveOrder => edge_signature(spec_edges(o)) == edge_signature(spec_edges(k)),
    }
}

/// The report's cases meet the timing contract.
pub open spec fn timing_met(contract: TimingContract, r: MacroTransitionReport) -> bool {
    match contract.mode {
        TimingContractMode::ExactTrace => r.differing_cases == 0,
        _ => forall|i: int| 0 <= i < r.cases@.len() ==> case_meets_timing(contract, #[trigger] r.cases@[i]),
    }
}

/// The timing check of a contract against an optional transition report.
pub open spec fn timing_check(contract: TimingContract, transitions: Option<MacroTransitionReport>, r: ContractCheck) -> bool {
    match transitions {
        None => is_check(
            r,
            ContractCheckState::Unavailable,
            "transition_unavailable"@,
            "transition traces were not verified"@,
        ),
        Some(rep) => if rep.state == ContextualVerificationState::Pending {
            let reason = pending_reason(rep.reason, "transition traces were unavailable"@);
            is_check(r, ContractCheckState::Unavailable, spec_unavailable_code(reason), reason)
        } else if rep.cases@.len() == 0 {
            is_check(
                r,
                ContractCheckState::Unavailable,
                "transition_evidence_insufficient"@,
                "no input transition cases were verified"@,
            )
        } else if timing_met(contract, rep) {
            is_passed(r)
        } else {
            is_check(
                r,
                ContractCheckState::Failed,
                "timing_contract_violated"@,
                "transition timing violates the selected timing mode"@,
            )
        },
    }
}

/// `t` holds its final sample from index `s` on.
pub open spec fn holds_final_from(t: Seq<Seq<bool>>, s: int) -> bool {
    forall|j: int| s <= j < t.len() ==> #[trigger] t[j] == t.last()
}

proof fn lemma_settle_from_holds(t: Seq<Seq<bool>>, f: Seq<bool>, n: int, j: int)
    requires
        n <= t.len(),
        settle_from(t, f, n) <= j < n,
    ensures
        t[j] == f,
    decreases n,
{
    if n > 0 && t[n - 1] == f && j < n - 1 {
        lemma_settle_from_holds(t, f, n - 1, j);
    }
}

proof fn lemma_settle_from_least(t: Seq<Seq<bool>>, f: Seq<bool>, n: int, s: int)
    requires
        0 <= s,
        n <= t.len(),
        forall|j: int| s <= j < n ==> #[trigger] t[j] == f,
    ensures
        settle_from(t, f, n) <= s,
    decreases n,
{
    if n > 0 && t[n - 1] == f {
        lemma_settle_from_least(t, f, n - 1, s);
    }
}

proof fn lemma_settle_tick(t: Seq<Seq<bool>>, s: int)
    requires
        0 <= s,
    ensures
        holds_final_from(t, spec_settle_tick(t)),
        holds_final_from(t, s) ==> spec_settle_tick(t) <= s,
{
    if t.len() > 0 {
        assert forall|j: int| spec_settle_tick(t) <= j < t.len() implies #[trigger] t[j] == t.last() by {
            lemma_settle_from_holds(t, t.last(), t.len() as int, j);
        }
        if holds_final_from(t, s) {
            lemma_settle_from_least(t, t.last(), t.len() as int, s);
        }
    }
}

/// Under bounded delay, a passed timing check means that in every case the
/// candidate ends on the original's final outputs, and holds them from the
/// deadline on and from any tick the original holds its own from, plus the
/// allowed added delay.
pub proof fn law_bounded_delay_in_time(contract: TimingContract, rep: MacroTransitionReport, r: ContractCheck, i: int, s: int)
    requires
        contract.mode == TimingContractMode::BoundedDelay,
        timing_check(contract, Some(rep), r),
        r.state == ContractCheckState::Passed,
        0 <= i < rep.cases@.len(),
        0 <= s,
        holds_final_from(trace_view(rep.cases@[i].original_outputs@), s),
    ensures
        final_match(trace_view(rep.cases@[i].original_outputs@), trace_view(rep.cases@[i].candidate_outputs@)),
        holds_final_from(trace_view(rep.cases@[i].candidate_outputs@), s + contract.maximum_added_redstone_ticks),
        holds_final_from(trace_view(rep.cases@[i].candidate_outputs@), contract.settle_deadline_redstone_ticks as int),
{
    let o = trace_view(rep.cases@[i].original_outputs@);
    let k = trace_view(rep.cases@[i].candidate_outputs@);
    assert(timing_met(contract, rep));
    assert(case_meets_timing(contract, rep.cases@[i]));
    lemma_settle_tick(o, s);
    lemma_settle_tick(k, 0);
    let m = s + contract.maximum_added_redstone_ticks;
    assert forall|j: int| m <= j < k.len() implies #[trigger] k[j] == k.last() by {
        assert(spec_settle_tick(k) <= j);
    }
    assert forall|j: int| contract.settle_deadline_redstone_ticks <= j < k.len() implies #[trigger] k[j] == k.last() by {
        assert(spec_settle_tick(k) <= j);
    }
}

fn case_timing(contract: TimingContract, case: &MacroTransitionCase) -> (r: bool)
    ensures
        r == case_meets_timing(contract, *case),
{
    match contract.mode {
        TimingContractMode::ExactTrace => true,
        TimingContractMode::ExactTransitions => {
            let a = case.original_transition_edges();
            let b = case.candidate_transition_edges();
            same_edges(&a, &b, true)
        },
        TimingContractMode::SettledValueOnly => final_values_match(case),
        TimingContractMode::BoundedDelay => {
            let candidate = settle_tick(&case.candidate_outputs);
            let original = settle_tick(&case.original_outputs);
            final_values_match(case) && candidate <= original.saturating_add(contract.maximum_added_redstone_ticks)
                && candidate <= contract.settle_deadline_redstone_ticks
        },
        TimingContractMode::PreserveOrder => {
            let a = case.original_transition_edges();
            let b = case.candidate_transition_edges();
            same_edges(&a, &b, false)
        },
    }
}

/// Checks the transition traces against the timing contract.
pub fn assess_timing(contract: TimingContract, transitions: Option<&MacroTransitionReport>) -> (r: ContractCheck)
    ensures
        timing_check(
            contract,
            match transitions {
                Some(t) => Some(*t),
                None => None,
            },
            r,
        ),
{
    let report = match transitions {
        Some(t) => t,
        None => {
            return unavailable_code("transition_unavailable", "transition traces were not verified".to_string());
        },
    };
    if report.state == ContextualVerificationState::Pending {
        let reason = reason_or(&report.reason, "transition traces were unavailable");
        let code = transition_unavailable_code(reason.as_str());
        return unavailable_code(code, reason);
    }
    if report.cases.len() == 0 {
        return unavailable_code(
            "transition_evidence_insufficient",
            "no input transition cases were verified".to_string(),
        );
    }
    let valid = match contract.mode {
        TimingContractMode::ExactTrace => report.differing_cases == 0,
        _ => {
            let n = report.cases.len();
            let mut i: usize = 0;
            let mut all = true;
            while i < n
                invariant
                    n == report.cases@.len(),
                    contract.mode != TimingContractMode::ExactTrace,
                    i <= n,
                    all == forall|j: int| 0 <= j < i ==> case_meets_timing(contract, #[trigger] report.cases@[j]),
                decreases n - i,
            {
                let ok = case_timing(contract, &report.cases[i]);
                all = all && ok;
                i = i + 1;
            }
            all
        },
    };
    if valid {
        passed()
    } else {
        failed_code("timing_contract_violated", "transition timing violates the selected timing mode".to_string())
    }
}

// ---------------------------------------------------------------------------
// Pulses.
// ---------------------------------------------------------------------------

/// How a candidate's pulses break a pulse contract.
#[derive(Clone, Copy, Debug, PartialEq, Eq, Structural)]
pub enum PulseViolation {
    NewPulse,
    RemovedPulse,
    WidthChanged,
}

pub open spec fn abs_diff(a: int, b: int) -> int {
    if a >= b {
        a - b
    } else {
        b - a
    }
}

/// The first way one case breaks the pulse contract: a new pulse, then a
/// removed one, then a pulse whose width changed by more than allowed.
pub open spec fn spec_pulse_violation(contract: PulseContract, c: MacroTransitionCase) -> Option<PulseViolation> {
    let o = spec_transient_widths(trace_view(c.original_outputs@));
    let k = spec_transient_widths(trace_view(c.candidate_outputs@));
    if !contract.allow_new_pulses && k.len() > o.len() {
        Some(PulseViolation::NewPulse)
    } else if !contract.allow_removed_pulses && k.len() < o.len() {
        Some(PulseViolation::RemovedPulse)
    } else if exists|i: int|
        0 <= i < o.len() && i < k.len() && abs_diff(#[trigger] o[i], k[i])
            > contract.maximum_width_delta_redstone_ticks {
        Some(PulseViolation::WidthChanged)
    } else {
        None
    }
}

/// The violation of the first case that breaks the pulse contract.
pub open spec fn first_violation(contract: PulseContract, cases: Seq<MacroTransitionCase>) -> Option<PulseViolation>
    decreases cases.len(),
{
    if cases.len() == 0 {
        None
    } else {
        match spec_pulse_violation(contract, cases[0]) {
            Some(v) => Some(v),
            None => first_violation(contract, cases.drop_first()),
        }
    }
}

pub open spec fn violation_code(v: PulseViolation) -> Seq<char> {
    match v {
        PulseViolation::NewPulse => "new_pulse_introduced"@,
        PulseViolation::RemovedPulse => "existing_pulse_removed"@,
        PulseViolation::WidthChanged => "pulse_width_changed"@,
    }
}

pub open spec fn violation_reason(v: PulseViolation) -> Seq<char> {
    match v {
        PulseViolation::NewPulse => "candidate introduces a new transient pulse"@,
        PulseViolation::RemovedPulse => "candidate removes an existing transient pulse"@,
        PulseViolation::WidthChanged => "transient pulse width exceeds the allowed delta"@,
    }
}

/// The pulse check of a contract against an optional transition report.
pub open spec fn pulse_check(contract: PulseContract, transitions: Option<MacroTransitionReport>, r: ContractCheck) -> bool {
    match transitions {
        None => is_check(r, ContractCheckState::Unavailable, "pulse_unavailable"@, "pulse traces were not verified"@),
        Some(rep) => if rep.state == ContextualVerificationState::Pending {
            let reason = pending_reason(rep.reason, "pulse traces were unavailable"@);
            is_check(r, ContractCheckState::Unavailable, spec_unavailable_code(reason), reason)
        } else if rep.cases@.len() == 0 {
            is_check(
                r,
                ContractCheckState::Unavailable,
                "pulse_evidence_insufficient"@,
                "no input transition cases were verified for pulse analysis"@,
            )
        } else {
            match first_violation(contract, rep.cases@) {
                Some(v) => is_check(r, ContractCheckState::Failed, violation_code(v), violation_reason(v)),
                None => is_passed(r),
            }
        },
    }
}

fn pulse_violation(contract: PulseContract, case: &MacroTransitionCase) -> (r: Option<PulseViolation>)
    ensures
        r == spec_pulse_violation(contract, *case),
{
    let original = transient_widths(&case.original_outputs);
    let candidate = transient_widths(&case.candidate_outputs);
    let ghost o = original@.map_values(|w: usize| w as int);
    let ghost k = candidate@.map_values(|w: usize| w as int);
    if !contract.allow_new_pulses && candidate.len() > original.len() {
        return Some(PulseViolation::NewPulse);
    }
    if !contract.allow_removed_pulses && candidate.len() < original.len() {
        return Some(PulseViolation::RemovedPulse);
    }
    let n = if original.len() < candidate.len() {
        original.len()
    } else {
        candidate.len()
    };
    let mut i: usize = 0;
    while i < n
        invariant
            n <= original@.len(),
            n <= candidate@.len(),
            n == original@.len() || n == candidate@.len(),
            o == original@.map_values(|w: usize| w as int),
            k == candidate@.map_values(|w: usize| w as int),
            o == spec_transient_widths(trace_view(case.original_outputs@)),
            k == spec_transient_widths(trace_view(case.candidate_outputs@)),
            contract.allow_new_pulses || k.len() <= o.len(),
            contract.allow_removed_pulses || k.len() >= o.len(),
            i <= n,
            forall|j: int| 0 <= j < i ==> abs_diff(#[trigger] o[j], k[j]) <= contract.maximum_width_delta_redstone_ticks,
        decreases n - i,
    {
        let a = original[i];
        let b = candidate[i];
        let diff = if a >= b {
            a - b
        } else {
            b - a
        };
        if diff > contract.maximum_width_delta_redstone_ticks {
            proof {
                let so = spec_transient_widths(trace_view(case.original_outputs@));
                let sk = spec_transient_widths(trace_view(case.candidate_outputs@));
                assert(so == o && sk == k);
                assert(o[i as int] == a as int && k[i as int] == b as int);
                assert(0 <= i < so.len() && i < sk.len() && abs_diff(so[i as int], sk[i as int])
                    > contract.maximum_width_delta_redstone_ticks);
            }
            return Some(PulseViolation::WidthChanged);
        }
        i = i + 1;
    }
    None
}

fn violation_check(v: PulseViolation) -> (r: ContractCheck)
    ensures
        is_check(r, ContractCheckState::Failed, violation_code(v), violation_reason(v)),
{
    match v {
        PulseViolation::NewPulse => failed_code(
            "new_pulse_introduced",
            "candidate introduces a new transient pulse".to_string(),
        ),
        PulseViolation::RemovedPulse => failed_code(
            "existing_pulse_removed",
            "candidate removes an existing transient pulse".to_string(),
        ),
        PulseViolation::WidthChanged => failed_code(
            "pulse_width_changed",
            "transient pulse width exceeds the allowed delta".to_string(),
        ),
    }
}

/// Checks the transient pulses of the candidate against the pulse
/// contract, case by case; the first case that breaks it decides.
pub fn assess_pulses(contract: PulseContract, transitions: Option<&MacroTransitionReport>) -> (r: ContractCheck)
    ensures
        pulse_check(
            contract,
            match transitions {
                Some(t) => Some(*t),
                None => None,
            },
            r,
        ),
{
    let report = match transitions {
        Some(t) => t,
        None => {
            return unavailable_code("pulse_unavailable", "pulse traces were not verified".to_string());
        },
    };
    if report.state == ContextualVerificationState::Pending {
        let reason = reason_or(&report.reason, "pulse traces were unavailable");
        let code = transition_unavailable_code(reason.as_str());
        return unavailable_code(code, reason);
    }
    if report.cases.len() == 0 {
        return unavailable_code(
            "pulse_evidence_insufficient",
            "no input transition cases were verified for pulse analysis".to_string(),
        );
    }
    let n = report.cases.len();
    let mut i: usize = 0;
    assert(report.cases@.skip(0) =~= report.cases@);
    while i < n
        invariant
            n == report.cases@.len(),
            i <= n,
            transitions matches Some(t) && *t == *report,
            report.state != ContextualVerificationState::Pending,
            report.cases@.len() > 0,
            first_violation(contract, report.cases@.skip(i as int)) == first_violation(contract, report.cases@),
        decreases n - i,
    {
        proof {
            assert(report.cases@.skip(i as int)[0] == report.cases@[i as int]);
            assert(report.cases@.skip(i as int).drop_first() =~= report.cases@.skip(i + 1));
        }
        match pulse_violation(contract, &report.cases[i]) {
            Some(v) => {
                assert(first_violation(contract, report.cases@.skip(i as int)) == Some(v));
                return violation_check(v);
            },
            None => {},
        }
        i = i + 1;
    }
    assert(report.cases@.skip(n as int).len() == 0);
    passed()
}

// ---------------------------------------------------------------------------
// The whole contract.
// ---------------------------------------------------------------------------

/// A comparison that binds at least one input and one output on both
/// sides.
pub open spec fn sufficient(c: TruthTableComparison) -> bool {
    c.comparable && c.expected_inputs > 0 && c.expected_outputs > 0 && c.actual_inputs > 0 && c.actual_outputs > 0
}

pub fn sufficient_comparison(comparison: &TruthTableComparison) -> (r: bool)
    ensures
        r == sufficient(*comparison),
{
    comparison.comparable && comparison.expected_inputs > 0 && comparison.expected_outputs > 0
        && comparison.actual_inputs > 0 && comparison.actual_outputs > 0
}

/// The logical check against an optional steady-state report.
pub open spec fn logical_check(steady: Option<MacroSteadyStateReport>, r: ContractCheck) -> bool {
    match steady {
        Some(rep) => if rep.state == ContextualVerificationState::Passed {
            if rep.comparison matches Some(c) && sufficient(c) {
                is_passed(r)
            } else {
                is_check(
                    r,
                    ContractCheckState::Unavailable,
                    "interface_evidence_insufficient"@,
                    "logical verification passed without at least one input and one output terminal"@,
                )
            }
        } else {
            is_check(
                r,
                ContractCheckState::Failed,
                "logical_truth_table_mismatch"@,
                spec_decimal(rep.differing_assignments@.len()) + " truth-table assignment(s) differ"@,
            )
        },
        None => is_check(
            r,
            ContractCheckState::Unavailable,
            "steady_state_unavailable"@,
            "steady-state truth table was not verified"@,
        ),
    }
}

/// The analog check of a contract.
pub open spec fn analog_check(contract: AnalogContract, verified: Option<bool>, r: ContractCheck) -> bool {
    if !contract.preserve_strength {
        is_passed(r)
    } else {
        match verified {
            Some(true) => is_passed(r),
            Some(false) => is_check(
                r,
                ContractCheckState::Failed,
                "analog_strength_changed"@,
                "candidate changes boundary signal strength"@,
            ),
            None => is_check(
                r,
                ContractCheckState::Unavailable,
                "analog_strength_unavailable"@,
                "analog strength preservation was requested but not verified"@,
            ),
        }
    }
}

/// The mutation check of a contract for a candidate changing `changed`
/// blocks.
pub open spec fn mutation_check(contract: MutationContract, changed: usize, r: ContractCheck) -> bool {
    if changed <= contract.maximum_changed_blocks {
        is_passed(r)
    } else {
        is_check(
            r,
            ContractCheckState::Failed,
            "mutation_limit_exceeded"@,
            spec_decimal(changed as nat) + " changed blocks exceeds contract maximum "@ + spec_decimal(
                contract.maximum_changed_blocks as nat,
            ),
        )
    }
}

fn assess_logical(steady: Option<&MacroSteadyStateReport>) -> (r: ContractCheck)
    ensures
        logical_check(
            match steady {
                Some(s) => Some(*s),
                None => None,
            },
            r,
        ),
{
    match steady {
        Some(report) => {
            if report.state == ContextualVerificationState::Passed {
                let enough = match &report.comparison {
                    Some(c) => sufficient_comparison(c),
                    None => false,
                };
                if enough {
                    passed()
                } else {
                    unavailable_code(
                        "interface_evidence_insufficient",
                        "logical verification passed without at least one input and one output terminal".to_string(),
                    )
                }
            } else {
                let mut reason = u64_to_string(report.differing_assignments.len() as u64);
                reason.append(" truth-table assignment(s) differ");
                proof {
                    reveal_strlit(" truth-table assignment(s) differ");
                }
                failed_code("logical_truth_table_mismatch", reason)
            }
        },
        None => unavailable_code("steady_state_unavailable", "steady-state truth table was not verified".to_string()),
    }
}

fn assess_analog(contract: AnalogContract, verified: Option<bool>) -> (r: ContractCheck)
    ensures
        analog_check(contract, verified, r),
{
    if !contract.preserve_strength {
        passed()
    } else {
        match verified {
            Some(true) => passed(),
            Some(false) => failed_code("analog_strength_changed", "candidate changes boundary signal strength".to_string()),
            None => unavailable_code(
                "analog_strength_unavailable",
                "analog strength preservation was requested but not verified".to_string(),
            ),
        }
    }
}

fn assess_mutation(contract: MutationContract, changed_blocks: usize) -> (r: ContractCheck)
    ensures
        mutation_check(contract, changed_blocks, r),
{
    if changed_blocks <= contract.maximum_changed_blocks {
        passed()
    } else {
        let mut reason = u64_to_string(changed_blocks as u64);
        reason.append(" changed blocks exceeds contract maximum ");
        reason.append(u64_to_string(contract.maximum_changed_blocks as u64).as_str());
        proof {
            reveal_strlit(" changed blocks exceeds contract maximum ");
        }
        failed_code("mutation_limit_exceeded", reason)
    }
}

/// Assesses a candidate macro against a contract: logic from the
/// steady-state report, timing and pulses from the transition report,
/// analog strength from its own verification, the boundary from the
/// structural report, and the size of the change.
pub fn assess_macro_contract(
    contract: OptimizationContract,
    structural: &MacroStructuralReport,
    steady: Option<&MacroSteadyStateReport>,
    transitions: Option<&MacroTransitionReport>,
    changed_blocks: usize,
    analog_strength_verified: Option<bool>,
) -> (r: OptimizationContractAssessment)
    ensures
        logical_check(
            match steady {
                Some(s) => Some(*s),
                None => None,
            },
            r.logical,
        ),
        timing_check(
            contract.timing,
            match transitions {
                Some(t) => Some(*t),
                None => None,
            },
            r.timing,
        ),
        pulse_check(
            contract.pulse,
            match transitions {
                Some(t) => Some(*t),
                None => None,
            },
            r.pulse,
        ),
        analog_check(contract.analog, analog_strength_verified, r.analog),
        structural.spec_valid() ==> is_passed(r.boundary),
        !structural.spec_valid() ==> is_check(
            r.boundary,
            ContractCheckState::Failed,
            "boundary_structure_invalid"@,
            "structural or boundary validation failed"@,
        ),
        mutation_check(contract.mutation, changed_blocks, r.mutation),
{
    let logical = assess_logical(steady);
    let timing = assess_timing(contract.timing, transitions);
    let pulse = assess_pulses(contract.pulse, transitions);
    let analog = assess_analog(contract.analog, analog_strength_verified);
    let boundary = if structural.valid() {
        passed()
    } else {
        failed_code("boundary_structure_invalid", "structural or boundary validation failed".to_string())
    };
    let mutation = assess_mutation(contract.mutation, changed_blocks);
    OptimizationContractAssessment { logical, timing, pulse, analog, boundary, mutation }
}

/// The report lacks usable transition evidence: there is none, it is
/// still pending, or it holds no case.
pub open spec fn lacks_transition_evidence(transitions: Option<MacroTransitionReport>) -> bool {
    match transitions {
        None => true,
        Some(rep) => rep.state == ContextualVerificationState::Pending || rep.cases@.len() == 0,
    }
}

/// Missing transition evidence is reported as unavailable, never as
/// passed: neither the timing nor the pulse part of a contract passes, so
/// no assessment built on such a report is satisfied.
pub proof fn law_missing_transition_evidence_is_unavailable(
    contract: OptimizationContract,
    transitions: Option<MacroTransitionReport>,
    assessment: OptimizationContractAssessment,
)
    requires
        lacks_transition_evidence(transitions),
        timing_check(contract.timing, transitions, assessment.timing),
        pulse_check(contract.pulse, transitions, assessment.pulse),
    ensures
        assessment.timing.state == ContractCheckState::Unavailable,
        assessment.pulse.state == ContractCheckState::Unavailable,
        !assessment.spec_satisfied(),
{
}

} // verus!
