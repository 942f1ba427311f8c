//! Physical wire optimization: the result and error types, the search
//! budget, and the two-phase selection of scores (local density first,
//! global recovery second).

use vstd::prelude::*;

use crate::physical::patch::PhysicalPatch;
use crate::world::Pos;

verus! {

#[derive(Clone, Debug, PartialEq, Eq)]
pub struct PhysicalWireOptimization {
    pub patch: PhysicalPatch,
    pub wire_blocks_before: usize,
    pub wire_blocks_after: usize,
    pub path_length_before: usize,
    pub path_length_after: usize,
    pub fixed_endpoints: [Pos; 2],
    pub phases: Vec<PhysicalOptimizationPhase>,
    pub search: PhysicalOptimizationSearchStats,
}

#[derive(Clone, Copy, Debug, PartialEq, Eq, Structural)]
pub struct PhysicalOptimizationSearchBudget {
    pub max_expansions: usize,
    pub max_candidates: usize,
    pub max_millis: u64,
}

impl Default for PhysicalOptimizationSearchBudget {
    fn default() -> (r: PhysicalOptimizationSearchBudget)
        ensures
            r == (PhysicalOptimizationSearchBudget { max_expansions: 100_000, max_candidates: 1_024, max_millis: 1_000 }),
    {
        PhysicalOptimizationSearchBudget { max_expansions: 100_000, max_candidates: 1_024, max_millis: 1_000 }
    }
}

#[derive(Clone, Copy, Debug, PartialEq, Eq)]
pub struct PhysicalOptimizationSearchStats {
    pub expansions: usize,
    pub candidates: usize,
    pub truncated: bool,
    pub stop_reason: Option<&'static str>,
}

impl Default for PhysicalOptimizationSearchStats {
    fn default() -> (r: PhysicalOptimizationSearchStats)
        ensures
            r.expansions == 0,
            r.candidates == 0,
            !r.truncated,
            r.stop_reason is None,
    {
        PhysicalOptimizationSearchStats { expansions: 0, candidates: 0, truncated: false, stop_reason: None }
    }
}

/// A layout score; smaller is better, compared field by field in order.
#[derive(Clone, Copy, Debug, PartialEq, Eq, Structural, PartialOrd, Ord)]
pub struct PhasedPhysicalScore {
    pub bounding_volume: usize,
    pub occupied_blocks: usize,
    pub connector_length: usize,
}

#[derive(Clone, Copy, Debug, PartialEq, Eq)]
pub struct PhysicalOptimizationPhase {
    pub name: &'static str,
    pub before: PhasedPhysicalScore,
    pub after: PhasedPhysicalScore,
    pub accepted: bool,
    pub connector_growth: usize,
}

#[derive(Clone, Copy, Debug, PartialEq, Eq, Structural)]
pub struct PhasedPhysicalSelection {
    pub local_density: PhasedPhysicalScore,
    pub final_global: PhasedPhysicalScore,
}

#[derive(Clone, Copy, Debug, PartialEq, Eq, Structural)]
pub enum PhysicalWireOptimizationError {
    NoWirePath,
    NotSimplePath,
    DifferentHeights,
    NoShorterRoute,
    UnsupportedRoute,
    RouteWouldCreateAdjacency,
    NoStrengthPreservingRoute,
}

/// `a` scores strictly better than `b`: smaller bounding volume, then fewer
/// occupied blocks, then a shorter connector.
pub open spec fn score_lt(a: PhasedPhysicalScore, b: PhasedPhysicalScore) -> bool {
    a.bounding_volume < b.bounding_volume || (a.bounding_volume == b.bounding_volume && (a.occupied_blocks
        < b.occupied_blocks || (a.occupied_blocks == b.occupied_blocks && a.connector_length
        < b.connector_length)))
}

fn better(a: PhasedPhysicalScore, b: PhasedPhysicalScore) -> (r: bool)
    ensures
        r == score_lt(a, b),
{
    a.bounding_volume < b.bounding_volume || (a.bounding_volume == b.bounding_volume && (a.occupied_blocks
        < b.occupied_blocks || (a.occupied_blocks == b.occupied_blocks && a.connector_length
        < b.connector_length)))
}

/// A local move may spend connector length up to the growth budget,
/// saturated at `usize::MAX`.
pub open spec fn within_growth(baseline: PhasedPhysicalScore, budget: usize, s: PhasedPhysicalScore) -> bool {
    s.connector_length <= if baseline.connector_length + budget > usize::MAX {
        usize::MAX as int
    } else {
        baseline.connector_length + budget
    }
}

/// `m` is the best of the candidates that are local moves within budget.
pub open spec fn best_local(c: Seq<PhasedPhysicalScore>, baseline: PhasedPhysicalScore, budget: usize, m: PhasedPhysicalScore) -> bool {
    &&& c.contains(m)
    &&& within_growth(baseline, budget, m)
    &&& forall|x: PhasedPhysicalScore| c.contains(x) && within_growth(baseline, budget, x) ==> !score_lt(x, m)
}

/// `m` is the best of the candidates that beat the baseline.
pub open spec fn best_global(c: Seq<PhasedPhysicalScore>, baseline: PhasedPhysicalScore, m: PhasedPhysicalScore) -> bool {
    &&& c.contains(m)
    &&& score_lt(m, baseline)
    &&& forall|x: PhasedPhysicalScore| c.contains(x) && score_lt(x, baseline) ==> !score_lt(x, m)
}

fn best_within(candidates: &Vec<PhasedPhysicalScore>, baseline: PhasedPhysicalScore, budget: usize) -> (r: Option<
    PhasedPhysicalScore,
>)
    ensures
        r is None <==> forall|x: PhasedPhysicalScore| candidates@.contains(x) ==> !within_growth(baseline, budget, x),
        r matches Some(m) ==> best_local(candidates@, baseline, budget, m),
{
    let limit = baseline.connector_length.saturating_add(budget);
    let mut best: Option<PhasedPhysicalScore> = None;
    let n = candidates.len();
    let mut i: usize = 0;
    while i < n
        invariant
            n == candidates@.len(),
            i <= n,
            limit == (if baseline.connector_length + budget > usize::MAX {
                usize::MAX as int
            } else {
                baseline.connector_length + budget
            }),
            best is None ==> forall|j: int| 0 <= j < i ==> !within_growth(baseline, budget, #[trigger] candidates@[j]),
            best matches Some(m) ==> candidates@.contains(m) && within_growth(baseline, budget, m) && forall|j: int|
                0 <= j < i && within_growth(baseline, budget, #[trigger] candidates@[j]) ==> !score_lt(candidates@[j], m),
        decreases n - i,
    {
        let s = candidates[i];
        if s.connector_length <= limit {
            match best {
                Some(m) => {
                    if better(s, m) {
                        best = Some(s);
                    }
                },
                None => {
                    best = Some(s);
                },
            }
        }
        i = i + 1;
    }
    best
}

fn best_below(candidates: &Vec<PhasedPhysicalScore>, baseline: PhasedPhysicalScore) -> (r: Option<PhasedPhysicalScore>)
    ensures
        r is None <==> forall|x: PhasedPhysicalScore| candidates@.contains(x) ==> !score_lt(x, baseline),
        r matches Some(m) ==> best_global(candidates@, baseline, m),
{
    let mut best: Option<PhasedPhysicalScore> = None;
    let n = candidates.len();
    let mut i: usize = 0;
    while i < n
        invariant
            n == candidates@.len(),
            i <= n,
            best is None ==> forall|j: int| 0 <= j < i ==> !score_lt(#[trigger] candidates@[j], baseline),
            best matches Some(m) ==> candidates@.contains(m) && score_lt(m, baseline) && forall|j: int|
                0 <= j < i && score_lt(#[trigger] candidates@[j], baseline) ==> !score_lt(candidates@[j], m),
        decreases n - i,
    {
        let s = candidates[i];
        if better(s, baseline) {
            match best {
                Some(m) => {
                    if better(s, m) {
                        best = Some(s);
                    }
                },
                None => {
                    best = Some(s);
                },
            }
        }
        i = i + 1;
    }
    best
}

/// Selects a two-phase improvement: the densest local move whose connector
/// grows by at most `connector_growth_budget`, and the best final layout
/// that strictly beats the baseline. Both phases must find one.
pub fn select_phased_physical_scores(
    baseline: PhasedPhysicalScore,
    local_candidates: Vec<PhasedPhysicalScore>,
    final_candidates: Vec<PhasedPhysicalScore>,
    connector_growth_budget: usize,
) -> (r: Option<PhasedPhysicalSelection>)
    ensures
        r is None <==> (forall|x: PhasedPhysicalScore|
            local_candidates@.contains(x) ==> !within_growth(baseline, connector_growth_budget, x)) || (forall|
            x: PhasedPhysicalScore,
        | final_candidates@.contains(x) ==> !score_lt(x, baseline)),
        r matches Some(s) ==> best_local(local_candidates@, baseline, connector_growth_budget, s.local_density)
            && best_global(final_candidates@, baseline, s.final_global),
{
    let local_density = match best_within(&local_candidates, baseline, connector_growth_budget) {
        Some(m) => m,
        None => {
            return None;
        },
    };
    let final_global = match best_below(&final_candidates, baseline) {
        Some(m) => m,
        None => {
            return None;
        },
    };
    Some(PhasedPhysicalSelection { local_density, final_global })
}

} // verus!
