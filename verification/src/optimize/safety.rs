//! The safety gate of an optimization: which verified candidates may be
//! applied automatically, which may only be previewed, and which are
//! rejected, with the reasons.

use vstd::prelude::*;

use crate::optimize::contract::sufficient;
use crate::optimize::macro_realize::TruthTableComparison;
use crate::physical::patch::PhysicalPatch;
use crate::physical::temporal::{strength, strength_of, TemporalAssessment, TemporalRequirement};
use crate::world::{pos_lt, Pos};

verus! {

#[derive(Clone, Copy, Debug, PartialEq, Eq, Structural)]
pub struct TemporalCapabilities {
    pub maximum_verified: TemporalRequirement,
}

impl TemporalCapabilities {
    /// Current safe capability: steady-state circuits and circuits whose
    /// final result only requires ordered immediate updates. Scheduled ticks
    /// and block events remain preview-only.
    pub fn current() -> (r: TemporalCapabilities)
        ensures
            r.maximum_verified == TemporalRequirement::OrderedUpdates,
    {
        TemporalCapabilities { maximum_verified: TemporalRequirement::OrderedUpdates }
    }

    /// The requirement is supported and no stronger than what is verified.
    pub open spec fn spec_supports(self, requirement: TemporalRequirement) -> bool {
        requirement != TemporalRequirement::Unsupported && strength(requirement) <= strength(self.maximum_verified)
    }

    pub fn supports(self, requirement: TemporalRequirement) -> (r: bool)
        ensures
            r == self.spec_supports(requirement),
    {
        requirement != TemporalRequirement::Unsupported && strength_of(requirement) <= strength_of(
            self.maximum_verified,
        )
    }
}

#[derive(Clone, Debug, PartialEq, Eq)]
pub enum OptimizationSafetyReason {
    LogicalTopologyChanged,
    BehavioralMismatch,
    BehavioralVerificationUnavailable(String),
    InvalidPhysicalSupport,
    IncompleteObservation,
    InsufficientBehavioralEvidence,
    UnsupportedObservedPhysics { blocks: Vec<Pos> },
    TemporalModelUnavailable { required: TemporalRequirement, available: TemporalRequirement },
}

#[derive(Clone, Debug, PartialEq, Eq)]
pub enum OptimizationSafety {
    Verified { temporal: TemporalAssessment },
    PreviewOnly { temporal: TemporalAssessment, reasons: Vec<OptimizationSafetyReason> },
    Rejected { temporal: TemporalAssessment, reasons: Vec<OptimizationSafetyReason> },
}

impl OptimizationSafety {
    /// Only a verified optimization may be applied automatically.
    pub fn permits_automatic_apply(&self) -> (r: bool)
        ensures
            r == (*self is Verified),
    {
        match self {
            OptimizationSafety::Verified { .. } => true,
            _ => false,
        }
    }
}

/// An optimization prepared for review: the patch it would apply and the
/// safety verdict that decides whether it may be applied automatically.
/// The behavioural verification report behind the verdict stays with the
/// code that produced it.
#[derive(Clone, Debug, PartialEq)]
pub struct GuardedOptimizationCandidate {
    patch: PhysicalPatch,
    safety: OptimizationSafety,
}

impl GuardedOptimizationCandidate {
    /// The patch the candidate would apply.
    pub closed spec fn patch_of(&self) -> PhysicalPatch {
        self.patch
    }

    /// The candidate's safety verdict.
    pub closed spec fn verdict(&self) -> OptimizationSafety {
        self.safety
    }

    pub fn new(patch: PhysicalPatch, safety: OptimizationSafety) -> (r: GuardedOptimizationCandidate)
        ensures
            r.patch_of() == patch,
            r.verdict() == safety,
    {
        GuardedOptimizationCandidate { patch, safety }
    }

    /// The patch, for preview whatever the verdict.
    pub fn preview_patch(&self) -> (r: &PhysicalPatch)
        ensures
            *r == self.patch_of(),
    {
        &self.patch
    }

    /// The patch, only when the verdict permits applying it automatically.
    pub fn automatic_patch(&self) -> (r: Option<&PhysicalPatch>)
        ensures
            r is Some <==> self.verdict() is Verified,
            r matches Some(p) ==> *p == self.patch_of(),
    {
        if self.safety.permits_automatic_apply() {
            Some(&self.patch)
        } else {
            None
        }
    }

    pub fn safety(&self) -> (r: &OptimizationSafety)
        ensures
            *r == self.verdict(),
    {
        &self.safety
    }
}

#[derive(Clone, Copy, Debug, PartialEq, Eq, Structural)]
pub struct BehavioralVerificationConfig {
    pub max_inputs: usize,
    pub settle_ticks: usize,
    pub bounds_margin: i32,
}

impl Default for BehavioralVerificationConfig {
    fn default() -> (r: BehavioralVerificationConfig)
        ensures
            r == (BehavioralVerificationConfig { max_inputs: 8, settle_ticks: 8, bounds_margin: 2 }),
    {
        BehavioralVerificationConfig { max_inputs: 8, settle_ticks: 8, bounds_margin: 2 }
    }
}

/// What behavioural verification of an optimization found.
#[derive(Clone, Debug, PartialEq, Eq)]
pub enum BehavioralEquivalence {
    Verified(TruthTableComparison),
    Mismatch(TruthTableComparison),
    Unavailable(String),
}

/// Strictly increasing in world order.
pub open spec fn positions_sorted(s: Seq<Pos>) -> bool {
    forall|i: int, j: int| 0 <= i < j < s.len() ==> pos_lt(#[trigger] s[i], #[trigger] s[j])
}

/// Inserts `p` into a strictly increasing position list unless it is
/// present.
#[verifier::spinoff_prover]
fn insert_pos(out: &mut Vec<Pos>, p: Pos)
    requires
        positions_sorted(old(out)@),
    ensures
        positions_sorted(final(out)@),
        forall|x: Pos| final(out)@.contains(x) <==> (old(out)@.contains(x) || x == p),
{
    let n = out.len();
    let mut k: usize = 0;
    while k < n && out[k].precedes(p)
        invariant
            n == out@.len(),
            k <= n,
            positions_sorted(out@),
            forall|j: int| 0 <= j < k ==> pos_lt(#[trigger] out@[j], p),
        decreases n - k,
    {
        k = k + 1;
    }
    if k < n && out[k] == p {
        return;
    }
    proof {
        if k < n {
            assert(!pos_lt(out@[k as int], p));
            assert(out@[k as int] != p);
            assert(pos_lt(p, out@[k as int]));
        }
    }
    let ghost before = out@;
    out.insert(k, p);
    proof {
        assert forall|i: int, j: int| 0 <= i < j < out@.len() implies pos_lt(#[trigger] out@[i], #[trigger] out@[j]) by {
            if j < k {
            } else if i < k && j == k {
            } else if i < k {
                assert(out@[j] == before[j - 1]);
            } else if i == k {
                assert(out@[j] == before[j - 1]);
                if j - 1 > k {
                    assert(pos_lt(before[k as int], before[j - 1]));
                }
            } else {
                assert(out@[i] == before[i - 1]);
                assert(out@[j] == before[j - 1]);
            }
        }
        assert forall|x: Pos| out@.contains(x) <==> (before.contains(x) || x == p) by {
            if out@.contains(x) {
                let i = choose|i: int| 0 <= i < out@.len() && #[trigger] out@[i] == x;
                if i < k {
                    assert(before[i] == x);
                } else if i > k {
                    assert(before[i - 1] == x);
                }
            }
            if before.contains(x) {
                let i = choose|i: int| 0 <= i < before.len() && #[trigger] before[i] == x;
                if i < k {
                    assert(out@[i] == x);
                } else {
                    assert(out@[i + 1] == x);
                }
            }
            if x == p {
                assert(out@[k as int] == p);
            }
        }
    }
    assert(forall|x: Pos| #[trigger] out@.contains(x) <==> (old(out)@.contains(x) || x == p));
}

/// The positions of two lists, sorted and without repeats.
fn sorted_union(a: &Vec<Pos>, b: &Vec<Pos>) -> (r: Vec<Pos>)
    ensures
        positions_sorted(r@),
        forall|x: Pos| r@.contains(x) <==> (a@.contains(x) || b@.contains(x)),
{
    let mut out: Vec<Pos> = Vec::new();
    let n = a.len();
    let mut i: usize = 0;
    while i < n
        invariant
            n == a@.len(),
            i <= n,
            positions_sorted(out@),
            forall|x: Pos| out@.contains(x) <==> a@.take(i as int).contains(x),
        decreases n - i,
    {
        insert_pos(&mut out, a[i]);
        proof {
            assert forall|x: Pos| out@.contains(x) <==> a@.take(i + 1).contains(x) by {
                if a@.take(i + 1).contains(x) {
                    let j = choose|j: int| 0 <= j < a@.take(i + 1).len() && #[trigger] a@.take(i + 1)[j] == x;
                    if j < i {
                        assert(a@.take(i as int)[j] == x);
                    }
                }
                if a@.take(i as int).contains(x) {
                    let j = choose|j: int| 0 <= j < a@.take(i as int).len() && #[trigger] a@.take(i as int)[j] == x;
                    assert(a@.take(i + 1)[j] == x);
                }
                if x == a@[i as int] {
                    assert(a@.take(i + 1)[i as int] == x);
                }
            }
        }
        i = i + 1;
    }
    assert(a@.take(n as int) =~= a@);
    let m = b.len();
    let mut j: usize = 0;
    while j < m
        invariant
            m == b@.len(),
            j <= m,
            positions_sorted(out@),
            forall|x: Pos| out@.contains(x) <==> (a@.contains(x) || b@.take(j as int).contains(x)),
        decreases m - j,
    {
        insert_pos(&mut out, b[j]);
        proof {
            assert forall|x: Pos| out@.contains(x) <==> (a@.contains(x) || b@.take(j + 1).contains(x)) by {
                if b@.take(j + 1).contains(x) {
                    let k = choose|k: int| 0 <= k < b@.take(j + 1).len() && #[trigger] b@.take(j + 1)[k] == x;
                    if k < j {
                        assert(b@.take(j as int)[k] == x);
                    }
                }
                if b@.take(j as int).contains(x) {
                    let k = choose|k: int| 0 <= k < b@.take(j as int).len() && #[trigger] b@.take(j as int)[k] == x;
                    assert(b@.take(j + 1)[k] == x);
                }
                if x == b@[j as int] {
                    assert(b@.take(j + 1)[j as int] == x);
                }
            }
        }
        j = j + 1;
    }
    assert(b@.take(m as int) =~= b@);
    out
}

/// A number for each kind of reason, in declaration order.
pub open spec fn reason_code(r: OptimizationSafetyReason) -> int {
    match r {
        OptimizationSafetyReason::LogicalTopologyChanged => 0,
        OptimizationSafetyReason::BehavioralMismatch => 1,
        OptimizationSafetyReason::BehavioralVerificationUnavailable(_) => 2,
        OptimizationSafetyReason::InvalidPhysicalSupport => 3,
        OptimizationSafetyReason::IncompleteObservation => 4,
        OptimizationSafetyReason::InsufficientBehavioralEvidence => 5,
        OptimizationSafetyReason::UnsupportedObservedPhysics { .. } => 6,
        OptimizationSafetyReason::TemporalModelUnavailable { .. } => 7,
    }
}

/// `s` is `s0` followed by `code` when `cond` holds.
pub open spec fn then_if(s0: Seq<int>, cond: bool, code: int) -> Seq<int> {
    if cond {
        s0.push(code)
    } else {
        s0
    }
}

/// The kinds of the reasons that reject an optimization, in order.
pub open spec fn rejection_codes(
    topology_preserved: bool,
    behavior: BehavioralEquivalence,
    any_unsupported: bool,
    invalid_supports: bool,
    temporal: TemporalAssessment,
) -> Seq<int> {
    let a = then_if(Seq::empty(), !topology_preserved, 0);
    let b = then_if(a, behavior is Mismatch, 1);
    let c = then_if(b, behavior matches BehavioralEquivalence::Verified(cmp) && !sufficient(cmp), 5);
    let d = then_if(c, any_unsupported, 6);
    let e = then_if(d, invalid_supports, 3);
    then_if(e, temporal.requirement == TemporalRequirement::Unsupported, 4)
}

/// The kinds of the reasons that hold an optimization back to a preview,
/// in order.
pub open spec fn preview_codes(
    behavior: BehavioralEquivalence,
    temporal: TemporalAssessment,
    capabilities: TemporalCapabilities,
) -> Seq<int> {
    let a = then_if(Seq::empty(), behavior is Unavailable, 2);
    then_if(a, !capabilities.spec_supports(temporal.requirement), 7)
}

/// The payloads of the reasons: the unsupported blocks of either analysis,
/// sorted; the reason behavioural verification gave; the temporal need and
/// what is verified.
pub open spec fn reasons_carry(
    reasons: Seq<OptimizationSafetyReason>,
    behavior: BehavioralEquivalence,
    original_unsupported: Seq<Pos>,
    optimized_unsupported: Seq<Pos>,
    temporal: TemporalAssessment,
    capabilities: TemporalCapabilities,
) -> bool {
    forall|k: int|
        0 <= k < reasons.len() ==> match #[trigger] reasons[k] {
            OptimizationSafetyReason::UnsupportedObservedPhysics { blocks } => positions_sorted(blocks@) && forall|
                x: Pos,
            | blocks@.contains(x) <==> (original_unsupported.contains(x) || optimized_unsupported.contains(x)),
            OptimizationSafetyReason::BehavioralVerificationUnavailable(s) => behavior matches BehavioralEquivalence::Unavailable(
                t,
            ) && s@ == t@,
            OptimizationSafetyReason::TemporalModelUnavailable { required, available } => required
                == temporal.requirement && available == capabilities.maximum_verified,
            _ => true,
        }
}

/// Decides whether an optimization may be applied automatically. It is
/// rejected when its logical topology changed, its behaviour differs, the
/// behavioural evidence binds no input or output, either analysis met
/// unsupported physics, a support is invalid, or the observation is
/// incomplete. Otherwise it is only previewed when behaviour could not be
/// verified or its temporal need exceeds what is verified; else it is
/// verified.
pub fn assess_optimization_safety(
    topology_preserved: bool,
    behavior: &BehavioralEquivalence,
    original_unsupported: &Vec<Pos>,
    optimized_unsupported: &Vec<Pos>,
    invalid_supports: bool,
    temporal: TemporalAssessment,
    capabilities: TemporalCapabilities,
) -> (r: OptimizationSafety)
    ensures
        ({
            let rejected = rejection_codes(
                topology_preserved,
                *behavior,
                original_unsupported@.len() > 0 || optimized_unsupported@.len() > 0,
                invalid_supports,
                temporal,
            );
            let preview = preview_codes(*behavior, temporal, capabilities);
            match r {
                OptimizationSafety::Rejected { temporal: t, reasons } => {
                    &&& rejected.len() > 0
                    &&& t == temporal
                    &&& reasons@.map_values(|x: OptimizationSafetyReason| reason_code(x)) == rejected
                    &&& reasons_carry(reasons@, *behavior, original_unsupported@, optimized_unsupported@, temporal, capabilities)
                },
                OptimizationSafety::PreviewOnly { temporal: t, reasons } => {
                    &&& rejected.len() == 0
                    &&& preview.len() > 0
                    &&& t == temporal
                    &&& reasons@.map_values(|x: OptimizationSafetyReason| reason_code(x)) == preview
                    &&& reasons_carry(reasons@, *behavior, original_unsupported@, optimized_unsupported@, temporal, capabilities)
                },
                OptimizationSafety::Verified { temporal: t } => rejected.len() == 0 && preview.len() == 0 && t == temporal,
            }
        }),
{
    let ghost carry = |rs: Seq<OptimizationSafetyReason>|
        reasons_carry(rs, *behavior, original_unsupported@, optimized_unsupported@, temporal, capabilities);
    let mut rejected: Vec<OptimizationSafetyReason> = Vec::new();
    if !topology_preserved {
        rejected.push(OptimizationSafetyReason::LogicalTopologyChanged);
    }
    let mismatch = match behavior {
        BehavioralEquivalence::Mismatch(_) => true,
        _ => false,
    };
    if mismatch {
        rejected.push(OptimizationSafetyReason::BehavioralMismatch);
    }
    let insufficient = match behavior {
        BehavioralEquivalence::Verified(c) => !crate::optimize::contract::sufficient_comparison(c),
        _ => false,
    };
    if insufficient {
        rejected.push(OptimizationSafetyReason::InsufficientBehavioralEvidence);
    }
    proof {
        assert(rejected@.map_values(|x: OptimizationSafetyReason| reason_code(x)) =~= then_if(
            then_if(then_if(Seq::empty(), !topology_preserved, 0), behavior is Mismatch, 1),
            insufficient,
            5,
        ));
        assert(carry(rejected@));
    }
    let ghost stage = rejected@;
    if original_unsupported.len() > 0 || optimized_unsupported.len() > 0 {
        let blocks = sorted_union(original_unsupported, optimized_unsupported);
        rejected.push(OptimizationSafetyReason::UnsupportedObservedPhysics { blocks });
        proof {
            assert forall|k: int| 0 <= k < rejected@.len() implies match #[trigger] rejected@[k] {
                OptimizationSafetyReason::UnsupportedObservedPhysics { blocks } => positions_sorted(blocks@) && forall|
                    x: Pos,
                | blocks@.contains(x) <==> (original_unsupported@.contains(x) || optimized_unsupported@.contains(x)),
                OptimizationSafetyReason::BehavioralVerificationUnavailable(s) => behavior matches BehavioralEquivalence::Unavailable(
                    t,
                ) && s@ == t@,
                OptimizationSafetyReason::TemporalModelUnavailable { required, available } => required
                    == temporal.requirement && available == capabilities.maximum_verified,
                _ => true,
            } by {
                if k < stage.len() {
                    assert(rejected@[k] == stage[k]);
                }
            }
        }
    }
    if invalid_supports {
        rejected.push(OptimizationSafetyReason::InvalidPhysicalSupport);
    }
    if temporal.requirement == TemporalRequirement::Unsupported {
        rejected.push(OptimizationSafetyReason::IncompleteObservation);
    }
    proof {
        let any = original_unsupported@.len() > 0 || optimized_unsupported@.len() > 0;
        assert(rejected@.map_values(|x: OptimizationSafetyReason| reason_code(x)) =~= rejection_codes(
            topology_preserved,
            *behavior,
            any,
            invalid_supports,
            temporal,
        ));
    }
    if rejected.len() > 0 {
        return OptimizationSafety::Rejected { temporal, reasons: rejected };
    }
    let mut preview: Vec<OptimizationSafetyReason> = Vec::new();
    match behavior {
        BehavioralEquivalence::Unavailable(reason) => {
            preview.push(OptimizationSafetyReason::BehavioralVerificationUnavailable(reason.clone()));
        },
        _ => {},
    }
    if !capabilities.supports(temporal.requirement) {
        preview.push(
            OptimizationSafetyReason::TemporalModelUnavailable {
                required: temporal.requirement,
                available: capabilities.maximum_verified,
            },
        );
    }
    proof {
        assert(preview@.map_values(|x: OptimizationSafetyReason| reason_code(x)) =~= preview_codes(
            *behavior,
            temporal,
            capabilities,
        ));
    }
    if preview.len() == 0 {
        OptimizationSafety::Verified { temporal }
    } else {
        OptimizationSafety::PreviewOnly { temporal, reasons: preview }
    }
}

/// An optimization whose observation is incomplete, whose logical topology
/// changed, or whose behaviour differs is rejected, whatever else holds,
/// and so is never applied automatically.
pub proof fn law_unsafe_candidates_are_rejected(
    topology_preserved: bool,
    behavior: BehavioralEquivalence,
    original_unsupported: Seq<Pos>,
    optimized_unsupported: Seq<Pos>,
    invalid_supports: bool,
    temporal: TemporalAssessment,
)
    requires
        !topology_preserved || behavior is Mismatch || temporal.requirement == TemporalRequirement::Unsupported
            || original_unsupported.len() > 0 || optimized_unsupported.len() > 0 || invalid_supports,
    ensures
        rejection_codes(
            topology_preserved,
            behavior,
            original_unsupported.len() > 0 || optimized_unsupported.len() > 0,
            invalid_supports,
            temporal,
        ).len() > 0,
{
}

} // verus!
