//! Reversible physical patches: captured before and after blocks, their
//! inverse, and their application to a copy of an observed world.

use vstd::prelude::*;

use crate::delta::{before_matches, same_opt_block};
use crate::physical::circuit::{FragmentId, GapEvidence};
use crate::physical::temporal::TemporalRequirement;
use crate::world::{lemma_same_block_sym, lemma_same_block_trans, same_block, Block, BlockKind, Pos, World};

verus! {

#[derive(Clone, Debug, PartialEq, Eq)]
pub struct PhysicalBlockChange {
    pub pos: Pos,
    pub before: Block,
    pub after: Block,
}

#[derive(Clone, Copy, Debug, PartialEq, Eq, Structural)]
pub enum PhysicalPatchReason {
    ConnectMissingWire,
    InsertDirectionalComponent,
    RestoreComponentSupport,
    ReorientDirectionalComponent,
    RemoveUnexpectedConnection,
    OptimizePlacement,
}

/// Compatibility name for repair-specific callers. New generic patch APIs
/// should use [`PhysicalPatchReason`].
pub type RepairReason = PhysicalPatchReason;

#[derive(Clone, Debug, PartialEq, Eq)]
pub struct PhysicalPatch {
    pub reason: PhysicalPatchReason,
    pub affected_fragments: Vec<FragmentId>,
    /// Confidence in percent. This is evidence strength, not a guarantee of
    /// user intent.
    pub confidence_percent: u8,
    pub explanation: String,
    pub changes: Vec<PhysicalBlockChange>,
}

#[derive(Clone, Debug, PartialEq, Eq)]
pub struct RepairProposal {
    pub patch: PhysicalPatch,
    pub evidence: Vec<GapEvidence>,
    pub impact: Option<RepairImpact>,
}

#[derive(Clone, Copy, Debug, PartialEq, Eq, Structural)]
pub struct RepairImpact {
    /// Compatibility metric for undirected discovery grouping.
    pub fragments_before: usize,
    /// Compatibility metric for undirected discovery grouping.
    pub fragments_after: usize,
    pub invalid_supports_before: usize,
    pub invalid_supports_after: usize,
    pub undriven_required_inputs_before: usize,
    pub undriven_required_inputs_after: usize,
    pub external_input_waiting_before: usize,
    pub external_input_waiting_after: usize,
    pub drive_reachable_components_before: usize,
    pub drive_reachable_components_after: usize,
    pub instantaneous_solve_converged_before: bool,
    pub instantaneous_solve_converged_after: bool,
    pub energized_positions_before: usize,
    pub energized_positions_after: usize,
    pub temporal_requirement_after: TemporalRequirement,
    pub requires_temporal_validation: bool,
}

/// A repair improves the circuit: it keeps a converged solve converged, makes
/// no support, drive or reachability metric worse, and makes one better or
/// joins fragments.
pub open spec fn spec_improves(i: RepairImpact) -> bool {
    &&& (!i.instantaneous_solve_converged_before || i.instantaneous_solve_converged_after)
    &&& i.invalid_supports_after <= i.invalid_supports_before
    &&& i.undriven_required_inputs_after <= i.undriven_required_inputs_before
    &&& i.drive_reachable_components_after >= i.drive_reachable_components_before
    &&& (i.fragments_after < i.fragments_before || i.invalid_supports_after < i.invalid_supports_before
        || i.undriven_required_inputs_after < i.undriven_required_inputs_before
        || i.drive_reachable_components_after > i.drive_reachable_components_before)
}

impl RepairImpact {
    pub fn improves(self) -> (r: bool)
        ensures
            r == spec_improves(self),
    {
        (!self.instantaneous_solve_converged_before || self.instantaneous_solve_converged_after)
            && self.invalid_supports_after <= self.invalid_supports_before
            && self.undriven_required_inputs_after <= self.undriven_required_inputs_before
            && self.drive_reachable_components_after >= self.drive_reachable_components_before
            && (self.fragments_after < self.fragments_before || self.invalid_supports_after
            < self.invalid_supports_before || self.undriven_required_inputs_after
            < self.undriven_required_inputs_before || self.drive_reachable_components_after
            > self.drive_reachable_components_before)
    }
}

/// `b` is `a` with before and after swapped, holding the same data.
pub open spec fn swapped(a: PhysicalBlockChange, b: PhysicalBlockChange) -> bool {
    b.pos == a.pos && same_block(b.before, a.after) && same_block(b.after, a.before)
}

/// The change at index `k` is the last one at `q`.
pub open spec fn last_change_at(cs: Seq<PhysicalBlockChange>, q: Pos, k: int) -> bool {
    &&& 0 <= k < cs.len()
    &&& cs[k].pos == q
    &&& forall|j: int| k < j < cs.len() ==> (#[trigger] cs[j]).pos != q
}

/// What a world holds at `q` after the changes `cs` are written in order
/// over `before`: the last change at `q` decides, Air meaning absent.
pub open spec fn patched_at(before: Option<Block>, cs: Seq<PhysicalBlockChange>, q: Pos, now: Option<Block>) -> bool {
    &&& forall|k: int| #[trigger] last_change_at(cs, q, k) ==> if cs[k].after.kind is Air {
        now is None
    } else {
        now matches Some(b) && same_block(b, cs[k].after)
    }
    &&& (forall|k: int| 0 <= k < cs.len() ==> (#[trigger] cs[k]).pos != q) ==> same_opt_block(now, before)
}

/// The first change whose captured before-block `w` no longer holds.
pub open spec fn first_stale(w: World, cs: Seq<PhysicalBlockChange>, k: int) -> bool {
    &&& 0 <= k < cs.len()
    &&& !before_matches(w, cs[k].pos, cs[k].before)
    &&& forall|j: int| 0 <= j < k ==> before_matches(w, (#[trigger] cs[j]).pos, cs[j].before)
}

impl PhysicalPatch {
    /// The patch that undoes this one: each change with before and after
    /// swapped, full confidence, and the explanation marked as an undo.
    pub fn inverse(&self) -> (r: PhysicalPatch)
        ensures
            r.reason == self.reason,
            r.affected_fragments@ == self.affected_fragments@,
            r.confidence_percent == 100,
            r.explanation@ == "undo: "@ + self.explanation@,
            r.changes@.len() == self.changes@.len(),
            forall|k: int| 0 <= k < r.changes@.len() ==> swapped(self.changes@[k], #[trigger] r.changes@[k]),
    {
        let mut changes: Vec<PhysicalBlockChange> = Vec::new();
        let n = self.changes.len();
        let mut i: usize = 0;
        while i < n
            invariant
                n == self.changes@.len(),
                i <= n,
                changes@.len() == i,
                forall|k: int| 0 <= k < i ==> swapped(self.changes@[k], #[trigger] changes@[k]),
            decreases n - i,
        {
            let c = &self.changes[i];
            changes.push(PhysicalBlockChange { pos: c.pos, before: c.after.copy(), after: c.before.copy() });
            i = i + 1;
        }
        let mut affected: Vec<FragmentId> = Vec::new();
        let m = self.affected_fragments.len();
        let mut j: usize = 0;
        while j < m
            invariant
                m == self.affected_fragments@.len(),
                j <= m,
                affected@ == self.affected_fragments@.take(j as int),
            decreases m - j,
        {
            affected.push(self.affected_fragments[j]);
            proof {
                assert(self.affected_fragments@.take(j + 1) =~= self.affected_fragments@.take(j as int).push(
                    self.affected_fragments@[j as int],
                ));
            }
            j = j + 1;
        }
        proof {
            assert(self.affected_fragments@.take(m as int) =~= self.affected_fragments@);
        }
        let mut explanation = String::new();
        explanation.append("undo: ");
        explanation.append(self.explanation.as_str());
        proof {
            reveal_strlit("undo: ");
        }
        PhysicalPatch { reason: self.reason, affected_fragments: affected, confidence_percent: 100, explanation, changes }
    }

    /// Applies this patch to a copy of `world` without changing `world`.
    /// Every captured before-block must still stand, so that a stale patch
    /// is never evaluated against a different world.
    pub fn apply_virtual(&self, world: &World) -> (r: Result<World, PatchApplyError>)
        requires
            world.wf(),
        ensures
            r is Ok <==> forall|k: int| 0 <= k < self.changes@.len() ==> before_matches(*world, (#[trigger] self.changes@[k]).pos, self.changes@[k].before),
            r matches Err(e) ==> exists|k: int| #[trigger] first_stale(*world, self.changes@, k) && e.position == self.changes@[k].pos
                && same_block(*e.expected, self.changes@[k].before) && match world.block_at(e.position) {
                    Some(b) => same_block(*e.actual, b),
                    None => crate::world::is_fresh_block(*e.actual, BlockKind::Air),
                },
            r matches Ok(w) ==> w.wf() && forall|q: Pos| patched_at(world.block_at(q), self.changes@, q, #[trigger] w.block_at(q)),
    {
        let n = self.changes.len();
        let mut i: usize = 0;
        while i < n
            invariant
                n == self.changes@.len(),
                i <= n,
                world.wf(),
                forall|j: int| 0 <= j < i ==> before_matches(*world, (#[trigger] self.changes@[j]).pos, self.changes@[j].before),
            decreases n - i,
        {
            let change = &self.changes[i];
            let actual = world.block_or_air(change.pos);
            let matches = actual.same_as(&change.before);
            proof {
                match world.block_at(change.pos) {
                    Some(b) => {
                        if same_block(actual, change.before) {
                            lemma_same_block_sym(actual, b);
                            lemma_same_block_trans(b, actual, change.before);
                        }
                        if same_block(b, change.before) {
                            lemma_same_block_trans(actual, b, change.before);
                        }
                    },
                    None => lemma_fresh_air(actual, change.before),
                }
            }
            if !matches {
                proof {
                    assert(first_stale(*world, self.changes@, i as int));
                }
                return Err(
                    PatchApplyError {
                        position: change.pos,
                        expected: Box::new(change.before.copy()),
                        actual: Box::new(actual),
                    },
                );
            }
            i = i + 1;
        }
        let mut result = world.copy();
        proof {
            assert forall|q: Pos| same_opt_block(#[trigger] result.block_at(q), world.block_at(q)) by {
                crate::delta::lemma_copy_lookup(*world, result, q);
            }
        }
        let mut j: usize = 0;
        while j < n
            invariant
                n == self.changes@.len(),
                j <= n,
                result.wf(),
                forall|q: Pos| patched_at(world.block_at(q), self.changes@.take(j as int), q, #[trigger] result.block_at(q)),
            decreases n - j,
        {
            let ghost before = result;
            let c = &self.changes[j];
            result.set(c.pos, c.after.copy());
            proof {
                let t0 = self.changes@.take(j as int);
                let t1 = self.changes@.take(j + 1);
                assert forall|q: Pos| patched_at(world.block_at(q), t1, q, #[trigger] result.block_at(q)) by {
                    assert(patched_at(world.block_at(q), t0, q, before.block_at(q)));
                    if q == c.pos {
                        assert(last_change_at(t1, q, j as int));
                        assert forall|k: int| #[trigger] last_change_at(t1, q, k) implies k == j by {
                            if k < j {
                                assert(t1[j as int].pos == q);
                            }
                        }
                    } else {
                        assert forall|k: int| #[trigger] last_change_at(t1, q, k) implies last_change_at(t0, q, k) by {
                            assert(k != j);
                        }
                        assert((forall|k: int| 0 <= k < t1.len() ==> (#[trigger] t1[k]).pos != q) ==> (forall|k: int| 0 <= k < t0.len() ==> (#[trigger] t0[k]).pos != q)) by {
                            if forall|k: int| 0 <= k < t1.len() ==> (#[trigger] t1[k]).pos != q {
                                assert forall|k: int| 0 <= k < t0.len() implies (#[trigger] t0[k]).pos != q by {
                                    assert(t0[k] == t1[k]);
                                }
                            }
                        }
                        assert forall|k: int| #[trigger] last_change_at(t1, q, k) implies last_change_at(t0, q, k) by {
                            assert(t1[k] == t0[k]);
                            assert forall|i2: int| k < i2 < t0.len() implies (#[trigger] t0[i2]).pos != q by {
                                assert(t0[i2] == t1[i2]);
                            }
                        }
                        if forall|k: int| 0 <= k < t0.len() ==> (#[trigger] t0[k]).pos != q {
                            assert forall|k: int| 0 <= k < t1.len() implies (#[trigger] t1[k]).pos != q by {
                                if k < j {
                                    assert(t1[k] == t0[k]);
                                }
                            }
                        }
                    }
                }
            }
            j = j + 1;
        }
        proof {
            assert(self.changes@.take(n as int) =~= self.changes@);
        }
        Ok(result)
    }
}

proof fn lemma_fresh_air(a: Block, b: Block)
    requires
        crate::world::is_fresh_block(a, BlockKind::Air),
    ensures
        same_block(a, b) <==> crate::world::is_fresh_block(b, BlockKind::Air),
{
    if crate::world::is_fresh_block(b, BlockKind::Air) {
        crate::delta::lemma_fresh_same(a, b, BlockKind::Air);
    }
}

/// A patch whose captured before-block no longer stands.
#[derive(Clone, Debug, PartialEq, Eq)]
pub struct PatchApplyError {
    pub position: Pos,
    pub expected: Box<Block>,
    pub actual: Box<Block>,
}

impl PatchApplyError {
    /// A human-readable description of the error.
    pub fn message(&self) -> (r: String)
        ensures
            r@ == "stale physical patch at "@ + crate::text::pos_to_string_spec(self.position),
    {
        let mut out = String::new();
        out.append("stale physical patch at ");
        out.append(crate::text::pos_to_string(self.position).as_str());
        proof {
            reveal_strlit("stale physical patch at ");
        }
        out
    }
}

/// No two changes touch the same position.
pub open spec fn distinct_positions(cs: Seq<PhysicalBlockChange>) -> bool {
    forall|i: int, j: int| 0 <= i < j < cs.len() ==> (#[trigger] cs[i]).pos != (#[trigger] cs[j]).pos
}

/// Every Air block a change names carries no data: writing it clears the
/// position, and reading the cleared position gives it back.
pub open spec fn plain_air(cs: Seq<PhysicalBlockChange>) -> bool {
    forall|k: int|
        0 <= k < cs.len() ==> ((#[trigger] cs[k]).before.kind is Air ==> crate::world::is_fresh_block(
            cs[k].before,
            BlockKind::Air,
        )) && (cs[k].after.kind is Air ==> crate::world::is_fresh_block(cs[k].after, BlockKind::Air))
}

/// The world stores no Air block: Air is always represented by absence.
pub open spec fn holds_no_air(w: World) -> bool {
    forall|q: Pos| #[trigger] w.block_at(q) matches Some(b) ==> !(b.kind is Air)
}

/// `w1` is `w0` after every change of `cs` was checked and written.
pub open spec fn patched_world(w0: World, cs: Seq<PhysicalBlockChange>, w1: World) -> bool {
    &&& forall|k: int| 0 <= k < cs.len() ==> before_matches(w0, (#[trigger] cs[k]).pos, cs[k].before)
    &&& forall|q: Pos| patched_at(w0.block_at(q), cs, q, #[trigger] w1.block_at(q))
}

/// Undoing a patch restores the exact captured blocks: when a patch with
/// distinct positions and plain Air blocks has been applied to a world,
/// its inverse still matches the patched world, and applying it gives back
/// the original block at every position.
pub proof fn law_inverse_restores(
    changes: Seq<PhysicalBlockChange>,
    inverse: Seq<PhysicalBlockChange>,
    w0: World,
    w1: World,
    w2: World,
)
    requires
        distinct_positions(changes),
        plain_air(changes),
        holds_no_air(w0),
        inverse.len() == changes.len(),
        forall|k: int| 0 <= k < changes.len() ==> swapped(changes[k], #[trigger] inverse[k]),
        patched_world(w0, changes, w1),
    ensures
        forall|k: int| 0 <= k < inverse.len() ==> before_matches(w1, (#[trigger] inverse[k]).pos, inverse[k].before),
        patched_world(w1, inverse, w2) ==> forall|q: Pos| same_opt_block(#[trigger] w2.block_at(q), w0.block_at(q)),
{
    assert forall|k: int| 0 <= k < inverse.len() implies before_matches(w1, (#[trigger] inverse[k]).pos, inverse[k].before) by {
        let q = changes[k].pos;
        assert(last_change_at(changes, q, k));
        assert(patched_at(w0.block_at(q), changes, q, w1.block_at(q)));
        lemma_swapped_blocks(changes[k], inverse[k]);
        assert(swapped(changes[k], inverse[k]));
        match w1.block_at(q) {
            Some(b) => {
                lemma_same_block_trans(b, changes[k].after, inverse[k].before);
            },
            None => {
                assert(changes[k].after.kind is Air);
                assert(crate::world::is_fresh_block(changes[k].after, BlockKind::Air));
                assert(inverse[k].before.observed_properties.pairs() =~= changes[k].after.observed_properties.pairs());
            },
        }
    }
    if patched_world(w1, inverse, w2) {
        assert forall|q: Pos| same_opt_block(#[trigger] w2.block_at(q), w0.block_at(q)) by {
            assert(patched_at(w0.block_at(q), changes, q, w1.block_at(q)));
            assert(patched_at(w1.block_at(q), inverse, q, w2.block_at(q)));
            if exists|k: int| 0 <= k < changes.len() && changes[k].pos == q {
                let k = choose|k: int| 0 <= k < changes.len() && changes[k].pos == q;
                assert(last_change_at(changes, q, k));
                assert(swapped(changes[k], inverse[k]));
                assert(last_change_at(inverse, q, k)) by {
                    assert forall|j: int| k < j < inverse.len() implies (#[trigger] inverse[j]).pos != q by {
                        assert(swapped(changes[j], inverse[j]));
                        assert(changes[j].pos != changes[k].pos);
                    }
                }
                assert(before_matches(w0, changes[k].pos, changes[k].before));
                lemma_swapped_blocks(changes[k], inverse[k]);
                lemma_restored(w0.block_at(q), changes[k].before, inverse[k].after, w2.block_at(q));
            } else {
                assert forall|k: int| 0 <= k < inverse.len() implies (#[trigger] inverse[k]).pos != q by {
                    assert(swapped(changes[k], inverse[k]));
                }
                assert forall|k: int| 0 <= k < changes.len() implies (#[trigger] changes[k]).pos != q by {}
                lemma_same_opt_trans(w2.block_at(q), w1.block_at(q), w0.block_at(q));
            }
        }
    }
}

proof fn lemma_swapped_blocks(a: PhysicalBlockChange, b: PhysicalBlockChange)
    requires
        swapped(a, b),
    ensures
        same_block(a.after, b.before),
        same_block(a.before, b.after),
        a.after.kind == b.before.kind,
        a.before.kind == b.after.kind,
{
    crate::world::lemma_same_block_sym(b.before, a.after);
    crate::world::lemma_same_block_sym(b.after, a.before);
}

proof fn lemma_same_opt_trans(a: Option<Block>, b: Option<Block>, c: Option<Block>)
    requires
        same_opt_block(a, b),
        same_opt_block(b, c),
    ensures
        same_opt_block(a, c),
{
    if let (Some(x), Some(y), Some(z)) = (a, b, c) {
        lemma_same_block_trans(x, y, z);
    }
}

/// A position whose captured before-block matched, rewritten with a block
/// equal to it, holds what it held.
proof fn lemma_restored(orig: Option<Block>, before: Block, written: Block, now: Option<Block>)
    requires
        match orig {
            Some(b) => same_block(b, before) && !(b.kind is Air),
            None => crate::world::is_fresh_block(before, BlockKind::Air),
        },
        same_block(before, written),
        if written.kind is Air {
            now is None
        } else {
            now matches Some(b) && same_block(b, written)
        },
    ensures
        same_opt_block(now, orig),
{
    match (now, orig) {
        (Some(n), Some(o)) => {
            lemma_same_block_sym(before, written);
            lemma_same_block_trans(n, written, before);
            lemma_same_block_sym(o, before);
            lemma_same_block_trans(n, before, o);
        },
        _ => {},
    }
}

} // verus!
