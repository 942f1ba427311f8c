//! Versioned ordering policy for the Minecraft event queue. A scheduler
//! profile answers only *when* an already-described event is eligible to
//! run; block delays belong to the block behavior model.

use vstd::prelude::*;

use crate::time::event::{phase_index, PhysicsEventPhase};

verus! {

/// Identity and provenance of an event-ordering policy.
#[derive(Clone, Copy, Debug, PartialEq, Eq, Structural, Hash)]
pub enum SchedulerProfileId {
    /// A deterministic ordering model; not a claim of complete vanilla order.
    DustRouteDeterministicV1,
    /// A version-labelled model for Java 1.21.11.
    MinecraftJava1_21_11Modelled,
}

/// Strength of the evidence behind a scheduler profile.
#[derive(Clone, Copy, Debug, PartialEq, Eq, Structural, Hash)]
pub enum SchedulerEvidence {
    Modelled,
    Observed,
    Unknown,
}

impl SchedulerEvidence {
    pub fn is_known(self) -> (r: bool)
        ensures
            r == !(self is Unknown),
    {
        !matches!(self, SchedulerEvidence::Unknown)
    }
}

/// Ordering of events that share one phase: insertion order is stable.
#[derive(Clone, Copy, Debug, PartialEq, Eq, Structural, Hash)]
pub enum SamePhaseOrder {
    Insertion,
}

/// Policy for a child event whose requested delay is zero.
#[derive(Clone, Copy, Debug, PartialEq, Eq, Structural, Hash)]
pub enum ZeroDelayPolicy {
    /// Keep the child in the parent's game tick.
    SameGameTickNextOrder,
    /// Move a zero-delay child to the next game tick.
    NextGameTick,
}

/// Event-ordering policy: phase order, same-phase order, and the placement
/// of zero-delay edges.
#[derive(Clone, Copy, Debug, PartialEq, Eq, Hash)]
pub struct SchedulerProfile {
    pub id: SchedulerProfileId,
    /// Lower array index runs first. Every phase must occur exactly once.
    pub phase_order: [PhysicsEventPhase; 6],
    pub same_phase_order: SamePhaseOrder,
    pub zero_delay: ZeroDelayPolicy,
    pub evidence: SchedulerEvidence,
}

#[derive(Clone, Copy, Debug, PartialEq, Eq, Structural)]
pub enum SchedulerProfileError {
    DuplicatePhase { phase: PhysicsEventPhase },
    MissingPhase { phase: PhysicsEventPhase },
}

/// The phases in declaration order.
pub open spec fn all_phases() -> Seq<PhysicsEventPhase> {
    seq![
        PhysicsEventPhase::External,
        PhysicsEventPhase::NeighborUpdate,
        PhysicsEventPhase::ScheduledTick,
        PhysicsEventPhase::BlockEvent,
        PhysicsEventPhase::BlockEntity,
        PhysicsEventPhase::Observation,
    ]
}

/// The scheduler rank of a phase: the index of its first occurrence in the
/// phase order, or `usize::MAX` when it does not occur.
pub open spec fn spec_phase_rank(order: Seq<PhysicsEventPhase>, phase: PhysicsEventPhase) -> usize {
    if exists|i: int| 0 <= i < order.len() && order[i] == phase {
        (choose|i: int|
            0 <= i < order.len() && order[i] == phase && forall|j: int|
                0 <= j < i ==> order[j] != phase) as usize
    } else {
        usize::MAX
    }
}

/// The game tick at which a child becomes eligible (saturating).
pub open spec fn spec_tick_after(policy: ZeroDelayPolicy, parent: u64, delay: u64) -> u64 {
    let d = match policy {
        ZeroDelayPolicy::SameGameTickNextOrder => delay,
        ZeroDelayPolicy::NextGameTick => if delay == 0 { 1 } else { delay },
    };
    if parent + d > u64::MAX {
        u64::MAX
    } else {
        (parent + d) as u64
    }
}

/// The phase at `k` already occurs earlier in `order`.
pub open spec fn repeats_earlier(order: Seq<PhysicsEventPhase>, k: int) -> bool {
    exists|j: int| 0 <= j < k && order[j] == order[k]
}

/// The first validation failure of a phase order: a repeated phase (at its
/// second occurrence, scanning in order), then a missing phase (in
/// declaration order).
pub open spec fn profile_problem(order: Seq<PhysicsEventPhase>) -> Option<SchedulerProfileError> {
    if exists|i: int| 0 <= i < order.len() && #[trigger] repeats_earlier(order, i) {
        let i = choose|i: int|
            0 <= i < order.len() && repeats_earlier(order, i) && forall|k: int|
                0 <= k < i ==> !#[trigger] repeats_earlier(order, k);
        Some(SchedulerProfileError::DuplicatePhase { phase: order[i] })
    } else if exists|p: int| 0 <= p < 6 && !order.contains(all_phases()[p]) {
        let p = choose|p: int|
            0 <= p < 6 && !order.contains(all_phases()[p]) && forall|q: int|
                0 <= q < p ==> order.contains(all_phases()[q]);
        Some(SchedulerProfileError::MissingPhase { phase: all_phases()[p] })
    } else {
        None
    }
}

impl SchedulerProfile {
    pub open spec fn order(&self) -> Seq<PhysicsEventPhase> {
        self.phase_order@
    }

    /// A profile is valid when its phase order is a total order of all
    /// phases.
    pub open spec fn valid(&self) -> bool {
        profile_problem(self.order()) is None
    }

    pub open spec fn rank(&self, phase: PhysicsEventPhase) -> usize {
        spec_phase_rank(self.order(), phase)
    }

    /// The reproducible profile: phases in declaration order.
    pub fn dustroute_deterministic() -> (r: SchedulerProfile)
        ensures
            r.id == SchedulerProfileId::DustRouteDeterministicV1,
            r.order() == all_phases(),
            r.same_phase_order == SamePhaseOrder::Insertion,
            r.zero_delay == ZeroDelayPolicy::SameGameTickNextOrder,
            r.evidence == SchedulerEvidence::Modelled,
    {
        let r = SchedulerProfile {
            id: SchedulerProfileId::DustRouteDeterministicV1,
            phase_order: [
                PhysicsEventPhase::External,
                PhysicsEventPhase::NeighborUpdate,
                PhysicsEventPhase::ScheduledTick,
                PhysicsEventPhase::BlockEvent,
                PhysicsEventPhase::BlockEntity,
                PhysicsEventPhase::Observation,
            ],
            same_phase_order: SamePhaseOrder::Insertion,
            zero_delay: ZeroDelayPolicy::SameGameTickNextOrder,
            evidence: SchedulerEvidence::Modelled,
        };
        assert(r.order() =~= all_phases());
        r
    }

    /// The version-labelled Java profile, with the deterministic order.
    pub fn minecraft_java_1_21_11_modelled() -> (r: SchedulerProfile)
        ensures
            r.id == SchedulerProfileId::MinecraftJava1_21_11Modelled,
            r.order() == all_phases(),
            r.same_phase_order == SamePhaseOrder::Insertion,
            r.zero_delay == ZeroDelayPolicy::SameGameTickNextOrder,
            r.evidence == SchedulerEvidence::Modelled,
    {
        let base = SchedulerProfile::dustroute_deterministic();
        SchedulerProfile { id: SchedulerProfileId::MinecraftJava1_21_11Modelled, ..base }
    }

    /// The scheduler rank of a phase; `usize::MAX` when the (invalid)
    /// profile omits it.
    pub fn phase_rank(&self, phase: PhysicsEventPhase) -> (r: usize)
        ensures
            r == self.rank(phase),
    {
        let mut i: usize = 0;
        while i < 6
            invariant
                i <= 6,
                self.order().len() == 6,
                forall|j: int| 0 <= j < i ==> self.order()[j] != phase,
            decreases 6 - i,
        {
            if self.phase_order[i] == phase {
                proof {
                    let c = choose|k: int|
                        0 <= k < self.order().len() && self.order()[k] == phase && forall|j: int|
                            0 <= j < k ==> self.order()[j] != phase;
                    assert(c == i) by {
                        if c < i {
                        } else if c > i {
                            assert(self.order()[i as int] == phase);
                        }
                    }
                }
                return i;
            }
            i = i + 1;
        }
        usize::MAX
    }

    /// The game tick at which a child event becomes eligible; a zero delay
    /// may be moved to the next tick by the profile.
    pub fn game_tick_after_delay(self, parent_game_tick: u64, delay_ticks: u64) -> (r: u64)
        ensures
            r == spec_tick_after(self.zero_delay, parent_game_tick, delay_ticks),
    {
        match self.zero_delay {
            ZeroDelayPolicy::SameGameTickNextOrder => parent_game_tick.saturating_add(delay_ticks),
            ZeroDelayPolicy::NextGameTick => parent_game_tick.saturating_add(
                if delay_ticks == 0 {
                    1
                } else {
                    delay_ticks
                },
            ),
        }
    }

    /// Checks that the profile defines a total order over all phases.
    pub fn validate(self) -> (r: Result<(), SchedulerProfileError>)
        ensures
            match profile_problem(self.order()) {
                None => r is Ok,
                Some(e) => r == Err::<(), SchedulerProfileError>(e),
            },
    {
        let ghost order = self.order();
        let mut index: usize = 0;
        while index < 6
            invariant
                order == self.order(),
                order.len() == 6,
                index <= 6,
                forall|k: int| 0 <= k < index ==> !#[trigger] repeats_earlier(order, k),
            decreases 6 - index,
        {
            let phase = self.phase_order[index];
            let mut j: usize = 0;
            while j < index
                invariant
                    order == self.order(),
                    order.len() == 6,
                    j <= index < 6,
                    phase == order[index as int],
                    forall|k: int| 0 <= k < index ==> !#[trigger] repeats_earlier(order, k),
                    forall|t: int| 0 <= t < j ==> order[t] != phase,
                decreases index - j,
            {
                if self.phase_order[j] == phase {
                    proof {
                        assert(repeats_earlier(order, index as int)) by {
                            assert(order[j as int] == order[index as int]);
                        }
                        let i = choose|i: int|
                            0 <= i < order.len() && repeats_earlier(order, i) && forall|k: int|
                                0 <= k < i ==> !#[trigger] repeats_earlier(order, k);
                        assert(i == index) by {
                            if i < index {
                            } else if i > index {
                            }
                        }
                    }
                    return Err(SchedulerProfileError::DuplicatePhase { phase });
                }
                j = j + 1;
            }
            index = index + 1;
        }
        assert(!(exists|i: int| 0 <= i < order.len() && #[trigger] repeats_earlier(order, i)));
        let all: [PhysicsEventPhase; 6] = [
            PhysicsEventPhase::External,
            PhysicsEventPhase::NeighborUpdate,
            PhysicsEventPhase::ScheduledTick,
            PhysicsEventPhase::BlockEvent,
            PhysicsEventPhase::BlockEntity,
            PhysicsEventPhase::Observation,
        ];
        assert(all@ =~= all_phases());
        let mut p: usize = 0;
        while p < 6
            invariant
                order == self.order(),
                order.len() == 6,
                all@ == all_phases(),
                p <= 6,
                !(exists|i: int| 0 <= i < order.len() && #[trigger] repeats_earlier(order, i)),
                forall|q: int| 0 <= q < p ==> order.contains(all_phases()[q]),
            decreases 6 - p,
        {
            let phase = all[p];
            let mut found = false;
            let mut k: usize = 0;
            while k < 6
                invariant
                    order == self.order(),
                    order.len() == 6,
                    k <= 6,
                    found == exists|t: int| 0 <= t < k && order[t] == phase,
                decreases 6 - k,
            {
                if self.phase_order[k] == phase {
                    found = true;
                }
                k = k + 1;
            }
            if !found {
                proof {
                    assert(!order.contains(all_phases()[p as int]));
                    let c = choose|c: int|
                        0 <= c < 6 && !order.contains(all_phases()[c]) && forall|q: int|
                            0 <= q < c ==> order.contains(all_phases()[q]);
                    assert(c == p) by {
                        if c < p {
                        } else if c > p {
                        }
                    }
                }
                return Err(SchedulerProfileError::MissingPhase { phase });
            }
            proof {
                let t = choose|t: int| 0 <= t < 6 && order[t] == phase;
                assert(order.contains(all_phases()[p as int]));
            }
            p = p + 1;
        }
        Ok(())
    }
}

impl Default for SchedulerProfile {
    fn default() -> (r: SchedulerProfile)
        ensures
            r.id == SchedulerProfileId::DustRouteDeterministicV1,
            r.order() == all_phases(),
            r.same_phase_order == SamePhaseOrder::Insertion,
            r.zero_delay == ZeroDelayPolicy::SameGameTickNextOrder,
            r.evidence == SchedulerEvidence::Modelled,
    {
        SchedulerProfile::dustroute_deterministic()
    }
}

/// In a valid profile every phase has a distinct rank below six.
pub proof fn lemma_valid_ranks(profile: SchedulerProfile, a: PhysicsEventPhase, b: PhysicsEventPhase)
    requires
        profile.valid(),
    ensures
        profile.rank(a) < 6,
        a != b ==> profile.rank(a) != profile.rank(b),
{
    let order = profile.order();
    assert(all_phases()[phase_index(a)] == a);
    assert(order.contains(a));
    assert(order.contains(b)) by {
        assert(all_phases()[phase_index(b)] == b);
    }
}

/// A phase order is valid exactly when its six phases are pairwise
/// distinct: six distinct phases are all of them.
pub proof fn law_valid_iff_distinct(p: SchedulerProfile)
    ensures
        p.valid() <==> p.order().no_duplicates(),
{
    let o = p.order();
    assert(o.len() == 6);
    if o.no_duplicates() {
        assert forall|i: int| 0 <= i < o.len() implies !#[trigger] repeats_earlier(o, i) by {
            if repeats_earlier(o, i) {
                let j = choose|j: int| 0 <= j < i && o[j] == o[i];
                assert(o[j] != o[i]);
            }
        }
        let all = all_phases();
        assert(all.no_duplicates());
        o.unique_seq_to_set();
        all.unique_seq_to_set();
        assert(o.to_set().subset_of(all.to_set())) by {
            assert forall|x: PhysicsEventPhase| o.to_set().contains(x) implies all.to_set().contains(x) by {
                match x {
                    PhysicsEventPhase::External => assert(all[0] == x),
                    PhysicsEventPhase::NeighborUpdate => assert(all[1] == x),
                    PhysicsEventPhase::ScheduledTick => assert(all[2] == x),
                    PhysicsEventPhase::BlockEvent => assert(all[3] == x),
                    PhysicsEventPhase::BlockEntity => assert(all[4] == x),
                    PhysicsEventPhase::Observation => assert(all[5] == x),
                }
            }
        }
        vstd::set_lib::lemma_subset_equality(o.to_set(), all.to_set());
        assert forall|q: int| 0 <= q < 6 implies o.contains(#[trigger] all[q]) by {
            assert(all.to_set().contains(all[q]));
            assert(o.to_set().contains(all[q]));
        }
    } else {
        let (i, j) = choose|i: int, j: int| 0 <= i < o.len() && 0 <= j < o.len() && i != j && o[i] == o[j];
        if i < j {
            assert(repeats_earlier(o, j));
        } else {
            assert(repeats_earlier(o, i));
        }
    }
}

} // verus!
