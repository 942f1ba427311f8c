//! Temporal assessment: which scheduling a scene's components need before
//! a transformation of it can be validated.

use vstd::prelude::*;

use crate::behavior::{behavior_profile, spec_behavior_profile, UpdateModel};
use crate::physical::circuit::ComponentId;
use crate::physical::scene::PhysicalScene;
use crate::world::BlockKind;

verus! {

/// Requirements in increasing strength.
#[derive(Clone, Copy, Debug, PartialEq, Eq, Structural, PartialOrd, Ord)]
pub enum TemporalRequirement {
    SteadyStateSafe,
    OrderedUpdates,
    ScheduledTicks,
    BlockEvents,
    Unsupported,
}

/// The strength of a requirement, in declaration order.
pub open spec fn strength(r: TemporalRequirement) -> int {
    match r {
        TemporalRequirement::SteadyStateSafe => 0,
        TemporalRequirement::OrderedUpdates => 1,
        TemporalRequirement::ScheduledTicks => 2,
        TemporalRequirement::BlockEvents => 3,
        TemporalRequirement::Unsupported => 4,
    }
}

pub fn strength_of(r: TemporalRequirement) -> (s: u8)
    ensures
        s == strength(r),
{
    match r {
        TemporalRequirement::SteadyStateSafe => 0,
        TemporalRequirement::OrderedUpdates => 1,
        TemporalRequirement::ScheduledTicks => 2,
        TemporalRequirement::BlockEvents => 3,
        TemporalRequirement::Unsupported => 4,
    }
}

/// The stronger of two requirements.
pub open spec fn stronger(a: TemporalRequirement, b: TemporalRequirement) -> TemporalRequirement {
    if strength(a) >= strength(b) {
        a
    } else {
        b
    }
}

#[derive(Clone, Debug, PartialEq, Eq)]
pub enum TemporalReason {
    IncompleteObservation,
    OrderSensitiveComponent { component: ComponentId, block: BlockKind },
    ScheduledTickComponent { component: ComponentId, block: BlockKind },
    BlockEventComponent { component: ComponentId, block: BlockKind },
}

#[derive(Clone, Debug, PartialEq, Eq)]
pub struct TemporalAssessment {
    pub requirement: TemporalRequirement,
    pub reasons: Vec<TemporalReason>,
}

/// The requirement one component of `kind` adds, if any.
pub open spec fn component_requirement(kind: BlockKind) -> Option<TemporalRequirement> {
    let p = spec_behavior_profile(kind);
    match p.update_model {
        UpdateModel::Passive => if p.order_sensitive {
            Some(TemporalRequirement::OrderedUpdates)
        } else {
            None
        },
        UpdateModel::ImmediateNeighborChain => Some(TemporalRequirement::OrderedUpdates),
        UpdateModel::UserInteraction => Some(TemporalRequirement::OrderedUpdates),
        UpdateModel::ScheduledBlockTick => Some(TemporalRequirement::ScheduledTicks),
        UpdateModel::BlockEvent => Some(TemporalRequirement::BlockEvents),
    }
}

/// The reason a component of `kind` with id `id` gives for requirement `r`.
pub open spec fn reason_for(r: TemporalRequirement, id: ComponentId, kind: BlockKind) -> TemporalReason {
    match r {
        TemporalRequirement::ScheduledTicks => TemporalReason::ScheduledTickComponent { component: id, block: kind },
        TemporalRequirement::BlockEvents => TemporalReason::BlockEventComponent { component: id, block: kind },
        _ => TemporalReason::OrderSensitiveComponent { component: id, block: kind },
    }
}

/// The requirement of a list of component kinds.
pub open spec fn requirement_of(kinds: Seq<BlockKind>) -> TemporalRequirement
    decreases kinds.len(),
{
    if kinds.len() == 0 {
        TemporalRequirement::SteadyStateSafe
    } else {
        let rest = requirement_of(kinds.drop_last());
        match component_requirement(kinds.last()) {
            Some(r) => stronger(rest, r),
            None => rest,
        }
    }
}

/// The reasons of a list of components, in order.
pub open spec fn reasons_of(ids: Seq<ComponentId>, kinds: Seq<BlockKind>) -> Seq<TemporalReason>
    decreases kinds.len(),
{
    if kinds.len() == 0 || ids.len() != kinds.len() {
        Seq::empty()
    } else {
        let rest = reasons_of(ids.drop_last(), kinds.drop_last());
        match component_requirement(kinds.last()) {
            Some(r) => rest.push(reason_for(r, ids.last(), kinds.last())),
            None => rest,
        }
    }
}

impl PhysicalScene {
    /// The component ids of the scene, in order.
    pub open spec fn component_ids(&self) -> Seq<ComponentId> {
        self.components@.map_values(|c: crate::physical::scene::SceneComponent| c.id)
    }

    /// The block kinds of the scene's components, in order.
    pub open spec fn component_kinds(&self) -> Seq<BlockKind> {
        self.components@.map_values(|c: crate::physical::scene::SceneComponent| c.block.kind)
    }

    /// The scheduling the scene's components need: unsupported for an
    /// incomplete observation, otherwise the strongest need of any
    /// component, with one reason per component that adds a need.
    pub fn temporal_assessment(&self) -> (r: TemporalAssessment)
        ensures
            !self.observation.spec_is_complete() ==> r.requirement == TemporalRequirement::Unsupported
                && r.reasons@ == seq![TemporalReason::IncompleteObservation],
            self.observation.spec_is_complete() ==> r.requirement == requirement_of(self.component_kinds())
                && r.reasons@ == reasons_of(self.component_ids(), self.component_kinds()),
    {
        if !self.observation.is_complete() {
            return TemporalAssessment {
                requirement: TemporalRequirement::Unsupported,
                reasons: vec![TemporalReason::IncompleteObservation],
            };
        }
        let mut requirement = TemporalRequirement::SteadyStateSafe;
        let mut reasons: Vec<TemporalReason> = Vec::new();
        let n = self.components.len();
        let mut i: usize = 0;
        while i < n
            invariant
                n == self.components@.len(),
                i <= n,
                requirement == requirement_of(self.component_kinds().take(i as int)),
                reasons@ == reasons_of(self.component_ids().take(i as int), self.component_kinds().take(i as int)),
            decreases n - i,
        {
            let component = &self.components[i];
            let profile = behavior_profile(component.block.kind);
            let added = match profile.update_model {
                UpdateModel::Passive => if profile.order_sensitive {
                    Some(TemporalRequirement::OrderedUpdates)
                } else {
                    None
                },
                UpdateModel::ImmediateNeighborChain => Some(TemporalRequirement::OrderedUpdates),
                UpdateModel::UserInteraction => Some(TemporalRequirement::OrderedUpdates),
                UpdateModel::ScheduledBlockTick => Some(TemporalRequirement::ScheduledTicks),
                UpdateModel::BlockEvent => Some(TemporalRequirement::BlockEvents),
            };
            match added {
                Some(need) => {
                    if strength_of(need) > strength_of(requirement) {
                        requirement = need;
                    }
                    let reason = match need {
                        TemporalRequirement::ScheduledTicks => TemporalReason::ScheduledTickComponent {
                            component: component.id,
                            block: component.block.kind,
                        },
                        TemporalRequirement::BlockEvents => TemporalReason::BlockEventComponent {
                            component: component.id,
                            block: component.block.kind,
                        },
                        _ => TemporalReason::OrderSensitiveComponent { component: component.id, block: component.block.kind },
                    };
                    reasons.push(reason);
                },
                None => {},
            }
            proof {
                let ids = self.component_ids();
                let kinds = self.component_kinds();
                assert(ids.take(i + 1).drop_last() =~= ids.take(i as int));
                assert(kinds.take(i + 1).drop_last() =~= kinds.take(i as int));
            }
            i = i + 1;
        }
        proof {
            assert(self.component_ids().take(n as int) =~= self.component_ids());
            assert(self.component_kinds().take(n as int) =~= self.component_kinds());
        }
        TemporalAssessment { requirement, reasons }
    }
}

} // verus!
