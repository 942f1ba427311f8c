//! Per-block behavior metadata: how a block kind takes part in updates and
//! which electrical/structural properties it has.

use vstd::prelude::*;

use crate::world::{BlockKind, BlockProperties};

verus! {

#[derive(Clone, Copy, Debug, PartialEq, Eq, Structural)]
pub enum UpdateModel {
    Passive,
    ImmediateNeighborChain,
    ScheduledBlockTick,
    UserInteraction,
    BlockEvent,
}

#[derive(Clone, Copy, Debug, PartialEq, Eq, Structural)]
pub struct BlockBehaviorProfile {
    pub properties: BlockProperties,
    pub update_model: UpdateModel,
    /// Whether behavior can depend on ordering within or between game ticks.
    pub order_sensitive: bool,
}

/// Properties of a block that only serves as structure.
pub open spec fn support_only(supports_components: bool) -> BlockProperties {
    BlockProperties {
        supports_components,
        receives_weak_power: false,
        receives_strong_power: false,
        repeater_reads_block_power: false,
        strong_power_drives_dust: false,
    }
}

/// Properties of a full conducting block.
pub open spec fn conductor() -> BlockProperties {
    BlockProperties {
        supports_components: true,
        receives_weak_power: true,
        receives_strong_power: true,
        repeater_reads_block_power: true,
        strong_power_drives_dust: true,
    }
}

/// The behavior profile of each block kind.
pub open spec fn spec_behavior_profile(kind: BlockKind) -> BlockBehaviorProfile {
    match kind {
        BlockKind::Air => BlockBehaviorProfile {
            properties: support_only(false),
            update_model: UpdateModel::Passive,
            order_sensitive: false,
        },
        BlockKind::Solid => BlockBehaviorProfile {
            properties: conductor(),
            update_model: UpdateModel::Passive,
            order_sensitive: false,
        },
        BlockKind::Transparent => BlockBehaviorProfile {
            properties: support_only(true),
            update_model: UpdateModel::Passive,
            order_sensitive: false,
        },
        BlockKind::RedstoneWire => BlockBehaviorProfile {
            properties: support_only(false),
            update_model: UpdateModel::ImmediateNeighborChain,
            order_sensitive: true,
        },
        BlockKind::RedstoneTorch => BlockBehaviorProfile {
            properties: support_only(false),
            update_model: UpdateModel::ScheduledBlockTick,
            order_sensitive: true,
        },
        BlockKind::Repeater => BlockBehaviorProfile {
            properties: support_only(false),
            update_model: UpdateModel::ScheduledBlockTick,
            order_sensitive: true,
        },
        BlockKind::Comparator => BlockBehaviorProfile {
            properties: support_only(false),
            update_model: UpdateModel::ScheduledBlockTick,
            order_sensitive: true,
        },
        BlockKind::Lever => BlockBehaviorProfile {
            properties: support_only(false),
            update_model: UpdateModel::UserInteraction,
            order_sensitive: false,
        },
        BlockKind::Button => BlockBehaviorProfile {
            properties: support_only(false),
            update_model: UpdateModel::UserInteraction,
            order_sensitive: true,
        },
        BlockKind::PressurePlate => BlockBehaviorProfile {
            properties: support_only(false),
            update_model: UpdateModel::UserInteraction,
            order_sensitive: true,
        },
        BlockKind::RedstoneLamp => BlockBehaviorProfile {
            properties: conductor(),
            update_model: UpdateModel::ScheduledBlockTick,
            order_sensitive: true,
        },
        BlockKind::RedstoneBlock => BlockBehaviorProfile {
            properties: support_only(true),
            update_model: UpdateModel::Passive,
            order_sensitive: false,
        },
        BlockKind::Observer => BlockBehaviorProfile {
            properties: support_only(true),
            update_model: UpdateModel::ScheduledBlockTick,
            order_sensitive: true,
        },
        BlockKind::Piston => BlockBehaviorProfile {
            properties: support_only(true),
            update_model: UpdateModel::BlockEvent,
            order_sensitive: true,
        },
        BlockKind::PistonHead => BlockBehaviorProfile {
            properties: support_only(false),
            update_model: UpdateModel::BlockEvent,
            order_sensitive: true,
        },
        BlockKind::MovingPiston => BlockBehaviorProfile {
            properties: support_only(false),
            update_model: UpdateModel::BlockEvent,
            order_sensitive: true,
        },
    }
}

fn make_support_only(supports_components: bool) -> (r: BlockProperties)
    ensures
        r == support_only(supports_components),
{
    BlockProperties {
        supports_components,
        receives_weak_power: false,
        receives_strong_power: false,
        repeater_reads_block_power: false,
        strong_power_drives_dust: false,
    }
}

fn make_conductor() -> (r: BlockProperties)
    ensures
        r == conductor(),
{
    BlockProperties {
        supports_components: true,
        receives_weak_power: true,
        receives_strong_power: true,
        repeater_reads_block_power: true,
        strong_power_drives_dust: true,
    }
}

/// Returns the behavior profile of a block kind: its electrical properties,
/// how it takes part in updates, and whether order within a tick matters.
pub fn behavior_profile(kind: BlockKind) -> (r: BlockBehaviorProfile)
    ensures
        r == spec_behavior_profile(kind),
{
    let (properties, update_model, order_sensitive) = match kind {
        BlockKind::Air => (make_support_only(false), UpdateModel::Passive, false),
        BlockKind::Solid => (make_conductor(), UpdateModel::Passive, false),
        BlockKind::Transparent => (make_support_only(true), UpdateModel::Passive, false),
        BlockKind::RedstoneWire => (
            make_support_only(false),
            UpdateModel::ImmediateNeighborChain,
            true,
        ),
        BlockKind::RedstoneTorch => (
            make_support_only(false),
            UpdateModel::ScheduledBlockTick,
            true,
        ),
        BlockKind::Repeater => (make_support_only(false), UpdateModel::ScheduledBlockTick, true),
        BlockKind::Comparator => (make_support_only(false), UpdateModel::ScheduledBlockTick, true),
        BlockKind::Lever => (make_support_only(false), UpdateModel::UserInteraction, false),
        BlockKind::Button => (make_support_only(false), UpdateModel::UserInteraction, true),
        BlockKind::PressurePlate => (make_support_only(false), UpdateModel::UserInteraction, true),
        BlockKind::RedstoneLamp => (make_conductor(), UpdateModel::ScheduledBlockTick, true),
        BlockKind::RedstoneBlock => (make_support_only(true), UpdateModel::Passive, false),
        BlockKind::Observer => (make_support_only(true), UpdateModel::ScheduledBlockTick, true),
        BlockKind::Piston => (make_support_only(true), UpdateModel::BlockEvent, true),
        BlockKind::PistonHead => (make_support_only(false), UpdateModel::BlockEvent, true),
        BlockKind::MovingPiston => (make_support_only(false), UpdateModel::BlockEvent, true),
    };
    BlockBehaviorProfile { properties, update_model, order_sensitive }
}

} // verus!
