//! Piston planning: which blocks a piston moves, and the atomic deltas that
//! describe the moving and the stable state of an actuation.

use vstd::prelude::*;

use crate::delta::{
    around_in_range, before_matches, delta_check, region_contains, reports,
    spec_around, spec_shape_id, sorted_regions, BlockChange, BlockMove,
    ChangeReason, DeltaCause, DeltaCheck, Region, RegionSet, ShapeId, WorldDelta,
    WorldDeltaError,
};
use crate::props::PropertyMap;
use crate::text::{
    parse_bool, seq_starts_with, seq_strip_prefix_or_self, seq_trim_prefix, spec_bool_text, spec_parse_bool,
    str_eq, strip_prefix_or_self, trim_prefix,
};
use crate::world::{
    block_requires_live, facing_offset, is_fresh_block, is_horizontal, opt_view, same_block,
    spec_offset, Block, BlockKind, Facing, ObservationClassification, PistonBlockEntityState,
    PistonHeadState, PistonState, PistonVariant, Pos, World,
};

verus! {

/// The Java piston push limit. A plan fails closed when the contiguous set
/// would exceed this limit instead of silently moving a prefix.
pub const PISTON_PUSH_LIMIT: usize = 12;

/// A phase-aware piston motion profile. The initial delay is a range because
/// Java can start an actuation in the current game tick or the next one.
#[derive(Clone, Copy, Debug, PartialEq, Eq, Structural)]
pub struct PistonMotionProfile {
    pub initial_delay_min_game_ticks: u64,
    pub initial_delay_max_game_ticks: u64,
    /// Delay from the delivered block event to the stable block-state
    /// transition.
    pub movement_game_ticks: u64,
}

#[derive(Clone, Copy, Debug, PartialEq, Eq, Structural)]
pub enum PistonMotionProfileError {
    InvalidInitialDelayRange { minimum_game_ticks: u64, maximum_game_ticks: u64 },
}

/// The initial Java profile used by the event engine: one redstone tick is
/// two game ticks.
pub open spec fn spec_default_profile() -> PistonMotionProfile {
    PistonMotionProfile {
        initial_delay_min_game_ticks: 0,
        initial_delay_max_game_ticks: 1,
        movement_game_ticks: 2,
    }
}

/// The initial Java profile used by the event engine.
pub fn default_piston_motion_profile() -> (r: PistonMotionProfile)
    ensures
        r == spec_default_profile(),
{
    PistonMotionProfile {
        initial_delay_min_game_ticks: 0,
        initial_delay_max_game_ticks: 1,
        movement_game_ticks: 2,
    }
}

impl Default for PistonMotionProfile {
    fn default() -> (r: PistonMotionProfile)
        ensures
            r == spec_default_profile(),
    {
        default_piston_motion_profile()
    }
}

impl PistonMotionProfile {
    /// Rejects a profile whose minimum initial delay exceeds its maximum;
    /// zero is valid everywhere.
    pub fn validate(self) -> (r: Result<(), PistonMotionProfileError>)
        ensures
            r is Ok <==> self.initial_delay_min_game_ticks <= self.initial_delay_max_game_ticks,
            r matches Err(e) ==> e == (PistonMotionProfileError::InvalidInitialDelayRange {
                minimum_game_ticks: self.initial_delay_min_game_ticks,
                maximum_game_ticks: self.initial_delay_max_game_ticks,
            }),
    {
        if self.initial_delay_min_game_ticks > self.initial_delay_max_game_ticks {
            return Err(
                PistonMotionProfileError::InvalidInitialDelayRange {
                    minimum_game_ticks: self.initial_delay_min_game_ticks,
                    maximum_game_ticks: self.initial_delay_max_game_ticks,
                },
            );
        }
        Ok(())
    }

    /// The activation-side interval.
    pub fn activation_delay_game_ticks(self) -> (r: (u64, u64))
        ensures
            r == (self.initial_delay_min_game_ticks, self.initial_delay_max_game_ticks),
    {
        (self.initial_delay_min_game_ticks, self.initial_delay_max_game_ticks)
    }

    /// The stable block-state delay after a block event starts.
    pub fn stable_completion_delay_game_ticks(self) -> (r: u64)
        ensures
            r == self.movement_game_ticks,
    {
        self.movement_game_ticks
    }
}

#[derive(Clone, Copy, Debug, PartialEq, Eq, Structural, Hash)]
pub enum PistonAction {
    Extend,
    Retract,
}

/// Compatibility name for the move relation emitted in a `WorldDelta`.
pub type PistonBlockMove = BlockMove;

#[allow(inconsistent_fields)]
#[derive(Clone, Debug, PartialEq, Eq)]
pub enum PistonError {
    MissingPiston { position: Pos },
    WrongBlock { position: Pos, actual: BlockKind },
    UnsupportedFacing { position: Pos, facing: Facing },
    InvalidState { position: Pos, action: PistonAction, state: PistonState },
    Obstructed { position: Pos, kind: BlockKind },
    UnsupportedMovingBlock { position: Pos, kind: BlockKind, reason: String },
    UnknownSpace { position: Pos },
    PushLimitExceeded { limit: usize, attempted: usize },
    DestinationOccupied { position: Pos, kind: BlockKind },
    StalePlan { position: Pos },
    DeltaApplication(Box<WorldDeltaError>),
}

/// Why planning refuses an actuation.
pub enum PlanFailure {
    MissingPiston(Pos),
    WrongBlock(Pos, BlockKind),
    UnsupportedFacing(Pos, Facing),
    InvalidState(Pos, PistonAction, PistonState),
    UnsupportedMovingBlock(Pos, BlockKind, Seq<char>),
    UnknownSpace(Pos),
    PushLimitExceeded(usize, usize),
    DestinationOccupied(Pos, BlockKind),
}

/// The error `e` reports the planning failure `f`.
pub open spec fn reports_failure(e: PistonError, f: PlanFailure) -> bool {
    match (e, f) {
        (PistonError::MissingPiston { position }, PlanFailure::MissingPiston(p)) => position == p,
        (PistonError::WrongBlock { position, actual }, PlanFailure::WrongBlock(p, k)) => position
            == p && actual == k,
        (PistonError::UnsupportedFacing { position, facing }, PlanFailure::UnsupportedFacing(
            p,
            f,
        )) => position == p && facing == f,
        (PistonError::InvalidState { position, action, state }, PlanFailure::InvalidState(
            p,
            a,
            s,
        )) => position == p && action == a && state == s,
        (
            PistonError::UnsupportedMovingBlock { position, kind, reason },
            PlanFailure::UnsupportedMovingBlock(p, k, r),
        ) => position == p && kind == k && reason@ == r,
        (PistonError::UnknownSpace { position }, PlanFailure::UnknownSpace(p)) => position == p,
        (PistonError::PushLimitExceeded { limit, attempted }, PlanFailure::PushLimitExceeded(
            l,
            a,
        )) => limit == l && attempted == a,
        (
            PistonError::DestinationOccupied { position, kind },
            PlanFailure::DestinationOccupied(p, k),
        ) => position == p && kind == k,
        _ => false,
    }
}

// ---------------------------------------------------------------------------
// Block classification.
// ---------------------------------------------------------------------------

/// Short names of blocks that never move in the supported Java subset.
pub open spec fn spec_immovable(name: Seq<char>) -> bool {
    let s = seq_strip_prefix_or_self(name, "minecraft:"@);
    ||| s == "bedrock"@
    ||| s == "obsidian"@
    ||| s == "crying_obsidian"@
    ||| s == "reinforced_deepslate"@
    ||| s == "end_portal_frame"@
    ||| s == "end_portal"@
    ||| s == "nether_portal"@
    ||| s == "moving_piston"@
    ||| s == "piston_head"@
    ||| s == "barrier"@
    ||| s == "structure_block"@
    ||| s == "jigsaw"@
    ||| s == "command_block"@
    ||| s == "chain_command_block"@
    ||| s == "repeating_command_block"@
}

/// Blocks that are known not to move in the targeted Java Edition subset.
pub fn observed_name_is_immovable(name: &str) -> (r: bool)
    ensures
        r == spec_immovable(name@),
{
    let s = strip_prefix_or_self(name, "minecraft:");
    str_eq(s, "bedrock") || str_eq(s, "obsidian") || str_eq(s, "crying_obsidian") || str_eq(
        s,
        "reinforced_deepslate",
    ) || str_eq(s, "end_portal_frame") || str_eq(s, "end_portal") || str_eq(s, "nether_portal")
        || str_eq(s, "moving_piston") || str_eq(s, "piston_head") || str_eq(s, "barrier")
        || str_eq(s, "structure_block") || str_eq(s, "jigsaw") || str_eq(s, "command_block")
        || str_eq(s, "chain_command_block") || str_eq(s, "repeating_command_block")
}

/// The blocks that never move in the supported Java piston subset, by
/// their identifiers without the `minecraft:` namespace.
pub open spec fn java_immovable_names() -> Seq<Seq<char>> {
    seq![
        "bedrock"@,
        "obsidian"@,
        "crying_obsidian"@,
        "reinforced_deepslate"@,
        "end_portal_frame"@,
        "end_portal"@,
        "nether_portal"@,
        "moving_piston"@,
        "piston_head"@,
        "barrier"@,
        "structure_block"@,
        "jigsaw"@,
        "command_block"@,
        "chain_command_block"@,
        "repeating_command_block"@,
    ]
}

proof fn lemma_table_immovable(name: Seq<char>)
    requires
        java_immovable_names().contains(seq_strip_prefix_or_self(name, "minecraft:"@)),
    ensures
        spec_immovable(name),
{
    let t = java_immovable_names();
    let s = seq_strip_prefix_or_self(name, "minecraft:"@);
        let k = choose|k: int| 0 <= k < t.len() && t[k] == s;
        if k == 0 {
            assert(s == "bedrock"@);
        } else if k == 1 {
            assert(s == "obsidian"@);
        } else if k == 2 {
            assert(s == "crying_obsidian"@);
        } else if k == 3 {
            assert(s == "reinforced_deepslate"@);
        } else if k == 4 {
            assert(s == "end_portal_frame"@);
        } else if k == 5 {
            assert(s == "end_portal"@);
        } else if k == 6 {
            assert(s == "nether_portal"@);
        } else if k == 7 {
            assert(s == "moving_piston"@);
        } else if k == 8 {
            assert(s == "piston_head"@);
        } else if k == 9 {
            assert(s == "barrier"@);
        } else if k == 10 {
            assert(s == "structure_block"@);
        } else if k == 11 {
            assert(s == "jigsaw"@);
        } else if k == 12 {
            assert(s == "command_block"@);
        } else if k == 13 {
            assert(s == "chain_command_block"@);
        } else if k == 14 {
            assert(s == "repeating_command_block"@);
        }
}

/// An observed name is immovable exactly when, with the `minecraft:`
/// namespace removed, it names one of the Java immovable blocks; both the
/// bare and the namespaced identifier of each of them are immovable.
pub proof fn law_immovable_names(name: Seq<char>)
    ensures
        spec_immovable(name) <==> java_immovable_names().contains(seq_strip_prefix_or_self(name, "minecraft:"@)),
        java_immovable_names().contains(name) ==> spec_immovable("minecraft:"@ + name),
{
    let t = java_immovable_names();
    let s = seq_strip_prefix_or_self(name, "minecraft:"@);
    if spec_immovable(name) {
        if s == "bedrock"@ {
            assert(t[0] == s);
        } else if s == "obsidian"@ {
            assert(t[1] == s);
        } else if s == "crying_obsidian"@ {
            assert(t[2] == s);
        } else if s == "reinforced_deepslate"@ {
            assert(t[3] == s);
        } else if s == "end_portal_frame"@ {
            assert(t[4] == s);
        } else if s == "end_portal"@ {
            assert(t[5] == s);
        } else if s == "nether_portal"@ {
            assert(t[6] == s);
        } else if s == "moving_piston"@ {
            assert(t[7] == s);
        } else if s == "piston_head"@ {
            assert(t[8] == s);
        } else if s == "barrier"@ {
            assert(t[9] == s);
        } else if s == "structure_block"@ {
            assert(t[10] == s);
        } else if s == "jigsaw"@ {
            assert(t[11] == s);
        } else if s == "command_block"@ {
            assert(t[12] == s);
        } else if s == "chain_command_block"@ {
            assert(t[13] == s);
        } else if s == "repeating_command_block"@ {
            assert(t[14] == s);
        }
    }
    if t.contains(s) {
        lemma_table_immovable(name);
    }
    if t.contains(name) {
        let full = "minecraft:"@ + name;
        assert(full.subrange(0, "minecraft:"@.len() as int) =~= "minecraft:"@);
        assert(seq_starts_with(full, "minecraft:"@));
        assert(full.subrange("minecraft:"@.len() as int, full.len() as int) =~= name);
        lemma_table_immovable(full);
    }
}

/// A piston does not move a block whose observed name is one of the Java
/// immovable blocks: planning an extension with such a block directly
/// ahead of the piston fails with `UnsupportedMovingBlock` there.
pub proof fn law_immovable_block_stops_extension(w: World, known: Option<Region>, p: Pos, f: Facing, b: Block)
    requires
        b.observed_name is Some,
        java_immovable_names().contains(seq_strip_prefix_or_self(b.observed_name->0@, "minecraft:"@)),
        known_at(known, chain_pos(p, f, 1)),
        w.block_at(chain_pos(p, f, 1)) == Some(b),
    ensures
        movable_problem(b) is Some,
        scan_extension(w, known, p, f, 0) matches ChainScan::Fails(PlanFailure::UnsupportedMovingBlock(q, kind, _)) && q == chain_pos(
            p,
            f,
            1,
        ) && kind == b.kind,
{
    law_immovable_names(b.observed_name->0@);
}

/// Why a block cannot be moved by a piston, if it cannot.
pub open spec fn movable_problem(b: Block) -> Option<Seq<char>> {
    if !(b.kind is Solid || b.kind is Transparent) {
        Some("the first piston subset moves ordinary non-redstone blocks only"@)
    } else if b.observation_classification is Coarse {
        Some("coarse observed block identity is not safe to move"@)
    } else if block_requires_live(b) {
        Some("the block requires live behavior outside this block-only planner"@)
    } else if (match b.observed_name {
        Some(n) => spec_immovable(n@),
        None => false,
    }) {
        Some("the observed block is immovable in the supported Java piston subset"@)
    } else {
        None
    }
}

/// The piston variant, falling back to the observed identifier.
pub open spec fn spec_piston_variant(b: Block) -> PistonVariant {
    match b.piston_variant {
        Some(v) => v,
        None => if (match b.observed_name {
            Some(n) => seq_trim_prefix(n@, "minecraft:"@) == "sticky_piston"@,
            None => false,
        }) {
            PistonVariant::Sticky
        } else {
            PistonVariant::Normal
        },
    }
}

/// The piston state, falling back to the observed `extended` property.
pub open spec fn spec_piston_state(b: Block) -> PistonState {
    match b.piston_state {
        Some(s) => s,
        None => if (match b.observed_properties.lookup("extended"@) {
            Some(v) => spec_parse_bool(v) == Some(true),
            None => false,
        }) {
            PistonState::Extended
        } else {
            PistonState::Retracted
        },
    }
}

/// The physical variant of a piston block.
pub fn piston_variant(block: &Block) -> (r: PistonVariant)
    ensures
        r == spec_piston_variant(*block),
{
    match block.piston_variant {
        Some(v) => v,
        None => {
            let sticky = match &block.observed_name {
                Some(name) => str_eq(trim_prefix(name.as_str(), "minecraft:"), "sticky_piston"),
                None => false,
            };
            if sticky {
                PistonVariant::Sticky
            } else {
                PistonVariant::Normal
            }
        },
    }
}

/// The stable or transient state of a piston block.
pub fn piston_state(block: &Block) -> (r: PistonState)
    ensures
        r == spec_piston_state(*block),
{
    match block.piston_state {
        Some(s) => s,
        None => {
            let extended = match block.observed_properties.get("extended") {
                Some(v) => match parse_bool(v.as_str()) {
                    Some(b) => b,
                    None => false,
                },
                None => false,
            };
            if extended {
                PistonState::Extended
            } else {
                PistonState::Retracted
            }
        },
    }
}

/// A stable piston head block, or a block observed as one.
pub open spec fn spec_is_piston_head(b: Block) -> bool {
    b.kind is PistonHead || match b.observed_name {
        Some(n) => seq_trim_prefix(n@, "minecraft:"@) == "piston_head"@,
        None => false,
    }
}

fn is_piston_head(block: &Block) -> (r: bool)
    ensures
        r == spec_is_piston_head(*block),
{
    block.kind == BlockKind::PistonHead || match &block.observed_name {
        Some(name) => str_eq(trim_prefix(name.as_str(), "minecraft:"), "piston_head"),
        None => false,
    }
}

/// Whether `p` lies in the known region, when there is one.
pub open spec fn known_at(known: Option<Region>, p: Pos) -> bool {
    match known {
        Some(r) => region_contains(r, p),
        None => true,
    }
}

fn ensure_known(known_region: Option<Region>, position: Pos) -> (r: Result<(), PistonError>)
    ensures
        r is Ok <==> known_at(known_region, position),
        r matches Err(e) ==> reports_failure(e, PlanFailure::UnknownSpace(position)),
{
    match known_region {
        Some(region) => {
            if !region.contains(position) {
                return Err(PistonError::UnknownSpace { position });
            }
        },
        None => {},
    }
    Ok(())
}

fn ensure_movable(position: Pos, block: &Block) -> (r: Result<(), PistonError>)
    ensures
        r is Ok <==> movable_problem(*block) is None,
        r matches Err(e) ==> reports_failure(
            e,
            PlanFailure::UnsupportedMovingBlock(position, block.kind, movable_problem(*block)->0),
        ),
{
    if !matches!(block.kind, BlockKind::Solid | BlockKind::Transparent) {
        return Err(
            PistonError::UnsupportedMovingBlock {
                position,
                kind: block.kind,
                reason: "the first piston subset moves ordinary non-redstone blocks only".to_owned(),
            },
        );
    }
    if block.observation_classification == ObservationClassification::Coarse {
        return Err(
            PistonError::UnsupportedMovingBlock {
                position,
                kind: block.kind,
                reason: "coarse observed block identity is not safe to move".to_owned(),
            },
        );
    }
    if block.requires_live_observation() {
        return Err(
            PistonError::UnsupportedMovingBlock {
                position,
                kind: block.kind,
                reason: "the block requires live behavior outside this block-only planner".to_owned(),
            },
        );
    }
    let immovable = match &block.observed_name {
        Some(name) => observed_name_is_immovable(name.as_str()),
        None => false,
    };
    if immovable {
        return Err(
            PistonError::UnsupportedMovingBlock {
                position,
                kind: block.kind,
                reason: "the observed block is immovable in the supported Java piston subset".to_owned(),
            },
        );
    }
    Ok(())
}

/// The Java block-state name of a facing.
pub open spec fn facing_text(f: Facing) -> Seq<char> {
    match f {
        Facing::North => "north"@,
        Facing::East => "east"@,
        Facing::South => "south"@,
        Facing::West => "west"@,
        Facing::Up => "up"@,
        Facing::Down => "down"@,
    }
}

pub open spec fn variant_text(v: PistonVariant) -> Seq<char> {
    match v {
        PistonVariant::Normal => "normal"@,
        PistonVariant::Sticky => "sticky"@,
    }
}

fn facing_name(facing: Facing) -> (r: &'static str)
    ensures
        r@ == facing_text(facing),
{
    match facing {
        Facing::North => "north",
        Facing::East => "east",
        Facing::South => "south",
        Facing::West => "west",
        Facing::Up => "up",
        Facing::Down => "down",
    }
}

fn variant_name(variant: PistonVariant) -> (r: &'static str)
    ensures
        r@ == variant_text(variant),
{
    match variant {
        PistonVariant::Normal => "normal",
        PistonVariant::Sticky => "sticky",
    }
}

pub open spec fn spec_delta_cause(action: PistonAction, piston: Pos) -> DeltaCause {
    match action {
        PistonAction::Extend => DeltaCause::PistonExtend { piston },
        PistonAction::Retract => DeltaCause::PistonRetract { piston },
    }
}

fn delta_cause(action: PistonAction, piston: Pos) -> (r: DeltaCause)
    ensures
        r == spec_delta_cause(action, piston),
{
    match action {
        PistonAction::Extend => DeltaCause::PistonExtend { piston },
        PistonAction::Retract => DeltaCause::PistonRetract { piston },
    }
}

/// `b` is the piston head a piston block `piston` shows when extended.
pub open spec fn is_head_for(b: Block, piston: Block, facing: Facing, variant: PistonVariant) -> bool {
    &&& b.kind is PistonHead
    &&& b.facing == Some(facing)
    &&& b.piston_variant == Some(variant)
    &&& b.piston_head == Some(PistonHeadState { facing, variant, short: false })
    &&& b.powered is None && b.power_level is None && b.delay is None
    &&& b.support_offset is None && b.wire_connections is None
    &&& b.piston_state is None && b.piston_entity is None
    &&& if piston.observed_name is Some {
        &&& opt_view(b.observed_name) == Some("minecraft:piston_head"@)
        &&& b.observation_classification == piston.observation_classification
        &&& b.observed_properties.lookup("facing"@) == Some(facing_text(facing))
        &&& b.observed_properties.lookup("type"@) == Some(variant_text(variant))
        &&& b.observed_properties.lookup("short"@) == Some("false"@)
    } else {
        &&& b.observed_name is None
        &&& b.observation_classification == ObservationClassification::Synthetic
        &&& b.observed_properties.pairs().len() == 0
    }
}

fn piston_head_block(piston: &Block, facing: Facing, variant: PistonVariant) -> (r: Block)
    ensures
        is_head_for(r, *piston, facing, variant),
{
    let mut head = Block::piston_head(facing, variant, false);
    if piston.observed_name.is_some() {
        head.observed_name = Some("minecraft:piston_head".to_owned());
        head.observation_classification = piston.observation_classification;
        head.observed_properties.insert("facing".to_owned(), facing_name(facing).to_owned());
        head.observed_properties.insert("type".to_owned(), variant_name(variant).to_owned());
        head.observed_properties.insert("short".to_owned(), "false".to_owned());
        proof {
            reveal_strlit("facing");
            reveal_strlit("type");
            reveal_strlit("short");
            assert("type"@.len() != "facing"@.len());
            assert("short"@.len() != "facing"@.len());
            assert("short"@.len() != "type"@.len());
            assert(head.observed_properties.lookup("facing"@) == Some(facing_text(facing)));
            assert(head.observed_properties.lookup("type"@) == Some(variant_text(variant)));
            assert(head.observed_properties.lookup("short"@) == Some("false"@));
            assert(opt_view(head.observed_name) == Some("minecraft:piston_head"@));
        }
    }
    head
}

/// `b` is a moving-piston carrier of `carried`.
pub open spec fn is_moving_carrier(
    b: Block,
    carried: Block,
    facing: Facing,
    extending: bool,
    source: bool,
    progress: u8,
) -> bool {
    &&& b.kind is MovingPiston
    &&& b.facing == Some(facing)
    &&& b.observed_name is None
    &&& b.observed_properties.pairs().len() == 0
    &&& b.observation_classification == ObservationClassification::Synthetic
    &&& b.powered is None && b.power_level is None && b.delay is None
    &&& b.support_offset is None && b.wire_connections is None
    &&& b.piston_state is None && b.piston_head is None && b.piston_variant is None
    &&& match b.piston_entity {
        Some(e) => e.facing == facing && e.extending == extending && e.source == source
            && e.progress == progress && same_block(*e.pushed_block, carried),
        None => false,
    }
}

fn moving_block(pushed_block: Block, facing: Facing, extending: bool, source: bool, progress: u8) -> (r: Block)
    ensures
        is_moving_carrier(r, pushed_block, facing, extending, source, progress),
{
    proof {
        crate::world::lemma_same_block_refl(pushed_block);
    }
    Block::moving_piston(
        PistonBlockEntityState {
            pushed_block: Box::new(pushed_block),
            facing,
            extending,
            source,
            progress,
        },
    )
}

/// `b` is `a` with its piston state set to `s`; an observed piston also
/// records the state's `extended` property.
pub open spec fn is_with_state(b: Block, a: Block, s: PistonState) -> bool {
    &&& b.kind == a.kind
    &&& opt_view(b.observed_name) == opt_view(a.observed_name)
    &&& b.observation_classification == a.observation_classification
    &&& b.facing == a.facing
    &&& b.powered == a.powered
    &&& b.power_level == a.power_level
    &&& b.delay == a.delay
    &&& b.support_offset == a.support_offset
    &&& b.wire_connections == a.wire_connections
    &&& b.piston_variant == a.piston_variant
    &&& b.piston_state == Some(s)
    &&& b.piston_head == a.piston_head
    &&& same_opt_entity(b, a)
    &&& if a.observed_name is Some {
        &&& b.observed_properties.lookup("extended"@) == Some(
            spec_bool_text(s is Extending || s is Extended),
        )
        &&& forall|k: Seq<char>|
            k != "extended"@ ==> #[trigger] b.observed_properties.lookup(k)
                == a.observed_properties.lookup(k)
    } else {
        b.observed_properties.pairs() == a.observed_properties.pairs()
    }
}

pub open spec fn same_opt_entity(b: Block, a: Block) -> bool {
    match (b.piston_entity, a.piston_entity) {
        (None, None) => true,
        (Some(x), Some(y)) => x.facing == y.facing && x.extending == y.extending && x.source
            == y.source && x.progress == y.progress && same_block(*x.pushed_block, *y.pushed_block),
        _ => false,
    }
}

/// A copy of `block` in piston state `state`.
fn with_piston_state(block: &Block, state: PistonState) -> (r: Block)
    ensures
        is_with_state(r, *block, state),
{
    let mut b = block.copy();
    b.piston_state = Some(state);
    if b.observed_name.is_some() {
        let text = crate::text::bool_to_string(state.is_extended());
        b.observed_properties.insert("extended".to_owned(), text);
    }
    b
}

// ---------------------------------------------------------------------------
// Push chains.
// ---------------------------------------------------------------------------

/// The position `j` steps from `p` toward `f`.
pub open spec fn chain_pos(p: Pos, f: Facing, j: int) -> Pos {
    match f {
        Facing::North => Pos { x: p.x, y: p.y, z: (p.z - j) as i32 },
        Facing::East => Pos { x: (p.x + j) as i32, y: p.y, z: p.z },
        Facing::South => Pos { x: p.x, y: p.y, z: (p.z + j) as i32 },
        Facing::West => Pos { x: (p.x - j) as i32, y: p.y, z: p.z },
        Facing::Up => Pos { x: p.x, y: (p.y + j) as i32, z: p.z },
        Facing::Down => Pos { x: p.x, y: (p.y - j) as i32, z: p.z },
    }
}

/// A piston facing `f` far enough from the coordinate limits for every
/// position its plans touch, and the dirty neighborhood of each, to exist:
/// one block of room on every axis and sixteen blocks ahead along `f`.
pub open spec fn piston_room(p: Pos, f: Facing) -> bool {
    let d = facing_offset(f);
    &&& i32::MIN + 1 <= p.x <= i32::MAX - 1
    &&& i32::MIN + 1 <= p.y <= i32::MAX - 1
    &&& i32::MIN + 1 <= p.z <= i32::MAX - 1
    &&& crate::world::offset_in_range(p, 16 * d.x, 16 * d.y, 16 * d.z)
}

/// The room a plan at `p` in `w` needs: where `w` holds a piston with a
/// horizontal facing there, the room ahead of that facing.
pub open spec fn planning_room(w: World, p: Pos) -> bool {
    match w.block_at(p) {
        Some(b) => b.kind == BlockKind::Piston && b.facing is Some && is_horizontal(b.facing->0) ==> piston_room(
            p,
            b.facing->0,
        ),
        None => true,
    }
}

/// Whether `p` has the room a plan needs for a piston facing `f`.
pub fn has_piston_room(p: Pos, f: Facing) -> (r: bool)
    ensures
        r == piston_room(p, f),
{
    let lo: i32 = i32::MIN + 1;
    let hi: i32 = i32::MAX - 1;
    if !(lo <= p.x && p.x <= hi && lo <= p.y && p.y <= hi && lo <= p.z && p.z <= hi) {
        return false;
    }
    match f {
        Facing::North => p.z >= i32::MIN + 16,
        Facing::East => p.x <= i32::MAX - 16,
        Facing::South => p.z <= i32::MAX - 16,
        Facing::West => p.x >= i32::MIN + 16,
        Facing::Up => p.y <= i32::MAX - 16,
        Facing::Down => p.y >= i32::MIN + 16,
    }
}

/// Whether `world` leaves the room a plan at `p` needs.
pub fn has_planning_room(world: &World, p: Pos) -> (r: bool)
    requires
        world.wf(),
    ensures
        r == planning_room(*world, p),
{
    match world.get(p) {
        Some(b) => {
            if b.kind == BlockKind::Piston {
                match b.facing {
                    Some(f) => f.horizontal_offset().is_none() || has_piston_room(p, f),
                    None => true,
                }
            } else {
                true
            }
        },
        None => true,
    }
}

proof fn lemma_chain_step(p: Pos, f: Facing, j: int)
    requires
        piston_room(p, f),
        0 <= j <= 14,
    ensures
        spec_offset(chain_pos(p, f, j), facing_offset(f).x as int, facing_offset(f).y as int, facing_offset(f).z as int)
            == chain_pos(p, f, j + 1),
        crate::world::offset_in_range(chain_pos(p, f, j), facing_offset(f).x as int, facing_offset(f).y as int, facing_offset(f).z as int),
        around_in_range(chain_pos(p, f, j), 1),
{
}

/// The outcome of scanning a push chain: its length, or why it fails.
pub enum ChainScan {
    Length(nat),
    Fails(PlanFailure),
}

/// Scans the blocks in front of an extending piston, having already
/// accepted `j` of them.
pub open spec fn scan_extension(w: World, known: Option<Region>, p: Pos, f: Facing, j: nat) -> ChainScan
    decreases 12 - j,
{
    let c = chain_pos(p, f, j + 1int);
    if !known_at(known, c) {
        ChainScan::Fails(PlanFailure::UnknownSpace(c))
    } else {
        match w.block_at(c) {
            None => ChainScan::Length(j),
            Some(b) => if j >= 12 {
                ChainScan::Fails(PlanFailure::PushLimitExceeded(12, (j + 1) as usize))
            } else {
                match movable_problem(b) {
                    Some(r) => ChainScan::Fails(PlanFailure::UnsupportedMovingBlock(c, b.kind, r)),
                    None => scan_extension(w, known, p, f, j + 1),
                }
            },
        }
    }
}

/// Scans the destination and source of a sticky retraction.
pub open spec fn scan_retraction(w: World, known: Option<Region>, p: Pos, f: Facing) -> ChainScan {
    let d = chain_pos(p, f, 1);
    let s = chain_pos(p, f, 2);
    if !known_at(known, d) {
        ChainScan::Fails(PlanFailure::UnknownSpace(d))
    } else if (match w.block_at(d) {
        Some(b) => !spec_is_piston_head(b),
        None => false,
    }) {
        ChainScan::Fails(PlanFailure::DestinationOccupied(d, w.block_at(d)->0.kind))
    } else if !known_at(known, s) {
        ChainScan::Fails(PlanFailure::UnknownSpace(s))
    } else {
        match w.block_at(s) {
            None => ChainScan::Length(0),
            Some(b) => match movable_problem(b) {
                Some(r) => ChainScan::Fails(PlanFailure::UnsupportedMovingBlock(s, b.kind, r)),
                None => ChainScan::Length(1),
            },
        }
    }
}

/// `w` holds a block at `p` with the same data as `b`.
pub open spec fn holds_copy(w: World, p: Pos, b: Block) -> bool {
    match w.block_at(p) {
        Some(x) => same_block(b, x),
        None => false,
    }
}

/// The moves of a push chain of `k` blocks in front of `p`, farthest first.
pub open spec fn extension_chain(w: World, p: Pos, f: Facing, k: nat, moves: Seq<BlockMove>) -> bool {
    &&& moves.len() == k
    &&& forall|i: int|
        0 <= i < k ==> {
            &&& (#[trigger] moves[i]).from == chain_pos(p, f, k - i)
            &&& moves[i].to == chain_pos(p, f, k - i + 1)
            &&& holds_copy(w, moves[i].from, moves[i].block)
        }
}

/// The move of a sticky retraction, when a block is pulled.
pub open spec fn retraction_chain(w: World, p: Pos, f: Facing, k: nat, moves: Seq<BlockMove>) -> bool {
    &&& moves.len() == k
    &&& k == 1 ==> {
        &&& moves[0].from == chain_pos(p, f, 2)
        &&& moves[0].to == chain_pos(p, f, 1)
        &&& holds_copy(w, moves[0].from, moves[0].block)
    }
}

proof fn lemma_scan_extension_facts(w: World, known: Option<Region>, p: Pos, f: Facing, j: nat, k: nat)
    requires
        j <= 12,
        scan_extension(w, known, p, f, j) == ChainScan::Length(k),
    ensures
        j <= k <= 12,
        w.block_at(chain_pos(p, f, k + 1int)) is None,
        known_at(known, chain_pos(p, f, k + 1int)),
        forall|i: int| j < i <= k ==> (#[trigger] w.block_at(chain_pos(p, f, i))) is Some
            && movable_problem(w.block_at(chain_pos(p, f, i))->0) is None
            && known_at(known, chain_pos(p, f, i)),
    decreases 12 - j,
{
    let c = chain_pos(p, f, j + 1int);
    if w.block_at(c) is Some {
        lemma_scan_extension_facts(w, known, p, f, j + 1, k);
    }
}

fn extension_moves(world: &World, known_region: Option<Region>, piston: Pos, facing: Facing) -> (r: Result<Vec<BlockMove>, PistonError>)
    requires
        world.wf(),
        piston_room(piston, facing),
        is_horizontal(facing),
    ensures
        match scan_extension(*world, known_region, piston, facing, 0) {
            ChainScan::Length(k) => r matches Ok(moves) && extension_chain(*world, piston, facing, k, moves@),
            ChainScan::Fails(f) => r matches Err(e) && reports_failure(e, f),
        },
{
    let offset = facing.offset();
    let mut cursor = piston.offset(offset.x, offset.y, offset.z);
    let mut contiguous: Vec<(Pos, Block)> = Vec::new();
    proof {
        lemma_chain_step(piston, facing, 0);
    }
    loop
        invariant
            world.wf(),
            piston_room(piston, facing),
            offset == facing_offset(facing),
            contiguous@.len() <= 12,
            cursor == chain_pos(piston, facing, contiguous@.len() + 1int),
            scan_extension(*world, known_region, piston, facing, 0) == scan_extension(
                *world,
                known_region,
                piston,
                facing,
                contiguous@.len() as nat,
            ),
            forall|i: int|
                0 <= i < contiguous@.len() ==> (#[trigger] contiguous@[i]).0 == chain_pos(piston, facing, i + 1)
                    && holds_copy(*world, contiguous@[i].0, contiguous@[i].1),
        ensures
            contiguous@.len() <= 12,
            scan_extension(*world, known_region, piston, facing, 0) == ChainScan::Length(
                contiguous@.len() as nat,
            ),
            forall|i: int|
                0 <= i < contiguous@.len() ==> (#[trigger] contiguous@[i]).0 == chain_pos(piston, facing, i + 1)
                    && holds_copy(*world, contiguous@[i].0, contiguous@[i].1),
        decreases 13 - contiguous@.len(),
    {
        ensure_known(known_region, cursor)?;
        let block = match world.get(cursor) {
            Some(b) => b.copy(),
            None => break,
        };
        if contiguous.len() == PISTON_PUSH_LIMIT {
            return Err(
                PistonError::PushLimitExceeded {
                    limit: PISTON_PUSH_LIMIT,
                    attempted: contiguous.len() + 1,
                },
            );
        }
        ensure_movable(cursor, &block)?;
        contiguous.push((cursor, block));
        proof {
            lemma_chain_step(piston, facing, contiguous@.len() as int);
        }
        cursor = cursor.offset(offset.x, offset.y, offset.z);
    }
    let k = contiguous.len();
    let mut moves: Vec<BlockMove> = Vec::new();
    let mut i: usize = 0;
    while i < k
        invariant
            k == contiguous@.len(),
            k <= 12,
            piston_room(piston, facing),
            offset == facing_offset(facing),
            i <= k,
            moves@.len() == i,
            forall|t: int|
                0 <= t < k ==> (#[trigger] contiguous@[t]).0 == chain_pos(piston, facing, t + 1)
                    && holds_copy(*world, contiguous@[t].0, contiguous@[t].1),
            forall|t: int|
                0 <= t < i ==> {
                    &&& (#[trigger] moves@[t]).from == chain_pos(piston, facing, k - t)
                    &&& moves@[t].to == chain_pos(piston, facing, k - t + 1)
                    &&& holds_copy(*world, moves@[t].from, moves@[t].block)
                },
        decreases k - i,
    {
        let from = contiguous[k - 1 - i].0;
        proof {
            lemma_chain_step(piston, facing, (k - i) as int);
        }
        let to = from.offset(offset.x, offset.y, offset.z);
        let block = contiguous[k - 1 - i].1.copy();
        proof {
            let b = world.block_at(from)->0;
            crate::world::lemma_same_block_trans(block, contiguous@[k - 1 - i].1, b);
        }
        moves.push(BlockMove { from, to, block });
        i = i + 1;
    }
    Ok(moves)
}

fn retraction_moves(world: &World, known_region: Option<Region>, piston: Pos, facing: Facing) -> (r: Result<Vec<BlockMove>, PistonError>)
    requires
        world.wf(),
        piston_room(piston, facing),
        is_horizontal(facing),
    ensures
        match scan_retraction(*world, known_region, piston, facing) {
            ChainScan::Length(k) => r matches Ok(moves) && retraction_chain(*world, piston, facing, k, moves@),
            ChainScan::Fails(f) => r matches Err(e) && reports_failure(e, f),
        },
{
    let offset = facing.offset();
    proof {
        lemma_chain_step(piston, facing, 0);
        lemma_chain_step(piston, facing, 1);
    }
    let destination = piston.offset(offset.x, offset.y, offset.z);
    ensure_known(known_region, destination)?;
    match world.get(destination) {
        Some(block) => {
            if !is_piston_head(block) {
                return Err(PistonError::DestinationOccupied { position: destination, kind: block.kind });
            }
        },
        None => {},
    }
    let source = destination.offset(offset.x, offset.y, offset.z);
    ensure_known(known_region, source)?;
    let block = match world.get(source) {
        Some(b) => b.copy(),
        None => {
            return Ok(Vec::new());
        },
    };
    ensure_movable(source, &block)?;
    let mut moves: Vec<BlockMove> = Vec::new();
    moves.push(BlockMove { from: source, to: destination, block });
    Ok(moves)
}

// ---------------------------------------------------------------------------
// Plans and their deltas.
// ---------------------------------------------------------------------------

/// A validated, read-only movement plan. `delta` is the stable completion
/// transition; `moving_delta` installs the transient moving state.
#[derive(Clone, Debug, PartialEq, Eq)]
pub struct PistonPlan {
    pub parent_shape: ShapeId,
    pub piston: Pos,
    pub variant: PistonVariant,
    pub facing: Facing,
    pub action: PistonAction,
    pub state_before: PistonState,
    pub state_after: PistonState,
    pub moved: Vec<BlockMove>,
    pub piston_before: Block,
    pub piston_after: Block,
    pub moving_delta: Option<WorldDelta>,
    pub delta: WorldDelta,
}

/// The piston state at the end of an action.
pub open spec fn final_state(action: PistonAction) -> PistonState {
    match action {
        PistonAction::Extend => PistonState::Extended,
        PistonAction::Retract => PistonState::Retracted,
    }
}

/// The piston state while an action is in motion.
pub open spec fn moving_state(action: PistonAction) -> PistonState {
    match action {
        PistonAction::Extend => PistonState::Extending,
        PistonAction::Retract => PistonState::Retracting,
    }
}

/// The geometric structure every plan has: a piston away from the
/// coordinate limits, a horizontal facing, and moves along its chain.
pub open spec fn plan_wf(plan: PistonPlan) -> bool {
    let k = plan.moved@.len();
    let p = plan.piston;
    let f = plan.facing;
    &&& piston_room(p, f)
    &&& is_horizontal(f)
    &&& plan.state_after == final_state(plan.action)
    &&& match plan.action {
        PistonAction::Extend => k <= 12 && forall|i: int|
            0 <= i < k ==> (#[trigger] plan.moved@[i]).from == chain_pos(p, f, k - i)
                && plan.moved@[i].to == chain_pos(p, f, k - i + 1),
        PistonAction::Retract => k <= 1 && (k == 1 ==> plan.moved@[0].from == chain_pos(p, f, 2)
            && plan.moved@[0].to == chain_pos(p, f, 1)),
    }
}

/// What the after-block of one change must be.
pub enum AfterSpec {
    Air,
    Copy(Block),
    Head,
    Carrier(Block, bool, u8),
    HeadCarrier(bool, u8),
    PistonIn(PistonState),
}

/// A moving carrier of the piston head of `plan`.
pub open spec fn is_head_carrier(b: Block, plan: PistonPlan, extending: bool, progress: u8) -> bool {
    &&& b.kind is MovingPiston
    &&& b.facing == Some(plan.facing)
    &&& b.observed_name is None
    &&& b.observed_properties.pairs().len() == 0
    &&& b.observation_classification == ObservationClassification::Synthetic
    &&& b.powered is None && b.power_level is None && b.delay is None
    &&& b.support_offset is None && b.wire_connections is None
    &&& b.piston_state is None && b.piston_head is None && b.piston_variant is None
    &&& match b.piston_entity {
        Some(e) => e.facing == plan.facing && e.extending == extending && e.source && e.progress
            == progress && is_head_for(*e.pushed_block, plan.piston_before, plan.facing, plan.variant),
        None => false,
    }
}

pub open spec fn after_ok(b: Block, a: AfterSpec, plan: PistonPlan) -> bool {
    match a {
        AfterSpec::Air => is_fresh_block(b, BlockKind::Air),
        AfterSpec::Copy(x) => same_block(b, x),
        AfterSpec::Head => is_head_for(b, plan.piston_before, plan.facing, plan.variant),
        AfterSpec::Carrier(x, extending, progress) => is_moving_carrier(
            b,
            x,
            plan.facing,
            extending,
            false,
            progress,
        ),
        AfterSpec::HeadCarrier(extending, progress) => is_head_carrier(b, plan, extending, progress),
        AfterSpec::PistonIn(s) => is_with_state(b, plan.piston_before, s),
    }
}

/// The chain index of the `i`-th change of an extension with `k` moved
/// blocks: the farthest block, the first free position, then back toward
/// the piston.
pub open spec fn ext_index(i: int, k: int) -> int {
    if i == 0 {
        k
    } else if i == 1 {
        k + 1
    } else {
        k + 1 - i
    }
}

/// The move that ends at chain index `j`.
pub open spec fn reason_into(plan: PistonPlan, j: int) -> ChangeReason {
    ChangeReason::PistonMove {
        from: chain_pos(plan.piston, plan.facing, j - 1),
        to: chain_pos(plan.piston, plan.facing, j),
    }
}

pub open spec fn state_reason(plan: PistonPlan) -> ChangeReason {
    ChangeReason::PistonState { piston: plan.piston }
}

/// Whether a position holds nothing but Air.
pub open spec fn air_like(o: Option<Block>) -> bool {
    match o {
        None => true,
        Some(b) => is_fresh_block(b, BlockKind::Air),
    }
}

/// The changes of the stable completion delta, in order.
pub open spec fn stable_entries(w: World, plan: PistonPlan) -> Seq<(Pos, AfterSpec, ChangeReason)> {
    let k = plan.moved@.len() as int;
    let p = plan.piston;
    let f = plan.facing;
    let piston_entry = (p, AfterSpec::PistonIn(plan.state_after), state_reason(plan));
    match plan.action {
        PistonAction::Extend => if k == 0 {
            seq![piston_entry, (chain_pos(p, f, 1), AfterSpec::Head, state_reason(plan))]
        } else {
            Seq::new(
                (k + 1) as nat,
                |i: int|
                    {
                        let j = ext_index(i, k);
                        if j == 1 {
                            (chain_pos(p, f, 1), AfterSpec::Head, state_reason(plan))
                        } else {
                            (
                                chain_pos(p, f, j),
                                AfterSpec::Copy(plan.moved@[k - j + 1].block),
                                reason_into(plan, j),
                            )
                        }
                    },
            ).push(piston_entry)
        },
        PistonAction::Retract => if k == 1 {
            let pull = ChangeReason::PistonMove { from: chain_pos(p, f, 2), to: chain_pos(p, f, 1) };
            seq![
                (chain_pos(p, f, 2), AfterSpec::Air, pull),
                (chain_pos(p, f, 1), AfterSpec::Copy(plan.moved@[0].block), pull),
                piston_entry,
            ]
        } else if air_like(w.block_at(chain_pos(p, f, 1))) {
            seq![piston_entry]
        } else {
            seq![piston_entry, (chain_pos(p, f, 1), AfterSpec::Air, state_reason(plan))]
        },
    }
}

/// The changes of the moving (start) delta, in order.
pub open spec fn start_entries(plan: PistonPlan) -> Seq<(Pos, AfterSpec, ChangeReason)> {
    let k = plan.moved@.len() as int;
    let p = plan.piston;
    let f = plan.facing;
    let piston_entry = (p, AfterSpec::PistonIn(moving_state(plan.action)), state_reason(plan));
    match plan.action {
        PistonAction::Extend => if k == 0 {
            seq![piston_entry, (chain_pos(p, f, 1), AfterSpec::HeadCarrier(true, 0), state_reason(plan))]
        } else {
            seq![piston_entry] + Seq::new(
                (k + 1) as nat,
                |i: int|
                    {
                        let j = ext_index(i, k);
                        if j == 1 {
                            (chain_pos(p, f, 1), AfterSpec::HeadCarrier(true, 0), state_reason(plan))
                        } else {
                            (
                                chain_pos(p, f, j),
                                AfterSpec::Carrier(plan.moved@[k - j + 1].block, true, 0),
                                reason_into(plan, j),
                            )
                        }
                    },
            )
        },
        PistonAction::Retract => if k == 1 {
            seq![
                piston_entry,
                (
                    chain_pos(p, f, 2),
                    AfterSpec::Carrier(plan.moved@[0].block, false, 1),
                    ChangeReason::PistonMove { from: chain_pos(p, f, 2), to: chain_pos(p, f, 1) },
                ),
                (chain_pos(p, f, 1), AfterSpec::HeadCarrier(false, 1), state_reason(plan)),
            ]
        } else {
            seq![piston_entry, (chain_pos(p, f, 1), AfterSpec::HeadCarrier(false, 1), state_reason(plan))]
        },
    }
}

/// `d` performs exactly the listed changes of `plan` against `w`, carries
/// the plan's moves, and marks the neighborhood of the piston's chain dirty.
pub open spec fn describes(
    d: WorldDelta,
    w: World,
    plan: PistonPlan,
    entries: Seq<(Pos, AfterSpec, ChangeReason)>,
) -> bool {
    let k = plan.moved@.len() as int;
    &&& d.parent_shape == plan.parent_shape
    &&& d.cause == spec_delta_cause(plan.action, plan.piston)
    &&& d.changes@.len() == entries.len()
    &&& forall|i: int|
        0 <= i < entries.len() ==> {
            &&& (#[trigger] d.changes@[i]).position == entries[i].0
            &&& before_matches(w, entries[i].0, d.changes@[i].before)
            &&& after_ok(d.changes@[i].after, entries[i].1, plan)
            &&& d.changes@[i].reason == entries[i].2
        }
    &&& crate::delta::same_moves(d.moves@, plan.moved@)
    &&& sorted_regions(d.dirty_region.regions@)
    &&& forall|x: Region|
        d.dirty_region.regions@.contains(x) <==> exists|j: int|
            0 <= j <= k + 1 && x == spec_around(#[trigger] chain_pos(plan.piston, plan.facing, j), 1)
}

/// One change agrees with one entry of a delta description.
pub open spec fn change_matches(c: BlockChange, w: World, plan: PistonPlan, e: (Pos, AfterSpec, ChangeReason)) -> bool {
    &&& c.position == e.0
    &&& before_matches(w, e.0, c.before)
    &&& after_ok(c.after, e.1, plan)
    &&& c.reason == e.2
}

proof fn lemma_head_for_copy(x: Block, y: Block, piston: Block, f: Facing, v: PistonVariant)
    requires
        same_block(x, y),
        is_head_for(y, piston, f, v),
    ensures
        is_head_for(x, piston, f, v),
{
}

proof fn lemma_with_state_copy(x: Block, y: Block, a: Block, s: PistonState)
    requires
        same_block(x, y),
        is_with_state(y, a, s),
    ensures
        is_with_state(x, a, s),
{
    if let (Some(ex), Some(ey), Some(ea)) = (x.piston_entity, y.piston_entity, a.piston_entity) {
        crate::world::lemma_same_block_trans(*ex.pushed_block, *ey.pushed_block, *ea.pushed_block);
    }
    assert(x.observed_properties.pairs() == y.observed_properties.pairs());
    assert forall|k: Seq<char>| #[trigger] x.observed_properties.lookup(k) == y.observed_properties.lookup(k) by {}
}

proof fn lemma_carrier_copy(b: Block, c1: Block, c2: Block, f: Facing, ext: bool, src: bool, prog: u8)
    requires
        is_moving_carrier(b, c1, f, ext, src, prog),
        same_block(c1, c2),
    ensures
        is_moving_carrier(b, c2, f, ext, src, prog),
{
    if let Some(e) = b.piston_entity {
        crate::world::lemma_same_block_trans(*e.pushed_block, c1, c2);
    }
}

/// A block with the same data as a fresh Air block is fresh Air.
pub proof fn lemma_fresh_copy_pub(a: Block, b: Block)
    requires
        same_block(a, b),
        is_fresh_block(a, BlockKind::Air),
    ensures
        is_fresh_block(b, BlockKind::Air),
{
}

proof fn lemma_fresh_copy(a: Block, b: Block, kind: BlockKind)
    requires
        same_block(a, b),
    ensures
        is_fresh_block(a, kind) <==> is_fresh_block(b, kind),
{
}

fn chain_at(p: Pos, f: Facing, j: i32) -> (r: Pos)
    requires
        piston_room(p, f),
        0 <= j <= 15,
    ensures
        r == chain_pos(p, f, j as int),
{
    match f {
        Facing::North => Pos::new(p.x, p.y, p.z - j),
        Facing::East => Pos::new(p.x + j, p.y, p.z),
        Facing::South => Pos::new(p.x, p.y, p.z + j),
        Facing::West => Pos::new(p.x - j, p.y, p.z),
        Facing::Up => Pos::new(p.x, p.y + j, p.z),
        Facing::Down => Pos::new(p.x, p.y - j, p.z),
    }
}

/// The change at `position` from what `world` holds to `after`.
fn make_change(world: &World, position: Pos, after: Block, reason: ChangeReason) -> (r: BlockChange)
    requires
        world.wf(),
    ensures
        r.position == position,
        before_matches(*world, position, r.before),
        r.after == after,
        r.reason == reason,
{
    let before = world.block_or_air(position);
    proof {
        if let Some(b) = world.block_at(position) {
            crate::world::lemma_same_block_sym(before, b);
        }
    }
    BlockChange { position, before, after, reason }
}

/// The neighborhood of chain positions `0..=m` around a piston.
fn chain_dirty_region(p: Pos, f: Facing, m: usize) -> (r: RegionSet)
    requires
        piston_room(p, f),
        m <= 14,
    ensures
        sorted_regions(r.regions@),
        forall|x: Region|
            r.regions@.contains(x) <==> exists|j: int|
                0 <= j <= m && x == spec_around(#[trigger] chain_pos(p, f, j), 1),
{
    let mut positions: Vec<Pos> = Vec::new();
    let mut j: usize = 0;
    while j <= m
        invariant
            piston_room(p, f),
            m <= 14,
            j <= m + 1,
            positions@.len() == j,
            forall|t: int| 0 <= t < j ==> #[trigger] positions@[t] == chain_pos(p, f, t),
        decreases m + 1 - j,
    {
        positions.push(chain_at(p, f, j as i32));
        j = j + 1;
    }
    proof {
        assert forall|i: int| 0 <= i < positions@.len() implies around_in_range(#[trigger] positions@[i], 1) by {
            lemma_chain_step(p, f, i);
        }
    }
    let r = RegionSet::around_positions(positions, 1);
    proof {
        assert forall|x: Region|
            r.regions@.contains(x) <==> exists|j: int|
                0 <= j <= m && x == spec_around(#[trigger] chain_pos(p, f, j), 1) by {
            if exists|i: int| 0 <= i < positions@.len() && x == spec_around(#[trigger] positions@[i], 1) {
                let i = choose|i: int| 0 <= i < positions@.len() && x == spec_around(#[trigger] positions@[i], 1);
                assert(x == spec_around(chain_pos(p, f, i), 1));
            }
            if exists|j: int| 0 <= j <= m && x == spec_around(#[trigger] chain_pos(p, f, j), 1) {
                let j = choose|j: int| 0 <= j <= m && x == spec_around(#[trigger] chain_pos(p, f, j), 1);
                assert(x == spec_around(positions@[j], 1));
            }
        }
    }
    r
}

/// The piston's own change: its recorded block before, the given block after.
fn piston_change(plan: &PistonPlan, after: Block) -> (r: BlockChange)
    ensures
        r.position == plan.piston,
        same_block(r.before, plan.piston_before),
        r.after == after,
        r.reason == state_reason(*plan),
{
    BlockChange {
        position: plan.piston,
        before: plan.piston_before.copy(),
        after,
        reason: ChangeReason::PistonState { piston: plan.piston },
    }
}

proof fn lemma_piston_before(w: World, plan: PistonPlan, c: BlockChange)
    requires
        holds_copy(w, plan.piston, plan.piston_before),
        same_block(c.before, plan.piston_before),
    ensures
        before_matches(w, plan.piston, c.before),
{
    let b = w.block_at(plan.piston)->0;
    crate::world::lemma_same_block_trans(c.before, plan.piston_before, b);
    crate::world::lemma_same_block_sym(c.before, b);
}

/// The stable completion delta of a plan. A coordinate that is both the
/// source of one block and the destination of another appears once, with
/// its final state.
#[verifier::rlimit(80)]
fn piston_delta(world: &World, plan: &PistonPlan) -> (r: WorldDelta)
    requires
        world.wf(),
        plan_wf(*plan),
        holds_copy(*world, plan.piston, plan.piston_before),
        is_with_state(plan.piston_after, plan.piston_before, plan.state_after),
    ensures
        describes(r, *world, *plan, stable_entries(*world, *plan)),
{
    let k = plan.moved.len();
    let p = plan.piston;
    let f = plan.facing;
    let ghost entries = stable_entries(*world, *plan);
    let mut changes: Vec<BlockChange> = Vec::new();
    match plan.action {
        PistonAction::Extend => {
            if k == 0 {
                let c = piston_change(plan, plan.piston_after.copy());
                proof {
                    lemma_piston_before(*world, *plan, c);
                    lemma_with_state_copy(c.after, plan.piston_after, plan.piston_before, plan.state_after);
                }
                changes.push(c);
                let head = piston_head_block(&plan.piston_before, f, plan.variant);
                changes.push(make_change(world, chain_at(p, f, 1), head, ChangeReason::PistonState { piston: p }));
                proof {
                    assert(change_matches(changes@[0], *world, *plan, entries[0]));
                    assert(change_matches(changes@[1], *world, *plan, entries[1]));
                }
            } else {
                let mut i: usize = 0;
                while i <= k
                    invariant
                        k == plan.moved@.len(),
                        1 <= k <= 12,
                        plan.action is Extend,
                        p == plan.piston,
                        f == plan.facing,
                        world.wf(),
                        plan_wf(*plan),
                        entries == stable_entries(*world, *plan),
                        i <= k + 1,
                        changes@.len() == i,
                        forall|t: int| 0 <= t < i ==> change_matches(#[trigger] changes@[t], *world, *plan, entries[t]),
                    decreases k + 1 - i,
                {
                    let j: usize = if i == 0 {
                        k
                    } else if i == 1 {
                        k + 1
                    } else {
                        k + 1 - i
                    };
                    assert(j as int == ext_index(i as int, k as int));
                    let position = chain_at(p, f, j as i32);
                    if j == 1 {
                        let head = piston_head_block(&plan.piston_before, f, plan.variant);
                        changes.push(make_change(world, position, head, ChangeReason::PistonState { piston: p }));
                    } else {
                        let block = plan.moved[k + 1 - j].block.copy();
                        let from = chain_at(p, f, (j - 1) as i32);
                        changes.push(make_change(world, position, block, ChangeReason::PistonMove { from, to: position }));
                    }
                    proof {
                        assert(change_matches(changes@[i as int], *world, *plan, entries[i as int]));
                    }
                    i = i + 1;
                }
                let c = piston_change(plan, plan.piston_after.copy());
                proof {
                    lemma_piston_before(*world, *plan, c);
                    lemma_with_state_copy(c.after, plan.piston_after, plan.piston_before, plan.state_after);
                }
                changes.push(c);
                proof {
                    assert(change_matches(changes@[k + 1], *world, *plan, entries[k + 1]));
                }
            }
        },
        PistonAction::Retract => {
            if k == 1 {
                let from = plan.moved[0].from;
                let to = plan.moved[0].to;
                changes.push(make_change(world, from, Block::new(BlockKind::Air), ChangeReason::PistonMove { from, to }));
                changes.push(make_change(world, to, plan.moved[0].block.copy(), ChangeReason::PistonMove { from, to }));
                let c = piston_change(plan, plan.piston_after.copy());
                proof {
                    lemma_piston_before(*world, *plan, c);
                    lemma_with_state_copy(c.after, plan.piston_after, plan.piston_before, plan.state_after);
                }
                changes.push(c);
                proof {
                    assert(change_matches(changes@[0], *world, *plan, entries[0]));
                    assert(change_matches(changes@[1], *world, *plan, entries[1]));
                    assert(change_matches(changes@[2], *world, *plan, entries[2]));
                }
            } else {
                let c = piston_change(plan, plan.piston_after.copy());
                proof {
                    lemma_piston_before(*world, *plan, c);
                    lemma_with_state_copy(c.after, plan.piston_after, plan.piston_before, plan.state_after);
                }
                changes.push(c);
                let head_position = chain_at(p, f, 1);
                let head_before = world.block_or_air(head_position);
                let air = Block::new(BlockKind::Air);
                let unchanged = head_before.same_as(&air);
                proof {
                    crate::delta::lemma_fresh_same(air, air, BlockKind::Air);
                    if let Some(b) = world.block_at(head_position) {
                        lemma_fresh_copy(head_before, b, BlockKind::Air);
                    }
                    if is_fresh_block(head_before, BlockKind::Air) {
                        crate::delta::lemma_fresh_same(head_before, air, BlockKind::Air);
                    }
                    if unchanged {
                        lemma_fresh_copy(head_before, air, BlockKind::Air);
                    }
                    assert(unchanged == air_like(world.block_at(head_position)));
                }
                if !unchanged {
                    changes.push(make_change(world, head_position, air, ChangeReason::PistonState { piston: p }));
                    proof {
                        assert(change_matches(changes@[1], *world, *plan, entries[1]));
                    }
                }
                proof {
                    assert(change_matches(changes@[0], *world, *plan, entries[0]));
                }
            }
        },
    }
    let dirty_region = chain_dirty_region(p, f, k + 1);
    let r = WorldDelta {
        parent_shape: plan.parent_shape,
        changes,
        moves: crate::delta::copy_moves(&plan.moved),
        dirty_region,
        cause: delta_cause(plan.action, p),
    };
    proof {
        assert forall|i: int| 0 <= i < entries.len() implies {
            &&& (#[trigger] r.changes@[i]).position == entries[i].0
            &&& before_matches(*world, entries[i].0, r.changes@[i].before)
            &&& after_ok(r.changes@[i].after, entries[i].1, *plan)
            &&& r.changes@[i].reason == entries[i].2
        } by {
            assert(change_matches(r.changes@[i], *world, *plan, entries[i]));
        }
    }
    r
}

proof fn lemma_head_carrier(b: Block, head: Block, plan: PistonPlan, extending: bool, progress: u8)
    requires
        is_moving_carrier(b, head, plan.facing, extending, true, progress),
        is_head_for(head, plan.piston_before, plan.facing, plan.variant),
    ensures
        is_head_carrier(b, plan, extending, progress),
{
    if let Some(e) = b.piston_entity {
        lemma_head_for_copy(*e.pushed_block, head, plan.piston_before, plan.facing, plan.variant);
    }
}

/// A moving carrier of the piston head, as installed when an actuation
/// starts.
fn head_carrier(plan: &PistonPlan, extending: bool, progress: u8) -> (r: Block)
    ensures
        is_head_carrier(r, *plan, extending, progress),
{
    let head = piston_head_block(&plan.piston_before, plan.facing, plan.variant);
    let ghost h = head;
    let r = moving_block(head, plan.facing, extending, true, progress);
    proof {
        lemma_head_carrier(r, h, *plan, extending, progress);
    }
    r
}

/// A moving carrier of a moved block.
fn block_carrier(block: &Block, facing: Facing, extending: bool, progress: u8) -> (r: Block)
    ensures
        is_moving_carrier(r, *block, facing, extending, false, progress),
{
    let c = block.copy();
    let ghost cc = c;
    let r = moving_block(c, facing, extending, false, progress);
    proof {
        lemma_carrier_copy(r, cc, *block, facing, extending, false, progress);
    }
    r
}

/// The transient delta installed when the block event starts: each moved
/// destination holds a moving carrier of its block and the head position a
/// carrier of the piston head.
#[verifier::rlimit(80)]
fn piston_start_delta(world: &World, plan: &PistonPlan) -> (r: WorldDelta)
    requires
        world.wf(),
        plan_wf(*plan),
        holds_copy(*world, plan.piston, plan.piston_before),
    ensures
        describes(r, *world, *plan, start_entries(*plan)),
{
    let k = plan.moved.len();
    let p = plan.piston;
    let f = plan.facing;
    let ghost entries = start_entries(*plan);
    let mut changes: Vec<BlockChange> = Vec::new();
    let moving = match plan.action {
        PistonAction::Extend => PistonState::Extending,
        PistonAction::Retract => PistonState::Retracting,
    };
    let c = piston_change(plan, with_piston_state(&plan.piston_before, moving));
    proof {
        lemma_piston_before(*world, *plan, c);
    }
    changes.push(c);
    proof {
        assert(change_matches(changes@[0], *world, *plan, entries[0]));
    }
    match plan.action {
        PistonAction::Extend => {
            if k == 0 {
                changes.push(make_change(world, chain_at(p, f, 1), head_carrier(plan, true, 0), ChangeReason::PistonState { piston: p }));
                proof {
                    assert(change_matches(changes@[1], *world, *plan, entries[1]));
                }
            } else {
                let mut i: usize = 0;
                while i <= k
                    invariant
                        k == plan.moved@.len(),
                        1 <= k <= 12,
                        plan.action is Extend,
                        p == plan.piston,
                        f == plan.facing,
                        world.wf(),
                        plan_wf(*plan),
                        entries == start_entries(*plan),
                        i <= k + 1,
                        changes@.len() == i + 1,
                        forall|t: int| 0 <= t < i + 1 ==> change_matches(#[trigger] changes@[t], *world, *plan, entries[t]),
                    decreases k + 1 - i,
                {
                    let j: usize = if i == 0 {
                        k
                    } else if i == 1 {
                        k + 1
                    } else {
                        k + 1 - i
                    };
                    assert(j as int == ext_index(i as int, k as int));
                    let position = chain_at(p, f, j as i32);
                    if j == 1 {
                        changes.push(make_change(world, position, head_carrier(plan, true, 0), ChangeReason::PistonState { piston: p }));
                    } else {
                        let carrier = block_carrier(&plan.moved[k + 1 - j].block, f, true, 0);
                        let from = chain_at(p, f, (j - 1) as i32);
                        changes.push(make_change(world, position, carrier, ChangeReason::PistonMove { from, to: position }));
                    }
                    proof {
                        assert(change_matches(changes@[i + 1], *world, *plan, entries[i + 1]));
                    }
                    i = i + 1;
                }
            }
        },
        PistonAction::Retract => {
            if k == 1 {
                let from = plan.moved[0].from;
                let to = plan.moved[0].to;
                let carrier = block_carrier(&plan.moved[0].block, f, false, 1);
                changes.push(make_change(world, from, carrier, ChangeReason::PistonMove { from, to }));
                changes.push(make_change(world, to, head_carrier(plan, false, 1), ChangeReason::PistonState { piston: p }));
                proof {
                    assert(change_matches(changes@[1], *world, *plan, entries[1]));
                    assert(change_matches(changes@[2], *world, *plan, entries[2]));
                }
            } else {
                changes.push(make_change(world, chain_at(p, f, 1), head_carrier(plan, false, 1), ChangeReason::PistonState { piston: p }));
                proof {
                    assert(change_matches(changes@[1], *world, *plan, entries[1]));
                }
            }
        },
    }
    let dirty_region = chain_dirty_region(p, f, k + 1);
    let r = WorldDelta {
        parent_shape: plan.parent_shape,
        changes,
        moves: crate::delta::copy_moves(&plan.moved),
        dirty_region,
        cause: delta_cause(plan.action, p),
    };
    proof {
        assert forall|i: int| 0 <= i < entries.len() implies {
            &&& (#[trigger] r.changes@[i]).position == entries[i].0
            &&& before_matches(*world, entries[i].0, r.changes@[i].before)
            &&& after_ok(r.changes@[i].after, entries[i].1, *plan)
            &&& r.changes@[i].reason == entries[i].2
        } by {
            assert(change_matches(r.changes@[i], *world, *plan, entries[i]));
        }
    }
    r
}

// ---------------------------------------------------------------------------
// Planning.
// ---------------------------------------------------------------------------

/// Property names that carry a piston's signal or motion state.
pub open spec fn motion_key(k: Seq<char>) -> bool {
    k == "powered"@ || k == "extended"@ || k == "power"@ || k == "lit"@
}

/// Two piston blocks agree on their geometry: everything except signal
/// values and the motion state.
pub open spec fn geometry_eq(a: Block, b: Block) -> bool {
    &&& a.kind == b.kind
    &&& opt_view(a.observed_name) == opt_view(b.observed_name)
    &&& a.observation_classification == b.observation_classification
    &&& a.facing == b.facing
    &&& a.delay == b.delay
    &&& a.support_offset == b.support_offset
    &&& a.wire_connections == b.wire_connections
    &&& a.piston_variant == b.piston_variant
    &&& forall|k: Seq<char>|
        !motion_key(k) ==> #[trigger] a.observed_properties.lookup(k) == b.observed_properties.lookup(k)
}

fn is_motion_key(k: &str) -> (r: bool)
    ensures
        r == motion_key(k@),
{
    str_eq(k, "powered") || str_eq(k, "extended") || str_eq(k, "power") || str_eq(k, "lit")
}

fn opt_str_eq(a: &Option<String>, b: &Option<String>) -> (r: bool)
    ensures
        r == (opt_view(*a) == opt_view(*b)),
{
    match (a, b) {
        (Some(x), Some(y)) => str_eq(x.as_str(), y.as_str()),
        (None, None) => true,
        _ => false,
    }
}

/// Whether every non-motion entry of `a` is also in `b`.
fn props_covered(a: &PropertyMap, b: &PropertyMap) -> (r: bool)
    ensures
        r == forall|t: int|
            0 <= t < a.pairs().len() && !motion_key(#[trigger] a.pairs()[t].0) ==> a.lookup(
                a.pairs()[t].0,
            ) == b.lookup(a.pairs()[t].0),
{
    let n = a.len();
    let mut i: usize = 0;
    while i < n
        invariant
            n == a.pairs().len(),
            i <= n,
            forall|t: int|
                0 <= t < i && !motion_key(#[trigger] a.pairs()[t].0) ==> a.lookup(a.pairs()[t].0)
                    == b.lookup(a.pairs()[t].0),
        decreases n - i,
    {
        let (k, v) = a.entry_at(i);
        if !is_motion_key(k.as_str()) {
            let same = match b.get(k.as_str()) {
                Some(w) => str_eq(w.as_str(), v.as_str()),
                None => false,
            };
            if !same {
                return false;
            }
        }
        i = i + 1;
    }
    true
}

proof fn lemma_lookup_has_entry(m: PropertyMap, k: Seq<char>)
    requires
        m.lookup(k) is Some,
    ensures
        exists|t: int| 0 <= t < m.pairs().len() && (#[trigger] m.pairs()[t]).0 == k,
{
}

/// Whether two piston blocks agree on their geometry.
fn same_geometry(a: &Block, b: &Block) -> (r: bool)
    ensures
        r == geometry_eq(*a, *b),
{
    if !(a.kind == b.kind && opt_str_eq(&a.observed_name, &b.observed_name)
        && a.observation_classification == b.observation_classification && a.facing == b.facing
        && a.delay == b.delay && a.support_offset == b.support_offset && a.wire_connections
        == b.wire_connections && a.piston_variant == b.piston_variant) {
        return false;
    }
    let ab = props_covered(&a.observed_properties, &b.observed_properties);
    let ba = props_covered(&b.observed_properties, &a.observed_properties);
    proof {
        if ab && ba {
            assert forall|k: Seq<char>| !motion_key(k) implies #[trigger] a.observed_properties.lookup(k)
                == b.observed_properties.lookup(k) by {
                if a.observed_properties.lookup(k) is Some {
                    lemma_lookup_has_entry(a.observed_properties, k);
                } else if b.observed_properties.lookup(k) is Some {
                    lemma_lookup_has_entry(b.observed_properties, k);
                }
            }
        }
    }
    ab && ba
}

proof fn lemma_with_state_geometry(x: Block, a: Block, b: Block, s: PistonState)
    requires
        is_with_state(x, a, s),
    ensures
        geometry_eq(b, x) <==> geometry_eq(b, a),
{
    reveal_strlit("extended");
    if a.observed_name is None {
        assert forall|k: Seq<char>| #[trigger] x.observed_properties.lookup(k) == a.observed_properties.lookup(k) by {}
    }
}

/// Why planning fails, or the length of the chain it moves.
pub open spec fn plan_outcome(w: World, known: Option<Region>, pos: Pos, action: PistonAction) -> ChainScan {
    if !known_at(known, pos) {
        ChainScan::Fails(PlanFailure::UnknownSpace(pos))
    } else {
        match w.block_at(pos) {
            None => ChainScan::Fails(PlanFailure::MissingPiston(pos)),
            Some(b) => if !(b.kind is Piston) {
                ChainScan::Fails(PlanFailure::WrongBlock(pos, b.kind))
            } else {
                match b.facing {
                    None => ChainScan::Fails(PlanFailure::UnsupportedFacing(pos, Facing::North)),
                    Some(f) => if !is_horizontal(f) {
                        ChainScan::Fails(PlanFailure::UnsupportedFacing(pos, f))
                    } else {
                        let st = spec_piston_state(b);
                        if !(st is Retracted || st is Extended) || (action is Extend
                            && st is Extended) || (action is Retract && st is Retracted) {
                            ChainScan::Fails(PlanFailure::InvalidState(pos, action, st))
                        } else {
                            match action {
                                PistonAction::Extend => scan_extension(w, known, pos, f, 0),
                                PistonAction::Retract => if spec_piston_variant(b) is Sticky {
                                    scan_retraction(w, known, pos, f)
                                } else {
                                    ChainScan::Length(0)
                                },
                            }
                        }
                    },
                }
            },
        }
    }
}

/// `plan` is the plan for moving a chain of `k` blocks with the piston at
/// `pos` of `w`.
pub open spec fn plan_made(w: World, pos: Pos, action: PistonAction, k: nat, plan: PistonPlan) -> bool {
    let b = w.block_at(pos)->0;
    &&& plan.parent_shape == spec_shape_id(w)
    &&& plan.piston == pos
    &&& plan.facing == b.facing->0
    &&& plan.variant == spec_piston_variant(b)
    &&& plan.action == action
    &&& plan.state_before == spec_piston_state(b)
    &&& plan_wf(plan)
    &&& holds_copy(w, pos, plan.piston_before)
    &&& is_with_state(plan.piston_after, plan.piston_before, plan.state_after)
    &&& match action {
        PistonAction::Extend => extension_chain(w, pos, plan.facing, k, plan.moved@),
        PistonAction::Retract => retraction_chain(w, pos, plan.facing, k, plan.moved@),
    }
    &&& describes(plan.delta, w, plan, stable_entries(w, plan))
    &&& plan.moving_delta matches Some(d) && describes(d, w, plan, start_entries(plan))
}

#[verifier::rlimit(60)]
fn plan_piston_with_region(world: &World, known_region: Option<Region>, position: Pos, action: PistonAction) -> (r: Result<PistonPlan, PistonError>)
    requires
        world.wf(),
        planning_room(*world, position),
    ensures
        match plan_outcome(*world, known_region, position, action) {
            ChainScan::Length(k) => r matches Ok(plan) && plan_made(*world, position, action, k, plan),
            ChainScan::Fails(f) => r matches Err(e) && reports_failure(e, f),
        },
{
    ensure_known(known_region, position)?;
    let piston = match world.get(position) {
        Some(b) => b.copy(),
        None => {
            return Err(PistonError::MissingPiston { position });
        },
    };
    if piston.kind != BlockKind::Piston {
        return Err(PistonError::WrongBlock { position, actual: piston.kind });
    }
    let facing = match piston.facing {
        Some(f) => f,
        None => {
            return Err(PistonError::UnsupportedFacing { position, facing: Facing::North });
        },
    };
    if facing.horizontal_offset().is_none() {
        return Err(PistonError::UnsupportedFacing { position, facing });
    }
    let before = piston_state(&piston);
    if !before.is_stable() || (action == PistonAction::Extend && before == PistonState::Extended)
        || (action == PistonAction::Retract && before == PistonState::Retracted) {
        return Err(PistonError::InvalidState { position, action, state: before });
    }
    let variant = piston_variant(&piston);
    let moved = match action {
        PistonAction::Extend => extension_moves(world, known_region, position, facing)?,
        PistonAction::Retract => {
            if variant == PistonVariant::Sticky {
                retraction_moves(world, known_region, position, facing)?
            } else {
                Vec::new()
            }
        },
    };
    proof {
        if action is Extend {
            if let ChainScan::Length(k) = scan_extension(*world, known_region, position, facing, 0) {
                lemma_scan_extension_facts(*world, known_region, position, facing, 0, k);
            }
        }
    }
    let after = match action {
        PistonAction::Extend => PistonState::Extended,
        PistonAction::Retract => PistonState::Retracted,
    };
    let piston_after = with_piston_state(&piston, after);
    let parent_shape = world.shape_id();
    let draft = PistonPlan {
        parent_shape,
        piston: position,
        variant,
        facing,
        action,
        state_before: before,
        state_after: after,
        moved,
        piston_before: piston,
        piston_after,
        moving_delta: None,
        delta: WorldDelta::empty(parent_shape, delta_cause(action, position)),
    };
    let delta = piston_delta(world, &draft);
    let moving_delta = piston_start_delta(world, &draft);
    let plan = PistonPlan {
        parent_shape: draft.parent_shape,
        piston: draft.piston,
        variant: draft.variant,
        facing: draft.facing,
        action: draft.action,
        state_before: draft.state_before,
        state_after: draft.state_after,
        moved: draft.moved,
        piston_before: draft.piston_before,
        piston_after: draft.piston_after,
        moving_delta: Some(moving_delta),
        delta,
    };
    proof {
        assert(stable_entries(*world, plan) == stable_entries(*world, draft));
        assert(start_entries(plan) == start_entries(draft));
    }
    Ok(plan)
}

/// Builds a movement plan without mutating `world`; absent blocks are Air.
pub fn plan_piston(world: &World, position: Pos, action: PistonAction) -> (r: Result<PistonPlan, PistonError>)
    requires
        world.wf(),
        planning_room(*world, position),
    ensures
        match plan_outcome(*world, None, position, action) {
            ChainScan::Length(k) => r matches Ok(plan) && plan_made(*world, position, action, k, plan),
            ChainScan::Fails(f) => r matches Err(e) && reports_failure(e, f),
        },
{
    plan_piston_with_region(world, None, position, action)
}

/// Builds a plan inside a complete observation region: an absent block is
/// Air only inside `known_region`; leaving it fails with `UnknownSpace`.
pub fn plan_piston_in_region(world: &World, known_region: Region, position: Pos, action: PistonAction) -> (r: Result<PistonPlan, PistonError>)
    requires
        world.wf(),
        planning_room(*world, position),
    ensures
        match plan_outcome(*world, Some(known_region), position, action) {
            ChainScan::Length(k) => r matches Ok(plan) && plan_made(*world, position, action, k, plan),
            ChainScan::Fails(f) => r matches Err(e) && reports_failure(e, f),
        },
{
    plan_piston_with_region(world, Some(known_region), position, action)
}

/// A caller-provided completeness boundary for piston planning.
#[derive(Clone, Copy, Debug, PartialEq, Eq, Structural)]
pub struct PistonPlanningContext {
    pub known_region: Region,
}

impl PistonPlanningContext {
    pub fn new(known_region: Region) -> (r: PistonPlanningContext)
        ensures
            r.known_region == known_region,
    {
        PistonPlanningContext { known_region }
    }

    /// Plans inside this context's known region.
    pub fn plan(self, world: &World, position: Pos, action: PistonAction) -> (r: Result<PistonPlan, PistonError>)
        requires
            world.wf(),
            planning_room(*world, position),
        ensures
            match plan_outcome(*world, Some(self.known_region), position, action) {
                ChainScan::Length(k) => r matches Ok(plan) && plan_made(*world, position, action, k, plan),
                ChainScan::Fails(f) => r matches Err(e) && reports_failure(e, f),
            },
    {
        plan_piston_in_region(world, self.known_region, position, action)
    }
}

// ---------------------------------------------------------------------------
// Plan execution.
// ---------------------------------------------------------------------------

/// The position of the first change (among the first `n`) whose expected
/// before-state differs from what `w` holds.
pub open spec fn first_before_mismatch(cs: Seq<BlockChange>, w: World, n: nat) -> Option<Pos>
    decreases n,
{
    if n == 0 {
        None
    } else {
        match first_before_mismatch(cs, w, (n - 1) as nat) {
            Some(p) => Some(p),
            None => if !before_matches(w, cs[n - 1].position, cs[n - 1].before) {
                Some(cs[n - 1].position)
            } else {
                None
            },
        }
    }
}

/// Where a plan is stale against `w`, if it is.
pub open spec fn stale_position(plan: PistonPlan, w: World) -> Option<Pos> {
    if spec_shape_id(w) != plan.delta.parent_shape {
        Some(plan.piston)
    } else {
        first_before_mismatch(plan.delta.changes@, w, plan.delta.changes@.len())
    }
}

proof fn lemma_mismatch_stable(cs: Seq<BlockChange>, w: World, a: nat, b: nat)
    requires
        a <= b,
        first_before_mismatch(cs, w, a) is Some,
    ensures
        first_before_mismatch(cs, w, b) == first_before_mismatch(cs, w, a),
    decreases b - a,
{
    if a < b {
        lemma_mismatch_stable(cs, w, a, (b - 1) as nat);
    }
}

fn validate_plan(plan: &PistonPlan, world: &World) -> (r: Result<(), PistonError>)
    requires
        world.wf(),
    ensures
        r is Ok <==> stale_position(*plan, *world) is None,
        r matches Err(e) ==> e == (PistonError::StalePlan { position: stale_position(*plan, *world)->0 }),
{
    if world.shape_id() != plan.delta.parent_shape {
        return Err(PistonError::StalePlan { position: plan.piston });
    }
    let n = plan.delta.changes.len();
    let mut i: usize = 0;
    while i < n
        invariant
            n == plan.delta.changes@.len(),
            i <= n,
            world.wf(),
            spec_shape_id(*world) == plan.delta.parent_shape,
            first_before_mismatch(plan.delta.changes@, *world, i as nat) is None,
        decreases n - i,
    {
        let position = plan.delta.changes[i].position;
        let actual = world.block_or_air(position);
        let matches = actual.same_as(&plan.delta.changes[i].before);
        proof {
            let before = plan.delta.changes@[i as int].before;
            match world.block_at(position) {
                Some(b) => {
                    if same_block(b, before) {
                        crate::world::lemma_same_block_sym(actual, b);
                        crate::world::lemma_same_block_trans(actual, b, before);
                    }
                    if matches {
                        crate::world::lemma_same_block_sym(actual, b);
                        crate::world::lemma_same_block_trans(b, actual, before);
                    }
                },
                None => {
                    if is_fresh_block(before, BlockKind::Air) {
                        crate::delta::lemma_fresh_same(actual, before, BlockKind::Air);
                    }
                    if matches {
                        lemma_fresh_copy(actual, before, BlockKind::Air);
                    }
                },
            }
        }
        if !matches {
            proof {
                lemma_mismatch_stable(plan.delta.changes@, *world, (i + 1) as nat, n as nat);
            }
            return Err(PistonError::StalePlan { position });
        }
        i = i + 1;
    }
    Ok(())
}

/// The changes a start delta installs: those of the stored moving delta
/// (a plan without one installs only its piston change).
pub open spec fn start_changes(plan: PistonPlan) -> Seq<BlockChange> {
    match plan.moving_delta {
        Some(d) => d.changes@,
        None => Seq::empty(),
    }
}

/// The first position (other than the piston, among the first `n` start
/// changes) where the world no longer shows the moving state.
pub open spec fn first_moving_mismatch(cs: Seq<BlockChange>, piston: Pos, w: World, n: nat) -> Option<Pos>
    decreases n,
{
    if n == 0 {
        None
    } else {
        match first_moving_mismatch(cs, piston, w, (n - 1) as nat) {
            Some(p) => Some(p),
            None => if cs[n - 1].position != piston && !before_matches(
                w,
                cs[n - 1].position,
                cs[n - 1].after,
            ) {
                Some(cs[n - 1].position)
            } else {
                None
            },
        }
    }
}

proof fn lemma_moving_mismatch_stable(cs: Seq<BlockChange>, piston: Pos, w: World, a: nat, b: nat)
    requires
        a <= b,
        first_moving_mismatch(cs, piston, w, a) is Some,
    ensures
        first_moving_mismatch(cs, piston, w, b) == first_moving_mismatch(cs, piston, w, a),
    decreases b - a,
{
    if a < b {
        lemma_moving_mismatch_stable(cs, piston, w, a, (b - 1) as nat);
    }
}

/// Where a completion against `w` finds the plan stale, if it does.
pub open spec fn completion_stale(plan: PistonPlan, w: World) -> Option<Pos> {
    match w.block_at(plan.piston) {
        None => Some(plan.piston),
        Some(b) => if spec_piston_state(b) != moving_state(plan.action) {
            Some(plan.piston)
        } else if !geometry_eq(b, plan.piston_before) {
            Some(plan.piston)
        } else {
            first_moving_mismatch(start_changes(plan), plan.piston, w, start_changes(plan).len())
        },
    }
}

pub open spec fn same_opt_delta(a: Option<WorldDelta>, b: Option<WorldDelta>) -> bool {
    match (a, b) {
        (None, None) => true,
        (Some(x), Some(y)) => crate::delta::same_delta(x, y),
        _ => false,
    }
}


/// `r` is the delta that starts `plan`: its recorded moving delta, or else
/// the piston alone switching to its moving state.
pub open spec fn starts_with(r: WorldDelta, plan: PistonPlan) -> bool {
    match plan.moving_delta {
        Some(d) => crate::delta::same_delta(r, d),
        None => {
            &&& r.parent_shape == plan.parent_shape
            &&& r.changes@.len() == 1
            &&& r.changes@[0].position == plan.piston
            &&& same_block(r.changes@[0].before, plan.piston_before)
            &&& is_with_state(r.changes@[0].after, plan.piston_before, moving_state(plan.action))
            &&& r.changes@[0].reason == state_reason(plan)
            &&& r.moves@.len() == 0
            &&& sorted_regions(r.dirty_region.regions@)
            &&& forall|x: Region| r.dirty_region.regions@.contains(x) <==> x == spec_around(plan.piston, 1)
            &&& r.cause == spec_delta_cause(plan.action, plan.piston)
        },
    }
}

impl PistonPlan {
    pub fn moved_count(&self) -> (r: usize)
        ensures
            r == self.moved@.len(),
    {
        self.moved.len()
    }

    /// The final coordinate states of the stable delta.
    pub fn world_changes(&self) -> (r: Vec<(Pos, Block)>)
        ensures
            r@.len() == self.delta.changes@.len(),
            forall|i: int|
                0 <= i < r@.len() ==> (#[trigger] r@[i]).0 == self.delta.changes@[i].position
                    && same_block(r@[i].1, self.delta.changes@[i].after),
    {
        let mut out: Vec<(Pos, Block)> = Vec::new();
        let n = self.delta.changes.len();
        let mut i: usize = 0;
        while i < n
            invariant
                n == self.delta.changes@.len(),
                i <= n,
                out@.len() == i,
                forall|j: int|
                    0 <= j < i ==> (#[trigger] out@[j]).0 == self.delta.changes@[j].position
                        && same_block(out@[j].1, self.delta.changes@[j].after),
            decreases n - i,
        {
            out.push((self.delta.changes[i].position, self.delta.changes[i].after.copy()));
            i = i + 1;
        }
        out
    }

    /// The stable shape transition of this plan.
    pub fn world_delta(&self) -> (r: &WorldDelta)
        ensures
            *r == self.delta,
    {
        &self.delta
    }

    /// The transition at the start of an actuation: the stored moving delta,
    /// or (for a plan without one) only the piston entering its moving state.
    pub fn start_delta(&self) -> (r: WorldDelta)
        requires
            self.moving_delta is Some || around_in_range(self.piston, 1),
        ensures
            starts_with(r, *self),
    {
        match &self.moving_delta {
            Some(d) => d.copy(),
            None => {
                let moving = match self.action {
                    PistonAction::Extend => PistonState::Extending,
                    PistonAction::Retract => PistonState::Retracting,
                };
                let mut changes: Vec<BlockChange> = Vec::new();
                changes.push(piston_change(self, with_piston_state(&self.piston_before, moving)));
                let mut positions: Vec<Pos> = Vec::new();
                positions.push(self.piston);
                let dirty_region = RegionSet::around_positions(positions, 1);
                proof {
                    assert forall|x: Region|
                        dirty_region.regions@.contains(x) <==> x == spec_around(self.piston, 1) by {
                        if x == spec_around(self.piston, 1) {
                            assert(x == spec_around(positions@[0], 1));
                        }
                    }
                }
                WorldDelta {
                    parent_shape: self.parent_shape,
                    changes,
                    moves: Vec::new(),
                    dirty_region,
                    cause: delta_cause(self.action, self.piston),
                }
            },
        }
    }

    /// Rebases the stable completion after the start delta has been applied.
    /// The moving state and the piston's geometry are checked first, so an
    /// external mutation during the motion fails closed.
    #[verifier::rlimit(60)]
    pub fn completion_plan(&self, world: &World) -> (r: Result<PistonPlan, PistonError>)
        requires
            world.wf(),
            plan_wf(*self),
        ensures
            match completion_stale(*self, *world) {
                Some(p) => r == Err::<PistonPlan, PistonError>(PistonError::StalePlan { position: p }),
                None => r matches Ok(c) && {
                    &&& c.parent_shape == spec_shape_id(*world)
                    &&& c.piston == self.piston
                    &&& c.variant == self.variant
                    &&& c.facing == self.facing
                    &&& c.action == self.action
                    &&& c.state_before == self.state_before
                    &&& c.state_after == self.state_after
                    &&& crate::delta::same_moves(c.moved@, self.moved@)
                    &&& holds_copy(*world, self.piston, c.piston_before)
                    &&& is_with_state(c.piston_after, c.piston_before, c.state_after)
                    &&& same_opt_delta(c.moving_delta, self.moving_delta)
                    &&& plan_wf(c)
                    &&& describes(c.delta, *world, c, stable_entries(*world, c))
                },
            },
    {
        let piston = match world.get(self.piston) {
            Some(b) => b.copy(),
            None => {
                return Err(PistonError::StalePlan { position: self.piston });
            },
        };
        let expected_state = match self.action {
            PistonAction::Extend => PistonState::Extending,
            PistonAction::Retract => PistonState::Retracting,
        };
        if piston_state(&piston) != expected_state {
            return Err(PistonError::StalePlan { position: self.piston });
        }
        let expected_piston = with_piston_state(&self.piston_before, expected_state);
        let geometry = same_geometry(&piston, &expected_piston);
        proof {
            let b = world.block_at(self.piston)->0;
            lemma_with_state_geometry(expected_piston, self.piston_before, piston, expected_state);
            lemma_geometry_copy(piston, b, self.piston_before);
        }
        if !geometry {
            return Err(PistonError::StalePlan { position: self.piston });
        }
        match &self.moving_delta {
            Some(start) => {
                let n = start.changes.len();
                let mut i: usize = 0;
                while i < n
                    invariant
                        n == start.changes@.len(),
                        self.moving_delta == Some(*start),
                        i <= n,
                        world.wf(),
                        world.block_at(self.piston) is Some,
                        spec_piston_state(world.block_at(self.piston)->0) == moving_state(self.action),
                        geometry_eq(world.block_at(self.piston)->0, self.piston_before),
                        first_moving_mismatch(start.changes@, self.piston, *world, i as nat) is None,
                    decreases n - i,
                {
                    let position = start.changes[i].position;
                    if position != self.piston {
                        let actual = world.block_or_air(position);
                        let matches = actual.same_as(&start.changes[i].after);
                        proof {
                            let after = start.changes@[i as int].after;
                            match world.block_at(position) {
                                Some(b) => {
                                    if same_block(b, after) {
                                        crate::world::lemma_same_block_sym(actual, b);
                                        crate::world::lemma_same_block_trans(actual, b, after);
                                    }
                                    if matches {
                                        crate::world::lemma_same_block_sym(actual, b);
                                        crate::world::lemma_same_block_trans(b, actual, after);
                                    }
                                },
                                None => {
                                    if is_fresh_block(after, BlockKind::Air) {
                                        crate::delta::lemma_fresh_same(actual, after, BlockKind::Air);
                                    }
                                    if matches {
                                        lemma_fresh_copy(actual, after, BlockKind::Air);
                                    }
                                },
                            }
                        }
                        if !matches {
                            proof {
                                lemma_moving_mismatch_stable(start.changes@, self.piston, *world, (i + 1) as nat, n as nat);
                            }
                            return Err(PistonError::StalePlan { position });
                        }
                    }
                    i = i + 1;
                }
            },
            None => {},
        }
        let piston_after = with_piston_state(&piston, self.state_after);
        let moving_delta = match &self.moving_delta {
            Some(d) => Some(d.copy()),
            None => None,
        };
        let parent_shape = world.shape_id();
        let draft = PistonPlan {
            parent_shape,
            piston: self.piston,
            variant: self.variant,
            facing: self.facing,
            action: self.action,
            state_before: self.state_before,
            state_after: self.state_after,
            moved: crate::delta::copy_moves(&self.moved),
            piston_before: piston,
            piston_after,
            moving_delta,
            delta: WorldDelta::empty(parent_shape, delta_cause(self.action, self.piston)),
        };
        proof {
            let b = world.block_at(self.piston)->0;
            assert(holds_copy(*world, self.piston, draft.piston_before));
            assert(plan_wf(draft));
        }
        let delta = piston_delta(world, &draft);
        let completion = PistonPlan {
            parent_shape: draft.parent_shape,
            piston: draft.piston,
            variant: draft.variant,
            facing: draft.facing,
            action: draft.action,
            state_before: draft.state_before,
            state_after: draft.state_after,
            moved: draft.moved,
            piston_before: draft.piston_before,
            piston_after: draft.piston_after,
            moving_delta: draft.moving_delta,
            delta,
        };
        proof {
            assert(stable_entries(*world, completion) == stable_entries(*world, draft));
        }
        Ok(completion)
    }

    /// Applies the plan atomically: a stale plan changes nothing.
    pub fn apply(&self, world: &mut World) -> (r: Result<(), PistonError>)
        requires
            old(world).wf(),
        ensures
            final(world).wf(),
            match stale_position(*self, *old(world)) {
                Some(p) => r == Err::<(), PistonError>(PistonError::StalePlan { position: p })
                    && *final(world) == *old(world),
                None => match delta_check(self.delta, *old(world)) {
                    DeltaCheck::Valid => r is Ok && crate::delta::applied_world(
                        *old(world),
                        self.delta.changes@,
                        *final(world),
                    ),
                    c => r matches Err(PistonError::DeltaApplication(e)) && reports(
                        *e,
                        c,
                        self.delta,
                        *old(world),
                    ) && *final(world) == *old(world),
                },
            },
    {
        validate_plan(self, world)?;
        match self.delta.apply(world) {
            Ok(()) => Ok(()),
            Err(e) => Err(PistonError::DeltaApplication(Box::new(e))),
        }
    }
}

proof fn lemma_geometry_copy(x: Block, b: Block, a: Block)
    requires
        same_block(x, b),
    ensures
        geometry_eq(x, a) <==> geometry_eq(b, a),
{
    assert(x.observed_properties.pairs() == b.observed_properties.pairs());
    assert forall|k: Seq<char>| #[trigger] x.observed_properties.lookup(k) == b.observed_properties.lookup(k) by {}
    if geometry_eq(x, a) {
        assert forall|k: Seq<char>| !motion_key(k) implies #[trigger] b.observed_properties.lookup(k) == a.observed_properties.lookup(k) by {
            assert(x.observed_properties.lookup(k) == a.observed_properties.lookup(k));
        }
    }
    if geometry_eq(b, a) {
        assert forall|k: Seq<char>| !motion_key(k) implies #[trigger] x.observed_properties.lookup(k) == a.observed_properties.lookup(k) by {
            assert(b.observed_properties.lookup(k) == a.observed_properties.lookup(k));
        }
    }
}

/// Two plans describe the same actuation.
pub open spec fn same_plan(a: PistonPlan, b: PistonPlan) -> bool {
    &&& a.parent_shape == b.parent_shape
    &&& a.piston == b.piston
    &&& a.variant == b.variant
    &&& a.facing == b.facing
    &&& a.action == b.action
    &&& a.state_before == b.state_before
    &&& a.state_after == b.state_after
    &&& crate::delta::same_moves(a.moved@, b.moved@)
    &&& same_block(a.piston_before, b.piston_before)
    &&& same_block(a.piston_after, b.piston_after)
    &&& same_opt_delta(a.moving_delta, b.moving_delta)
    &&& crate::delta::same_delta(a.delta, b.delta)
}

impl PistonPlan {
    /// A copy of this plan.
    pub fn copy(&self) -> (r: PistonPlan)
        ensures
            same_plan(r, *self),
    {
        PistonPlan {
            parent_shape: self.parent_shape,
            piston: self.piston,
            variant: self.variant,
            facing: self.facing,
            action: self.action,
            state_before: self.state_before,
            state_after: self.state_after,
            moved: crate::delta::copy_moves(&self.moved),
            piston_before: self.piston_before.copy(),
            piston_after: self.piston_after.copy(),
            moving_delta: match &self.moving_delta {
                Some(d) => Some(d.copy()),
                None => None,
            },
            delta: self.delta.copy(),
        }
    }
}

} // verus!
