//! Minecraft block and world primitives.

use vstd::prelude::*;

use crate::behavior::{behavior_profile, spec_behavior_profile};
use crate::props::PropertyMap;
use crate::text::{
    ends_with, seq_ends_with, seq_strip_prefix_or_self, str_eq, strip_prefix_or_self,
};

verus! {

#[derive(Clone, Copy, Debug, Default, PartialEq, Eq, Structural, Hash, PartialOrd, Ord)]
pub struct Pos {
    pub x: i32,
    pub y: i32,
    pub z: i32,
}

/// Lexicographic order on (x, y, z), the order in which a world lists its
/// blocks.
pub open spec fn pos_lt(a: Pos, b: Pos) -> bool {
    a.x < b.x || (a.x == b.x && (a.y < b.y || (a.y == b.y && a.z < b.z)))
}

/// Whether `p + (dx, dy, dz)` stays inside the `i32` coordinate range.
pub open spec fn offset_in_range(p: Pos, dx: int, dy: int, dz: int) -> bool {
    i32::MIN <= p.x + dx <= i32::MAX && i32::MIN <= p.y + dy <= i32::MAX && i32::MIN <= p.z + dz
        <= i32::MAX
}

pub open spec fn spec_offset(p: Pos, dx: int, dy: int, dz: int) -> Pos {
    Pos { x: (p.x + dx) as i32, y: (p.y + dy) as i32, z: (p.z + dz) as i32 }
}

impl Pos {
    pub fn new(x: i32, y: i32, z: i32) -> (r: Pos)
        ensures
            r == (Pos { x, y, z }),
    {
        Pos { x, y, z }
    }

    /// The position shifted by `(dx, dy, dz)`.
    pub fn offset(self, dx: i32, dy: i32, dz: i32) -> (r: Pos)
        requires
            offset_in_range(self, dx as int, dy as int, dz as int),
        ensures
            r == spec_offset(self, dx as int, dy as int, dz as int),
    {
        Pos { x: self.x + dx, y: self.y + dy, z: self.z + dz }
    }

    /// Whether `self` comes before `other` in world order.
    pub fn precedes(self, other: Pos) -> (r: bool)
        ensures
            r == pos_lt(self, other),
    {
        self.x < other.x || (self.x == other.x && (self.y < other.y || (self.y == other.y
            && self.z < other.z)))
    }
}

#[derive(Clone, Copy, Debug, PartialEq, Eq, Structural, Hash)]
pub enum BlockKind {
    Air,
    Solid,
    Transparent,
    RedstoneWire,
    RedstoneTorch,
    Repeater,
    Comparator,
    Lever,
    Button,
    PressurePlate,
    RedstoneLamp,
    RedstoneBlock,
    Observer,
    Piston,
    PistonHead,
    MovingPiston,
}

/// How completely an observed block can be used at one analysis boundary.
#[derive(Clone, Copy, Debug, PartialEq, Eq, Structural, Hash)]
pub enum CapabilityLevel {
    Full,
    Partial,
    Unsupported,
    NotApplicable,
}

#[derive(Clone, Copy, Debug, Default, PartialEq, Eq, Structural, Hash)]
pub enum ObservationClassification {
    /// Constructed internally rather than read from a live world.
    #[default]
    Synthetic,
    /// The observed identifier maps exactly to the modeled physical class.
    Exact,
    /// The observation is retained but its physical class is a fallback.
    Coarse,
}

#[derive(Clone, Copy, Debug, PartialEq, Eq, Structural)]
pub struct BlockCapabilities {
    pub observation: CapabilityLevel,
    pub physical_classification: CapabilityLevel,
    pub connectivity: CapabilityLevel,
    pub steady_state: CapabilityLevel,
    pub temporal: CapabilityLevel,
    pub repair: CapabilityLevel,
    pub placement: CapabilityLevel,
}

#[derive(Clone, Copy, Debug, PartialEq, Eq, Structural, Hash, PartialOrd, Ord)]
pub enum Facing {
    North,
    East,
    South,
    West,
    Up,
    Down,
}

/// The unit offset of a direction.
pub open spec fn facing_offset(f: Facing) -> Pos {
    match f {
        Facing::North => Pos { x: 0, y: 0, z: -1i32 },
        Facing::East => Pos { x: 1, y: 0, z: 0 },
        Facing::South => Pos { x: 0, y: 0, z: 1 },
        Facing::West => Pos { x: -1i32, y: 0, z: 0 },
        Facing::Up => Pos { x: 0, y: 1, z: 0 },
        Facing::Down => Pos { x: 0, y: -1i32, z: 0 },
    }
}

pub open spec fn facing_opposite(f: Facing) -> Facing {
    match f {
        Facing::North => Facing::South,
        Facing::East => Facing::West,
        Facing::South => Facing::North,
        Facing::West => Facing::East,
        Facing::Up => Facing::Down,
        Facing::Down => Facing::Up,
    }
}

pub open spec fn is_horizontal(f: Facing) -> bool {
    !(f is Up || f is Down)
}

/// The neighbor of `p` in direction `f`.
pub open spec fn neighbor(p: Pos, f: Facing) -> Pos {
    let o = facing_offset(f);
    spec_offset(p, o.x as int, o.y as int, o.z as int)
}

/// Whether every neighbor of `p` has coordinates inside the `i32` range.
pub open spec fn neighbors_in_range(p: Pos) -> bool {
    i32::MIN < p.x < i32::MAX && i32::MIN < p.y < i32::MAX && i32::MIN < p.z < i32::MAX
}

impl Facing {
    /// The offset of a horizontal direction; `None` for `Up` and `Down`.
    pub fn horizontal_offset(self) -> (r: Option<Pos>)
        ensures
            r == (if is_horizontal(self) {
                Some(facing_offset(self))
            } else {
                None
            }),
    {
        match self {
            Facing::North => Some(Pos::new(0, 0, -1)),
            Facing::East => Some(Pos::new(1, 0, 0)),
            Facing::South => Some(Pos::new(0, 0, 1)),
            Facing::West => Some(Pos::new(-1, 0, 0)),
            Facing::Up | Facing::Down => None,
        }
    }

    /// The unit offset of this direction.
    pub fn offset(self) -> (r: Pos)
        ensures
            r == facing_offset(self),
    {
        match self {
            Facing::North => Pos::new(0, 0, -1),
            Facing::East => Pos::new(1, 0, 0),
            Facing::South => Pos::new(0, 0, 1),
            Facing::West => Pos::new(-1, 0, 0),
            Facing::Up => Pos::new(0, 1, 0),
            Facing::Down => Pos::new(0, -1, 0),
        }
    }

    pub fn opposite(self) -> (r: Facing)
        ensures
            r == facing_opposite(self),
    {
        match self {
            Facing::North => Facing::South,
            Facing::East => Facing::West,
            Facing::South => Facing::North,
            Facing::West => Facing::East,
            Facing::Up => Facing::Down,
            Facing::Down => Facing::Up,
        }
    }
}

/// The neighbor of `p` in direction `f`.
pub fn neighbor_of(p: Pos, f: Facing) -> (r: Pos)
    requires
        neighbors_in_range(p),
    ensures
        r == neighbor(p, f),
{
    let o = f.offset();
    p.offset(o.x, o.y, o.z)
}

#[derive(Clone, Copy, Debug, PartialEq, Eq, Structural, Hash)]
pub enum WireConnection {
    /// No arm toward this side (Java's `none`).
    Disconnected,
    Side,
    Up,
}

/// The connection shape of a redstone wire toward each direction; a
/// direction without an entry is absent from the observed shape.
#[derive(Clone, Copy, Debug, Default, PartialEq, Eq, Structural, Hash)]
pub struct WireConnections {
    pub north: Option<WireConnection>,
    pub east: Option<WireConnection>,
    pub south: Option<WireConnection>,
    pub west: Option<WireConnection>,
    pub up: Option<WireConnection>,
    pub down: Option<WireConnection>,
}

pub open spec fn wire_lookup(c: WireConnections, f: Facing) -> Option<WireConnection> {
    match f {
        Facing::North => c.north,
        Facing::East => c.east,
        Facing::South => c.south,
        Facing::West => c.west,
        Facing::Up => c.up,
        Facing::Down => c.down,
    }
}

impl WireConnections {
    /// A shape with no entries.
    pub fn new() -> (r: WireConnections)
        ensures
            forall|f: Facing| wire_lookup(r, f) is None,
    {
        WireConnections { north: None, east: None, south: None, west: None, up: None, down: None }
    }

    /// The connection toward `facing`, if recorded.
    pub fn get(&self, facing: Facing) -> (r: Option<WireConnection>)
        ensures
            r == wire_lookup(*self, facing),
    {
        match facing {
            Facing::North => self.north,
            Facing::East => self.east,
            Facing::South => self.south,
            Facing::West => self.west,
            Facing::Up => self.up,
            Facing::Down => self.down,
        }
    }

    /// Records the connection toward `facing`.
    pub fn insert(&mut self, facing: Facing, connection: WireConnection)
        ensures
            wire_lookup(*final(self), facing) == Some(connection),
            forall|f: Facing| f != facing ==> wire_lookup(*final(self), f) == wire_lookup(
                *old(self),
                f,
            ),
    {
        match facing {
            Facing::North => self.north = Some(connection),
            Facing::East => self.east = Some(connection),
            Facing::South => self.south = Some(connection),
            Facing::West => self.west = Some(connection),
            Facing::Up => self.up = Some(connection),
            Facing::Down => self.down = Some(connection),
        }
    }
}

/// Geometry of the space a block occupies.
#[derive(Clone, Copy, Debug, PartialEq, Eq, Structural)]
pub enum OccupiedShape {
    Empty,
    FullCube,
    TopHalf,
    BottomHalf,
    Partial,
}

#[derive(Clone, Copy, Debug, PartialEq, Eq, Structural)]
pub struct BlockRedstoneTraits {
    pub occupied_shape: OccupiedShape,
    pub supports_dust_on_top: bool,
    pub conducts_weak_power: bool,
    pub conducts_strong_power: bool,
    pub strong_power_drives_dust: bool,
    /// A wire beside this block may form an `up` arm to wire above it.
    pub permits_wire_rise_beside: bool,
    /// The block-state shape used by the lower wire.
    pub wire_rise_connection: Option<WireConnection>,
    /// A full block above the lower wire prevents the rising arm.
    pub blocks_wire_rise_when_above: bool,
}

#[derive(Clone, Copy, Debug, PartialEq, Eq, Structural)]
pub struct BlockProperties {
    pub supports_components: bool,
    pub receives_weak_power: bool,
    pub receives_strong_power: bool,
    pub repeater_reads_block_power: bool,
    pub strong_power_drives_dust: bool,
}

impl BlockProperties {
    pub fn can_be_powered(self) -> (r: bool)
        ensures
            r == (self.receives_weak_power || self.receives_strong_power),
    {
        self.receives_weak_power || self.receives_strong_power
    }
}

pub open spec fn spec_is_redstone_related(kind: BlockKind) -> bool {
    !(kind is Air || kind is Solid || kind is Transparent || kind is PistonHead
        || kind is MovingPiston)
}

impl BlockKind {
    /// Whether this block is an explicit redstone circuit element rather than
    /// structural support that may incidentally carry power.
    pub fn is_redstone_related(self) -> (r: bool)
        ensures
            r == spec_is_redstone_related(self),
    {
        match self {
            BlockKind::Air
            | BlockKind::Solid
            | BlockKind::Transparent
            | BlockKind::PistonHead
            | BlockKind::MovingPiston => false,
            _ => true,
        }
    }

    pub fn properties(self) -> (r: BlockProperties)
        ensures
            r == spec_behavior_profile(self).properties,
    {
        behavior_profile(self).properties
    }
}

#[derive(Clone, Copy, Debug, PartialEq, Eq, Structural, Hash)]
pub enum PistonVariant {
    Normal,
    Sticky,
}

/// Stable or transient state of a piston body.
#[derive(Clone, Copy, Debug, PartialEq, Eq, Structural, Hash)]
pub enum PistonState {
    Retracted,
    Extending,
    Extended,
    Retracting,
}

impl PistonState {
    /// Whether the piston is at rest.
    pub fn is_stable(self) -> (r: bool)
        ensures
            r == (self is Retracted || self is Extended),
    {
        matches!(self, PistonState::Retracted | PistonState::Extended)
    }

    /// Whether the block-state `extended` flag is set in this state.
    pub fn is_extended(self) -> (r: bool)
        ensures
            r == (self is Extending || self is Extended),
    {
        matches!(self, PistonState::Extending | PistonState::Extended)
    }
}

/// Typed state of a stable piston head.
#[derive(Clone, Copy, Debug, PartialEq, Eq, Structural, Hash)]
pub struct PistonHeadState {
    pub facing: Facing,
    pub variant: PistonVariant,
    pub short: bool,
}

/// Block-entity state of a moving piston carrier.
#[derive(Debug, PartialEq, Eq)]
pub struct PistonBlockEntityState {
    pub pushed_block: Box<Block>,
    pub facing: Facing,
    pub extending: bool,
    pub source: bool,
    pub progress: u8,
}

#[derive(Debug, PartialEq, Eq)]
pub struct Block {
    pub kind: BlockKind,
    /// Namespaced identifier reported by Minecraft; unset for synthetic blocks.
    pub observed_name: Option<String>,
    /// Complete Java block-state properties as observed.
    pub observed_properties: PropertyMap,
    pub observation_classification: ObservationClassification,
    pub facing: Option<Facing>,
    pub powered: Option<bool>,
    /// Observed analog redstone strength, when the block state exposes one.
    pub power_level: Option<u8>,
    pub delay: Option<u8>,
    pub support_offset: Option<Pos>,
    pub wire_connections: Option<WireConnections>,
    pub piston_variant: Option<PistonVariant>,
    pub piston_state: Option<PistonState>,
    pub piston_head: Option<PistonHeadState>,
    pub piston_entity: Option<Box<PistonBlockEntityState>>,
}

/// The character view of an optional string.
pub open spec fn opt_view(s: Option<String>) -> Option<Seq<char>> {
    match s {
        Some(v) => Some(v@),
        None => None,
    }
}

/// Two blocks hold the same data: strings are compared by their characters.
pub open spec fn same_block(a: Block, b: Block) -> bool
    decreases a,
{
    &&& a.kind == b.kind
    &&& opt_view(a.observed_name) == opt_view(b.observed_name)
    &&& a.observed_properties.pairs() == b.observed_properties.pairs()
    &&& a.observation_classification == b.observation_classification
    &&& a.facing == b.facing
    &&& a.powered == b.powered
    &&& a.power_level == b.power_level
    &&& a.delay == b.delay
    &&& a.support_offset == b.support_offset
    &&& a.wire_connections == b.wire_connections
    &&& a.piston_variant == b.piston_variant
    &&& a.piston_state == b.piston_state
    &&& a.piston_head == b.piston_head
    &&& match (a.piston_entity, b.piston_entity) {
        (None, None) => true,
        (Some(x), Some(y)) => {
            &&& x.facing == y.facing
            &&& x.extending == y.extending
            &&& x.source == y.source
            &&& x.progress == y.progress
            &&& same_block(*x.pushed_block, *y.pushed_block)
        },
        _ => false,
    }
}

/// `same_block` is an equivalence relation.
pub proof fn lemma_same_block_refl(a: Block)
    ensures
        same_block(a, a),
    decreases a,
{
    if let Some(x) = a.piston_entity {
        lemma_same_block_refl(*x.pushed_block);
    }
}

pub proof fn lemma_same_block_sym(a: Block, b: Block)
    requires
        same_block(a, b),
    ensures
        same_block(b, a),
    decreases a,
{
    if let (Some(x), Some(y)) = (a.piston_entity, b.piston_entity) {
        lemma_same_block_sym(*x.pushed_block, *y.pushed_block);
    }
}

pub proof fn lemma_same_block_trans(a: Block, b: Block, c: Block)
    requires
        same_block(a, b),
        same_block(b, c),
    ensures
        same_block(a, c),
    decreases a,
{
    if let (Some(x), Some(y), Some(z)) = (a.piston_entity, b.piston_entity, c.piston_entity) {
        lemma_same_block_trans(*x.pushed_block, *y.pushed_block, *z.pushed_block);
    }
}

/// A block of `kind` with every optional attribute unset.
pub open spec fn is_fresh_block(b: Block, kind: BlockKind) -> bool {
    &&& b.kind == kind
    &&& b.observed_name is None
    &&& b.observed_properties.pairs().len() == 0
    &&& b.observation_classification == ObservationClassification::Synthetic
    &&& b.facing is None
    &&& b.powered is None
    &&& b.power_level is None
    &&& b.delay is None
    &&& b.support_offset is None
    &&& b.wire_connections is None
    &&& b.piston_variant is None
    &&& b.piston_state is None
    &&& b.piston_head is None
    &&& b.piston_entity is None
}

/// The observed name after an optional `minecraft:` namespace.
pub open spec fn short_name(name: Seq<char>) -> Seq<char> {
    seq_strip_prefix_or_self(name, "minecraft:"@)
}

/// Names whose state or event semantics are outside the block-only model.
pub open spec fn spec_requires_live(name: Seq<char>) -> bool {
    let s = short_name(name);
    ||| s == "observer"@
    ||| s == "target"@
    ||| s == "daylight_detector"@
    ||| s == "dispenser"@
    ||| s == "dropper"@
    ||| s == "hopper"@
    ||| s == "slime_block"@
    ||| s == "honey_block"@
    ||| s == "water"@
    ||| s == "lava"@
    ||| s == "tripwire_hook"@
    ||| s == "sculk_sensor"@
    ||| s == "calibrated_sculk_sensor"@
    ||| seq_ends_with(s, "_rail"@)
}

/// Whether a live block identifier names a block whose semantics the
/// block-only model does not reproduce.
pub fn observed_name_requires_live_observation(name: &str) -> (r: bool)
    ensures
        r == spec_requires_live(name@),
{
    let s = strip_prefix_or_self(name, "minecraft:");
    str_eq(s, "observer") || str_eq(s, "target") || str_eq(s, "daylight_detector") || str_eq(
        s,
        "dispenser",
    ) || str_eq(s, "dropper") || str_eq(s, "hopper") || str_eq(s, "slime_block") || str_eq(
        s,
        "honey_block",
    ) || str_eq(s, "water") || str_eq(s, "lava") || str_eq(s, "tripwire_hook") || str_eq(
        s,
        "sculk_sensor",
    ) || str_eq(s, "calibrated_sculk_sensor") || ends_with(s, "_rail")
}

pub open spec fn block_requires_live(b: Block) -> bool {
    match b.observed_name {
        Some(n) => spec_requires_live(n@),
        None => false,
    }
}

pub open spec fn caps(
    observation: CapabilityLevel,
    physical_classification: CapabilityLevel,
    connectivity: CapabilityLevel,
    steady_state: CapabilityLevel,
    temporal: CapabilityLevel,
    repair: CapabilityLevel,
    placement: CapabilityLevel,
) -> BlockCapabilities {
    BlockCapabilities {
        observation,
        physical_classification,
        connectivity,
        steady_state,
        temporal,
        repair,
        placement,
    }
}

/// Capability table: what each stage of analysis can do with a block.
pub open spec fn spec_capabilities(b: Block) -> BlockCapabilities {
    let full = CapabilityLevel::Full;
    let partial = CapabilityLevel::Partial;
    let unsupported = CapabilityLevel::Unsupported;
    let na = CapabilityLevel::NotApplicable;
    if block_requires_live(b) {
        caps(full, unsupported, unsupported, unsupported, unsupported, unsupported, unsupported)
    } else {
        match b.kind {
            BlockKind::Air => caps(full, full, na, na, na, na, full),
            BlockKind::Solid | BlockKind::Transparent => {
                let exact = b.observation_classification != ObservationClassification::Coarse;
                caps(
                    full,
                    if exact {
                        full
                    } else {
                        partial
                    },
                    if exact {
                        full
                    } else {
                        partial
                    },
                    na,
                    na,
                    na,
                    if exact {
                        full
                    } else {
                        unsupported
                    },
                )
            },
            BlockKind::RedstoneWire => caps(full, full, full, full, partial, full, full),
            BlockKind::Lever | BlockKind::RedstoneBlock => caps(
                full,
                full,
                full,
                full,
                full,
                partial,
                full,
            ),
            BlockKind::Piston | BlockKind::PistonHead | BlockKind::MovingPiston => caps(
                full,
                partial,
                partial,
                unsupported,
                unsupported,
                unsupported,
                unsupported,
            ),
            _ => caps(full, full, full, full, partial, partial, full),
        }
    }
}

/// Physical redstone traits of a block, resolved from its kind and observed
/// state.
pub open spec fn spec_redstone_traits(b: Block) -> BlockRedstoneTraits {
    let p = spec_behavior_profile(b.kind).properties;
    let base = BlockRedstoneTraits {
        occupied_shape: match b.kind {
            BlockKind::Air => OccupiedShape::Empty,
            BlockKind::Solid
            | BlockKind::Transparent
            | BlockKind::RedstoneBlock
            | BlockKind::RedstoneLamp => OccupiedShape::FullCube,
            _ => OccupiedShape::Partial,
        },
        supports_dust_on_top: p.supports_components,
        conducts_weak_power: p.receives_weak_power,
        conducts_strong_power: p.receives_strong_power,
        strong_power_drives_dust: p.strong_power_drives_dust,
        permits_wire_rise_beside: p.supports_components,
        wire_rise_connection: if p.supports_components {
            Some(WireConnection::Up)
        } else {
            None
        },
        blocks_wire_rise_when_above: b.kind == BlockKind::Solid,
    };
    let name = match b.observed_name {
        Some(n) => n@,
        None => Seq::empty(),
    };
    if block_requires_live(b) {
        BlockRedstoneTraits {
            occupied_shape: OccupiedShape::FullCube,
            supports_dust_on_top: false,
            conducts_weak_power: false,
            conducts_strong_power: false,
            strong_power_drives_dust: false,
            permits_wire_rise_beside: false,
            wire_rise_connection: None,
            blocks_wire_rise_when_above: true,
        }
    } else if seq_ends_with(name, "_slab"@) {
        let t = b.observed_properties.lookup("type"@);
        let top = t == Some("top"@);
        let double = t == Some("double"@);
        BlockRedstoneTraits {
            occupied_shape: if double {
                OccupiedShape::FullCube
            } else if top {
                OccupiedShape::TopHalf
            } else {
                OccupiedShape::BottomHalf
            },
            supports_dust_on_top: top || double,
            conducts_weak_power: double,
            conducts_strong_power: double,
            strong_power_drives_dust: double,
            permits_wire_rise_beside: top || double,
            wire_rise_connection: if top {
                Some(WireConnection::Side)
            } else if double {
                Some(WireConnection::Up)
            } else {
                None
            },
            blocks_wire_rise_when_above: double,
        }
    } else if seq_ends_with(name, "_stairs"@) {
        let top = b.observed_properties.lookup("half"@) == Some("top"@);
        BlockRedstoneTraits {
            occupied_shape: OccupiedShape::Partial,
            supports_dust_on_top: top,
            conducts_weak_power: false,
            conducts_strong_power: false,
            strong_power_drives_dust: false,
            permits_wire_rise_beside: top,
            wire_rise_connection: if top {
                Some(WireConnection::Side)
            } else {
                None
            },
            blocks_wire_rise_when_above: false,
        }
    } else if name == "minecraft:glass"@ || name == "minecraft:tinted_glass"@ {
        BlockRedstoneTraits {
            occupied_shape: OccupiedShape::FullCube,
            supports_dust_on_top: true,
            conducts_weak_power: false,
            conducts_strong_power: false,
            strong_power_drives_dust: false,
            permits_wire_rise_beside: true,
            wire_rise_connection: Some(WireConnection::Up),
            blocks_wire_rise_when_above: false,
        }
    } else {
        base
    }
}

pub open spec fn spec_support_pos(b: Block, pos: Pos) -> Option<Pos> {
    match b.support_offset {
        Some(o) => Some(spec_offset(pos, o.x as int, o.y as int, o.z as int)),
        None => None,
    }
}

pub open spec fn support_in_range(b: Block, pos: Pos) -> bool {
    match b.support_offset {
        Some(o) => offset_in_range(pos, o.x as int, o.y as int, o.z as int),
        None => true,
    }
}

pub(crate) fn opt_string_eq(a: &Option<String>, b: &Option<String>) -> (r: bool)
    ensures
        r == (opt_view(*a) == opt_view(*b)),
{
    match (a, b) {
        (Some(x), Some(y)) => str_eq(x.as_str(), y.as_str()),
        (None, None) => true,
        _ => false,
    }
}

pub(crate) fn opt_string_copy(a: &Option<String>) -> (r: Option<String>)
    ensures
        r == *a,
{
    match a {
        Some(x) => Some(x.clone()),
        None => None,
    }
}

/// Whether a property has the given value.
pub fn property_is(props: &PropertyMap, key: &str, value: &str) -> (r: bool)
    ensures
        r == (props.lookup(key@) == Some(value@)),
{
    match props.get(key) {
        Some(v) => str_eq(v.as_str(), value),
        None => false,
    }
}

impl Block {
    /// A synthetic block of `kind` with every optional attribute unset.
    pub fn new(kind: BlockKind) -> (r: Block)
        ensures
            is_fresh_block(r, kind),
    {
        Block {
            kind,
            observed_name: None,
            observed_properties: PropertyMap::new(),
            observation_classification: ObservationClassification::Synthetic,
            facing: None,
            powered: None,
            power_level: None,
            delay: None,
            support_offset: None,
            wire_connections: None,
            piston_variant: None,
            piston_state: None,
            piston_head: None,
            piston_entity: None,
        }
    }

    /// A stable piston head of the given facing and variant.
    pub fn piston_head(facing: Facing, variant: PistonVariant, short: bool) -> (r: Block)
        ensures
            r.kind == BlockKind::PistonHead,
            r.facing == Some(facing),
            r.piston_variant == Some(variant),
            r.piston_head == Some(PistonHeadState { facing, variant, short }),
            r.observed_name is None,
            r.observed_properties.pairs().len() == 0,
            r.observation_classification == ObservationClassification::Synthetic,
            r.powered is None && r.power_level is None && r.delay is None,
            r.support_offset is None && r.wire_connections is None,
            r.piston_state is None && r.piston_entity is None,
    {
        let mut head = Block::new(BlockKind::PistonHead);
        head.facing = Some(facing);
        head.piston_variant = Some(variant);
        head.piston_head = Some(PistonHeadState { facing, variant, short });
        head
    }

    /// A moving-piston carrier for the given block entity.
    pub fn moving_piston(entity: PistonBlockEntityState) -> (r: Block)
        ensures
            r.kind == BlockKind::MovingPiston,
            r.facing == Some(entity.facing),
            r.piston_entity == Some(Box::new(entity)),
            r.observed_name is None,
            r.observed_properties.pairs().len() == 0,
            r.observation_classification == ObservationClassification::Synthetic,
            r.powered is None && r.power_level is None && r.delay is None,
            r.support_offset is None && r.wire_connections is None,
            r.piston_state is None && r.piston_head is None && r.piston_variant is None,
    {
        let mut block = Block::new(BlockKind::MovingPiston);
        block.facing = Some(entity.facing);
        block.piston_entity = Some(Box::new(entity));
        block
    }

    /// A copy holding the same data.
    pub fn copy(&self) -> (r: Block)
        ensures
            same_block(r, *self),
        decreases self,
    {
        let entity = match &self.piston_entity {
            Some(e) => Some(
                Box::new(
                    PistonBlockEntityState {
                        pushed_block: Box::new(e.pushed_block.copy()),
                        facing: e.facing,
                        extending: e.extending,
                        source: e.source,
                        progress: e.progress,
                    },
                ),
            ),
            None => None,
        };
        Block {
            kind: self.kind,
            observed_name: opt_string_copy(&self.observed_name),
            observed_properties: self.observed_properties.copy(),
            observation_classification: self.observation_classification,
            facing: self.facing,
            powered: self.powered,
            power_level: self.power_level,
            delay: self.delay,
            support_offset: self.support_offset,
            wire_connections: self.wire_connections,
            piston_variant: self.piston_variant,
            piston_state: self.piston_state,
            piston_head: self.piston_head,
            piston_entity: entity,
        }
    }

    /// Whether two blocks hold the same data.
    pub fn same_as(&self, other: &Block) -> (r: bool)
        ensures
            r == same_block(*self, *other),
        decreases self,
    {
        if self.kind != other.kind || !opt_string_eq(&self.observed_name, &other.observed_name)
            || !self.observed_properties.same_entries(&other.observed_properties)
            || self.observation_classification != other.observation_classification
            || self.facing != other.facing || self.powered != other.powered || self.power_level
            != other.power_level || self.delay != other.delay || self.support_offset
            != other.support_offset || self.wire_connections != other.wire_connections
            || self.piston_variant != other.piston_variant || self.piston_state
            != other.piston_state || self.piston_head != other.piston_head {
            return false;
        }
        match (&self.piston_entity, &other.piston_entity) {
            (None, None) => true,
            (Some(x), Some(y)) => x.facing == y.facing && x.extending == y.extending && x.source
                == y.source && x.progress == y.progress && x.pushed_block.same_as(&y.pushed_block),
            _ => false,
        }
    }

    /// What each analysis stage can do with this block.
    pub fn capabilities(&self) -> (r: BlockCapabilities)
        ensures
            r == spec_capabilities(*self),
    {
        let full = CapabilityLevel::Full;
        let partial = CapabilityLevel::Partial;
        let unsupported = CapabilityLevel::Unsupported;
        let na = CapabilityLevel::NotApplicable;
        if self.requires_live_observation() {
            return BlockCapabilities {
                observation: full,
                physical_classification: unsupported,
                connectivity: unsupported,
                steady_state: unsupported,
                temporal: unsupported,
                repair: unsupported,
                placement: unsupported,
            };
        }
        match self.kind {
            BlockKind::Air => BlockCapabilities {
                observation: full,
                physical_classification: full,
                connectivity: na,
                steady_state: na,
                temporal: na,
                repair: na,
                placement: full,
            },
            BlockKind::Solid | BlockKind::Transparent => {
                let exact = self.observation_classification != ObservationClassification::Coarse;
                BlockCapabilities {
                    observation: full,
                    physical_classification: if exact {
                        full
                    } else {
                        partial
                    },
                    connectivity: if exact {
                        full
                    } else {
                        partial
                    },
                    steady_state: na,
                    temporal: na,
                    repair: na,
                    placement: if exact {
                        full
                    } else {
                        unsupported
                    },
                }
            },
            BlockKind::RedstoneWire => BlockCapabilities {
                observation: full,
                physical_classification: full,
                connectivity: full,
                steady_state: full,
                temporal: partial,
                repair: full,
                placement: full,
            },
            BlockKind::Lever | BlockKind::RedstoneBlock => BlockCapabilities {
                observation: full,
                physical_classification: full,
                connectivity: full,
                steady_state: full,
                temporal: full,
                repair: partial,
                placement: full,
            },
            BlockKind::Piston | BlockKind::PistonHead | BlockKind::MovingPiston => {
                BlockCapabilities {
                    observation: full,
                    physical_classification: partial,
                    connectivity: partial,
                    steady_state: unsupported,
                    temporal: unsupported,
                    repair: unsupported,
                    placement: unsupported,
                }
            },
            _ => BlockCapabilities {
                observation: full,
                physical_classification: full,
                connectivity: full,
                steady_state: full,
                temporal: partial,
                repair: partial,
                placement: full,
            },
        }
    }

    /// The position of the block this one rests on, if it needs support.
    pub fn support_pos(&self, pos: Pos) -> (r: Option<Pos>)
        requires
            support_in_range(*self, pos),
        ensures
            r == spec_support_pos(*self, pos),
    {
        match self.support_offset {
            Some(offset) => Some(pos.offset(offset.x, offset.y, offset.z)),
            None => None,
        }
    }

    /// Whether the observed identifier names a block with semantics outside
    /// the block-only model.
    pub fn requires_live_observation(&self) -> (r: bool)
        ensures
            r == block_requires_live(*self),
    {
        match &self.observed_name {
            Some(name) => observed_name_requires_live_observation(name.as_str()),
            None => false,
        }
    }

    pub fn is_external_input_source(&self) -> (r: bool)
        ensures
            r == (self.kind is Lever || self.kind is Button || self.kind is PressurePlate
                || self.kind is RedstoneBlock),
    {
        matches!(
            self.kind,
            BlockKind::Lever | BlockKind::Button | BlockKind::PressurePlate
                | BlockKind::RedstoneBlock
        )
    }

    pub fn is_observable_output(&self) -> (r: bool)
        ensures
            r == (self.kind is RedstoneLamp),
    {
        matches!(self.kind, BlockKind::RedstoneLamp)
    }

    /// Physical redstone behavior resolved from the observed block and its
    /// block state.
    pub fn redstone_traits(&self) -> (r: BlockRedstoneTraits)
        ensures
            r == spec_redstone_traits(*self),
    {
        let properties = self.kind.properties();
        let base = BlockRedstoneTraits {
            occupied_shape: match self.kind {
                BlockKind::Air => OccupiedShape::Empty,
                BlockKind::Solid
                | BlockKind::Transparent
                | BlockKind::RedstoneBlock
                | BlockKind::RedstoneLamp => OccupiedShape::FullCube,
                _ => OccupiedShape::Partial,
            },
            supports_dust_on_top: properties.supports_components,
            conducts_weak_power: properties.receives_weak_power,
            conducts_strong_power: properties.receives_strong_power,
            strong_power_drives_dust: properties.strong_power_drives_dust,
            permits_wire_rise_beside: properties.supports_components,
            wire_rise_connection: if properties.supports_components {
                Some(WireConnection::Up)
            } else {
                None
            },
            blocks_wire_rise_when_above: self.kind == BlockKind::Solid,
        };
        if self.requires_live_observation() {
            return BlockRedstoneTraits {
                occupied_shape: OccupiedShape::FullCube,
                supports_dust_on_top: false,
                conducts_weak_power: false,
                conducts_strong_power: false,
                strong_power_drives_dust: false,
                permits_wire_rise_beside: false,
                wire_rise_connection: None,
                blocks_wire_rise_when_above: true,
            };
        }
        let name: &str = match &self.observed_name {
            Some(n) => n.as_str(),
            None => "",
        };
        proof {
            reveal_strlit("");
        }
        assert(name@ == (match self.observed_name {
            Some(n) => n@,
            None => Seq::<char>::empty(),
        }));
        if ends_with(name, "_slab") {
            let top = property_is(&self.observed_properties, "type", "top");
            let double = property_is(&self.observed_properties, "type", "double");
            BlockRedstoneTraits {
                occupied_shape: if double {
                    OccupiedShape::FullCube
                } else if top {
                    OccupiedShape::TopHalf
                } else {
                    OccupiedShape::BottomHalf
                },
                supports_dust_on_top: top || double,
                conducts_weak_power: double,
                conducts_strong_power: double,
                strong_power_drives_dust: double,
                permits_wire_rise_beside: top || double,
                wire_rise_connection: if top {
                    Some(WireConnection::Side)
                } else if double {
                    Some(WireConnection::Up)
                } else {
                    None
                },
                blocks_wire_rise_when_above: double,
            }
        } else if ends_with(name, "_stairs") {
            let top = property_is(&self.observed_properties, "half", "top");
            BlockRedstoneTraits {
                occupied_shape: OccupiedShape::Partial,
                supports_dust_on_top: top,
                conducts_weak_power: false,
                conducts_strong_power: false,
                strong_power_drives_dust: false,
                permits_wire_rise_beside: top,
                wire_rise_connection: if top {
                    Some(WireConnection::Side)
                } else {
                    None
                },
                blocks_wire_rise_when_above: false,
            }
        } else if str_eq(name, "minecraft:glass") || str_eq(name, "minecraft:tinted_glass") {
            BlockRedstoneTraits {
                occupied_shape: OccupiedShape::FullCube,
                supports_dust_on_top: true,
                conducts_weak_power: false,
                conducts_strong_power: false,
                strong_power_drives_dust: false,
                permits_wire_rise_beside: true,
                wire_rise_connection: Some(WireConnection::Up),
                blocks_wire_rise_when_above: false,
            }
        } else {
            base
        }
    }
}

impl Clone for Block {
    fn clone(&self) -> (r: Self)
        ensures
            same_block(r, *self),
    {
        self.copy()
    }
}

impl Clone for PistonBlockEntityState {
    fn clone(&self) -> (r: Self)
        ensures
            r.facing == self.facing && r.extending == self.extending && r.source == self.source
                && r.progress == self.progress && same_block(*r.pushed_block, *self.pushed_block),
    {
        PistonBlockEntityState {
            pushed_block: Box::new(self.pushed_block.copy()),
            facing: self.facing,
            extending: self.extending,
            source: self.source,
            progress: self.progress,
        }
    }
}

impl Clone for PropertyMap {
    fn clone(&self) -> (r: Self)
        ensures
            r.pairs() == self.pairs(),
    {
        self.copy()
    }
}

/// Positions strictly increase along `s` in world order.
pub open spec fn sorted_positions(s: Seq<(Pos, Block)>) -> bool {
    forall|i: int, j: int| 0 <= i < j < s.len() ==> pos_lt(#[trigger] s[i].0, #[trigger] s[j].0)
}

/// The block stored at `p` in an entry list, if any.
pub open spec fn entries_lookup(s: Seq<(Pos, Block)>, p: Pos) -> Option<Block> {
    if exists|i: int| 0 <= i < s.len() && s[i].0 == p {
        Some(s[choose|i: int| 0 <= i < s.len() && s[i].0 == p].1)
    } else {
        None
    }
}

pub proof fn lemma_pos_lt_trans(a: Pos, b: Pos, c: Pos)
    requires
        pos_lt(a, b),
        pos_lt(b, c),
    ensures
        pos_lt(a, c),
{
}

pub proof fn lemma_pos_lt_total(a: Pos, b: Pos)
    ensures
        pos_lt(a, b) || a == b || pos_lt(b, a),
        !(pos_lt(a, b) && pos_lt(b, a)),
        !pos_lt(a, a),
{
}

/// In a sorted entry list the entry at `i` is the one found for its position.
pub proof fn lemma_entry_found(s: Seq<(Pos, Block)>, i: int)
    requires
        sorted_positions(s),
        0 <= i < s.len(),
    ensures
        entries_lookup(s, s[i].0) == Some(s[i].1),
        forall|j: int| 0 <= j < s.len() && s[j].0 == s[i].0 ==> j == i,
{
    assert forall|j: int| 0 <= j < s.len() && s[j].0 == s[i].0 implies j == i by {
        if j < i {
            assert(pos_lt(s[j].0, s[i].0));
        } else if j > i {
            assert(pos_lt(s[i].0, s[j].0));
        }
    }
    let c = choose|k: int| 0 <= k < s.len() && s[k].0 == s[i].0;
    assert(c == i);
}

/// Replacing the entry at `i` leaves lookups of other positions unchanged.
pub proof fn lemma_lookup_after_update(s: Seq<(Pos, Block)>, i: int, e: (Pos, Block), q: Pos)
    requires
        sorted_positions(s),
        0 <= i < s.len(),
        s[i].0 == e.0,
        q != e.0,
    ensures
        sorted_positions(s.update(i, e)),
        entries_lookup(s.update(i, e), q) == entries_lookup(s, q),
{
    let t = s.update(i, e);
    assert forall|a: int, b: int| 0 <= a < b < t.len() implies pos_lt(
        #[trigger] t[a].0,
        #[trigger] t[b].0,
    ) by {
        assert(s[a].0 == t[a].0);
        assert(s[b].0 == t[b].0);
    }
    if exists|j: int| 0 <= j < s.len() && s[j].0 == q {
        let j = choose|j: int| 0 <= j < s.len() && s[j].0 == q;
        lemma_entry_found(s, j);
        lemma_entry_found(t, j);
    } else {
        assert forall|j: int| 0 <= j < t.len() implies t[j].0 != q by {
            if j != i {
                assert(t[j] == s[j]);
            }
        }
    }
}

/// Inserting an entry at its sorted place leaves other lookups unchanged.
pub proof fn lemma_lookup_after_insert(s: Seq<(Pos, Block)>, i: int, e: (Pos, Block), q: Pos)
    requires
        sorted_positions(s),
        0 <= i <= s.len(),
        forall|j: int| 0 <= j < i ==> pos_lt(#[trigger] s[j].0, e.0),
        forall|j: int| i <= j < s.len() ==> pos_lt(e.0, #[trigger] s[j].0),
    ensures
        sorted_positions(s.insert(i, e)),
        entries_lookup(s.insert(i, e), e.0) == Some(e.1),
        q != e.0 ==> entries_lookup(s.insert(i, e), q) == entries_lookup(s, q),
{
    let t = s.insert(i, e);
    assert forall|a: int, b: int| 0 <= a < b < t.len() implies pos_lt(
        #[trigger] t[a].0,
        #[trigger] t[b].0,
    ) by {
        if b < i {
        } else if b == i {
        } else if a < i {
            assert(t[b] == s[b - 1]);
            lemma_pos_lt_trans(t[a].0, e.0, t[b].0);
        } else if a == i {
            assert(t[b] == s[b - 1]);
        } else {
            assert(t[a] == s[a - 1]);
            assert(t[b] == s[b - 1]);
        }
    }
    lemma_entry_found(t, i);
    if q != e.0 {
        if exists|j: int| 0 <= j < s.len() && s[j].0 == q {
            let j = choose|j: int| 0 <= j < s.len() && s[j].0 == q;
            lemma_entry_found(s, j);
            let jt = if j < i {
                j
            } else {
                j + 1
            };
            assert(t[jt] == s[j]);
            lemma_entry_found(t, jt);
        } else {
            assert forall|j: int| 0 <= j < t.len() implies t[j].0 != q by {
                if j < i {
                    assert(t[j] == s[j]);
                } else if j > i {
                    assert(t[j] == s[j - 1]);
                }
            }
        }
    }
}

/// Removing the entry at `i` removes exactly its position from lookups.
pub proof fn lemma_lookup_after_remove(s: Seq<(Pos, Block)>, i: int, q: Pos)
    requires
        sorted_positions(s),
        0 <= i < s.len(),
    ensures
        sorted_positions(s.remove(i)),
        entries_lookup(s.remove(i), s[i].0) is None,
        q != s[i].0 ==> entries_lookup(s.remove(i), q) == entries_lookup(s, q),
{
    let t = s.remove(i);
    assert forall|a: int, b: int| 0 <= a < b < t.len() implies pos_lt(
        #[trigger] t[a].0,
        #[trigger] t[b].0,
    ) by {
        let sa = if a < i {
            a
        } else {
            a + 1
        };
        let sb = if b < i {
            b
        } else {
            b + 1
        };
        assert(t[a] == s[sa]);
        assert(t[b] == s[sb]);
    }
    assert forall|j: int| 0 <= j < t.len() implies t[j].0 != s[i].0 by {
        let sj = if j < i {
            j
        } else {
            j + 1
        };
        assert(t[j] == s[sj]);
        lemma_entry_found(s, i);
    }
    if q != s[i].0 {
        if exists|j: int| 0 <= j < s.len() && s[j].0 == q {
            let j = choose|j: int| 0 <= j < s.len() && s[j].0 == q;
            lemma_entry_found(s, j);
            let jt = if j < i {
                j
            } else {
                j - 1
            };
            assert(t[jt] == s[j]);
            lemma_entry_found(t, jt);
        } else {
            assert forall|j: int| 0 <= j < t.len() implies t[j].0 != q by {
                let sj = if j < i {
                    j
                } else {
                    j + 1
                };
                assert(t[j] == s[sj]);
            }
        }
    }
}

/// A sparse block world: every stored position holds a non-empty entry in
/// world order. Air is represented by absence (except where `place`
/// stores it explicitly).
#[derive(Debug, PartialEq, Eq)]
pub struct World {
    entries: Vec<(Pos, Block)>,
}

/// Result of `set`: `block` at `pos`, with Air meaning "absent".
pub open spec fn set_result(old: Option<Block>, q: Pos, pos: Pos, block: Block) -> Option<Block> {
    if q == pos {
        if block.kind == BlockKind::Air {
            None
        } else {
            Some(block)
        }
    } else {
        old
    }
}

/// Block kind at a position, Air when absent.
pub open spec fn kind_of(b: Option<Block>) -> BlockKind {
    match b {
        Some(b) => b.kind,
        None => BlockKind::Air,
    }
}

/// Whether a block kind needs a support block under it.
pub open spec fn needs_support(kind: BlockKind) -> bool {
    kind is RedstoneWire || kind is RedstoneTorch || kind is Repeater || kind is Comparator
        || kind is Lever || kind is Button || kind is PressurePlate
}

/// Whether `place` records a support offset for a block kind.
pub open spec fn placed_with_support(kind: BlockKind) -> bool {
    kind is RedstoneWire || kind is Repeater || kind is Comparator || kind is Lever
        || kind is Button || kind is PressurePlate
}

impl View for World {
    type V = Seq<(Pos, Block)>;

    /// Entries in world order.
    closed spec fn view(&self) -> Seq<(Pos, Block)> {
        self.entries@
    }
}

impl World {
    /// Entries are sorted in world order; this holds of every world built by
    /// this module.
    pub closed spec fn wf(&self) -> bool {
        sorted_positions(self.entries@)
    }

    /// The block stored at `p`.
    pub open spec fn block_at(&self, p: Pos) -> Option<Block> {
        entries_lookup(self@, p)
    }

    pub proof fn lemma_wf(&self)
        requires
            self.wf(),
        ensures
            sorted_positions(self@),
    {
    }

    pub fn new() -> (r: World)
        ensures
            r.wf(),
            r@ == Seq::<(Pos, Block)>::empty(),
    {
        let r = World { entries: Vec::new() };
        assert(r@ =~= Seq::<(Pos, Block)>::empty());
        r
    }

    /// Index of `pos`, or the index where it would be inserted.
    fn find(&self, pos: Pos) -> (r: (bool, usize))
        requires
            self.wf(),
        ensures
            r.0 ==> r.1 < self@.len() && self@[r.1 as int].0 == pos,
            !r.0 ==> r.1 <= self@.len() && (forall|j: int|
                0 <= j < r.1 ==> pos_lt(#[trigger] self@[j].0, pos)) && (forall|j: int|
                r.1 <= j < self@.len() ==> pos_lt(pos, #[trigger] self@[j].0)),
    {
        let n = self.entries.len();
        let mut i: usize = 0;
        while i < n
            invariant
                n == self.entries.len(),
                i <= n,
                sorted_positions(self.entries@),
                forall|j: int| 0 <= j < i ==> pos_lt(#[trigger] self.entries@[j].0, pos),
            decreases n - i,
        {
            let p = self.entries[i].0;
            if p == pos {
                return (true, i);
            }
            if pos.precedes(p) {
                assert forall|j: int| i <= j < n implies pos_lt(pos, #[trigger] self@[j].0) by {
                    if j > i {
                        assert(pos_lt(self@[i as int].0, self@[j].0));
                    }
                }
                return (false, i);
            }
            i = i + 1;
        }
        (false, n)
    }

    /// The block stored at `pos`.
    pub fn get(&self, pos: Pos) -> (r: Option<&Block>)
        requires
            self.wf(),
        ensures
            match r {
                Some(b) => self.block_at(pos) == Some(*b),
                None => self.block_at(pos) is None,
            },
    {
        let (found, i) = self.find(pos);
        if found {
            proof {
                lemma_entry_found(self@, i as int);
            }
            Some(&self.entries[i].1)
        } else {
            None
        }
    }

    /// The kind at `pos`; Air when nothing is stored.
    pub fn kind_at(&self, pos: Pos) -> (r: BlockKind)
        requires
            self.wf(),
        ensures
            r == kind_of(self.block_at(pos)),
    {
        match self.get(pos) {
            Some(b) => b.kind,
            None => BlockKind::Air,
        }
    }

    /// A copy of the block at `pos`, or a fresh Air block when nothing is
    /// stored.
    pub fn block_or_air(&self, pos: Pos) -> (r: Block)
        requires
            self.wf(),
        ensures
            match self.block_at(pos) {
                Some(b) => same_block(r, b),
                None => is_fresh_block(r, BlockKind::Air),
            },
    {
        match self.get(pos) {
            Some(b) => b.copy(),
            None => Block::new(BlockKind::Air),
        }
    }

    /// Stores `block` at `pos`, replacing any previous block.
    fn insert(&mut self, pos: Pos, block: Block)
        requires
            old(self).wf(),
        ensures
            final(self).wf(),
            forall|q: Pos| #[trigger]
                final(self).block_at(q) == (if q == pos {
                    Some(block)
                } else {
                    old(self).block_at(q)
                }),
    {
        let (found, i) = self.find(pos);
        let ghost s = self@;
        if found {
            let ghost e = (pos, block);
            self.entries.remove(i);
            self.entries.insert(i, (pos, block));
            assert(self@ =~= s.update(i as int, e));
            proof {
                assert forall|q: Pos| #[trigger]
                    self.block_at(q) == (if q == pos {
                        Some(block)
                    } else {
                        entries_lookup(s, q)
                    }) by {
                    if q == pos {
                        assert(sorted_positions(s.update(i as int, e))) by {
                            assert forall|a: int, b: int|
                                0 <= a < b < s.len() implies pos_lt(
                                #[trigger] s.update(i as int, e)[a].0,
                                #[trigger] s.update(i as int, e)[b].0,
                            ) by {
                                assert(s[a].0 == s.update(i as int, e)[a].0);
                                assert(s[b].0 == s.update(i as int, e)[b].0);
                            }
                        }
                        lemma_entry_found(s.update(i as int, e), i as int);
                    } else {
                        lemma_lookup_after_update(s, i as int, e, q);
                    }
                }
                assert forall|a: int, b: int| 0 <= a < b < self@.len() implies pos_lt(
                    #[trigger] self@[a].0,
                    #[trigger] self@[b].0,
                ) by {
                    assert(s[a].0 == self@[a].0);
                    assert(s[b].0 == self@[b].0);
                }
            }
        } else {
            let ghost e = (pos, block);
            self.entries.insert(i, (pos, block));
            assert(self@ =~= s.insert(i as int, e));
            proof {
                assert forall|q: Pos| #[trigger]
                    self.block_at(q) == (if q == pos {
                        Some(block)
                    } else {
                        entries_lookup(s, q)
                    }) by {
                    lemma_lookup_after_insert(s, i as int, e, q);
                }
                lemma_lookup_after_insert(s, i as int, e, pos);
            }
        }
    }

    /// Removes and returns the block at `pos`.
    pub fn remove(&mut self, pos: Pos) -> (r: Option<Block>)
        requires
            old(self).wf(),
        ensures
            final(self).wf(),
            r == old(self).block_at(pos),
            forall|q: Pos| #[trigger]
                final(self).block_at(q) == (if q == pos {
                    None
                } else {
                    old(self).block_at(q)
                }),
    {
        let (found, i) = self.find(pos);
        let ghost s = self@;
        if found {
            proof {
                lemma_entry_found(s, i as int);
            }
            let (_, b) = self.entries.remove(i);
            assert(self@ =~= s.remove(i as int));
            proof {
                assert forall|q: Pos| #[trigger]
                    self.block_at(q) == (if q == pos {
                        None
                    } else {
                        entries_lookup(s, q)
                    }) by {
                    lemma_lookup_after_remove(s, i as int, q);
                }
                lemma_lookup_after_remove(s, i as int, pos);
            }
            Some(b)
        } else {
            assert(forall|j: int| 0 <= j < s.len() ==> s[j].0 != pos) by {
                assert forall|j: int| 0 <= j < s.len() implies s[j].0 != pos by {
                    if j < i {
                        assert(pos_lt(s[j].0, pos));
                    } else {
                        assert(pos_lt(pos, s[j].0));
                    }
                }
            }
            None
        }
    }

    /// Stores `block` at `pos`; an Air block clears the position instead.
    pub fn set(&mut self, pos: Pos, block: Block)
        requires
            old(self).wf(),
        ensures
            final(self).wf(),
            forall|q: Pos| #[trigger]
                final(self).block_at(q) == set_result(old(self).block_at(q), q, pos, block),
    {
        if block.kind == BlockKind::Air {
            self.remove(pos);
        } else {
            self.insert(pos, block);
        }
    }

    /// Stores a fresh block of `kind` at `pos`. Wire, repeaters,
    /// comparators, levers, buttons and pressure plates record the block
    /// below as their support.
    pub fn place(&mut self, kind: BlockKind, pos: Pos)
        requires
            old(self).wf(),
        ensures
            final(self).wf(),
            forall|q: Pos| q != pos ==> #[trigger] final(self).block_at(q) == old(self).block_at(q),
            final(self).block_at(pos) matches Some(b) && b.kind == kind && b.support_offset == (
            if placed_with_support(kind) {
                Some(Pos { x: 0, y: -1i32, z: 0 })
            } else {
                None
            }) && b.observed_name is None && b.observed_properties.pairs().len() == 0
                && b.observation_classification == ObservationClassification::Synthetic
                && b.facing is None && b.powered is None && b.power_level is None && b.delay is None
                && b.wire_connections is None && b.piston_variant is None && b.piston_state is None
                && b.piston_head is None && b.piston_entity is None,
    {
        let mut block = Block::new(kind);
        if matches!(
            kind,
            BlockKind::RedstoneWire | BlockKind::Repeater | BlockKind::Comparator | BlockKind::Lever
                | BlockKind::Button | BlockKind::PressurePlate
        ) {
            block.support_offset = Some(Pos::new(0, -1, 0));
        }
        self.insert(pos, block);
        assert(self.block_at(pos) == Some(block));
    }

    /// Number of stored blocks.
    pub fn len(&self) -> (r: usize)
        ensures
            r == self@.len(),
    {
        self.entries.len()
    }

    pub fn is_empty(&self) -> (r: bool)
        ensures
            r == (self@.len() == 0),
    {
        self.entries.len() == 0
    }

    /// The stored entries in world order.
    pub fn iter(&self) -> (r: &[(Pos, Block)])
        ensures
            r@ == self@,
    {
        self.entries.as_slice()
    }

    /// The `i`-th stored entry in world order.
    pub fn entry_at(&self, i: usize) -> (r: (Pos, &Block))
        requires
            i < self@.len(),
        ensures
            r.0 == self@[i as int].0,
            *r.1 == self@[i as int].1,
    {
        (self.entries[i].0, &self.entries[i].1)
    }

    /// The stored positions in world order.
    pub fn positions(&self) -> (r: Vec<Pos>)
        ensures
            r@.len() == self@.len(),
            forall|i: int| 0 <= i < r@.len() ==> r@[i] == #[trigger] self@[i].0,
    {
        let n = self.entries.len();
        let mut out: Vec<Pos> = Vec::new();
        let mut i: usize = 0;
        while i < n
            invariant
                n == self.entries.len(),
                i <= n,
                out@.len() == i,
                forall|j: int| 0 <= j < i ==> out@[j] == #[trigger] self.entries@[j].0,
            decreases n - i,
        {
            out.push(self.entries[i].0);
            i = i + 1;
        }
        out
    }

    /// A copy of this world holding the same blocks.
    pub fn copy(&self) -> (r: World)
        requires
            self.wf(),
        ensures
            r.wf(),
            r@.len() == self@.len(),
            forall|i: int|
                0 <= i < self@.len() ==> (#[trigger] r@[i]).0 == self@[i].0 && same_block(
                    r@[i].1,
                    self@[i].1,
                ),
    {
        let n = self.entries.len();
        let mut out: Vec<(Pos, Block)> = Vec::new();
        let mut i: usize = 0;
        while i < n
            invariant
                n == self.entries.len(),
                i <= n,
                out@.len() == i,
                forall|j: int|
                    0 <= j < i ==> (#[trigger] out@[j]).0 == self.entries@[j].0 && same_block(
                        out@[j].1,
                        self.entries@[j].1,
                    ),
            decreases n - i,
        {
            let b = self.entries[i].1.copy();
            out.push((self.entries[i].0, b));
            i = i + 1;
        }
        let r = World { entries: out };
        assert forall|a: int, b: int| 0 <= a < b < r@.len() implies pos_lt(
            #[trigger] r@[a].0,
            #[trigger] r@[b].0,
        ) by {
            assert(pos_lt(self@[a].0, self@[b].0));
        }
        r
    }
}

/// Whether `q` lies in the closed box spanned by `lo` and `hi`.
pub open spec fn in_box(lo: Pos, hi: Pos, q: Pos) -> bool {
    lo.x <= q.x <= hi.x && lo.y <= q.y <= hi.y && lo.z <= q.z <= hi.z
}

pub open spec fn min_i32(a: i32, b: i32) -> i32 {
    if a < b {
        a
    } else {
        b
    }
}

pub open spec fn max_i32(a: i32, b: i32) -> i32 {
    if a > b {
        a
    } else {
        b
    }
}

/// Low corner of the box spanned by two corners.
pub open spec fn box_low(a: Pos, b: Pos) -> Pos {
    Pos { x: min_i32(a.x, b.x), y: min_i32(a.y, b.y), z: min_i32(a.z, b.z) }
}

/// High corner of the box spanned by two corners.
pub open spec fn box_high(a: Pos, b: Pos) -> Pos {
    Pos { x: max_i32(a.x, b.x), y: max_i32(a.y, b.y), z: max_i32(a.z, b.z) }
}

/// Whether a box cell has already been visited by a scan that is at
/// `(cx, cy, cz)` in x-major order.
pub open spec fn scanned(lo: Pos, hi: Pos, cx: int, cy: int, cz: int, q: Pos) -> bool {
    in_box(lo, hi, q) && (q.x < cx || (q.x == cx && (q.y < cy || (q.y == cy && q.z < cz))))
}

/// After `fill`, a cell in the box holds a copy of the fill block (or is
/// empty when filling with Air).
pub open spec fn filled_with(v: Option<Block>, block: Block) -> bool {
    if block.kind == BlockKind::Air {
        v is None
    } else {
        v matches Some(c) && same_block(c, block)
    }
}

/// Whether the block at `p` stands on a block that supports components.
pub open spec fn support_ok(w: World, p: Pos, b: Block) -> bool {
    match spec_support_pos(b, p) {
        Some(at) => match w.block_at(at) {
            Some(s) => spec_redstone_traits(s).supports_dust_on_top,
            None => false,
        },
        None => false,
    }
}

/// Support problems among the first `n` entries of `w`, in world order.
pub open spec fn support_issue_list(w: World, n: nat) -> Seq<(Pos, BlockKind, Option<Pos>)>
    decreases n,
{
    if n == 0 {
        Seq::empty()
    } else {
        let prev = support_issue_list(w, (n - 1) as nat);
        let e = w@[n - 1];
        if needs_support(e.1.kind) && !support_ok(w, e.0, e.1) {
            prev.push((e.0, e.1.kind, spec_support_pos(e.1, e.0)))
        } else {
            prev
        }
    }
}

/// Every stored block's support position is inside the coordinate range.
pub open spec fn supports_in_range(w: World) -> bool {
    forall|i: int| 0 <= i < w@.len() ==> support_in_range(#[trigger] w@[i].1, w@[i].0)
}

/// Components without a valid support block.
#[derive(Clone, Debug, PartialEq, Eq)]
pub struct SupportError(pub Vec<(Pos, BlockKind, Option<Pos>)>);

impl World {
    /// Fills the closed box between `a` and `b` with copies of `block`
    /// (clearing it when `block` is Air).
    pub fn fill(&mut self, a: Pos, b: Pos, block: Block)
        requires
            old(self).wf(),
        ensures
            final(self).wf(),
            forall|q: Pos|
                #![trigger final(self).block_at(q)]
                if in_box(box_low(a, b), box_high(a, b), q) {
                    filled_with(final(self).block_at(q), block)
                } else {
                    final(self).block_at(q) == old(self).block_at(q)
                },
    {
        let lo = Pos::new(
            if a.x < b.x {
                a.x
            } else {
                b.x
            },
            if a.y < b.y {
                a.y
            } else {
                b.y
            },
            if a.z < b.z {
                a.z
            } else {
                b.z
            },
        );
        let hi = Pos::new(
            if a.x > b.x {
                a.x
            } else {
                b.x
            },
            if a.y > b.y {
                a.y
            } else {
                b.y
            },
            if a.z > b.z {
                a.z
            } else {
                b.z
            },
        );
        assert(lo == box_low(a, b));
        assert(hi == box_high(a, b));
        let ghost start = *self;
        let mut cx: i64 = lo.x as i64;
        while cx <= hi.x as i64
            invariant
                self.wf(),
                lo.x <= cx <= hi.x + 1,
                lo.x <= hi.x && lo.y <= hi.y && lo.z <= hi.z,
                forall|q: Pos|
                    #![trigger self.block_at(q)]
                    if scanned(lo, hi, cx as int, lo.y as int, lo.z as int, q) {
                        filled_with(self.block_at(q), block)
                    } else {
                        self.block_at(q) == start.block_at(q)
                    },
            decreases hi.x + 1 - cx,
        {
            let mut cy: i64 = lo.y as i64;
            while cy <= hi.y as i64
                invariant
                    self.wf(),
                    lo.x <= cx <= hi.x,
                    lo.y <= cy <= hi.y + 1,
                    lo.x <= hi.x && lo.y <= hi.y && lo.z <= hi.z,
                    forall|q: Pos|
                        #![trigger self.block_at(q)]
                        if scanned(lo, hi, cx as int, cy as int, lo.z as int, q) {
                            filled_with(self.block_at(q), block)
                        } else {
                            self.block_at(q) == start.block_at(q)
                        },
                decreases hi.y + 1 - cy,
            {
                let mut cz: i64 = lo.z as i64;
                while cz <= hi.z as i64
                    invariant
                        self.wf(),
                        lo.x <= cx <= hi.x,
                        lo.y <= cy <= hi.y,
                        lo.z <= cz <= hi.z + 1,
                        lo.x <= hi.x && lo.y <= hi.y && lo.z <= hi.z,
                        forall|q: Pos|
                            #![trigger self.block_at(q)]
                            if scanned(lo, hi, cx as int, cy as int, cz as int, q) {
                                filled_with(self.block_at(q), block)
                            } else {
                                self.block_at(q) == start.block_at(q)
                            },
                    decreases hi.z + 1 - cz,
                {
                    let p = Pos::new(cx as i32, cy as i32, cz as i32);
                    let c = block.copy();
                    self.set(p, c);
                    proof {
                        assert forall|q: Pos| #![trigger self.block_at(q)]
                            if scanned(lo, hi, cx as int, cy as int, cz + 1, q) {
                                filled_with(self.block_at(q), block)
                            } else {
                                self.block_at(q) == start.block_at(q)
                            } by {
                        }
                    }
                    cz = cz + 1;
                }
                proof {
                    assert forall|q: Pos| #![trigger self.block_at(q)]
                        scanned(lo, hi, cx as int, cy as int, cz as int, q) == scanned(
                            lo,
                            hi,
                            cx as int,
                            cy + 1,
                            lo.z as int,
                            q,
                        ) by {}
                }
                cy = cy + 1;
            }
            proof {
                assert forall|q: Pos| #![trigger self.block_at(q)]
                    scanned(lo, hi, cx as int, cy as int, lo.z as int, q) == scanned(
                        lo,
                        hi,
                        cx + 1,
                        lo.y as int,
                        lo.z as int,
                        q,
                    ) by {}
            }
            cx = cx + 1;
        }
        proof {
            assert forall|q: Pos| #![trigger self.block_at(q)]
                scanned(lo, hi, cx as int, lo.y as int, lo.z as int, q) == in_box(lo, hi, q) by {}
        }
    }

    /// The smallest box containing every stored position, or `None` for an
    /// empty world.
    pub fn bounds(&self) -> (r: Option<(Pos, Pos)>)
        ensures
            r is None <==> self@.len() == 0,
            r matches Some((lo, hi)) ==> {
                &&& forall|i: int| 0 <= i < self@.len() ==> in_box(lo, hi, #[trigger] self@[i].0)
                &&& exists|i: int| 0 <= i < self@.len() && #[trigger] self@[i].0.x == lo.x
                &&& exists|i: int| 0 <= i < self@.len() && #[trigger] self@[i].0.y == lo.y
                &&& exists|i: int| 0 <= i < self@.len() && #[trigger] self@[i].0.z == lo.z
                &&& exists|i: int| 0 <= i < self@.len() && #[trigger] self@[i].0.x == hi.x
                &&& exists|i: int| 0 <= i < self@.len() && #[trigger] self@[i].0.y == hi.y
                &&& exists|i: int| 0 <= i < self@.len() && #[trigger] self@[i].0.z == hi.z
            },
    {
        let n = self.entries.len();
        if n == 0 {
            return None;
        }
        let first = self.entries[0].0;
        let mut lo = first;
        let mut hi = first;
        let ghost (mut ilx, mut ily, mut ilz, mut ihx, mut ihy, mut ihz) = (0int, 0int, 0int, 0int, 0int, 0int);
        let mut i: usize = 1;
        while i < n
            invariant
                n == self.entries.len(),
                1 <= i <= n,
                forall|j: int| 0 <= j < i ==> in_box(lo, hi, #[trigger] self@[j].0),
                0 <= ilx < i && self@[ilx].0.x == lo.x,
                0 <= ily < i && self@[ily].0.y == lo.y,
                0 <= ilz < i && self@[ilz].0.z == lo.z,
                0 <= ihx < i && self@[ihx].0.x == hi.x,
                0 <= ihy < i && self@[ihy].0.y == hi.y,
                0 <= ihz < i && self@[ihz].0.z == hi.z,
            decreases n - i,
        {
            let p = self.entries[i].0;
            if p.x < lo.x {
                lo.x = p.x;
                proof { ilx = i as int; }
            }
            if p.y < lo.y {
                lo.y = p.y;
                proof { ily = i as int; }
            }
            if p.z < lo.z {
                lo.z = p.z;
                proof { ilz = i as int; }
            }
            if p.x > hi.x {
                hi.x = p.x;
                proof { ihx = i as int; }
            }
            if p.y > hi.y {
                hi.y = p.y;
                proof { ihy = i as int; }
            }
            if p.z > hi.z {
                hi.z = p.z;
                proof { ihz = i as int; }
            }
            i = i + 1;
        }
        Some((lo, hi))
    }

    /// Every component that needs support but does not stand on a block
    /// that supports components, in world order: its position, kind and
    /// recorded support position.
    pub fn support_issues(&self) -> (r: Vec<(Pos, BlockKind, Option<Pos>)>)
        requires
            self.wf(),
            supports_in_range(*self),
        ensures
            r@ == support_issue_list(*self, self@.len()),
    {
        let n = self.entries.len();
        let mut out: Vec<(Pos, BlockKind, Option<Pos>)> = Vec::new();
        let mut i: usize = 0;
        while i < n
            invariant
                n == self.entries.len(),
                self.wf(),
                supports_in_range(*self),
                i <= n,
                out@ == support_issue_list(*self, i as nat),
            decreases n - i,
        {
            let pos = self.entries[i].0;
            let block = &self.entries[i].1;
            assert(support_in_range(self@[i as int].1, self@[i as int].0));
            if matches!(
                block.kind,
                BlockKind::RedstoneWire | BlockKind::RedstoneTorch | BlockKind::Repeater
                    | BlockKind::Comparator | BlockKind::Lever | BlockKind::Button
                    | BlockKind::PressurePlate
            ) {
                let support = block.support_pos(pos);
                let valid = match support {
                    Some(at) => match self.get(at) {
                        Some(s) => s.redstone_traits().supports_dust_on_top,
                        None => false,
                    },
                    None => false,
                };
                if !valid {
                    out.push((pos, block.kind, support));
                }
            }
            i = i + 1;
        }
        out
    }

    /// `Ok` exactly when no component lacks valid support.
    pub fn validate_supports(&self) -> (r: Result<(), SupportError>)
        requires
            self.wf(),
            supports_in_range(*self),
        ensures
            match r {
                Ok(()) => support_issue_list(*self, self@.len()).len() == 0,
                Err(e) => e.0@ == support_issue_list(*self, self@.len()) && e.0@.len() > 0,
            },
    {
        let issues = self.support_issues();
        if issues.len() == 0 {
            Ok(())
        } else {
            Err(SupportError(issues))
        }
    }
}

impl Clone for World {
    fn clone(&self) -> (r: Self) {
        let n = self.entries.len();
        let mut out: Vec<(Pos, Block)> = Vec::new();
        let mut i: usize = 0;
        while i < n
            invariant
                n == self.entries.len(),
                i <= n,
            decreases n - i,
        {
            out.push((self.entries[i].0, self.entries[i].1.copy()));
            i = i + 1;
        }
        World { entries: out }
    }
}

} // verus!
