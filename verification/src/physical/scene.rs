//! Port-level physical scenes: each component with its faces and signal
//! channels, each verified connection bound to a source and a sink port,
//! and the observation the scene was built from.

use vstd::prelude::*;

use crate::physical::circuit::{
    all_known, candidates, candidates_for, candidates_in_order, closed_under, discover, fragments_known, ids_sorted, insert_id,
    probes_of, ComponentId, ConnectionKind, FragmentId, GapCandidate, NetId, PhysicalComponent,
    PhysicalConnection, PhysicalFragment, PhysicalNet, Probe, VerifiedTopology,
};
use crate::world::{
    facing_opposite, opt_string_copy, opt_string_eq, opt_view, same_block, spec_capabilities,
    spec_is_redstone_related, spec_redstone_traits, spec_support_pos,
    support_in_range, wire_lookup, Block, BlockCapabilities, BlockKind, CapabilityLevel, Facing, Pos,
    WireConnection, World,
};

verus! {

#[derive(Clone, Copy, Debug, PartialEq, Eq, Structural)]
pub enum CapabilityStage {
    PhysicalClassification,
    Connectivity,
    SteadyState,
    Temporal,
    Repair,
    Placement,
}

#[derive(Clone, Debug, PartialEq, Eq)]
pub struct BlockCapabilityGroup {
    pub observed_name: Option<String>,
    pub kind: BlockKind,
    pub count: usize,
    pub capabilities: BlockCapabilities,
}

#[derive(Clone, Debug, PartialEq, Eq)]
pub struct CapabilityIssue {
    pub component: ComponentId,
    pub position: Pos,
    pub observed_name: Option<String>,
    pub kind: BlockKind,
    pub stage: CapabilityStage,
    pub level: CapabilityLevel,
}

#[derive(Clone, Debug, PartialEq, Eq)]
pub struct SceneCapabilityReport {
    pub groups: Vec<BlockCapabilityGroup>,
    pub issues: Vec<CapabilityIssue>,
}

impl Default for SceneCapabilityReport {
    fn default() -> (r: SceneCapabilityReport)
        ensures
            r.groups@.len() == 0,
            r.issues@.len() == 0,
    {
        SceneCapabilityReport { groups: Vec::new(), issues: Vec::new() }
    }
}

#[derive(Clone, Debug, PartialEq, Eq)]
pub struct Observation {
    pub dimension: String,
    pub regions: Vec<ObservedRegion>,
    pub frontier: Vec<ObservationFrontier>,
}

#[derive(Clone, Copy, Debug, PartialEq, Eq, Structural)]
pub struct SceneBounds {
    pub min: Pos,
    pub max: Pos,
}

#[derive(Clone, Copy, Debug, PartialEq, Eq, Structural)]
pub struct ObservedRegion {
    pub bounds: SceneBounds,
    pub completeness: RegionCompleteness,
}

#[derive(Clone, Copy, Debug, PartialEq, Eq, Structural)]
pub enum RegionCompleteness {
    Complete,
    OpenBoundary,
    MissingChunks,
    PartiallyUnavailable,
}

#[derive(Clone, Copy, Debug, PartialEq, Eq, Structural)]
pub struct ObservationFrontier {
    pub position: Pos,
    pub direction: Facing,
    pub reason: FrontierReason,
}

#[derive(Clone, Copy, Debug, PartialEq, Eq, Structural)]
pub enum FrontierReason {
    ConnectedComponentContinues,
    ChunkUnavailable,
    ScanLimitReached,
    PolicyBoundary,
}

#[derive(Clone, Copy, Debug, PartialEq, Eq, Structural, Hash, PartialOrd, Ord)]
pub struct PortId(pub u8);

#[derive(Clone, Copy, Debug, PartialEq, Eq, Structural, Hash, PartialOrd, Ord)]
pub struct PortRef {
    pub component: ComponentId,
    pub port: PortId,
}

#[derive(Clone, Copy, Debug, PartialEq, Eq, Structural)]
pub struct PhysicalPort {
    pub id: PortId,
    pub role: PortRole,
    pub face: Facing,
    pub channel: PortChannel,
}

#[derive(Clone, Copy, Debug, PartialEq, Eq, Structural)]
pub enum PortRole {
    Input,
    Output,
    Bidirectional,
    Control,
    Support,
}

#[derive(Clone, Copy, Debug, PartialEq, Eq, Structural)]
pub enum PortChannel {
    RedstoneSignal,
    WeakPower,
    StrongPower,
    Observation,
    Mechanical,
    Structure,
}

#[derive(Clone, Debug, PartialEq, Eq)]
pub struct SceneComponent {
    pub id: ComponentId,
    pub pos: Pos,
    pub block: Block,
    pub ports: Vec<PhysicalPort>,
    pub support: Option<SupportRelation>,
}

#[derive(Clone, Copy, Debug, PartialEq, Eq, Structural)]
pub struct SupportRelation {
    pub support_position: Pos,
    pub valid: bool,
}

#[derive(Clone, Debug, PartialEq, Eq)]
pub struct PortConnection {
    pub source: PortRef,
    pub sink: PortRef,
    pub transfer: TransferKind,
    pub confidence: Confidence,
    pub evidence: Vec<PhysicalEvidence>,
}

#[derive(Clone, Copy, Debug, PartialEq, Eq, Structural)]
pub enum TransferKind {
    DustPropagation,
    DirectSignal,
    WeakPower,
    StrongPower,
    DirectionalDevice,
    SideControl,
    /// A block-state observation edge into an Observer. This is not a power
    /// transfer and must not be folded into an electrical net.
    Observation,
    StructuralSupport,
}

#[derive(Clone, Copy, Debug, PartialEq, Eq, Structural, PartialOrd, Ord)]
pub enum Confidence {
    Low,
    Medium,
    High,
    Certain,
}

#[derive(Clone, Debug, PartialEq, Eq)]
pub enum PhysicalEvidence {
    AdjacentBlocks { source: Pos, sink: Pos },
    BlockFacing { component: ComponentId, facing: Facing },
    WireShape { component: ComponentId, toward: Facing, shape: WireConnection },
    Support { component: ComponentId, support: Pos },
    MinecraftRule { rule: String },
}

#[allow(inconsistent_fields)]
#[derive(Clone, Debug, PartialEq, Eq)]
pub enum PhysicalDiagnostic {
    OpenObservationBoundary { frontier: ObservationFrontier },
    InvalidSupport { component: ComponentId, expected: Pos },
    AmbiguousConnection { components: [ComponentId; 2], reason: String },
}

#[derive(Clone, Debug, PartialEq, Eq)]
pub struct PhysicalScene {
    pub observation: Observation,
    pub components: Vec<SceneComponent>,
    pub connections: Vec<PortConnection>,
    pub nets: Vec<PhysicalNet>,
    pub fragments: Vec<PhysicalFragment>,
    pub diagnostics: Vec<PhysicalDiagnostic>,
}

// ---------------------------------------------------------------------------
// Observations and bounds.
// ---------------------------------------------------------------------------

impl Observation {
    /// The observation is complete: no open frontier, and every region
    /// complete.
    pub open spec fn spec_is_complete(&self) -> bool {
        &&& self.frontier@.len() == 0
        &&& forall|i: int| 0 <= i < self.regions@.len() ==> (#[trigger] self.regions@[i]).completeness == RegionCompleteness::Complete
    }

    /// One complete region and no frontier.
    pub fn complete(dimension: &str, bounds: SceneBounds) -> (r: Observation)
        ensures
            r.dimension@ == dimension@,
            r.regions@ == seq![ObservedRegion { bounds, completeness: RegionCompleteness::Complete }],
            r.frontier@.len() == 0,
    {
        let mut regions: Vec<ObservedRegion> = Vec::new();
        regions.push(ObservedRegion { bounds, completeness: RegionCompleteness::Complete });
        Observation { dimension: dimension.to_string(), regions, frontier: Vec::new() }
    }

    pub fn is_complete(&self) -> (r: bool)
        ensures
            r == self.spec_is_complete(),
    {
        if self.frontier.len() > 0 {
            return false;
        }
        let mut i: usize = 0;
        while i < self.regions.len()
            invariant
                i <= self.regions@.len(),
                forall|j: int| 0 <= j < i ==> (#[trigger] self.regions@[j]).completeness == RegionCompleteness::Complete,
            decreases self.regions@.len() - i,
        {
            if self.regions[i].completeness != RegionCompleteness::Complete {
                return false;
            }
            i = i + 1;
        }
        true
    }
}

pub open spec fn min_i32(a: i32, b: i32) -> i32 {
    if a < b {
        a
    } else {
        b
    }
}

pub open spec fn max_i32(a: i32, b: i32) -> i32 {
    if a > b {
        a
    } else {
        b
    }
}

impl SceneBounds {
    /// The bounds spanned by two corners, in any order.
    pub fn new(a: Pos, b: Pos) -> (r: SceneBounds)
        ensures
            r.min == (Pos { x: min_i32(a.x, b.x), y: min_i32(a.y, b.y), z: min_i32(a.z, b.z) }),
            r.max == (Pos { x: max_i32(a.x, b.x), y: max_i32(a.y, b.y), z: max_i32(a.z, b.z) }),
    {
        let min = Pos::new(
            if a.x < b.x { a.x } else { b.x },
            if a.y < b.y { a.y } else { b.y },
            if a.z < b.z { a.z } else { b.z },
        );
        let max = Pos::new(
            if a.x > b.x { a.x } else { b.x },
            if a.y > b.y { a.y } else { b.y },
            if a.z > b.z { a.z } else { b.z },
        );
        SceneBounds { min, max }
    }

    pub fn contains(self, pos: Pos) -> (r: bool)
        ensures
            r == (self.min.x <= pos.x <= self.max.x && self.min.y <= pos.y <= self.max.y && self.min.z <= pos.z
                <= self.max.z),
    {
        pos.x >= self.min.x && pos.x <= self.max.x && pos.y >= self.min.y && pos.y <= self.max.y && pos.z
            >= self.min.z && pos.z <= self.max.z
    }
}

// ---------------------------------------------------------------------------
// Ports.
// ---------------------------------------------------------------------------

/// A port without its id: role, face and channel.
pub type PortShape = (PortRole, Facing, PortChannel);

pub open spec fn horizontal() -> Seq<Facing> {
    seq![Facing::North, Facing::East, Facing::South, Facing::West]
}

pub open spec fn all_faces() -> Seq<Facing> {
    seq![Facing::North, Facing::East, Facing::South, Facing::West, Facing::Up, Facing::Down]
}

/// One port of `role` and `channel` on each of `faces`.
pub open spec fn ports_on(role: PortRole, faces: Seq<Facing>, channel: PortChannel) -> Seq<PortShape> {
    faces.map_values(|f: Facing| (role, f, channel))
}

/// The face a support offset points to, if it is a unit offset.
pub open spec fn spec_support_facing(offset: Option<Pos>) -> Option<Facing> {
    match offset {
        Some(o) => if o == (Pos { x: 1, y: 0, z: 0 }) {
            Some(Facing::East)
        } else if o == (Pos { x: -1i32, y: 0, z: 0 }) {
            Some(Facing::West)
        } else if o == (Pos { x: 0, y: 1, z: 0 }) {
            Some(Facing::Up)
        } else if o == (Pos { x: 0, y: -1i32, z: 0 }) {
            Some(Facing::Down)
        } else if o == (Pos { x: 0, y: 0, z: 1 }) {
            Some(Facing::South)
        } else if o == (Pos { x: 0, y: 0, z: -1i32 }) {
            Some(Facing::North)
        } else {
            None
        },
        None => None,
    }
}

/// The face a torch is controlled from: toward its support, below when
/// unknown.
pub open spec fn torch_control_face(offset: Option<Pos>) -> Facing {
    match spec_support_facing(offset) {
        Some(f) => f,
        None => Facing::Down,
    }
}

/// The faces at the sides of a device facing `f`.
pub open spec fn beside(f: Facing) -> spec_fn(Facing) -> bool {
    |g: Facing| g != f && g != facing_opposite(f)
}

/// The ports specific to a block's kind, after its observation ports.
pub open spec fn kind_ports(b: Block) -> Seq<PortShape> {
    match b.kind {
        BlockKind::RedstoneWire => ports_on(PortRole::Bidirectional, all_faces(), PortChannel::RedstoneSignal).push(
            (PortRole::Support, Facing::Down, PortChannel::Structure),
        ),
        BlockKind::Repeater | BlockKind::Comparator => {
            let f = match b.facing {
                Some(f) => f,
                None => Facing::North,
            };
            seq![(PortRole::Output, f, PortChannel::RedstoneSignal), (PortRole::Input, facing_opposite(f), PortChannel::RedstoneSignal)]
                + ports_on(
                PortRole::Control,
                horizontal().filter(beside(f)),
                PortChannel::RedstoneSignal,
            ) + seq![(PortRole::Support, Facing::Down, PortChannel::Structure)]
        },
        BlockKind::RedstoneTorch => ports_on(PortRole::Output, horizontal(), PortChannel::RedstoneSignal).push(
            (PortRole::Control, torch_control_face(b.support_offset), PortChannel::RedstoneSignal),
        ),
        BlockKind::Lever | BlockKind::Button | BlockKind::PressurePlate | BlockKind::RedstoneBlock => {
            let base = ports_on(PortRole::Output, horizontal(), PortChannel::StrongPower);
            match spec_support_facing(b.support_offset) {
                Some(f) => if f is Up || f is Down {
                    base.push((PortRole::Output, f, PortChannel::StrongPower))
                } else {
                    base
                },
                None => base,
            }
        },
        BlockKind::Piston => ports_on(PortRole::Input, horizontal(), PortChannel::RedstoneSignal).push(
            (
                PortRole::Output,
                match b.facing {
                    Some(f) => f,
                    None => Facing::North,
                },
                PortChannel::Mechanical,
            ),
        ),
        BlockKind::Observer => {
            let f = match b.facing {
                Some(f) => f,
                None => Facing::North,
            };
            seq![(PortRole::Output, f, PortChannel::StrongPower), (PortRole::Input, facing_opposite(f), PortChannel::Observation)]
        },
        BlockKind::Solid | BlockKind::Transparent | BlockKind::RedstoneLamp => if spec_redstone_traits(
            b,
        ).conducts_weak_power {
            ports_on(PortRole::Bidirectional, all_faces(), PortChannel::WeakPower)
        } else {
            Seq::empty()
        },
        _ => Seq::empty(),
    }
}

/// The ports of a block, in order: an observation output on every face of
/// a present block, then the ports of its kind.
pub open spec fn port_shapes(b: Block) -> Seq<PortShape> {
    (if b.kind is Air {
        Seq::empty()
    } else {
        ports_on(PortRole::Output, all_faces(), PortChannel::Observation)
    }) + kind_ports(b)
}

/// `ports` are the shapes `shapes`, numbered in order.
pub open spec fn numbered(ports: Seq<PhysicalPort>, shapes: Seq<PortShape>) -> bool {
    &&& ports.len() == shapes.len()
    &&& forall|k: int|
        0 <= k < ports.len() ==> (#[trigger] ports[k]).id == PortId(k as u8) && (ports[k].role, ports[k].face, ports[k].channel)
            == shapes[k]
}

/// Appends a port numbered by its position.
fn push_port(ports: &mut Vec<PhysicalPort>, role: PortRole, face: Facing, channel: PortChannel, Ghost(shapes): Ghost<Seq<PortShape>>)
    requires
        numbered(old(ports)@, shapes),
        old(ports)@.len() < 200,
    ensures
        numbered(final(ports)@, shapes.push((role, face, channel))),
{
    let id = PortId(ports.len() as u8);
    ports.push(PhysicalPort { id, role, face, channel });
    proof {
        assert forall|k: int| 0 <= k < ports@.len() implies (#[trigger] ports@[k]).id == PortId(k as u8) && (
        ports@[k].role, ports@[k].face, ports@[k].channel) == shapes.push((role, face, channel))[k] by {
            if k < ports@.len() - 1 {
                assert(ports@[k] == old(ports)@[k]);
            }
        }
    }
}

fn push_ports(ports: &mut Vec<PhysicalPort>, role: PortRole, faces: &Vec<Facing>, channel: PortChannel, Ghost(shapes): Ghost<Seq<PortShape>>)
    requires
        numbered(old(ports)@, shapes),
        old(ports)@.len() + faces@.len() < 200,
    ensures
        numbered(final(ports)@, shapes + ports_on(role, faces@, channel)),
{
    let n = faces.len();
    let mut i: usize = 0;
    while i < n
        invariant
            n == faces@.len(),
            i <= n,
            ports@.len() == old(ports)@.len() + i,
            old(ports)@.len() + n < 200,
            numbered(ports@, shapes + ports_on(role, faces@.take(i as int), channel)),
        decreases n - i,
    {
        push_port(ports, role, faces[i], channel, Ghost(shapes + ports_on(role, faces@.take(i as int), channel)));
        proof {
            assert(shapes + ports_on(role, faces@.take(i as int), channel).push((role, faces@[i as int], channel))
                =~= shapes + ports_on(role, faces@.take(i + 1), channel));
        }
        i = i + 1;
    }
    proof {
        assert(faces@.take(n as int) =~= faces@);
    }
}

fn horizontal_faces() -> (r: Vec<Facing>)
    ensures
        r@ == horizontal(),
{
    let mut v: Vec<Facing> = Vec::new();
    v.push(Facing::North);
    v.push(Facing::East);
    v.push(Facing::South);
    v.push(Facing::West);
    assert(v@ =~= horizontal());
    v
}

fn every_face() -> (r: Vec<Facing>)
    ensures
        r@ == all_faces(),
{
    let mut v = horizontal_faces();
    v.push(Facing::Up);
    v.push(Facing::Down);
    assert(v@ =~= all_faces());
    v
}

/// The face a support offset points to, if it is a unit offset.
fn support_facing(offset: Option<Pos>) -> (r: Option<Facing>)
    ensures
        r == spec_support_facing(offset),
{
    match offset {
        Some(o) => if o.x == 1 && o.y == 0 && o.z == 0 {
            Some(Facing::East)
        } else if o.x == -1 && o.y == 0 && o.z == 0 {
            Some(Facing::West)
        } else if o.x == 0 && o.y == 1 && o.z == 0 {
            Some(Facing::Up)
        } else if o.x == 0 && o.y == -1 && o.z == 0 {
            Some(Facing::Down)
        } else if o.x == 0 && o.y == 0 && o.z == 1 {
            Some(Facing::South)
        } else if o.x == 0 && o.y == 0 && o.z == -1 {
            Some(Facing::North)
        } else {
            None
        },
        None => None,
    }
}

/// The ports of a block, numbered in order.
pub fn ports_for(block: &Block) -> (r: Vec<PhysicalPort>)
    ensures
        numbered(r@, port_shapes(*block)),
{
    let mut ports: Vec<PhysicalPort> = Vec::new();
    let ghost mut shapes: Seq<PortShape> = Seq::empty();
    let every = every_face();
    let sides = horizontal_faces();
    if block.kind != BlockKind::Air {
        push_ports(&mut ports, PortRole::Output, &every, PortChannel::Observation, Ghost(shapes));
        proof {
            shapes = shapes + ports_on(PortRole::Output, all_faces(), PortChannel::Observation);
        }
    }
    let ghost base = shapes;
    assert(base =~= (if block.kind is Air {
        Seq::empty()
    } else {
        ports_on(PortRole::Output, all_faces(), PortChannel::Observation)
    }));
    match block.kind {
        BlockKind::RedstoneWire => {
            push_ports(&mut ports, PortRole::Bidirectional, &every, PortChannel::RedstoneSignal, Ghost(shapes));
            proof {
                shapes = shapes + ports_on(PortRole::Bidirectional, all_faces(), PortChannel::RedstoneSignal);
            }
            push_port(&mut ports, PortRole::Support, Facing::Down, PortChannel::Structure, Ghost(shapes));
            proof {
                shapes = shapes.push((PortRole::Support, Facing::Down, PortChannel::Structure));
                assert(shapes =~= base + kind_ports(*block));
            }
        },
        BlockKind::Repeater | BlockKind::Comparator => {
            let facing = match block.facing {
                Some(f) => f,
                None => Facing::North,
            };
            let back = facing.opposite();
            push_port(&mut ports, PortRole::Output, facing, PortChannel::RedstoneSignal, Ghost(shapes));
            proof {
                shapes = shapes.push((PortRole::Output, facing, PortChannel::RedstoneSignal));
            }
            push_port(&mut ports, PortRole::Input, back, PortChannel::RedstoneSignal, Ghost(shapes));
            proof {
                shapes = shapes.push((PortRole::Input, back, PortChannel::RedstoneSignal));
            }
            let mut controls: Vec<Facing> = Vec::new();
            let mut i: usize = 0;
            while i < 4
                invariant
                    i <= 4,
                    sides@ == horizontal(),
                    controls@ == horizontal().take(i as int).filter(beside(facing)),
                    controls@.len() <= i,
                    back == facing_opposite(facing),
                decreases 4 - i,
            {
                let face = sides[i];
                proof {
                    assert(horizontal().take(i + 1) =~= horizontal().take(i as int).push(face));
                    horizontal().take(i as int).lemma_filter_push(face, beside(facing));
                }
                if face != facing && face != back {
                    controls.push(face);
                }
                i = i + 1;
            }
            proof {
                assert(horizontal().take(4) =~= horizontal());
            }
            push_ports(&mut ports, PortRole::Control, &controls, PortChannel::RedstoneSignal, Ghost(shapes));
            proof {
                shapes = shapes + ports_on(PortRole::Control, controls@, PortChannel::RedstoneSignal);
            }
            push_port(&mut ports, PortRole::Support, Facing::Down, PortChannel::Structure, Ghost(shapes));
            proof {
                shapes = shapes.push((PortRole::Support, Facing::Down, PortChannel::Structure));
                assert(shapes =~= base + kind_ports(*block));
            }
        },
        BlockKind::RedstoneTorch => {
            push_ports(&mut ports, PortRole::Output, &sides, PortChannel::RedstoneSignal, Ghost(shapes));
            proof {
                shapes = shapes + ports_on(PortRole::Output, horizontal(), PortChannel::RedstoneSignal);
            }
            let control_face = match support_facing(block.support_offset) {
                Some(f) => f,
                None => Facing::Down,
            };
            push_port(&mut ports, PortRole::Control, control_face, PortChannel::RedstoneSignal, Ghost(shapes));
            proof {
                shapes = shapes.push((PortRole::Control, control_face, PortChannel::RedstoneSignal));
                assert(shapes =~= base + kind_ports(*block));
            }
        },
        BlockKind::Lever | BlockKind::Button | BlockKind::PressurePlate | BlockKind::RedstoneBlock => {
            push_ports(&mut ports, PortRole::Output, &sides, PortChannel::StrongPower, Ghost(shapes));
            proof {
                shapes = shapes + ports_on(PortRole::Output, horizontal(), PortChannel::StrongPower);
            }
            match support_facing(block.support_offset) {
                Some(face) => {
                    if face == Facing::Up || face == Facing::Down {
                        push_port(&mut ports, PortRole::Output, face, PortChannel::StrongPower, Ghost(shapes));
                        proof {
                            shapes = shapes.push((PortRole::Output, face, PortChannel::StrongPower));
                        }
                    }
                },
                None => {},
            }
            proof {
                assert(shapes =~= base + kind_ports(*block));
            }
        },
        BlockKind::Piston => {
            push_ports(&mut ports, PortRole::Input, &sides, PortChannel::RedstoneSignal, Ghost(shapes));
            proof {
                shapes = shapes + ports_on(PortRole::Input, horizontal(), PortChannel::RedstoneSignal);
            }
            let facing = match block.facing {
                Some(f) => f,
                None => Facing::North,
            };
            push_port(&mut ports, PortRole::Output, facing, PortChannel::Mechanical, Ghost(shapes));
            proof {
                shapes = shapes.push((PortRole::Output, facing, PortChannel::Mechanical));
                assert(shapes =~= base + kind_ports(*block));
            }
        },
        BlockKind::Observer => {
            let output = match block.facing {
                Some(f) => f,
                None => Facing::North,
            };
            push_port(&mut ports, PortRole::Output, output, PortChannel::StrongPower, Ghost(shapes));
            proof {
                shapes = shapes.push((PortRole::Output, output, PortChannel::StrongPower));
            }
            push_port(&mut ports, PortRole::Input, output.opposite(), PortChannel::Observation, Ghost(shapes));
            proof {
                shapes = shapes.push((PortRole::Input, facing_opposite(output), PortChannel::Observation));
                assert(shapes =~= base + kind_ports(*block));
            }
        },
        BlockKind::Solid | BlockKind::Transparent | BlockKind::RedstoneLamp => {
            if block.redstone_traits().conducts_weak_power {
                push_ports(&mut ports, PortRole::Bidirectional, &every, PortChannel::WeakPower, Ghost(shapes));
                proof {
                    shapes = shapes + ports_on(PortRole::Bidirectional, all_faces(), PortChannel::WeakPower);
                }
            }
            proof {
                assert(shapes =~= base + kind_ports(*block));
            }
        },
        _ => {
            proof {
                assert(shapes =~= base + kind_ports(*block));
            }
        },
    }
    ports
}

// ---------------------------------------------------------------------------
// Connections between ports.
// ---------------------------------------------------------------------------

/// The face of `source` that faces `sink`, for the neighbours and the
/// one-step diagonals a redstone connection can span.
pub open spec fn spec_facing_between(source: Pos, sink: Pos) -> Option<Facing> {
    let dx = sink.x - source.x;
    let dy = sink.y - source.y;
    let dz = sink.z - source.z;
    let step = -1 <= dy <= 1;
    if dx == 1 && dz == 0 && step {
        Some(Facing::East)
    } else if dx == -1 && dz == 0 && step {
        Some(Facing::West)
    } else if dx == 0 && dz == 0 && dy == 1 {
        Some(Facing::Up)
    } else if dx == 0 && dz == 0 && dy == -1 {
        Some(Facing::Down)
    } else if dx == 0 && dz == 1 && step {
        Some(Facing::South)
    } else if dx == 0 && dz == -1 && step {
        Some(Facing::North)
    } else {
        None
    }
}

fn facing_between(source: Pos, sink: Pos) -> (r: Option<Facing>)
    ensures
        r == spec_facing_between(source, sink),
{
    let dx: i64 = sink.x as i64 - source.x as i64;
    let dy: i64 = sink.y as i64 - source.y as i64;
    let dz: i64 = sink.z as i64 - source.z as i64;
    let step = -1 <= dy && dy <= 1;
    if dx == 1 && dz == 0 && step {
        Some(Facing::East)
    } else if dx == -1 && dz == 0 && step {
        Some(Facing::West)
    } else if dx == 0 && dz == 0 && dy == 1 {
        Some(Facing::Up)
    } else if dx == 0 && dz == 0 && dy == -1 {
        Some(Facing::Down)
    } else if dx == 0 && dz == 1 && step {
        Some(Facing::South)
    } else if dx == 0 && dz == -1 && step {
        Some(Facing::North)
    } else {
        None
    }
}

/// What a connection of `kind` carries.
pub open spec fn spec_transfer_kind(kind: ConnectionKind) -> TransferKind {
    match kind {
        ConnectionKind::Dust | ConnectionKind::DustRise | ConnectionKind::DustFallThroughConductor => TransferKind::DustPropagation,
        ConnectionKind::WeakPower => TransferKind::WeakPower,
        ConnectionKind::StrongPower => TransferKind::StrongPower,
        ConnectionKind::DirectionalInput | ConnectionKind::DirectionalOutput => TransferKind::DirectionalDevice,
        ConnectionKind::DirectSource => TransferKind::DirectSignal,
        ConnectionKind::Control => TransferKind::SideControl,
        ConnectionKind::ObserverInput => TransferKind::Observation,
        ConnectionKind::ObserverOutput => TransferKind::StrongPower,
        ConnectionKind::PistonInput => TransferKind::DirectSignal,
        ConnectionKind::Support => TransferKind::StructuralSupport,
    }
}

fn transfer_kind(kind: ConnectionKind) -> (r: TransferKind)
    ensures
        r == spec_transfer_kind(kind),
{
    match kind {
        ConnectionKind::Dust | ConnectionKind::DustRise | ConnectionKind::DustFallThroughConductor => TransferKind::DustPropagation,
        ConnectionKind::WeakPower => TransferKind::WeakPower,
        ConnectionKind::StrongPower => TransferKind::StrongPower,
        ConnectionKind::DirectionalInput | ConnectionKind::DirectionalOutput => TransferKind::DirectionalDevice,
        ConnectionKind::DirectSource => TransferKind::DirectSignal,
        ConnectionKind::Control => TransferKind::SideControl,
        ConnectionKind::ObserverInput => TransferKind::Observation,
        ConnectionKind::ObserverOutput => TransferKind::StrongPower,
        ConnectionKind::PistonInput => TransferKind::DirectSignal,
        ConnectionKind::Support => TransferKind::StructuralSupport,
    }
}

/// The Java Edition rule a connection of `kind` rests on.
pub open spec fn spec_rule(kind: ConnectionKind) -> Seq<char> {
    match kind {
        ConnectionKind::Dust => "java.redstone.dust_connection.horizontal"@,
        ConnectionKind::DustRise => "java.redstone.dust_connection.vertical_rise"@,
        ConnectionKind::DustFallThroughConductor => "java.redstone.dust_connection.vertical_fall_through_conductor"@,
        ConnectionKind::WeakPower => "java.redstone.weak_power"@,
        ConnectionKind::StrongPower => "java.redstone.strong_power"@,
        ConnectionKind::DirectionalInput => "java.redstone.directional_input"@,
        ConnectionKind::DirectionalOutput => "java.redstone.directional_output"@,
        ConnectionKind::DirectSource => "java.redstone.direct_source"@,
        ConnectionKind::Control => "java.redstone.side_or_support_control"@,
        ConnectionKind::ObserverInput => "java.redstone.observer.block_state_observation"@,
        ConnectionKind::ObserverOutput => "java.redstone.observer.strong_pulse"@,
        ConnectionKind::PistonInput => "java.redstone.piston_input"@,
        ConnectionKind::Support => "java.block.structural_support"@,
    }
}

fn rule(kind: ConnectionKind) -> (r: String)
    ensures
        r@ == spec_rule(kind),
{
    let text = match kind {
        ConnectionKind::Dust => "java.redstone.dust_connection.horizontal",
        ConnectionKind::DustRise => "java.redstone.dust_connection.vertical_rise",
        ConnectionKind::DustFallThroughConductor => "java.redstone.dust_connection.vertical_fall_through_conductor",
        ConnectionKind::WeakPower => "java.redstone.weak_power",
        ConnectionKind::StrongPower => "java.redstone.strong_power",
        ConnectionKind::DirectionalInput => "java.redstone.directional_input",
        ConnectionKind::DirectionalOutput => "java.redstone.directional_output",
        ConnectionKind::DirectSource => "java.redstone.direct_source",
        ConnectionKind::Control => "java.redstone.side_or_support_control",
        ConnectionKind::ObserverInput => "java.redstone.observer.block_state_observation",
        ConnectionKind::ObserverOutput => "java.redstone.observer.strong_pulse",
        ConnectionKind::PistonInput => "java.redstone.piston_input",
        ConnectionKind::Support => "java.block.structural_support",
    };
    text.to_string()
}

/// A port can carry a connection of `kind`, outgoing or incoming.
pub open spec fn port_fits(kind: ConnectionKind, outgoing: bool, p: PhysicalPort) -> bool {
    match kind {
        ConnectionKind::Support => p.channel == PortChannel::Structure,
        ConnectionKind::Control => if outgoing {
            p.role == PortRole::Output || p.role == PortRole::Bidirectional
        } else {
            p.role == PortRole::Control
        },
        ConnectionKind::ObserverInput => p.channel == PortChannel::Observation && if outgoing {
            p.role == PortRole::Output
        } else {
            p.role == PortRole::Input
        },
        ConnectionKind::ObserverOutput => if outgoing {
            p.channel == PortChannel::StrongPower && p.role == PortRole::Output
        } else {
            (p.channel == PortChannel::RedstoneSignal || p.channel == PortChannel::WeakPower || p.channel
                == PortChannel::StrongPower) && (p.role == PortRole::Input || p.role == PortRole::Bidirectional)
        },
        _ => if outgoing {
            p.role == PortRole::Output || p.role == PortRole::Bidirectional
        } else {
            p.role == PortRole::Input || p.role == PortRole::Bidirectional || p.role == PortRole::Control
        },
    }
}

/// The first port on `face` that can carry the connection.
pub open spec fn first_fitting(ports: Seq<PhysicalPort>, face: Facing, outgoing: bool, kind: ConnectionKind) -> Option<PhysicalPort>
    decreases ports.len(),
{
    if ports.len() == 0 {
        None
    } else if ports[0].face == face && port_fits(kind, outgoing, ports[0]) {
        Some(ports[0])
    } else {
        first_fitting(ports.drop_first(), face, outgoing, kind)
    }
}

fn fits(kind: ConnectionKind, outgoing: bool, p: PhysicalPort) -> (r: bool)
    ensures
        r == port_fits(kind, outgoing, p),
{
    match kind {
        ConnectionKind::Support => p.channel == PortChannel::Structure,
        ConnectionKind::Control => if outgoing {
            p.role == PortRole::Output || p.role == PortRole::Bidirectional
        } else {
            p.role == PortRole::Control
        },
        ConnectionKind::ObserverInput => p.channel == PortChannel::Observation && if outgoing {
            p.role == PortRole::Output
        } else {
            p.role == PortRole::Input
        },
        ConnectionKind::ObserverOutput => if outgoing {
            p.channel == PortChannel::StrongPower && p.role == PortRole::Output
        } else {
            (p.channel == PortChannel::RedstoneSignal || p.channel == PortChannel::WeakPower || p.channel
                == PortChannel::StrongPower) && (p.role == PortRole::Input || p.role == PortRole::Bidirectional)
        },
        _ => if outgoing {
            p.role == PortRole::Output || p.role == PortRole::Bidirectional
        } else {
            p.role == PortRole::Input || p.role == PortRole::Bidirectional || p.role == PortRole::Control
        },
    }
}

fn select_port(ports: &Vec<PhysicalPort>, face: Facing, outgoing: bool, kind: ConnectionKind) -> (r: Option<PhysicalPort>)
    ensures
        r == first_fitting(ports@, face, outgoing, kind),
{
    let n = ports.len();
    let mut i: usize = 0;
    assert(ports@.skip(0) =~= ports@);
    while i < n
        invariant
            n == ports@.len(),
            i <= n,
            first_fitting(ports@.skip(i as int), face, outgoing, kind) == first_fitting(ports@, face, outgoing, kind),
        decreases n - i,
    {
        let p = ports[i];
        proof {
            assert(ports@.skip(i as int)[0] == p);
            assert(ports@.skip(i as int).drop_first() =~= ports@.skip(i + 1));
        }
        if p.face == face && fits(kind, outgoing, p) {
            return Some(p);
        }
        i = i + 1;
    }
    proof {
        assert(ports@.skip(n as int).len() == 0);
    }
    None
}

/// The last scene component with `id`, the one an id lookup resolves to.
pub open spec fn last_with_id(cs: Seq<SceneComponent>, id: ComponentId) -> Option<SceneComponent>
    decreases cs.len(),
{
    if cs.len() == 0 {
        None
    } else if cs.last().id == id {
        Some(cs.last())
    } else {
        last_with_id(cs.drop_last(), id)
    }
}

fn index_with_id(cs: &Vec<SceneComponent>, id: ComponentId) -> (r: Option<usize>)
    ensures
        match r {
            Some(k) => k < cs@.len() && last_with_id(cs@, id) == Some(cs@[k as int]),
            None => last_with_id(cs@, id) is None,
        },
{
    let mut i: usize = cs.len();
    assert(cs@.take(i as int) =~= cs@);
    while i > 0
        invariant
            i <= cs@.len(),
            last_with_id(cs@.take(i as int), id) == last_with_id(cs@, id),
        decreases i,
    {
        proof {
            assert(cs@.take(i as int).drop_last() =~= cs@.take(i - 1));
        }
        if cs[i - 1].id == id {
            return Some(i - 1);
        }
        i = i - 1;
    }
    None
}

/// The evidence a connection between `s` and `t` through face `f` of `s`
/// records before its rule: the adjacency, the source's facing, and the
/// wire shapes toward each other.
pub open spec fn head_evidence(s: SceneComponent, t: SceneComponent, f: Facing) -> Seq<PhysicalEvidence> {
    let adjacent = seq![PhysicalEvidence::AdjacentBlocks { source: s.pos, sink: t.pos }];
    let facing = match s.block.facing {
        Some(g) => adjacent.push(PhysicalEvidence::BlockFacing { component: s.id, facing: g }),
        None => adjacent,
    };
    let from = match s.block.wire_connections {
        Some(w) => match wire_lookup(w, f) {
            Some(shape) => facing.push(PhysicalEvidence::WireShape { component: s.id, toward: f, shape }),
            None => facing,
        },
        None => facing,
    };
    let back = facing_opposite(f);
    match t.block.wire_connections {
        Some(w) => match wire_lookup(w, back) {
            Some(shape) => from.push(PhysicalEvidence::WireShape { component: t.id, toward: back, shape }),
            None => from,
        },
        None => from,
    }
}

/// The components, face and ports a connection binds to in a scene, when
/// both ends resolve, are adjacent, and have fitting ports.
pub open spec fn connection_ports(cs: Seq<SceneComponent>, c: PhysicalConnection) -> Option<
    (SceneComponent, SceneComponent, Facing, PhysicalPort, PhysicalPort),
> {
    match (last_with_id(cs, c.source), last_with_id(cs, c.sink)) {
        (Some(s), Some(t)) => match spec_facing_between(s.pos, t.pos) {
            Some(f) => match (
                first_fitting(s.ports@, f, true, c.kind),
                first_fitting(t.ports@, facing_opposite(f), false, c.kind),
            ) {
                (Some(sp), Some(tp)) => Some((s, t, f, sp, tp)),
                _ => None,
            },
            None => None,
        },
        _ => None,
    }
}

/// `pc` is the port-level form of `c` in a scene with components `cs`.
pub open spec fn connection_for(cs: Seq<SceneComponent>, c: PhysicalConnection, pc: PortConnection) -> bool {
    match connection_ports(cs, c) {
        Some((s, t, f, sp, tp)) => {
            let head = head_evidence(s, t, f);
            &&& pc.source == (PortRef { component: s.id, port: sp.id })
            &&& pc.sink == (PortRef { component: t.id, port: tp.id })
            &&& pc.transfer == spec_transfer_kind(c.kind)
            &&& pc.confidence == Confidence::Certain
            &&& pc.evidence@.len() == head.len() + 1
            &&& pc.evidence@.take(head.len() as int) == head
            &&& pc.evidence@.last() matches PhysicalEvidence::MinecraftRule { rule } && rule@ == spec_rule(c.kind)
        },
        None => false,
    }
}

fn push_wire_shape(
    evidence: &mut Vec<PhysicalEvidence>,
    component: &SceneComponent,
    toward: Facing,
)
    ensures
        final(evidence)@ == match component.block.wire_connections {
            Some(w) => match wire_lookup(w, toward) {
                Some(shape) => old(evidence)@.push(
                    PhysicalEvidence::WireShape { component: component.id, toward, shape },
                ),
                None => old(evidence)@,
            },
            None => old(evidence)@,
        },
{
    match component.block.wire_connections {
        Some(w) => match w.get(toward) {
            Some(shape) => evidence.push(PhysicalEvidence::WireShape { component: component.id, toward, shape }),
            None => {},
        },
        None => {},
    }
}

fn port_connection(connection: &PhysicalConnection, components: &Vec<SceneComponent>) -> (r: Option<PortConnection>)
    ensures
        r is None <==> connection_ports(components@, *connection) is None,
        r matches Some(pc) ==> connection_for(components@, *connection, pc),
{
    let si = match index_with_id(components, connection.source) {
        Some(k) => k,
        None => return None,
    };
    let ti = match index_with_id(components, connection.sink) {
        Some(k) => k,
        None => return None,
    };
    let source = &components[si];
    let sink = &components[ti];
    let source_face = match facing_between(source.pos, sink.pos) {
        Some(f) => f,
        None => return None,
    };
    let sink_face = source_face.opposite();
    let source_port = match select_port(&source.ports, source_face, true, connection.kind) {
        Some(p) => p,
        None => return None,
    };
    let sink_port = match select_port(&sink.ports, sink_face, false, connection.kind) {
        Some(p) => p,
        None => return None,
    };
    let mut evidence: Vec<PhysicalEvidence> = Vec::new();
    evidence.push(PhysicalEvidence::AdjacentBlocks { source: source.pos, sink: sink.pos });
    match source.block.facing {
        Some(facing) => evidence.push(PhysicalEvidence::BlockFacing { component: source.id, facing }),
        None => {},
    }
    push_wire_shape(&mut evidence, source, source_face);
    push_wire_shape(&mut evidence, sink, sink_face);
    let ghost head = evidence@;
    assert(head =~= head_evidence(*source, *sink, source_face));
    evidence.push(PhysicalEvidence::MinecraftRule { rule: rule(connection.kind) });
    assert(evidence@.take(head.len() as int) =~= head);
    Some(
        PortConnection {
            source: PortRef { component: source.id, port: source_port.id },
            sink: PortRef { component: sink.id, port: sink_port.id },
            transfer: transfer_kind(connection.kind),
            confidence: Confidence::Certain,
            evidence,
        },
    )
}

// ---------------------------------------------------------------------------
// Building a scene.
// ---------------------------------------------------------------------------

/// Whether the block at `sp` can carry a component placed on it: read
/// from the observed world when there is one, otherwise from the
/// topology's own components.
pub open spec fn support_holds(topology: Seq<PhysicalComponent>, world: Option<World>, sp: Pos) -> bool {
    match world {
        Some(w) => match w.block_at(sp) {
            Some(b) => spec_redstone_traits(b).supports_dust_on_top,
            None => false,
        },
        None => exists|k: int|
            0 <= k < topology.len() && (#[trigger] topology[k]).pos == sp && spec_redstone_traits(
                topology[k].block,
            ).supports_dust_on_top,
    }
}

/// The support relation of a component, if its block needs support.
pub open spec fn support_of(c: PhysicalComponent, topology: Seq<PhysicalComponent>, world: Option<World>) -> Option<
    SupportRelation,
> {
    match spec_support_pos(c.block, c.pos) {
        Some(sp) => Some(SupportRelation { support_position: sp, valid: support_holds(topology, world, sp) }),
        None => None,
    }
}

/// `r` is the scene form of `c`: the same id, position and block, its
/// ports, and its support relation.
pub open spec fn scene_component_of(
    c: PhysicalComponent,
    topology: Seq<PhysicalComponent>,
    world: Option<World>,
    r: SceneComponent,
) -> bool {
    &&& r.id == c.id
    &&& r.pos == c.pos
    &&& same_block(r.block, c.block)
    &&& numbered(r.ports@, port_shapes(c.block))
    &&& r.support == support_of(c, topology, world)
}

/// Every component can find its support without leaving the coordinate
/// range.
pub open spec fn supports_addressable(cs: Seq<PhysicalComponent>) -> bool {
    forall|k: int| 0 <= k < cs.len() ==> support_in_range((#[trigger] cs[k]).block, cs[k].pos)
}

fn support_in_topology(topology: &Vec<PhysicalComponent>, sp: Pos) -> (r: bool)
    ensures
        r == support_holds(topology@, None, sp),
{
    let n = topology.len();
    let mut i: usize = 0;
    while i < n
        invariant
            n == topology@.len(),
            i <= n,
            forall|k: int| 0 <= k < i ==> !((#[trigger] topology@[k]).pos == sp && spec_redstone_traits(
                topology@[k].block,
            ).supports_dust_on_top),
        decreases n - i,
    {
        let c = &topology[i];
        if c.pos == sp && c.block.redstone_traits().supports_dust_on_top {
            return true;
        }
        i = i + 1;
    }
    false
}

fn scene_component(component: &PhysicalComponent, topology: &Vec<PhysicalComponent>, world: Option<&World>) -> (r:
    SceneComponent)
    requires
        support_in_range(component.block, component.pos),
        world matches Some(w) ==> w.wf(),
    ensures
        scene_component_of(*component, topology@, opt_world(world), r),
{
    let support = match component.block.support_pos(component.pos) {
        Some(support_position) => {
            let valid = match world {
                Some(w) => match w.get(support_position) {
                    Some(b) => b.redstone_traits().supports_dust_on_top,
                    None => false,
                },
                None => support_in_topology(topology, support_position),
            };
            Some(SupportRelation { support_position, valid })
        },
        None => None,
    };
    SceneComponent {
        id: component.id,
        pos: component.pos,
        block: component.block.copy(),
        ports: ports_for(&component.block),
        support,
    }
}

/// The world a reference points to.
pub open spec fn opt_world(world: Option<&World>) -> Option<World> {
    match world {
        Some(w) => Some(*w),
        None => None,
    }
}

/// Two net lists hold the same nets, in order.
pub open spec fn same_nets(a: Seq<PhysicalNet>, b: Seq<PhysicalNet>) -> bool {
    &&& a.len() == b.len()
    &&& forall|k: int| 0 <= k < a.len() ==> (#[trigger] a[k]).id == b[k].id && a[k].components@ == b[k].components@
}

/// Two traversal-group lists hold the same groups, in order.
pub open spec fn same_fragments(a: Seq<PhysicalFragment>, b: Seq<PhysicalFragment>) -> bool {
    &&& a.len() == b.len()
    &&& forall|k: int|
        0 <= k < a.len() ==> (#[trigger] a[k]).id == b[k].id && a[k].nets@ == b[k].nets@ && a[k].components@
            == b[k].components@
}

fn copy_component_ids(v: &Vec<ComponentId>) -> (r: Vec<ComponentId>)
    ensures
        r@ == v@,
{
    let mut out: Vec<ComponentId> = Vec::new();
    let n = v.len();
    let mut i: usize = 0;
    while i < n
        invariant
            n == v@.len(),
            i <= n,
            out@ == v@.take(i as int),
        decreases n - i,
    {
        out.push(v[i]);
        assert(v@.take(i + 1) =~= v@.take(i as int).push(v@[i as int]));
        i = i + 1;
    }
    assert(v@.take(n as int) =~= v@);
    out
}

fn copy_net_ids(v: &Vec<NetId>) -> (r: Vec<NetId>)
    ensures
        r@ == v@,
{
    let mut out: Vec<NetId> = Vec::new();
    let n = v.len();
    let mut i: usize = 0;
    while i < n
        invariant
            n == v@.len(),
            i <= n,
            out@ == v@.take(i as int),
        decreases n - i,
    {
        out.push(v[i]);
        assert(v@.take(i + 1) =~= v@.take(i as int).push(v@[i as int]));
        i = i + 1;
    }
    assert(v@.take(n as int) =~= v@);
    out
}

fn copy_nets(v: &Vec<PhysicalNet>) -> (r: Vec<PhysicalNet>)
    ensures
        same_nets(r@, v@),
{
    let mut out: Vec<PhysicalNet> = Vec::new();
    let n = v.len();
    let mut i: usize = 0;
    while i < n
        invariant
            n == v@.len(),
            i <= n,
            same_nets(out@, v@.take(i as int)),
        decreases n - i,
    {
        out.push(PhysicalNet { id: v[i].id, components: copy_component_ids(&v[i].components) });
        i = i + 1;
    }
    assert(v@.take(n as int) =~= v@);
    out
}

fn copy_fragments(v: &Vec<PhysicalFragment>) -> (r: Vec<PhysicalFragment>)
    ensures
        same_fragments(r@, v@),
{
    let mut out: Vec<PhysicalFragment> = Vec::new();
    let n = v.len();
    let mut i: usize = 0;
    while i < n
        invariant
            n == v@.len(),
            i <= n,
            same_fragments(out@, v@.take(i as int)),
        decreases n - i,
    {
        out.push(
            PhysicalFragment {
                id: v[i].id,
                nets: copy_net_ids(&v[i].nets),
                components: copy_component_ids(&v[i].components),
            },
        );
        i = i + 1;
    }
    assert(v@.take(n as int) =~= v@);
    out
}

/// One open-boundary diagnostic per frontier entry, in order.
pub open spec fn frontier_diagnostics(fs: Seq<ObservationFrontier>) -> Seq<PhysicalDiagnostic> {
    fs.map_values(|f: ObservationFrontier| PhysicalDiagnostic::OpenObservationBoundary { frontier: f })
}

/// One invalid-support diagnostic per component whose support fails, in
/// order.
pub open spec fn support_diagnostics(cs: Seq<SceneComponent>) -> Seq<PhysicalDiagnostic>
    decreases cs.len(),
{
    if cs.len() == 0 {
        Seq::empty()
    } else {
        let rest = support_diagnostics(cs.drop_last());
        match cs.last().support {
            Some(s) => if s.valid {
                rest
            } else {
                rest.push(PhysicalDiagnostic::InvalidSupport { component: cs.last().id, expected: s.support_position })
            },
            None => rest,
        }
    }
}

/// The connections whose ends bind to ports of the scene.
pub open spec fn bindable(cs: Seq<SceneComponent>) -> spec_fn(PhysicalConnection) -> bool {
    |c: PhysicalConnection| connection_ports(cs, c) is Some
}

/// `out` holds, in order, the port-level form of each connection that
/// binds.
pub open spec fn connections_of(cs: Seq<SceneComponent>, conns: Seq<PhysicalConnection>, out: Seq<PortConnection>) -> bool {
    let kept = conns.filter(bindable(cs));
    &&& out.len() == kept.len()
    &&& forall|k: int| 0 <= k < out.len() ==> connection_for(cs, kept[k], #[trigger] out[k])
}

/// What proximity needs of each scene component.
pub open spec fn scene_probes(cs: Seq<SceneComponent>) -> Seq<Probe> {
    cs.map_values(|c: SceneComponent| (c.id, c.pos, spec_is_redstone_related(c.block.kind)))
}

/// `r` is the scene of `observation` over `topology`, with support read
/// from `world` when there is one.
pub open spec fn built_from(r: PhysicalScene, observation: Observation, topology: VerifiedTopology, world: Option<World>) -> bool {
    &&& r.observation == observation
    &&& r.components@.len() == topology.components@.len()
    &&& forall|k: int|
        0 <= k < r.components@.len() ==> scene_component_of(
            topology.components@[k],
            topology.components@,
            world,
            #[trigger] r.components@[k],
        )
    &&& connections_of(r.components@, topology.connections@, r.connections@)
    &&& same_nets(r.nets@, topology.nets@)
    &&& same_fragments(r.fragments@, topology.fragments@)
    &&& r.diagnostics@ == frontier_diagnostics(observation.frontier@) + support_diagnostics(r.components@)
}

impl PhysicalScene {
    /// Every component a traversal group names is one of the components.
    pub open spec fn ids_known(&self) -> bool {
        fragments_known(scene_probes(self.components@), self.fragments@)
    }

    fn from_topology_and_optional_world(observation: Observation, topology: &VerifiedTopology, world: Option<&World>) -> (r:
        PhysicalScene)
        requires
            supports_addressable(topology.components@),
            world matches Some(w) ==> w.wf(),
        ensures
            built_from(r, observation, *topology, opt_world(world)),
            topology.ids_known() ==> r.ids_known(),
    {
        let n = topology.components.len();
        let mut components: Vec<SceneComponent> = Vec::new();
        let mut i: usize = 0;
        while i < n
            invariant
                n == topology.components@.len(),
                i <= n,
                supports_addressable(topology.components@),
                world matches Some(w) ==> w.wf(),
                components@.len() == i,
                forall|k: int|
                    0 <= k < i ==> scene_component_of(
                        topology.components@[k],
                        topology.components@,
                        opt_world(world),
                        #[trigger] components@[k],
                    ),
            decreases n - i,
        {
            let c = scene_component(&topology.components[i], &topology.components, world);
            components.push(c);
            i = i + 1;
        }
        let m = topology.connections.len();
        let mut connections: Vec<PortConnection> = Vec::new();
        let mut j: usize = 0;
        while j < m
            invariant
                m == topology.connections@.len(),
                j <= m,
                connections_of(components@, topology.connections@.take(j as int), connections@),
            decreases m - j,
        {
            let ghost before = connections@;
            let c = topology.connections[j];
            let bound = port_connection(&c, &components);
            proof {
                assert(topology.connections@.take(j + 1) =~= topology.connections@.take(j as int).push(c));
                topology.connections@.take(j as int).lemma_filter_push(c, bindable(components@));
            }
            match bound {
                Some(pc) => {
                    connections.push(pc);
                    proof {
                        let kept = topology.connections@.take(j + 1).filter(bindable(components@));
                        assert forall|k: int| 0 <= k < connections@.len() implies connection_for(
                            components@,
                            kept[k],
                            #[trigger] connections@[k],
                        ) by {
                            if k < before.len() {
                                assert(connections@[k] == before[k]);
                            }
                        }
                    }
                },
                None => {},
            }
            j = j + 1;
        }
        proof {
            assert(topology.connections@.take(m as int) =~= topology.connections@);
        }
        let mut diagnostics: Vec<PhysicalDiagnostic> = Vec::new();
        let f = observation.frontier.len();
        let mut a: usize = 0;
        while a < f
            invariant
                f == observation.frontier@.len(),
                a <= f,
                diagnostics@ == frontier_diagnostics(observation.frontier@.take(a as int)),
            decreases f - a,
        {
            diagnostics.push(PhysicalDiagnostic::OpenObservationBoundary { frontier: observation.frontier[a] });
            assert(frontier_diagnostics(observation.frontier@.take(a + 1)) =~= frontier_diagnostics(
                observation.frontier@.take(a as int),
            ).push(PhysicalDiagnostic::OpenObservationBoundary { frontier: observation.frontier@[a as int] }));
            a = a + 1;
        }
        assert(observation.frontier@.take(f as int) =~= observation.frontier@);
        let ghost head = diagnostics@;
        let mut b: usize = 0;
        while b < n
            invariant
                n == components@.len(),
                b <= n,
                diagnostics@ == head + support_diagnostics(components@.take(b as int)),
            decreases n - b,
        {
            proof {
                assert(components@.take(b + 1).drop_last() =~= components@.take(b as int));
            }
            match components[b].support {
                Some(support) => {
                    if !support.valid {
                        diagnostics.push(
                            PhysicalDiagnostic::InvalidSupport {
                                component: components[b].id,
                                expected: support.support_position,
                            },
                        );
                    }
                },
                None => {},
            }
            assert(diagnostics@ =~= head + support_diagnostics(components@.take(b + 1)));
            b = b + 1;
        }
        assert(components@.take(n as int) =~= components@);
        let nets = copy_nets(&topology.nets);
        let fragments = copy_fragments(&topology.fragments);
        let r = PhysicalScene { observation, components, connections, nets, fragments, diagnostics };
        proof {
            if topology.ids_known() {
                lemma_scene_ids_known(*topology, r);
            }
        }
        r
    }
}

proof fn lemma_scene_ids_known(topology: VerifiedTopology, r: PhysicalScene)
    requires
        topology.ids_known(),
        r.components@.len() == topology.components@.len(),
        forall|k: int|
            0 <= k < r.components@.len() ==> (#[trigger] r.components@[k]).id == topology.components@[k].id
                && r.components@[k].pos == topology.components@[k].pos && same_block(
                r.components@[k].block,
                topology.components@[k].block,
            ),
        same_fragments(r.fragments@, topology.fragments@),
    ensures
        r.ids_known(),
{
    let ps = scene_probes(r.components@);
    assert(ps =~= probes_of(topology.components@));
    assert forall|f: int| 0 <= f < r.fragments@.len() implies all_known(ps, (#[trigger] r.fragments@[f]).components@) by {
        assert(all_known(ps, topology.fragments@[f].components@));
    }
}

/// `k` is the first component at `pos`.
pub open spec fn first_at(cs: Seq<SceneComponent>, pos: Pos, k: int) -> bool {
    &&& 0 <= k < cs.len()
    &&& cs[k].pos == pos
    &&& forall|j: int| 0 <= j < k ==> (#[trigger] cs[j]).pos != pos
}

/// The id of the component at a frontier position, when there is one.
pub open spec fn frontier_component(cs: Seq<SceneComponent>, fs: Seq<ObservationFrontier>, id: ComponentId) -> bool {
    exists|i: int, k: int| 0 <= i < fs.len() && #[trigger] first_at(cs, fs[i].position, k) && cs[k].id == id
}

impl PhysicalScene {
    /// Undirected groups used to bound physical discovery. They are not
    /// directional signal regions or inferred logical circuits.
    pub fn physical_traversal_groups(&self) -> (r: &[PhysicalFragment])
        ensures
            r@ == self.fragments@,
    {
        self.fragments.as_slice()
    }

    /// The scene of an observation over a topology, with support judged
    /// from the topology's own components.
    pub fn from_unvalidated_topology(observation: Observation, topology: &VerifiedTopology) -> (r: PhysicalScene)
        requires
            supports_addressable(topology.components@),
        ensures
            built_from(r, observation, *topology, None),
            topology.ids_known() ==> r.ids_known(),
    {
        Self::from_topology_and_optional_world(observation, topology, None)
    }

    /// The scene of an observation over a topology; the same as
    /// [`PhysicalScene::from_unvalidated_topology`].
    pub fn from_topology(observation: Observation, topology: &VerifiedTopology) -> (r: PhysicalScene)
        requires
            supports_addressable(topology.components@),
        ensures
            built_from(r, observation, *topology, None),
            topology.ids_known() ==> r.ids_known(),
    {
        Self::from_topology_and_optional_world(observation, topology, None)
    }

    /// Builds a physical observation while validating placement support
    /// against the observed world, before support-only blocks are removed
    /// from signal topology.
    pub fn from_topology_and_world(observation: Observation, topology: &VerifiedTopology, world: &World) -> (r:
        PhysicalScene)
        requires
            supports_addressable(topology.components@),
            world.wf(),
        ensures
            built_from(r, observation, *topology, Some(*world)),
            topology.ids_known() ==> r.ids_known(),
    {
        Self::from_topology_and_optional_world(observation, topology, Some(world))
    }

    /// The first component at `pos`.
    pub fn component_at(&self, pos: Pos) -> (r: Option<&SceneComponent>)
        ensures
            match r {
                Some(c) => exists|k: int| first_at(self.components@, pos, k) && *c == self.components@[k],
                None => forall|k: int| 0 <= k < self.components@.len() ==> (#[trigger] self.components@[k]).pos != pos,
            },
    {
        let n = self.components.len();
        let mut i: usize = 0;
        while i < n
            invariant
                n == self.components@.len(),
                i <= n,
                forall|j: int| 0 <= j < i ==> (#[trigger] self.components@[j]).pos != pos,
            decreases n - i,
        {
            if self.components[i].pos == pos {
                assert(first_at(self.components@, pos, i as int));
                return Some(&self.components[i]);
            }
            i = i + 1;
        }
        None
    }

    /// The ids of the components standing at an open frontier position,
    /// sorted and without repeats.
    pub fn open_frontier_components(&self) -> (r: Vec<ComponentId>)
        ensures
            ids_sorted(r@),
            forall|id: ComponentId| r@.contains(id) <==> frontier_component(self.components@, self.observation.frontier@, id),
    {
        let fs = &self.observation.frontier;
        let mut out: Vec<ComponentId> = Vec::new();
        let n = fs.len();
        let mut i: usize = 0;
        while i < n
            invariant
                n == fs@.len(),
                i <= n,
                ids_sorted(out@),
                forall|id: ComponentId| out@.contains(id) <==> frontier_component(self.components@, fs@.take(i as int), id),
            decreases n - i,
        {
            let ghost before = out@;
            let position = fs[i].position;
            let found = self.component_at(position);
            proof {
                assert forall|x: int| 0 <= x < i implies fs@.take(i + 1)[x] == fs@.take(i as int)[x] by {}
                assert(fs@.take(i + 1)[i as int] == fs@[i as int]);
            }
            match found {
                Some(c) => {
                    insert_id(&mut out, c.id);
                    proof {
                        let k = choose|k: int| first_at(self.components@, position, k) && *c == self.components@[k];
                        assert forall|id: ComponentId| out@.contains(id) <==> frontier_component(
                            self.components@,
                            fs@.take(i + 1),
                            id,
                        ) by {
                            if out@.contains(id) && id == c.id {
                                assert(first_at(self.components@, fs@.take(i + 1)[i as int].position, k));
                            }
                            if frontier_component(self.components@, fs@.take(i + 1), id) {
                                let (x, y) = choose|x: int, y: int|
                                    0 <= x < fs@.take(i + 1).len() && #[trigger] first_at(
                                        self.components@,
                                        fs@.take(i + 1)[x].position,
                                        y,
                                    ) && self.components@[y].id == id;
                                if x < i {
                                    assert(first_at(self.components@, fs@.take(i as int)[x].position, y));
                                } else {
                                    lemma_first_at_unique(self.components@, position, k, y);
                                }
                            }
                            if before.contains(id) {
                                let (x, y) = choose|x: int, y: int|
                                    0 <= x < fs@.take(i as int).len() && #[trigger] first_at(
                                        self.components@,
                                        fs@.take(i as int)[x].position,
                                        y,
                                    ) && self.components@[y].id == id;
                                assert(first_at(self.components@, fs@.take(i + 1)[x].position, y));
                            }
                        }
                    }
                },
                None => {
                    proof {
                        assert forall|id: ComponentId| out@.contains(id) <==> frontier_component(
                            self.components@,
                            fs@.take(i + 1),
                            id,
                        ) by {
                            if frontier_component(self.components@, fs@.take(i + 1), id) {
                                let (x, y) = choose|x: int, y: int|
                                    0 <= x < fs@.take(i + 1).len() && #[trigger] first_at(
                                        self.components@,
                                        fs@.take(i + 1)[x].position,
                                        y,
                                    ) && self.components@[y].id == id;
                                if x < i {
                                    assert(first_at(self.components@, fs@.take(i as int)[x].position, y));
                                } else {
                                    assert(self.components@[y].pos == position);
                                }
                            }
                            if before.contains(id) {
                                let (x, y) = choose|x: int, y: int|
                                    0 <= x < fs@.take(i as int).len() && #[trigger] first_at(
                                        self.components@,
                                        fs@.take(i as int)[x].position,
                                        y,
                                    ) && self.components@[y].id == id;
                                assert(first_at(self.components@, fs@.take(i + 1)[x].position, y));
                            }
                        }
                    }
                },
            }
            i = i + 1;
        }
        proof {
            assert(fs@.take(n as int) =~= fs@);
        }
        out
    }

    /// Candidate gaps between traversal groups whose nearest redstone
    /// components lie within `max_manhattan_distance`.
    pub fn gap_candidates(&self, max_manhattan_distance: u32) -> (r: Vec<GapCandidate>)
        requires
            self.ids_known(),
        ensures
            candidates_for(scene_probes(self.components@), self.fragments@, max_manhattan_distance, r@),
            candidates_in_order(scene_probes(self.components@), self.fragments@, max_manhattan_distance, r@),
    {
        let ps = self.probes();
        candidates(&ps, &self.fragments, max_manhattan_distance)
    }

    /// The traversal groups reachable from `seed` through gap candidates,
    /// sorted; no group is merged.
    pub fn discover_nearby_fragments(&self, seed: FragmentId, max_manhattan_distance: u32) -> (r: Vec<FragmentId>)
        requires
            self.ids_known(),
        ensures
            closed_under(scene_probes(self.components@), self.fragments@, max_manhattan_distance, seed, r@),
    {
        let ps = self.probes();
        discover(&ps, &self.fragments, seed, max_manhattan_distance)
    }

    fn probes(&self) -> (r: Vec<Probe>)
        ensures
            r@ == scene_probes(self.components@),
    {
        let mut out: Vec<Probe> = Vec::new();
        let n = self.components.len();
        let mut i: usize = 0;
        while i < n
            invariant
                n == self.components@.len(),
                i <= n,
                out@ == scene_probes(self.components@.take(i as int)),
            decreases n - i,
        {
            let c = &self.components[i];
            out.push((c.id, c.pos, c.block.kind.is_redstone_related()));
            proof {
                assert(scene_probes(self.components@.take(i + 1)) =~= scene_probes(self.components@.take(i as int)).push(
                    (c.id, c.pos, spec_is_redstone_related(c.block.kind)),
                ));
            }
            i = i + 1;
        }
        proof {
            assert(self.components@.take(n as int) =~= self.components@);
        }
        out
    }
}

proof fn lemma_first_at_unique(cs: Seq<SceneComponent>, pos: Pos, a: int, b: int)
    requires
        first_at(cs, pos, a),
        first_at(cs, pos, b),
    ensures
        a == b,
{
    if a < b {
        assert(cs[a].pos == pos);
    } else if b < a {
        assert(cs[b].pos == pos);
    }
}

// ---------------------------------------------------------------------------
// Capability report.
// ---------------------------------------------------------------------------

/// A capability group as plain values: kind, observed name, count and
/// capabilities.
pub type GroupView = (BlockKind, Option<Seq<char>>, int, BlockCapabilities);

pub open spec fn group_view(g: BlockCapabilityGroup) -> GroupView {
    (g.kind, opt_view(g.observed_name), g.count as int, g.capabilities)
}

/// The first group with the given kind and observed name.
pub open spec fn find_group(gs: Seq<GroupView>, kind: BlockKind, name: Option<Seq<char>>) -> Option<int>
    decreases gs.len(),
{
    if gs.len() == 0 {
        None
    } else {
        match find_group(gs.drop_last(), kind, name) {
            Some(i) => Some(i),
            None => if gs.last().0 == kind && gs.last().1 == name {
                Some(gs.len() - 1)
            } else {
                None
            },
        }
    }
}

/// The groups of a component list: components of one kind and observed
/// name are counted in one group, in order of first appearance.
pub open spec fn report_groups(cs: Seq<SceneComponent>) -> Seq<GroupView>
    decreases cs.len(),
{
    if cs.len() == 0 {
        Seq::empty()
    } else {
        add_group(report_groups(cs.drop_last()), cs.last())
    }
}

/// The groups after counting one more component.
pub open spec fn add_group(gs: Seq<GroupView>, c: SceneComponent) -> Seq<GroupView> {
    let name = opt_view(c.block.observed_name);
    match find_group(gs, c.block.kind, name) {
        Some(i) => gs.update(i, (gs[i].0, gs[i].1, gs[i].2 + 1, gs[i].3)),
        None => gs.push((c.block.kind, name, 1, spec_capabilities(c.block))),
    }
}

/// A capability issue as plain values.
pub type IssueView = (ComponentId, Pos, Option<Seq<char>>, BlockKind, CapabilityStage, CapabilityLevel);

pub open spec fn issue_view(i: CapabilityIssue) -> IssueView {
    (i.component, i.position, opt_view(i.observed_name), i.kind, i.stage, i.level)
}

/// The issue a component raises at one stage: one when the stage is only
/// partly supported or unsupported.
pub open spec fn stage_issue(c: SceneComponent, stage: CapabilityStage, level: CapabilityLevel) -> Seq<IssueView> {
    if level == CapabilityLevel::Partial || level == CapabilityLevel::Unsupported {
        seq![(c.id, c.pos, opt_view(c.block.observed_name), c.block.kind, stage, level)]
    } else {
        Seq::empty()
    }
}

/// The issues of a component, stage by stage.
pub open spec fn component_issues(c: SceneComponent) -> Seq<IssueView> {
    let caps = spec_capabilities(c.block);
    stage_issue(c, CapabilityStage::PhysicalClassification, caps.physical_classification) + stage_issue(
        c,
        CapabilityStage::Connectivity,
        caps.connectivity,
    ) + stage_issue(c, CapabilityStage::SteadyState, caps.steady_state) + stage_issue(
        c,
        CapabilityStage::Temporal,
        caps.temporal,
    ) + stage_issue(c, CapabilityStage::Repair, caps.repair) + stage_issue(
        c,
        CapabilityStage::Placement,
        caps.placement,
    )
}

/// The issues of a component list, component by component.
pub open spec fn report_issues(cs: Seq<SceneComponent>) -> Seq<IssueView>
    decreases cs.len(),
{
    if cs.len() == 0 {
        Seq::empty()
    } else {
        report_issues(cs.drop_last()) + component_issues(cs.last())
    }
}

proof fn lemma_find_prefix(gs: Seq<GroupView>, kind: BlockKind, name: Option<Seq<char>>, n: int)
    requires
        0 <= n <= gs.len(),
        find_group(gs.take(n), kind, name) is Some,
    ensures
        find_group(gs, kind, name) == find_group(gs.take(n), kind, name),
    decreases gs.len() - n,
{
    if n == gs.len() {
        assert(gs.take(n) =~= gs);
    } else {
        assert(gs.drop_last().take(n) =~= gs.take(n));
        lemma_find_prefix(gs.drop_last(), kind, name, n);
    }
}

fn push_issue(issues: &mut Vec<CapabilityIssue>, c: &SceneComponent, stage: CapabilityStage, level: CapabilityLevel)
    ensures
        final(issues)@.map_values(|i: CapabilityIssue| issue_view(i)) == old(issues)@.map_values(
            |i: CapabilityIssue| issue_view(i),
        ) + stage_issue(*c, stage, level),
{
    let ghost before = issues@;
    if level == CapabilityLevel::Partial || level == CapabilityLevel::Unsupported {
        issues.push(
            CapabilityIssue {
                component: c.id,
                position: c.pos,
                observed_name: opt_string_copy(&c.block.observed_name),
                kind: c.block.kind,
                stage,
                level,
            },
        );
    }
    assert(issues@.map_values(|i: CapabilityIssue| issue_view(i)) =~= before.map_values(
        |i: CapabilityIssue| issue_view(i),
    ) + stage_issue(*c, stage, level));
}

/// The index of the group with `kind` and `name`, if any.
fn group_index(groups: &Vec<BlockCapabilityGroup>, kind: BlockKind, name: &Option<String>) -> (r: Option<usize>)
    ensures
        ({
            let gs = groups@.map_values(|g: BlockCapabilityGroup| group_view(g));
            match r {
                Some(j) => j < groups@.len() && find_group(gs, kind, opt_view(*name)) == Some(j as int),
                None => find_group(gs, kind, opt_view(*name)) is None,
            }
        }),
{
    let ghost gs = groups@.map_values(|g: BlockCapabilityGroup| group_view(g));
    let n = groups.len();
    let mut j: usize = 0;
    while j < n
        invariant
            n == groups@.len(),
            gs == groups@.map_values(|g: BlockCapabilityGroup| group_view(g)),
            j <= n,
            find_group(gs.take(j as int), kind, opt_view(*name)) is None,
        decreases n - j,
    {
        proof {
            assert(gs.take(j + 1).drop_last() =~= gs.take(j as int));
        }
        if groups[j].kind == kind && opt_string_eq(&groups[j].observed_name, name) {
            proof {
                lemma_find_prefix(gs, kind, opt_view(*name), j + 1);
            }
            return Some(j);
        }
        j = j + 1;
    }
    proof {
        assert(gs.take(n as int) =~= gs);
    }
    None
}

fn count_component(groups: &mut Vec<BlockCapabilityGroup>, component: &SceneComponent, Ghost(bound): Ghost<int>)
    requires
        forall|k: int| 0 <= k < old(groups)@.len() ==> (#[trigger] old(groups)@[k]).count <= bound,
        0 <= bound < usize::MAX,
    ensures
        final(groups)@.map_values(|g: BlockCapabilityGroup| group_view(g)) == add_group(
            old(groups)@.map_values(|g: BlockCapabilityGroup| group_view(g)),
            *component,
        ),
        forall|k: int| 0 <= k < final(groups)@.len() ==> (#[trigger] final(groups)@[k]).count <= bound + 1,
{
    let ghost gs = groups@.map_values(|g: BlockCapabilityGroup| group_view(g));
    match group_index(groups, component.block.kind, &component.block.observed_name) {
        Some(j) => {
            let updated = BlockCapabilityGroup {
                observed_name: opt_string_copy(&groups[j].observed_name),
                kind: groups[j].kind,
                count: groups[j].count + 1,
                capabilities: groups[j].capabilities,
            };
            groups.set(j, updated);
            assert(groups@.map_values(|g: BlockCapabilityGroup| group_view(g)) =~= add_group(gs, *component));
            assert forall|k: int| 0 <= k < groups@.len() implies (#[trigger] groups@[k]).count <= bound + 1 by {
                if k != j {
                    assert(groups@[k] == old(groups)@[k]);
                }
            }
        },
        None => {
            groups.push(
                BlockCapabilityGroup {
                    observed_name: opt_string_copy(&component.block.observed_name),
                    kind: component.block.kind,
                    count: 1,
                    capabilities: component.block.capabilities(),
                },
            );
            assert(groups@.map_values(|g: BlockCapabilityGroup| group_view(g)) =~= add_group(gs, *component));
            assert forall|k: int| 0 <= k < groups@.len() implies (#[trigger] groups@[k]).count <= bound + 1 by {
                if k < old(groups)@.len() {
                    assert(groups@[k] == old(groups)@[k]);
                }
            }
        },
    }
}

fn record_issues(issues: &mut Vec<CapabilityIssue>, component: &SceneComponent)
    ensures
        final(issues)@.map_values(|x: CapabilityIssue| issue_view(x)) == old(issues)@.map_values(
            |x: CapabilityIssue| issue_view(x),
        ) + component_issues(*component),
{
    let ghost start = issues@.map_values(|x: CapabilityIssue| issue_view(x));
    let capabilities = component.block.capabilities();
    push_issue(issues, component, CapabilityStage::PhysicalClassification, capabilities.physical_classification);
    push_issue(issues, component, CapabilityStage::Connectivity, capabilities.connectivity);
    push_issue(issues, component, CapabilityStage::SteadyState, capabilities.steady_state);
    push_issue(issues, component, CapabilityStage::Temporal, capabilities.temporal);
    push_issue(issues, component, CapabilityStage::Repair, capabilities.repair);
    push_issue(issues, component, CapabilityStage::Placement, capabilities.placement);
    assert(issues@.map_values(|x: CapabilityIssue| issue_view(x)) =~= start + component_issues(*component));
}

impl PhysicalScene {
    /// What each analysis stage can do with the scene's blocks: one group
    /// per kind and observed name with its count, and one issue per
    /// component and stage that is only partly supported or unsupported.
    pub fn capability_report(&self) -> (r: SceneCapabilityReport)
        ensures
            r.groups@.map_values(|g: BlockCapabilityGroup| group_view(g)) == report_groups(self.components@),
            r.issues@.map_values(|i: CapabilityIssue| issue_view(i)) == report_issues(self.components@),
    {
        let mut groups: Vec<BlockCapabilityGroup> = Vec::new();
        let mut issues: Vec<CapabilityIssue> = Vec::new();
        let n = self.components.len();
        let mut i: usize = 0;
        while i < n
            invariant
                n == self.components@.len(),
                i <= n,
                groups@.map_values(|g: BlockCapabilityGroup| group_view(g)) == report_groups(self.components@.take(i as int)),
                forall|k: int| 0 <= k < groups@.len() ==> (#[trigger] groups@[k]).count <= i,
                issues@.map_values(|x: CapabilityIssue| issue_view(x)) == report_issues(self.components@.take(i as int)),
            decreases n - i,
        {
            let component = &self.components[i];
            proof {
                assert(self.components@.take(i + 1).drop_last() =~= self.components@.take(i as int));
                assert(self.components@.take(i + 1).last() == *component);
            }
            count_component(&mut groups, component, Ghost(i as int));
            record_issues(&mut issues, component);
            i = i + 1;
        }
        proof {
            assert(self.components@.take(n as int) =~= self.components@);
        }
        SceneCapabilityReport { groups, issues }
    }
}

} // verus!
