//! Verified physical topology: components, the connections between them,
//! electrical nets and undirected traversal groups, and proximity evidence
//! between groups that no connection joins.

use vstd::prelude::*;

use crate::world::{pos_lt, spec_is_redstone_related, Block, Pos};

verus! {

#[derive(Clone, Copy, Debug, PartialEq, Eq, Structural, Hash, PartialOrd, Ord)]
pub struct ComponentId(pub usize);

#[derive(Clone, Copy, Debug, PartialEq, Eq, Structural, Hash, PartialOrd, Ord)]
pub struct NetId(pub usize);

#[derive(Clone, Copy, Debug, PartialEq, Eq, Structural, Hash, PartialOrd, Ord)]
pub struct FragmentId(pub usize);

/// Preferred name for a group used only for physical traversal and
/// nearby-fragment discovery. It is not a logical circuit or signal-flow unit.
pub type PhysicalTraversalGroupId = FragmentId;

#[derive(Clone, Copy, Debug, PartialEq, Eq, Structural, Hash, PartialOrd, Ord)]
pub enum ConnectionKind {
    Dust,
    DustRise,
    DustFallThroughConductor,
    WeakPower,
    StrongPower,
    DirectionalInput,
    DirectionalOutput,
    DirectSource,
    Control,
    /// A block-state transition observed at the front face of an Observer.
    ObserverInput,
    /// The strong pulse emitted from an Observer's back face.
    ObserverOutput,
    /// A direct redstone input into a Piston. Mechanical movement is modeled
    /// separately from this electrical trigger.
    PistonInput,
    Support,
}

#[derive(Clone, Debug, PartialEq, Eq)]
pub struct PhysicalComponent {
    pub id: ComponentId,
    pub pos: Pos,
    pub block: Block,
}

#[derive(Clone, Copy, Debug, PartialEq, Eq, Structural, Hash, PartialOrd, Ord)]
pub struct PhysicalConnection {
    pub source: ComponentId,
    pub sink: ComponentId,
    pub kind: ConnectionKind,
}

/// An electrical net: the components joined by dust and power connections,
/// sorted by id.
#[derive(Clone, Debug, PartialEq, Eq)]
pub struct PhysicalNet {
    pub id: NetId,
    pub components: Vec<ComponentId>,
}

/// An undirected group of components joined by any non-support connection,
/// with the nets it overlaps; both lists sorted.
#[derive(Clone, Debug, PartialEq, Eq)]
pub struct PhysicalTraversalGroup {
    pub id: FragmentId,
    pub nets: Vec<NetId>,
    pub components: Vec<ComponentId>,
}

/// Compatibility name. New APIs should say `PhysicalTraversalGroup` so callers
/// do not mistake undirected membership for functional circuit identity.
pub type PhysicalFragment = PhysicalTraversalGroup;

#[derive(Clone, Debug, PartialEq, Eq)]
pub enum GapEvidence {
    Nearby { left: ComponentId, right: ComponentId, manhattan_distance: u32 },
    MissingInlineBlock { position: Pos },
    InvalidSupport { component: ComponentId, expected_support: Pos },
    DirectionMismatch { component: ComponentId, toward: ComponentId },
    SuspectedUnexpectedConnection { component: ComponentId },
}

#[derive(Clone, Debug, PartialEq, Eq)]
pub struct GapCandidate {
    pub left: FragmentId,
    pub right: FragmentId,
    pub evidence: Vec<GapEvidence>,
}

/// A topology built from verified connections: the components sorted by
/// position and id, the distinct connections in order, and the groups.
#[derive(Clone, Debug, PartialEq, Eq)]
pub struct VerifiedTopology {
    pub components: Vec<PhysicalComponent>,
    pub connections: Vec<PhysicalConnection>,
    pub nets: Vec<PhysicalNet>,
    pub fragments: Vec<PhysicalFragment>,
}

impl Default for VerifiedTopology {
    fn default() -> (r: VerifiedTopology)
        ensures
            r.components@.len() == 0,
            r.connections@.len() == 0,
            r.nets@.len() == 0,
            r.fragments@.len() == 0,
    {
        VerifiedTopology { components: Vec::new(), connections: Vec::new(), nets: Vec::new(), fragments: Vec::new() }
    }
}

// ---------------------------------------------------------------------------
// Orders.
// ---------------------------------------------------------------------------

/// The declaration index of a connection kind.
pub open spec fn kind_rank(k: ConnectionKind) -> int {
    match k {
        ConnectionKind::Dust => 0,
        ConnectionKind::DustRise => 1,
        ConnectionKind::DustFallThroughConductor => 2,
        ConnectionKind::WeakPower => 3,
        ConnectionKind::StrongPower => 4,
        ConnectionKind::DirectionalInput => 5,
        ConnectionKind::DirectionalOutput => 6,
        ConnectionKind::DirectSource => 7,
        ConnectionKind::Control => 8,
        ConnectionKind::ObserverInput => 9,
        ConnectionKind::ObserverOutput => 10,
        ConnectionKind::PistonInput => 11,
        ConnectionKind::Support => 12,
    }
}

fn kind_index(k: ConnectionKind) -> (r: u8)
    ensures
        r == kind_rank(k),
{
    match k {
        ConnectionKind::Dust => 0,
        ConnectionKind::DustRise => 1,
        ConnectionKind::DustFallThroughConductor => 2,
        ConnectionKind::WeakPower => 3,
        ConnectionKind::StrongPower => 4,
        ConnectionKind::DirectionalInput => 5,
        ConnectionKind::DirectionalOutput => 6,
        ConnectionKind::DirectSource => 7,
        ConnectionKind::Control => 8,
        ConnectionKind::ObserverInput => 9,
        ConnectionKind::ObserverOutput => 10,
        ConnectionKind::PistonInput => 11,
        ConnectionKind::Support => 12,
    }
}

/// Connection order: by source, then sink, then kind.
pub open spec fn connection_lt(a: PhysicalConnection, b: PhysicalConnection) -> bool {
    a.source.0 < b.source.0 || (a.source.0 == b.source.0 && (a.sink.0 < b.sink.0 || (a.sink.0 == b.sink.0
        && kind_rank(a.kind) < kind_rank(b.kind))))
}

fn connection_before(a: &PhysicalConnection, b: &PhysicalConnection) -> (r: bool)
    ensures
        r == connection_lt(*a, *b),
{
    a.source.0 < b.source.0 || (a.source.0 == b.source.0 && (a.sink.0 < b.sink.0 || (a.sink.0 == b.sink.0
        && kind_index(a.kind) < kind_index(b.kind))))
}

/// Strictly increasing connections.
pub open spec fn connections_sorted(s: Seq<PhysicalConnection>) -> bool {
    forall|i: int, j: int| 0 <= i < j < s.len() ==> connection_lt(#[trigger] s[i], #[trigger] s[j])
}

/// Component order: by position, then id.
pub open spec fn component_le(a: PhysicalComponent, b: PhysicalComponent) -> bool {
    pos_lt(a.pos, b.pos) || (a.pos == b.pos && a.id.0 <= b.id.0)
}

pub open spec fn components_sorted(s: Seq<PhysicalComponent>) -> bool {
    forall|i: int, j: int| 0 <= i < j < s.len() ==> component_le(#[trigger] s[i], #[trigger] s[j])
}

/// Strictly increasing ids.
pub open spec fn ids_sorted(s: Seq<ComponentId>) -> bool {
    forall|i: int, j: int| 0 <= i < j < s.len() ==> (#[trigger] s[i]).0 < (#[trigger] s[j]).0
}

pub open spec fn fragment_ids_sorted(s: Seq<FragmentId>) -> bool {
    forall|i: int, j: int| 0 <= i < j < s.len() ==> (#[trigger] s[i]).0 < (#[trigger] s[j]).0
}

/// Inserts `c` into a strictly increasing list unless it is present.
#[verifier::spinoff_prover]
fn insert_connection(out: &mut Vec<PhysicalConnection>, c: PhysicalConnection)
    requires
        connections_sorted(old(out)@),
    ensures
        connections_sorted(final(out)@),
        forall|x: PhysicalConnection| final(out)@.contains(x) <==> (old(out)@.contains(x) || x == c),
{
    let n = out.len();
    let mut k: usize = 0;
    while k < n && connection_before(&out[k], &c)
        invariant
            n == out@.len(),
            k <= n,
            connections_sorted(out@),
            forall|j: int| 0 <= j < k ==> connection_lt(#[trigger] out@[j], c),
        decreases n - k,
    {
        k = k + 1;
    }
    if k < n && out[k] == c {
        return;
    }
    proof {
        if k < n {
            assert(!connection_lt(out@[k as int], c));
            assert(out@[k as int] != c);
            assert(connection_lt(c, out@[k as int]));
        }
    }
    let ghost before = out@;
    out.insert(k, c);
    proof {
        assert forall|i: int, j: int| 0 <= i < j < out@.len() implies connection_lt(#[trigger] out@[i], #[trigger] out@[j]) by {
            if j < k {
            } else if i < k && j == k {
            } else if i < k {
                assert(out@[j] == before[j - 1]);
                assert(connection_lt(before[i], c));
                if k < n {
                    assert(connection_lt(c, before[k as int]));
                }
            } else if i == k {
                assert(out@[j] == before[j - 1]);
                if j - 1 > k {
                    assert(connection_lt(before[k as int], before[j - 1]));
                }
            } else {
                assert(out@[i] == before[i - 1]);
                assert(out@[j] == before[j - 1]);
            }
        }
        assert forall|x: PhysicalConnection| out@.contains(x) <==> (before.contains(x) || x == c) by {
            if out@.contains(x) {
                let i = choose|i: int| 0 <= i < out@.len() && #[trigger] out@[i] == x;
                if i < k {
                    assert(before[i] == x);
                } else if i > k {
                    assert(before[i - 1] == x);
                }
            }
            if before.contains(x) {
                let i = choose|i: int| 0 <= i < before.len() && #[trigger] before[i] == x;
                if i < k {
                    assert(out@[i] == x);
                } else {
                    assert(out@[i + 1] == x);
                }
            }
            if x == c {
                assert(out@[k as int] == c);
            }
        }
    }
}

/// The distinct connections of `input`, in connection order.
#[verifier::spinoff_prover]
fn sorted_connections(input: &Vec<PhysicalConnection>) -> (r: Vec<PhysicalConnection>)
    ensures
        connections_sorted(r@),
        forall|x: PhysicalConnection| r@.contains(x) <==> input@.contains(x),
{
    let mut out: Vec<PhysicalConnection> = Vec::new();
    let n = input.len();
    let mut i: usize = 0;
    while i < n
        invariant
            n == input@.len(),
            i <= n,
            connections_sorted(out@),
            forall|x: PhysicalConnection| out@.contains(x) <==> input@.take(i as int).contains(x),
        decreases n - i,
    {
        let c = input[i];
        let ghost t1 = input@.take(i + 1);
        let ghost t0 = input@.take(i as int);
        let ghost old_out = out@;
        insert_connection(&mut out, c);
        proof {
            assert forall|x: PhysicalConnection| input@.take(i + 1).contains(x) <==> (input@.take(i as int).contains(x) || x == c) by {
                if input@.take(i + 1).contains(x) {
                    let j = choose|j: int| 0 <= j < i + 1 && #[trigger] input@.take(i + 1)[j] == x;
                    if j < i {
                        assert(input@.take(i as int)[j] == x);
                    }
                }
                if input@.take(i as int).contains(x) {
                    let j = choose|j: int| 0 <= j < i && #[trigger] input@.take(i as int)[j] == x;
                    assert(input@.take(i + 1)[j] == x);
                }
                if x == c {
                    assert(input@.take(i + 1)[i as int] == x);
                }
            }
        }
        proof {
            assert forall|x: PhysicalConnection| out@.contains(x) <==> t1.contains(x) by {
                assert(old_out.contains(x) <==> t0.contains(x));
                assert(t1.contains(x) <==> (t0.contains(x) || x == c));
            }
        }
        i = i + 1;
        assert(input@.take(i as int) == t1);
    }
    proof {
        assert(input@.take(n as int) =~= input@);
    }
    out
}

fn component_before_or_equal(a: &PhysicalComponent, b: &PhysicalComponent) -> (r: bool)
    ensures
        r == component_le(*a, *b),
{
    a.pos.precedes(b.pos) || (a.pos == b.pos && a.id.0 <= b.id.0)
}

/// The components sorted by position, then id, keeping the input order of
/// equal keys.
#[verifier::spinoff_prover]
fn sort_components(input: Vec<PhysicalComponent>) -> (r: Vec<PhysicalComponent>)
    ensures
        components_sorted(r@),
        r@.to_multiset() == input@.to_multiset(),
{
    broadcast use vstd::seq_lib::group_to_multiset_ensures;
    broadcast use vstd::multiset::group_multiset_axioms;

    let mut out: Vec<PhysicalComponent> = Vec::new();
    let mut rest = input;
    let ghost original = rest@;
    proof {
        assert(out@.to_multiset() =~= vstd::multiset::Multiset::empty());
        assert(out@.to_multiset().add(rest@.to_multiset()) =~= original.to_multiset());
    }
    while rest.len() > 0
        invariant
            components_sorted(out@),
            out@.to_multiset().add(rest@.to_multiset()) == original.to_multiset(),
        decreases rest@.len(),
    {
        let ghost before_rest = rest@;
        let ghost before_out = out@;
        let c = rest.remove(0);
        proof {
            vstd::seq_lib::to_multiset_remove(before_rest, 0);
            assert(before_rest[0] == c);
            assert(before_rest.contains(c));
            vstd::seq_lib::to_multiset_contains(before_rest, c);
        }
        let m = out.len();
        let mut k: usize = m;
        while k > 0 && !component_before_or_equal(&out[k - 1], &c)
            invariant
                m == out@.len(),
                k <= m,
                components_sorted(out@),
                forall|j: int| k <= j < m ==> !component_le(#[trigger] out@[j], c),
            decreases k,
        {
            k = k - 1;
        }
        let ghost before = out@;
        out.insert(k, c);
        proof {
            assert forall|i: int, j: int| 0 <= i < j < out@.len() implies component_le(#[trigger] out@[i], #[trigger] out@[j]) by {
                if j < k {
                } else if i < k && j == k {
                    assert(component_le(before[k - 1], c));
                    if i < k - 1 {
                        assert(component_le(before[i], before[k - 1]));
                    }
                } else if i < k {
                    assert(out@[j] == before[j - 1]);
                } else if i == k {
                    assert(out@[j] == before[j - 1]);
                    assert(!component_le(before[j - 1], c));
                } else {
                    assert(out@[i] == before[i - 1]);
                    assert(out@[j] == before[j - 1]);
                }
            }
            vstd::seq_lib::to_multiset_insert(before, k as int, c);
            assert(out@.to_multiset().add(rest@.to_multiset()) =~= before_out.to_multiset().add(
                before_rest.to_multiset(),
            ));
        }
    }
    out
}


// ---------------------------------------------------------------------------
// Grouping.
// ---------------------------------------------------------------------------

/// Whether a connection of kind `k` joins a group: electrical nets follow
/// dust and power connections, traversal groups every connection but
/// structural support.
pub open spec fn joins(nets: bool, k: ConnectionKind) -> bool {
    if nets {
        k is Dust || k is DustRise || k is DustFallThroughConductor || k is WeakPower || k is StrongPower
    } else {
        !(k is Support)
    }
}

fn joins_exec(nets: bool, k: ConnectionKind) -> (r: bool)
    ensures
        r == joins(nets, k),
{
    if nets {
        match k {
            ConnectionKind::Dust | ConnectionKind::DustRise | ConnectionKind::DustFallThroughConductor
            | ConnectionKind::WeakPower | ConnectionKind::StrongPower => true,
            _ => false,
        }
    } else {
        match k {
            ConnectionKind::Support => false,
            _ => true,
        }
    }
}

/// The index of the last component with `id`, which is the one an id lookup
/// resolves to.
pub open spec fn resolves(cs: Seq<PhysicalComponent>, id: ComponentId, k: int) -> bool {
    &&& 0 <= k < cs.len()
    &&& cs[k].id == id
    &&& forall|j: int| k < j < cs.len() ==> (#[trigger] cs[j]).id != id
}

/// Some component carries `id`.
pub open spec fn has_id(cs: Seq<PhysicalComponent>, id: ComponentId) -> bool {
    exists|i: int| 0 <= i < cs.len() && (#[trigger] cs[i]).id == id
}

fn index_of(components: &Vec<PhysicalComponent>, id: ComponentId) -> (r: Option<usize>)
    ensures
        r is None <==> !has_id(components@, id),
        r matches Some(k) ==> resolves(components@, id, k as int),
{
    let mut i: usize = components.len();
    while i > 0
        invariant
            i <= components@.len(),
            forall|j: int| i <= j < components@.len() ==> (#[trigger] components@[j]).id != id,
        decreases i,
    {
        if components[i - 1].id == id {
            return Some(i - 1);
        }
        i = i - 1;
    }
    None
}

/// Every label names a class representative.
pub open spec fn labels_closed(label: Seq<usize>) -> bool {
    forall|i: int| 0 <= i < label.len() ==> (#[trigger] label[i]) < label.len() && label[label[i] as int] == label[i]
}

/// Moves every member of class `from` into class `to`.
fn relabel(label: &mut Vec<usize>, from: usize, to: usize)
    ensures
        final(label)@.len() == old(label)@.len(),
        forall|i: int|
            0 <= i < old(label)@.len() ==> #[trigger] final(label)@[i] == (if old(label)@[i] == from {
                to
            } else {
                old(label)@[i]
            }),
{
    let n = label.len();
    let mut i: usize = 0;
    while i < n
        invariant
            n == label@.len(),
            n == old(label)@.len(),
            i <= n,
            forall|j: int| 0 <= j < i ==> #[trigger] label@[j] == (if old(label)@[j] == from { to } else { old(label)@[j] }),
            forall|j: int| i <= j < n ==> #[trigger] label@[j] == old(label)@[j],
        decreases n - i,
    {
        if label[i] == from {
            label.set(i, to);
        }
        i = i + 1;
    }
}

/// Joins the classes of `a` and `b` by rank: the lower-ranked class joins
/// the higher one, and on a tie the class of `b` joins that of `a`, whose
/// rank grows.
fn union_classes(label: &mut Vec<usize>, rank: &mut Vec<usize>, a: usize, b: usize, Ghost(bound): Ghost<int>)
    requires
        a < old(label)@.len(),
        b < old(label)@.len(),
        old(rank)@.len() == old(label)@.len(),
        labels_closed(old(label)@),
        0 <= bound < usize::MAX,
        forall|i: int| 0 <= i < old(rank)@.len() ==> #[trigger] old(rank)@[i] <= bound,
    ensures
        final(label)@.len() == old(label)@.len(),
        final(rank)@.len() == old(rank)@.len(),
        labels_closed(final(label)@),
        forall|i: int| 0 <= i < final(rank)@.len() ==> #[trigger] final(rank)@[i] <= bound + 1,
        final(label)@[a as int] == final(label)@[b as int],
        forall|i: int, j: int|
            0 <= i < old(label)@.len() && 0 <= j < old(label)@.len() && old(label)@[i] == old(label)@[j]
                ==> #[trigger] final(label)@[i] == #[trigger] final(label)@[j],
        forall|i: int, j: int|
            0 <= i < old(label)@.len() && 0 <= j < old(label)@.len() && #[trigger] final(label)@[i]
                == #[trigger] final(label)@[j] ==> old(label)@[i] == old(label)@[j] || ((old(label)@[i]
                == old(label)@[a as int] || old(label)@[i] == old(label)@[b as int]) && (old(label)@[j]
                == old(label)@[a as int] || old(label)@[j] == old(label)@[b as int])),
{
    let left = label[a];
    let right = label[b];
    if left == right {
        return;
    }
    let ghost before = label@;
    if rank[left] < rank[right] {
        relabel(label, left, right);
    } else if rank[left] > rank[right] {
        relabel(label, right, left);
    } else {
        relabel(label, right, left);
        let bumped = rank[left] + 1;
        rank.set(left, bumped);
    }
    proof {
        assert forall|i: int| 0 <= i < label@.len() implies (#[trigger] label@[i]) < label@.len() && label@[label@[i] as int] == label@[i] by {
            assert(before[i] < before.len());
        }
    }
}

/// A joining connection binds the components at indices `a` and `b`, in
/// one direction or the other.
pub open spec fn bound(cs: Seq<PhysicalComponent>, conns: Seq<PhysicalConnection>, nets: bool, a: int, b: int) -> bool {
    exists|k: int|
        0 <= k < conns.len() && joins(nets, conns[k].kind) && ((resolves(cs, (#[trigger] conns[k]).source, a)
            && resolves(cs, conns[k].sink, b)) || (resolves(cs, conns[k].source, b) && resolves(
            cs,
            conns[k].sink,
            a,
        )))
}

/// `p` is a chain of component indices, each bound to the next.
pub open spec fn chain(cs: Seq<PhysicalComponent>, conns: Seq<PhysicalConnection>, nets: bool, p: Seq<int>) -> bool {
    &&& p.len() > 0
    &&& forall|i: int| 0 <= i < p.len() ==> 0 <= #[trigger] p[i] < cs.len()
    &&& forall|i: int| 0 <= i < p.len() - 1 ==> bound(cs, conns, nets, #[trigger] p[i], p[i + 1])
}

/// A chain of joining connections leads from component `a` to component
/// `b`.
pub open spec fn linked(cs: Seq<PhysicalComponent>, conns: Seq<PhysicalConnection>, nets: bool, a: int, b: int) -> bool {
    exists|p: Seq<int>| #[trigger] chain(cs, conns, nets, p) && p[0] == a && p.last() == b
}

proof fn lemma_linked_refl(cs: Seq<PhysicalComponent>, conns: Seq<PhysicalConnection>, nets: bool, a: int)
    requires
        0 <= a < cs.len(),
    ensures
        linked(cs, conns, nets, a, a),
{
    let p = seq![a];
    assert(chain(cs, conns, nets, p));
}

proof fn lemma_bound_sym(cs: Seq<PhysicalComponent>, conns: Seq<PhysicalConnection>, nets: bool, a: int, b: int)
    requires
        bound(cs, conns, nets, a, b),
    ensures
        bound(cs, conns, nets, b, a),
{
    let k = choose|k: int|
        0 <= k < conns.len() && joins(nets, conns[k].kind) && ((resolves(cs, (#[trigger] conns[k]).source, a)
            && resolves(cs, conns[k].sink, b)) || (resolves(cs, conns[k].source, b) && resolves(cs, conns[k].sink, a)));
    assert(0 <= k < conns.len() && joins(nets, conns[k].kind) && ((resolves(cs, conns[k].source, b) && resolves(
        cs,
        conns[k].sink,
        a,
    )) || (resolves(cs, conns[k].source, a) && resolves(cs, conns[k].sink, b))));
}

proof fn lemma_linked_sym(cs: Seq<PhysicalComponent>, conns: Seq<PhysicalConnection>, nets: bool, a: int, b: int)
    requires
        linked(cs, conns, nets, a, b),
    ensures
        linked(cs, conns, nets, b, a),
{
    let p = choose|p: Seq<int>| #[trigger] chain(cs, conns, nets, p) && p[0] == a && p.last() == b;
    let q = p.reverse();
    assert forall|i: int| 0 <= i < q.len() - 1 implies bound(cs, conns, nets, #[trigger] q[i], q[i + 1]) by {
        let j = p.len() - 2 - i;
        assert(q[i] == p[j + 1]);
        assert(q[i + 1] == p[j]);
        assert(bound(cs, conns, nets, p[j], p[j + 1]));
        lemma_bound_sym(cs, conns, nets, p[j], p[j + 1]);
    }
    assert forall|i: int| 0 <= i < q.len() implies 0 <= #[trigger] q[i] < cs.len() by {
        assert(q[i] == p[p.len() - 1 - i]);
    }
    assert(chain(cs, conns, nets, q));
    assert(q[0] == b);
    assert(q.last() == a);
}

proof fn lemma_linked_trans(cs: Seq<PhysicalComponent>, conns: Seq<PhysicalConnection>, nets: bool, a: int, b: int, c: int)
    requires
        linked(cs, conns, nets, a, b),
        linked(cs, conns, nets, b, c),
    ensures
        linked(cs, conns, nets, a, c),
{
    let p = choose|p: Seq<int>| #[trigger] chain(cs, conns, nets, p) && p[0] == a && p.last() == b;
    let q = choose|q: Seq<int>| #[trigger] chain(cs, conns, nets, q) && q[0] == b && q.last() == c;
    let r = p + q.drop_first();
    assert forall|i: int| 0 <= i < r.len() implies 0 <= #[trigger] r[i] < cs.len() by {
        if i < p.len() {
            assert(r[i] == p[i]);
        } else {
            assert(r[i] == q[i - p.len() + 1]);
        }
    }
    assert forall|i: int| 0 <= i < r.len() - 1 implies bound(cs, conns, nets, #[trigger] r[i], r[i + 1]) by {
        if i < p.len() - 1 {
            assert(r[i] == p[i] && r[i + 1] == p[i + 1]);
        } else if i == p.len() - 1 {
            assert(r[i] == q[0]);
            assert(r[i + 1] == q[1]);
        } else {
            let j = i - p.len() + 1;
            assert(r[i] == q[j] && r[i + 1] == q[j + 1]);
        }
    }
    assert(chain(cs, conns, nets, r));
    if q.len() == 1 {
        assert(r =~= p);
    } else {
        assert(r.last() == q.last());
    }
}

proof fn lemma_bound_linked(cs: Seq<PhysicalComponent>, conns: Seq<PhysicalConnection>, nets: bool, a: int, b: int)
    requires
        0 <= a < cs.len(),
        0 <= b < cs.len(),
        bound(cs, conns, nets, a, b),
    ensures
        linked(cs, conns, nets, a, b),
{
    let p = seq![a, b];
    assert(p[0] == a && p[1] == b);
    assert(chain(cs, conns, nets, p));
}

/// Inserts `id` into a strictly increasing id list unless it is present.
#[verifier::spinoff_prover]
pub(crate) fn insert_id(out: &mut Vec<ComponentId>, id: ComponentId)
    requires
        ids_sorted(old(out)@),
    ensures
        ids_sorted(final(out)@),
        forall|x: ComponentId| final(out)@.contains(x) <==> (old(out)@.contains(x) || x == id),
{
    let n = out.len();
    let mut k: usize = 0;
    while k < n && out[k].0 < id.0
        invariant
            n == out@.len(),
            k <= n,
            ids_sorted(out@),
            forall|j: int| 0 <= j < k ==> (#[trigger] out@[j]).0 < id.0,
        decreases n - k,
    {
        k = k + 1;
    }
    if k < n && out[k] == id {
        return;
    }
    proof {
        if k < n {
            assert(!(out@[k as int].0 < id.0));
            assert(out@[k as int] != id);
            assert(id.0 < out@[k as int].0);
        }
    }
    let ghost before = out@;
    out.insert(k, id);
    proof {
        assert forall|i: int, j: int| 0 <= i < j < out@.len() implies (#[trigger] out@[i]).0 < (#[trigger] out@[j]).0 by {
            if j < k {
            } else if i < k && j == k {
            } else if i < k {
                assert(out@[j] == before[j - 1]);
            } else if i == k {
                assert(out@[j] == before[j - 1]);
                if j - 1 > k {
                    assert(before[k as int].0 < before[j - 1].0);
                }
            } else {
                assert(out@[i] == before[i - 1]);
                assert(out@[j] == before[j - 1]);
            }
        }
        assert forall|x: ComponentId| out@.contains(x) <==> (before.contains(x) || x == id) by {
            if out@.contains(x) {
                let i = choose|i: int| 0 <= i < out@.len() && #[trigger] out@[i] == x;
                if i < k {
                    assert(before[i] == x);
                } else if i > k {
                    assert(before[i - 1] == x);
                }
            }
            if before.contains(x) {
                let i = choose|i: int| 0 <= i < before.len() && #[trigger] before[i] == x;
                if i < k {
                    assert(out@[i] == x);
                } else {
                    assert(out@[i + 1] == x);
                }
            }
            if x == id {
                assert(out@[k as int] == id);
            }
        }
    }
    assert(forall|x: ComponentId| #[trigger] out@.contains(x) <==> (old(out)@.contains(x) || x == id));
}

/// Some group holds `id`.
pub open spec fn grouped(groups: Seq<Vec<ComponentId>>, id: ComponentId) -> bool {
    exists|g: int| 0 <= g < groups.len() && (#[trigger] groups[g])@.contains(id)
}

/// One group holds both `a` and `b`.
pub open spec fn together(groups: Seq<Vec<ComponentId>>, a: ComponentId, b: ComponentId) -> bool {
    exists|g: int| 0 <= g < groups.len() && (#[trigger] groups[g])@.contains(a) && groups[g]@.contains(b)
}

/// The groups a list of components and connections forms: sorted id lists
/// of known components that cover every component and keep the two ends of
/// every joining connection together.
pub open spec fn groups_of(
    cs: Seq<PhysicalComponent>,
    conns: Seq<PhysicalConnection>,
    nets: bool,
    groups: Seq<Vec<ComponentId>>,
) -> bool {
    &&& forall|g: int| 0 <= g < groups.len() ==> ids_sorted((#[trigger] groups[g])@)
    &&& forall|g: int| 0 <= g < groups.len() ==> (#[trigger] groups[g])@.len() > 0
    &&& forall|g: int, x: ComponentId| 0 <= g < groups.len() && #[trigger] groups[g]@.contains(x) ==> has_id(cs, x)
    &&& forall|i: int| 0 <= i < cs.len() ==> grouped(groups, (#[trigger] cs[i]).id)
    &&& forall|k: int, s: int, t: int|
        #![trigger resolves(cs, conns[k].source, s), resolves(cs, conns[k].sink, t)]
        0 <= k < conns.len() && joins(nets, conns[k].kind) && resolves(cs, conns[k].source, s)
            && resolves(cs, conns[k].sink, t) ==> together(groups, cs[s].id, cs[t].id)
    &&& forall|g: int, x: ComponentId, y: ComponentId|
        #![trigger groups[g]@.contains(x), groups[g]@.contains(y)]
        0 <= g < groups.len() && groups[g]@.contains(x) && groups[g]@.contains(y) ==> exists|i: int, j: int|
            0 <= i < cs.len() && 0 <= j < cs.len() && (#[trigger] cs[i]).id == x && (#[trigger] cs[j]).id == y
                && linked(cs, conns, nets, i, j)
    &&& forall|g1: int, g2: int, x: ComponentId|
        #![trigger groups[g1]@.contains(x), groups[g2]@.contains(x)]
        0 <= g1 < groups.len() && 0 <= g2 < groups.len() && g1 != g2 && groups[g1]@.contains(x)
            && groups[g2]@.contains(x) ==> shared_id(cs, x)
}

/// Two components carry `id`.
pub open spec fn shared_id(cs: Seq<PhysicalComponent>, id: ComponentId) -> bool {
    exists|i: int, j: int| 0 <= i < cs.len() && 0 <= j < cs.len() && i != j && (#[trigger] cs[i]).id == id && (#[trigger] cs[j]).id == id
}

/// After the classes of `s` and `t` are joined along connection `k`,
/// components with one label are still linked.
proof fn lemma_union_linked(
    cs: Seq<PhysicalComponent>,
    conns: Seq<PhysicalConnection>,
    nets: bool,
    before: Seq<usize>,
    after: Seq<usize>,
    s: int,
    t: int,
    k: int,
)
    requires
        before.len() == cs.len(),
        after.len() == cs.len(),
        0 <= s < cs.len(),
        0 <= t < cs.len(),
        0 <= k < conns.len(),
        joins(nets, conns[k].kind),
        resolves(cs, conns[k].source, s),
        resolves(cs, conns[k].sink, t),
        forall|i2: int, j2: int|
            #![trigger before[i2], before[j2]]
            0 <= i2 < cs.len() && 0 <= j2 < cs.len() && before[i2] == before[j2] ==> linked(cs, conns, nets, i2, j2),
        forall|i: int, j: int|
            0 <= i < before.len() && 0 <= j < before.len() && #[trigger] after[i] == #[trigger] after[j] ==> before[i]
                == before[j] || ((before[i] == before[s] || before[i] == before[t]) && (before[j] == before[s]
                || before[j] == before[t])),
    ensures
        forall|i2: int, j2: int|
            #![trigger after[i2], after[j2]]
            0 <= i2 < cs.len() && 0 <= j2 < cs.len() && after[i2] == after[j2] ==> linked(cs, conns, nets, i2, j2),
{
    assert(bound(cs, conns, nets, s, t));
    lemma_bound_linked(cs, conns, nets, s, t);
    lemma_linked_sym(cs, conns, nets, s, t);
    assert forall|i2: int, j2: int|
        #![trigger after[i2], after[j2]]
        0 <= i2 < cs.len() && 0 <= j2 < cs.len() && after[i2] == after[j2] implies linked(cs, conns, nets, i2, j2) by {
        if before[i2] != before[j2] {
            let si = if before[i2] == before[s] { s } else { t };
            let sj = if before[j2] == before[s] { s } else { t };
            assert(before[i2] == before[si]);
            assert(before[j2] == before[sj]);
            assert(linked(cs, conns, nets, i2, si));
            assert(linked(cs, conns, nets, j2, sj));
            lemma_linked_sym(cs, conns, nets, j2, sj);
            if si == sj {
                lemma_linked_trans(cs, conns, nets, i2, si, j2);
            } else {
                assert(linked(cs, conns, nets, si, sj));
                lemma_linked_trans(cs, conns, nets, i2, si, sj);
                lemma_linked_trans(cs, conns, nets, i2, sj, j2);
            }
        }
    }
}

/// A class label for each component: the two ends of every joining
/// connection share a label, and components that share one are linked.
#[verifier::spinoff_prover]
#[verifier::rlimit(40)]
fn class_labels(components: &Vec<PhysicalComponent>, connections: &Vec<PhysicalConnection>, nets: bool) -> (label: Vec<usize>)
    ensures
        label@.len() == components@.len(),
        labels_closed(label@),
        forall|q: int, s: int, t: int|
            #![trigger resolves(components@, connections@[q].source, s), resolves(components@, connections@[q].sink, t)]
            0 <= q < connections@.len() && joins(nets, connections@[q].kind) && resolves(components@, connections@[q].source, s)
                && resolves(components@, connections@[q].sink, t) ==> label@[s] == label@[t],
        forall|i2: int, j2: int|
            #![trigger label@[i2], label@[j2]]
            0 <= i2 < components@.len() && 0 <= j2 < components@.len() && label@[i2] == label@[j2] ==> linked(
                components@,
                connections@,
                nets,
                i2,
                j2,
            ),
{
    let n = components.len();
    let mut label: Vec<usize> = Vec::new();
    let mut rank: Vec<usize> = Vec::new();
    let mut i: usize = 0;
    while i < n
        invariant
            n == components@.len(),
            i <= n,
            label@.len() == i,
            rank@.len() == i,
            forall|j: int| 0 <= j < i ==> #[trigger] label@[j] == j,
            forall|j: int| 0 <= j < i ==> #[trigger] rank@[j] == 0,
        decreases n - i,
    {
        label.push(i);
        rank.push(0);
        i = i + 1;
    }
    proof {
        assert forall|i2: int, j2: int|
            #![trigger label@[i2], label@[j2]]
            0 <= i2 < n && 0 <= j2 < n && label@[i2] == label@[j2] implies linked(components@, connections@, nets, i2, j2) by {
            lemma_linked_refl(components@, connections@, nets, i2);
        }
    }
    let m = connections.len();
    let mut k: usize = 0;
    while k < m
        invariant
            n == components@.len(),
            m == connections@.len(),
            k <= m,
            label@.len() == n,
            rank@.len() == n,
            labels_closed(label@),
            forall|i2: int, j2: int|
                #![trigger label@[i2], label@[j2]]
                0 <= i2 < n && 0 <= j2 < n && label@[i2] == label@[j2] ==> linked(components@, connections@, nets, i2, j2),
            forall|j: int| 0 <= j < n ==> #[trigger] rank@[j] <= k,
            forall|q: int, s: int, t: int|
                #![trigger resolves(components@, connections@[q].source, s), resolves(components@, connections@[q].sink, t)]
                0 <= q < k && joins(nets, connections@[q].kind) && resolves(components@, connections@[q].source, s)
                    && resolves(components@, connections@[q].sink, t) ==> label@[s] == label@[t],
        decreases m - k,
    {
        let c = connections[k];
        if joins_exec(nets, c.kind) {
            match (index_of(components, c.source), index_of(components, c.sink)) {
                (Some(s), Some(t)) => {
                    let ghost before = label@;
                    union_classes(&mut label, &mut rank, s, t, Ghost(k as int));
                    proof {
                        lemma_union_linked(components@, connections@, nets, before, label@, s as int, t as int, k as int);
                        assert forall|q: int, s2: int, t2: int|
                            #![trigger resolves(components@, connections@[q].source, s2), resolves(components@, connections@[q].sink, t2)]
                            0 <= q < k + 1 && joins(nets, connections@[q].kind) && resolves(components@, connections@[q].source, s2)
                                && resolves(components@, connections@[q].sink, t2) implies label@[s2] == label@[t2] by {
                            if q < k {
                                assert(before[s2] == before[t2]);
                            } else {
                                assert(s2 == s as int) by {
                                    if s2 < s { assert(components@[s as int].id == c.source); }
                                    if s2 > s { assert(components@[s2].id == c.source); }
                                }
                                assert(t2 == t as int) by {
                                    if t2 < t { assert(components@[t as int].id == c.sink); }
                                    if t2 > t { assert(components@[t2].id == c.sink); }
                                }
                            }
                        }
                    }
                },
                _ => {
                    proof {
                        assert forall|q: int, s2: int, t2: int|
                            #![trigger resolves(components@, connections@[q].source, s2), resolves(components@, connections@[q].sink, t2)]
                            0 <= q < k + 1 && joins(nets, connections@[q].kind) && resolves(components@, connections@[q].source, s2)
                                && resolves(components@, connections@[q].sink, t2) implies label@[s2] == label@[t2] by {
                            if q == k {
                                assert(has_id(components@, c.source));
                                assert(has_id(components@, c.sink));
                            }
                        }
                    }
                },
            }
        } else {
            proof {
                assert forall|q: int, s2: int, t2: int|
                    #![trigger resolves(components@, connections@[q].source, s2), resolves(components@, connections@[q].sink, t2)]
                            0 <= q < k + 1 && joins(nets, connections@[q].kind) && resolves(components@, connections@[q].source, s2)
                        && resolves(components@, connections@[q].sink, t2) implies label@[s2] == label@[t2] by {
                }
            }
        }
        k = k + 1;
    }
    label
}

/// The ids of the components whose label is `root`, sorted.
#[verifier::spinoff_prover]
fn class_members(components: &Vec<PhysicalComponent>, label: &Vec<usize>, root: usize) -> (members: Vec<ComponentId>)
    requires
        label@.len() == components@.len(),
    ensures
        ids_sorted(members@),
        forall|x: ComponentId| members@.contains(x) ==> exists|j: int|
            0 <= j < components@.len() && label@[j] == root && (#[trigger] components@[j]).id == x,
        forall|j: int| 0 <= j < components@.len() && label@[j] == root ==> members@.contains(#[trigger] components@[j].id),
{
    let n = components.len();
    let mut members: Vec<ComponentId> = Vec::new();
    let mut i: usize = 0;
    while i < n
        invariant
            n == components@.len(),
            label@.len() == n,
            i <= n,
            ids_sorted(members@),
            forall|x: ComponentId| members@.contains(x) ==> exists|j: int|
                0 <= j < i && label@[j] == root && (#[trigger] components@[j]).id == x,
            forall|j: int| 0 <= j < i && label@[j] == root ==> members@.contains(#[trigger] components@[j].id),
        decreases n - i,
    {
        if label[i] == root {
            let ghost old_members = members@;
            insert_id(&mut members, components[i].id);
            proof {
                assert forall|x: ComponentId| members@.contains(x) implies exists|j: int|
                    0 <= j < i + 1 && label@[j] == root && (#[trigger] components@[j]).id == x by {
                    if old_members.contains(x) {
                        let j = choose|j: int| 0 <= j < i && label@[j] == root && (#[trigger] components@[j]).id == x;
                        assert(0 <= j < i + 1 && label@[j] == root && components@[j].id == x);
                    } else {
                        assert(components@[i as int].id == x);
                    }
                }
                assert forall|j: int| 0 <= j < i + 1 && label@[j] == root implies members@.contains(#[trigger] components@[j].id) by {
                    if j < i {
                        assert(old_members.contains(components@[j].id));
                    }
                }
            }
        }
        i = i + 1;
    }
    members
}

/// The group of each class in `groups` is found for component `i2`: one
/// group holds every member of its class.
pub open spec fn class_grouped(
    cs: Seq<PhysicalComponent>,
    label: Seq<usize>,
    groups: Seq<Vec<ComponentId>>,
    i2: int,
) -> bool {
    exists|g: int|
        0 <= g < groups.len() && (#[trigger] groups[g])@.contains(cs[i2].id) && (forall|j2: int|
            0 <= j2 < cs.len() && label[j2] == label[i2] ==> groups[g]@.contains(#[trigger] cs[j2].id))
}

/// Groups the components by the connections `joins` admits, ordered by the
/// index of each class's representative.
#[verifier::spinoff_prover]
#[verifier::rlimit(40)]
fn connection_groups(components: &Vec<PhysicalComponent>, connections: &Vec<PhysicalConnection>, nets: bool) -> (r: Vec<Vec<ComponentId>>)
    ensures
        groups_of(components@, connections@, nets, r@),
{
    let n = components.len();
    let label = class_labels(components, connections, nets);
    let mut groups: Vec<Vec<ComponentId>> = Vec::new();
    let ghost mut roots: Seq<usize> = Seq::empty();
    let mut root: usize = 0;
    while root < n
        invariant
            n == components@.len(),
            label@.len() == n,
            labels_closed(label@),
            root <= n,
            roots.len() == groups@.len(),
            forall|g: int| 0 <= g < groups@.len() ==> ids_sorted((#[trigger] groups@[g])@),
            forall|g: int| 0 <= g < groups@.len() ==> (#[trigger] groups@[g])@.len() > 0,
            forall|g: int, x: ComponentId| 0 <= g < groups@.len() && #[trigger] groups@[g]@.contains(x) ==> exists|i2: int|
                0 <= i2 < n && label@[i2] == roots[g] && (#[trigger] components@[i2]).id == x,
            forall|i2: int| 0 <= i2 < n && label@[i2] < root ==> #[trigger] class_grouped(components@, label@, groups@, i2),
            forall|g: int| 0 <= g < roots.len() ==> #[trigger] roots[g] < root,
            forall|g1: int, g2: int| 0 <= g1 < g2 < roots.len() ==> #[trigger] roots[g1] < #[trigger] roots[g2],
        decreases n - root,
    {
        let members = class_members(components, &label, root);
        if members.len() > 0 {
            let ghost old_groups = groups@;
            let ghost member_view = members@;
            groups.push(members);
            proof {
                assert(groups@[groups@.len() - 1]@ == member_view);
                roots = roots.push(root);
                assert forall|g: int, x: ComponentId| 0 <= g < groups@.len() && #[trigger] groups@[g]@.contains(x) implies exists|i2: int|
                    0 <= i2 < n && label@[i2] == roots[g] && (#[trigger] components@[i2]).id == x by {
                    if g < old_groups.len() {
                        assert(groups@[g] == old_groups[g]);
                    } else {
                        assert(member_view.contains(x));
                    }
                }
                assert forall|i2: int| 0 <= i2 < n && label@[i2] < root + 1 implies #[trigger] class_grouped(components@, label@, groups@, i2) by {
                    if label@[i2] < root {
                        assert(class_grouped(components@, label@, old_groups, i2));
                        let g = choose|g: int|
                            0 <= g < old_groups.len() && (#[trigger] old_groups[g])@.contains(components@[i2].id) && (forall|j2: int|
                                0 <= j2 < n && label@[j2] == label@[i2] ==> old_groups[g]@.contains(#[trigger] components@[j2].id));
                        assert(groups@[g] == old_groups[g]);
                    } else {
                        let g = old_groups.len() as int;
                        assert(groups@[g]@.contains(components@[i2].id));
                    }
                }
            }
        } else {
            proof {
                assert forall|i2: int| 0 <= i2 < n && label@[i2] < root + 1 implies label@[i2] < root by {
                    if label@[i2] == root {
                        assert(members@.contains(components@[i2].id));
                    }
                }
            }
        }
        root = root + 1;
    }
    proof {
        assert forall|g1: int, g2: int| 0 <= g1 < roots.len() && 0 <= g2 < roots.len() && g1 != g2 implies roots[g1] != roots[g2] by {
            if g1 < g2 {
                assert(roots[g1] < roots[g2]);
            } else {
                assert(roots[g2] < roots[g1]);
            }
        }
        lemma_groups_complete(components@, connections@, nets, label@, roots, groups@);
    }
    groups
}

proof fn lemma_groups_complete(
    cs: Seq<PhysicalComponent>,
    conns: Seq<PhysicalConnection>,
    nets: bool,
    label: Seq<usize>,
    roots: Seq<usize>,
    groups: Seq<Vec<ComponentId>>,
)
    requires
        label.len() == cs.len(),
        labels_closed(label),
        roots.len() == groups.len(),
        forall|g: int| 0 <= g < groups.len() ==> ids_sorted((#[trigger] groups[g])@),
        forall|g: int| 0 <= g < groups.len() ==> (#[trigger] groups[g])@.len() > 0,
        forall|g: int, x: ComponentId| 0 <= g < groups.len() && #[trigger] groups[g]@.contains(x) ==> exists|i2: int|
            0 <= i2 < cs.len() && label[i2] == roots[g] && (#[trigger] cs[i2]).id == x,
        forall|i2: int| 0 <= i2 < cs.len() && label[i2] < cs.len() ==> #[trigger] class_grouped(cs, label, groups, i2),
        forall|q: int, s: int, t: int|
            #![trigger resolves(cs, conns[q].source, s), resolves(cs, conns[q].sink, t)]
            0 <= q < conns.len() && joins(nets, conns[q].kind) && resolves(cs, conns[q].source, s) && resolves(
                cs,
                conns[q].sink,
                t,
            ) ==> label[s] == label[t],
        forall|i2: int, j2: int|
            #![trigger label[i2], label[j2]]
            0 <= i2 < cs.len() && 0 <= j2 < cs.len() && label[i2] == label[j2] ==> linked(cs, conns, nets, i2, j2),
        forall|g1: int, g2: int| 0 <= g1 < roots.len() && 0 <= g2 < roots.len() && g1 != g2 ==> roots[g1] != roots[g2],
    ensures
        groups_of(cs, conns, nets, groups),
{
    assert forall|g1: int, g2: int, x: ComponentId|
        #![trigger groups[g1]@.contains(x), groups[g2]@.contains(x)]
        0 <= g1 < groups.len() && 0 <= g2 < groups.len() && g1 != g2 && groups[g1]@.contains(x)
            && groups[g2]@.contains(x) implies shared_id(cs, x) by {
        let i = choose|i2: int| 0 <= i2 < cs.len() && label[i2] == roots[g1] && (#[trigger] cs[i2]).id == x;
        let j = choose|i2: int| 0 <= i2 < cs.len() && label[i2] == roots[g2] && (#[trigger] cs[i2]).id == x;
        assert(i != j);
    }
    assert forall|g: int, x: ComponentId| 0 <= g < groups.len() && #[trigger] groups[g]@.contains(x) implies has_id(cs, x) by {
        let i2 = choose|i2: int| 0 <= i2 < cs.len() && label[i2] == roots[g] && (#[trigger] cs[i2]).id == x;
        assert(cs[i2].id == x);
    }
    assert forall|i2: int| 0 <= i2 < cs.len() implies grouped(groups, (#[trigger] cs[i2]).id) by {
        assert(label[i2] < cs.len());
        assert(class_grouped(cs, label, groups, i2));
        let g = choose|g: int|
            0 <= g < groups.len() && (#[trigger] groups[g])@.contains(cs[i2].id) && (forall|j2: int|
                0 <= j2 < cs.len() && label[j2] == label[i2] ==> groups[g]@.contains(#[trigger] cs[j2].id));
        assert(groups[g]@.contains(cs[i2].id));
    }
    assert forall|q: int, s: int, t: int|
        #![trigger resolves(cs, conns[q].source, s), resolves(cs, conns[q].sink, t)]
        0 <= q < conns.len() && joins(nets, conns[q].kind) && resolves(cs, conns[q].source, s) && resolves(
            cs,
            conns[q].sink,
            t,
        ) implies together(groups, cs[s].id, cs[t].id) by {
        assert(label[s] == label[t]);
        assert(label[s] < cs.len());
        assert(class_grouped(cs, label, groups, s));
        let g = choose|g: int|
            0 <= g < groups.len() && (#[trigger] groups[g])@.contains(cs[s].id) && (forall|j2: int|
                0 <= j2 < cs.len() && label[j2] == label[s] ==> groups[g]@.contains(#[trigger] cs[j2].id));
        assert(groups[g]@.contains(cs[t].id));
    }
    assert forall|g: int, x: ComponentId, y: ComponentId|
        #![trigger groups[g]@.contains(x), groups[g]@.contains(y)]
        0 <= g < groups.len() && groups[g]@.contains(x) && groups[g]@.contains(y) implies exists|i: int, j: int|
            0 <= i < cs.len() && 0 <= j < cs.len() && (#[trigger] cs[i]).id == x && (#[trigger] cs[j]).id == y
                && linked(cs, conns, nets, i, j) by {
        let i = choose|i2: int| 0 <= i2 < cs.len() && label[i2] == roots[g] && (#[trigger] cs[i2]).id == x;
        let j = choose|i2: int| 0 <= i2 < cs.len() && label[i2] == roots[g] && (#[trigger] cs[i2]).id == y;
        assert(label[i] == label[j]);
        assert(linked(cs, conns, nets, i, j));
    }
}


// ---------------------------------------------------------------------------
// Proximity.
// ---------------------------------------------------------------------------

/// What proximity needs of a component: its id, position and whether it is
/// redstone related.
pub type Probe = (ComponentId, Pos, bool);

/// `k` is the last probe with `id`, the one an id lookup resolves to.
pub open spec fn resolves_probe(ps: Seq<Probe>, id: ComponentId, k: int) -> bool {
    &&& 0 <= k < ps.len()
    &&& ps[k].0 == id
    &&& forall|j: int| k < j < ps.len() ==> (#[trigger] ps[j]).0 != id
}

/// The index an id resolves to.
pub open spec fn resolved(ps: Seq<Probe>, id: ComponentId) -> int {
    choose|k: int| resolves_probe(ps, id, k)
}

/// Some probe carries `id`.
pub open spec fn known_id(ps: Seq<Probe>, id: ComponentId) -> bool {
    exists|k: int| resolves_probe(ps, id, k)
}

/// Every id of `ids` names a probe.
pub open spec fn all_known(ps: Seq<Probe>, ids: Seq<ComponentId>) -> bool {
    forall|i: int| 0 <= i < ids.len() ==> known_id(ps, #[trigger] ids[i])
}

/// The id resolves to a redstone-related component.
pub open spec fn related_id(ps: Seq<Probe>, id: ComponentId) -> bool {
    ps[resolved(ps, id)].2
}

/// The absolute difference of two coordinates.
pub open spec fn gap(a: i32, b: i32) -> int {
    if a >= b {
        a - b
    } else {
        b - a
    }
}

/// The Manhattan distance between two positions.
pub open spec fn manhattan(a: Pos, b: Pos) -> int {
    gap(a.x, b.x) + gap(a.y, b.y) + gap(a.z, b.z)
}

/// The Manhattan distance is a metric on positions: never negative, zero
/// exactly between equal positions, symmetric, and never longer than a
/// detour through a third position.
pub proof fn law_manhattan_metric(a: Pos, b: Pos, c: Pos)
    ensures
        manhattan(a, b) >= 0,
        manhattan(a, b) == 0 <==> a == b,
        manhattan(a, b) == manhattan(b, a),
        manhattan(a, c) <= manhattan(a, b) + manhattan(b, c),
{
}

/// One step to a neighbouring position, along any of the three axes, is
/// at distance one.
pub proof fn law_manhattan_unit_step(a: Pos, f: crate::world::Facing)
    requires
        crate::world::neighbors_in_range(a),
    ensures
        manhattan(a, crate::world::neighbor(a, f)) == 1,
{
}

/// The distance between the components two ids resolve to.
pub open spec fn id_distance(ps: Seq<Probe>, a: ComponentId, b: ComponentId) -> int {
    manhattan(ps[resolved(ps, a)].1, ps[resolved(ps, b)].1)
}

/// `(a, b)` is a pair of redstone-related components across two groups.
pub open spec fn related_pair(ps: Seq<Probe>, l: Seq<ComponentId>, r: Seq<ComponentId>, a: ComponentId, b: ComponentId) -> bool {
    l.contains(a) && r.contains(b) && related_id(ps, a) && related_id(ps, b)
}

/// The nearest related pair across two groups is `(a, b)` at distance `d`.
pub open spec fn nearest_is(ps: Seq<Probe>, l: Seq<ComponentId>, r: Seq<ComponentId>, a: ComponentId, b: ComponentId, d: int) -> bool {
    &&& related_pair(ps, l, r, a, b)
    &&& d == id_distance(ps, a, b)
    &&& forall|x: ComponentId, y: ComponentId| related_pair(ps, l, r, x, y) ==> d <= #[trigger] id_distance(ps, x, y)
}

/// Some related pair across the two groups lies within `max`.
pub open spec fn near(ps: Seq<Probe>, l: Seq<ComponentId>, r: Seq<ComponentId>, max: int) -> bool {
    exists|x: ComponentId, y: ComponentId| related_pair(ps, l, r, x, y) && #[trigger] id_distance(ps, x, y) <= max
}

proof fn lemma_resolves_unique(ps: Seq<Probe>, id: ComponentId, a: int, b: int)
    requires
        resolves_probe(ps, id, a),
        resolves_probe(ps, id, b),
    ensures
        a == b,
{
    if a < b {
        assert(ps[b].0 == id);
    } else if b < a {
        assert(ps[a].0 == id);
    }
}

fn probe_index(ps: &Vec<Probe>, id: ComponentId) -> (r: Option<usize>)
    ensures
        r is None <==> forall|k: int| !resolves_probe(ps@, id, k),
        r matches Some(k) ==> resolves_probe(ps@, id, k as int) && resolved(ps@, id) == k,
{
    let mut i: usize = ps.len();
    while i > 0
        invariant
            i <= ps@.len(),
            forall|j: int| i <= j < ps@.len() ==> (#[trigger] ps@[j]).0 != id,
        decreases i,
    {
        if ps[i - 1].0 == id {
            proof {
                let k = (i - 1) as int;
                assert(resolves_probe(ps@, id, k));
                lemma_resolves_unique(ps@, id, k, resolved(ps@, id));
            }
            return Some(i - 1);
        }
        i = i - 1;
    }
    proof {
        assert forall|k: int| !resolves_probe(ps@, id, k) by {
            if 0 <= k < ps@.len() {
                assert(ps@[k].0 != id);
            }
        }
    }
    None
}

fn coordinate_gap(a: i32, b: i32) -> (r: u64)
    ensures
        r == gap(a, b),
{
    if a >= b {
        (a as i64 - b as i64) as u64
    } else {
        (b as i64 - a as i64) as u64
    }
}

fn distance(a: Pos, b: Pos) -> (r: u64)
    ensures
        r == manhattan(a, b),
{
    coordinate_gap(a.x, b.x) + coordinate_gap(a.y, b.y) + coordinate_gap(a.z, b.z)
}

/// The components at index `i` of `l` and index `j` of `r` are both
/// redstone related.
pub open spec fn related_at(ps: Seq<Probe>, l: Seq<ComponentId>, r: Seq<ComponentId>, i: int, j: int) -> bool {
    0 <= i < l.len() && 0 <= j < r.len() && related_id(ps, l[i]) && related_id(ps, r[j])
}

/// `(i2, j2)` comes before `(i, j)` when the pairs are scanned row by row.
pub open spec fn scanned_before(i2: int, j2: int, i: int, j: int) -> bool {
    i2 < i || (i2 == i && j2 < j)
}

/// The pair at `(i, j)` is the first nearest related pair in row-by-row
/// order: no related pair is nearer, and every one before it is farther.
pub open spec fn first_nearest_at(ps: Seq<Probe>, l: Seq<ComponentId>, r: Seq<ComponentId>, i: int, j: int) -> bool {
    &&& related_at(ps, l, r, i, j)
    &&& forall|i2: int, j2: int|
        #[trigger] related_at(ps, l, r, i2, j2) ==> id_distance(ps, l[i], r[j]) <= id_distance(ps, l[i2], r[j2])
    &&& forall|i2: int, j2: int|
        #[trigger] related_at(ps, l, r, i2, j2) && scanned_before(i2, j2, i, j) ==> id_distance(ps, l[i], r[j])
            < id_distance(ps, l[i2], r[j2])
}

/// The nearest related pair across two groups, the first found on ties.
#[verifier::spinoff_prover]
fn nearest_pair(ps: &Vec<Probe>, left: &Vec<ComponentId>, right: &Vec<ComponentId>) -> (r: Option<(ComponentId, ComponentId, u64)>)
    requires
        all_known(ps@, left@),
        all_known(ps@, right@),
    ensures
        r is None <==> !exists|x: ComponentId, y: ComponentId| #[trigger] related_pair(ps@, left@, right@, x, y),
        r matches Some((a, b, d)) ==> nearest_is(ps@, left@, right@, a, b, d as int),
        r matches Some((a, b, d)) ==> exists|i: int, j: int|
            #[trigger] first_nearest_at(ps@, left@, right@, i, j) && a == left@[i] && b == right@[j],
{
    let mut best: Option<(ComponentId, ComponentId, u64)> = None;
    let ghost mut bi: int = 0;
    let ghost mut bj: int = 0;
    let n = left.len();
    let m = right.len();
    let mut i: usize = 0;
    while i < n
        invariant
            n == left@.len(),
            m == right@.len(),
            i <= n,
            all_known(ps@, left@),
            all_known(ps@, right@),
            best is None ==> forall|i2: int, j2: int| #[trigger] related_at(ps@, left@, right@, i2, j2) ==> i2 >= i,
            best matches Some((a, b, d)) ==> {
                &&& related_at(ps@, left@, right@, bi, bj)
                &&& bi < i
                &&& a == left@[bi] && b == right@[bj] && d == id_distance(ps@, a, b)
                &&& forall|i2: int, j2: int|
                    #[trigger] related_at(ps@, left@, right@, i2, j2) && i2 < i ==> d <= id_distance(
                        ps@,
                        left@[i2],
                        right@[j2],
                    )
                &&& forall|i2: int, j2: int|
                    #[trigger] related_at(ps@, left@, right@, i2, j2) && scanned_before(i2, j2, bi, bj) ==> d
                        < id_distance(ps@, left@[i2], right@[j2])
            },
        decreases n - i,
    {
        let a = left[i];
        let ka = match probe_index(ps, a) {
            Some(k) => k,
            None => {
                proof {
                    assert(known_id(ps@, left@[i as int]));
                }
                return None;
            },
        };
        if ps[ka].2 {
            let mut j: usize = 0;
            while j < m
                invariant
                    n == left@.len(),
                    m == right@.len(),
                    i < n,
                    j <= m,
                    a == left@[i as int],
                    resolves_probe(ps@, a, ka as int),
                    resolved(ps@, a) == ka,
                    ps@[ka as int].2,
                    all_known(ps@, right@),
                    best is None ==> forall|i2: int, j2: int|
                        #[trigger] related_at(ps@, left@, right@, i2, j2) ==> scanned_before(i as int, j as int, i2, j2)
                            || (i2 == i && j2 == j),
                    best matches Some((a2, b2, d2)) ==> {
                        &&& related_at(ps@, left@, right@, bi, bj)
                        &&& scanned_before(bi, bj, i as int, j as int)
                        &&& a2 == left@[bi] && b2 == right@[bj] && d2 == id_distance(ps@, a2, b2)
                        &&& forall|i2: int, j2: int|
                            #[trigger] related_at(ps@, left@, right@, i2, j2) && scanned_before(i2, j2, i as int, j as int)
                                ==> d2 <= id_distance(ps@, left@[i2], right@[j2])
                        &&& forall|i2: int, j2: int|
                            #[trigger] related_at(ps@, left@, right@, i2, j2) && scanned_before(i2, j2, bi, bj) ==> d2
                                < id_distance(ps@, left@[i2], right@[j2])
                    },
                decreases m - j,
            {
                let b = right[j];
                let kb = match probe_index(ps, b) {
                    Some(k) => k,
                    None => {
                        proof {
                            assert(known_id(ps@, right@[j as int]));
                        }
                        return None;
                    },
                };
                if ps[kb].2 {
                    let d = distance(ps[ka].1, ps[kb].1);
                    proof {
                        assert(related_at(ps@, left@, right@, i as int, j as int));
                    }
                    let better = match best {
                        None => true,
                        Some((_, _, current)) => d < current,
                    };
                    if better {
                        best = Some((a, b, d));
                        proof {
                            bi = i as int;
                            bj = j as int;
                        }
                    }
                } else {
                    proof {
                        assert(!related_at(ps@, left@, right@, i as int, j as int));
                    }
                }
                j = j + 1;
            }
        } else {
            proof {
                assert forall|j2: int| !related_at(ps@, left@, right@, i as int, j2) by {}
            }
        }
        i = i + 1;
    }
    proof {
        lemma_nearest_ids(ps@, left@, right@, best, bi, bj);
    }
    best
}

/// What the scan found, stated over indices, stated over ids.
proof fn lemma_nearest_ids(
    ps: Seq<Probe>,
    l: Seq<ComponentId>,
    r: Seq<ComponentId>,
    best: Option<(ComponentId, ComponentId, u64)>,
    bi: int,
    bj: int,
)
    requires
        best is None ==> forall|i2: int, j2: int| #[trigger] related_at(ps, l, r, i2, j2) ==> i2 >= l.len(),
        best matches Some((a, b, d)) ==> {
            &&& related_at(ps, l, r, bi, bj)
            &&& a == l[bi] && b == r[bj] && d == id_distance(ps, a, b)
            &&& forall|i2: int, j2: int|
                #[trigger] related_at(ps, l, r, i2, j2) && i2 < l.len() ==> d <= id_distance(ps, l[i2], r[j2])
            &&& forall|i2: int, j2: int|
                #[trigger] related_at(ps, l, r, i2, j2) && scanned_before(i2, j2, bi, bj) ==> d < id_distance(
                    ps,
                    l[i2],
                    r[j2],
                )
        },
    ensures
        best is None <==> !exists|x: ComponentId, y: ComponentId| #[trigger] related_pair(ps, l, r, x, y),
        best matches Some((a, b, d)) ==> nearest_is(ps, l, r, a, b, d as int),
        best matches Some((a, b, d)) ==> exists|i: int, j: int|
            #[trigger] first_nearest_at(ps, l, r, i, j) && a == l[i] && b == r[j],
{
    match best {
        None => {
            assert forall|x: ComponentId, y: ComponentId| !#[trigger] related_pair(ps, l, r, x, y) by {
                if related_pair(ps, l, r, x, y) {
                    let i2 = choose|i2: int| 0 <= i2 < l.len() && l[i2] == x;
                    let j2 = choose|j2: int| 0 <= j2 < r.len() && r[j2] == y;
                    assert(related_at(ps, l, r, i2, j2));
                }
            }
        },
        Some((a, b, d)) => {
            assert(related_pair(ps, l, r, a, b));
            assert forall|x: ComponentId, y: ComponentId| #[trigger] related_pair(ps, l, r, x, y) implies d
                <= #[trigger] id_distance(ps, x, y) by {
                let i2 = choose|i2: int| 0 <= i2 < l.len() && l[i2] == x;
                let j2 = choose|j2: int| 0 <= j2 < r.len() && r[j2] == y;
                assert(related_at(ps, l, r, i2, j2));
            }
            assert(first_nearest_at(ps, l, r, bi, bj));
        },
    }
}


/// The probes of a component list.
pub open spec fn probes_of(cs: Seq<PhysicalComponent>) -> Seq<Probe> {
    cs.map_values(|c: PhysicalComponent| (c.id, c.pos, spec_is_redstone_related(c.block.kind)))
}

fn component_probes(components: &Vec<PhysicalComponent>) -> (r: Vec<Probe>)
    ensures
        r@ == probes_of(components@),
{
    let mut out: Vec<Probe> = Vec::new();
    let n = components.len();
    let mut i: usize = 0;
    while i < n
        invariant
            n == components@.len(),
            i <= n,
            out@ == probes_of(components@.take(i as int)),
        decreases n - i,
    {
        let c = &components[i];
        out.push((c.id, c.pos, c.block.kind.is_redstone_related()));
        proof {
            assert(probes_of(components@.take(i + 1)) =~= probes_of(components@.take(i as int)).push(
                (c.id, c.pos, spec_is_redstone_related(c.block.kind)),
            ));
        }
        i = i + 1;
    }
    proof {
        assert(components@.take(n as int) =~= components@);
    }
    out
}

/// The members of the groups of a list of traversal groups.
pub open spec fn fragment_members(fs: Seq<PhysicalFragment>) -> Seq<Vec<ComponentId>> {
    fs.map_values(|f: PhysicalFragment| f.components)
}

/// The members of each net.
pub open spec fn net_members(ns: Seq<PhysicalNet>) -> Seq<Vec<ComponentId>> {
    ns.map_values(|n: PhysicalNet| n.components)
}

/// `e` reports the nearest related pair of two groups within `max`.
pub open spec fn nearby_evidence(ps: Seq<Probe>, l: Seq<ComponentId>, r: Seq<ComponentId>, max: u32, e: GapEvidence) -> bool {
    e matches GapEvidence::Nearby { left, right, manhattan_distance } && nearest_is(
        ps,
        l,
        r,
        left,
        right,
        manhattan_distance as int,
    ) && manhattan_distance <= max && exists|i: int, j: int|
        #[trigger] first_nearest_at(ps, l, r, i, j) && left == l[i] && right == r[j]
}

/// `g` joins two fragments, in order, whose nearest related components lie
/// within `max`, and carries that pair as its only evidence.
pub open spec fn valid_candidate(ps: Seq<Probe>, fs: Seq<PhysicalFragment>, max: u32, g: GapCandidate) -> bool {
    exists|li: int, ri: int|
        #![trigger fs[li], fs[ri]]
        0 <= li < ri < fs.len() && g.left == fs[li].id && g.right == fs[ri].id && g.evidence@.len() == 1
            && nearby_evidence(ps, fs[li].components@, fs[ri].components@, max, g.evidence@[0])
}

/// Some candidate joins `a` and `b`.
pub open spec fn has_candidate(r: Seq<GapCandidate>, a: FragmentId, b: FragmentId) -> bool {
    exists|c: int| 0 <= c < r.len() && (#[trigger] r[c]).left == a && r[c].right == b
}

/// The candidate list `r` for fragments `fs` and the limit `max`: every
/// candidate is valid, and every near pair of fragments has one.
pub open spec fn candidates_for(ps: Seq<Probe>, fs: Seq<PhysicalFragment>, max: u32, r: Seq<GapCandidate>) -> bool {
    &&& forall|c: int| 0 <= c < r.len() ==> valid_candidate(ps, fs, max, #[trigger] r[c])
    &&& forall|li: int, ri: int|
        #![trigger fs[li], fs[ri]]
        0 <= li < ri < fs.len() && near(ps, fs[li].components@, fs[ri].components@, max as int) ==> has_candidate(
            r,
            fs[li].id,
            fs[ri].id,
        )
}

/// Row-by-row order on index pairs.
pub open spec fn pair_lt(a: (int, int), b: (int, int)) -> bool {
    a.0 < b.0 || (a.0 == b.0 && a.1 < b.1)
}

/// Candidate `g` joins the fragments at the indices of `p`, in order, and
/// reports their nearest related pair.
pub open spec fn candidate_from(ps: Seq<Probe>, fs: Seq<PhysicalFragment>, max: u32, g: GapCandidate, p: (int, int)) -> bool {
    &&& 0 <= p.0 < p.1 < fs.len()
    &&& g.left == fs[p.0].id
    &&& g.right == fs[p.1].id
    &&& g.evidence@.len() == 1
    &&& nearby_evidence(ps, fs[p.0].components@, fs[p.1].components@, max, g.evidence@[0])
}

/// `r` holds one candidate for each near pair of fragments, the pairs
/// `pairs` in row-by-row order.
pub open spec fn listed(ps: Seq<Probe>, fs: Seq<PhysicalFragment>, max: u32, r: Seq<GapCandidate>, pairs: Seq<(int, int)>) -> bool {
    &&& pairs.len() == r.len()
    &&& forall|c: int| 0 <= c < r.len() ==> candidate_from(ps, fs, max, #[trigger] r[c], pairs[c])
    &&& forall|c: int, d: int| 0 <= c < d < pairs.len() ==> pair_lt(#[trigger] pairs[c], #[trigger] pairs[d])
    &&& forall|li: int, ri: int|
        #![trigger fs[li], fs[ri]]
        0 <= li < ri < fs.len() && near(ps, fs[li].components@, fs[ri].components@, max as int) ==> exists|c: int|
            0 <= c < pairs.len() && #[trigger] pairs[c] == (li, ri)
}

/// `r` lists exactly the near pairs of fragments, in row-by-row order.
pub open spec fn candidates_in_order(ps: Seq<Probe>, fs: Seq<PhysicalFragment>, max: u32, r: Seq<GapCandidate>) -> bool {
    exists|pairs: Seq<(int, int)>| #[trigger] listed(ps, fs, max, r, pairs)
}

/// Every component a fragment names is known.
pub open spec fn fragments_known(ps: Seq<Probe>, fs: Seq<PhysicalFragment>) -> bool {
    forall|f: int| 0 <= f < fs.len() ==> all_known(ps, (#[trigger] fs[f]).components@)
}

proof fn lemma_has_candidate_push(r: Seq<GapCandidate>, x: GapCandidate, a: FragmentId, b: FragmentId)
    requires
        has_candidate(r, a, b),
    ensures
        has_candidate(r.push(x), a, b),
{
    let c = choose|c: int| 0 <= c < r.len() && (#[trigger] r[c]).left == a && r[c].right == b;
    assert(r.push(x)[c] == r[c]);
}

#[verifier::spinoff_prover]
pub(crate) fn candidates(ps: &Vec<Probe>, fragments: &Vec<PhysicalFragment>, max: u32) -> (r: Vec<GapCandidate>)
    requires
        fragments_known(ps@, fragments@),
    ensures
        candidates_for(ps@, fragments@, max, r@),
        candidates_in_order(ps@, fragments@, max, r@),
{
    let mut out: Vec<GapCandidate> = Vec::new();
    let ghost mut pairs: Seq<(int, int)> = Seq::empty();
    let f = fragments.len();
    let mut li: usize = 0;
    while li < f
        invariant
            f == fragments@.len(),
            li <= f,
            fragments_known(ps@, fragments@),
            pairs.len() == out@.len(),
            forall|c: int| 0 <= c < out@.len() ==> candidate_from(ps@, fragments@, max, #[trigger] out@[c], pairs[c]),
            forall|c: int, d: int| 0 <= c < d < pairs.len() ==> pair_lt(#[trigger] pairs[c], #[trigger] pairs[d]),
            forall|c: int| 0 <= c < pairs.len() ==> (#[trigger] pairs[c]).0 < li,
            forall|l2: int, r2: int|
                #![trigger fragments@[l2], fragments@[r2]]
                0 <= l2 < li && l2 < r2 < f && near(ps@, fragments@[l2].components@, fragments@[r2].components@, max as int)
                    ==> exists|c: int| 0 <= c < pairs.len() && #[trigger] pairs[c] == (l2, r2),
            forall|c: int| 0 <= c < out@.len() ==> valid_candidate(ps@, fragments@, max, #[trigger] out@[c]),
            forall|l2: int, r2: int|
                #![trigger fragments@[l2], fragments@[r2]]
                0 <= l2 < li && l2 < r2 < f && near(ps@, fragments@[l2].components@, fragments@[r2].components@, max as int)
                    ==> has_candidate(out@, fragments@[l2].id, fragments@[r2].id),
        decreases f - li,
    {
        let mut ri: usize = li + 1;
        while ri < f
            invariant
                f == fragments@.len(),
                li < f,
                li + 1 <= ri <= f,
                fragments_known(ps@, fragments@),
                pairs.len() == out@.len(),
                forall|c: int| 0 <= c < out@.len() ==> candidate_from(ps@, fragments@, max, #[trigger] out@[c], pairs[c]),
                forall|c: int, d: int| 0 <= c < d < pairs.len() ==> pair_lt(#[trigger] pairs[c], #[trigger] pairs[d]),
                forall|c: int| 0 <= c < pairs.len() ==> pair_lt(#[trigger] pairs[c], (li as int, ri as int)),
                forall|l2: int, r2: int|
                    #![trigger fragments@[l2], fragments@[r2]]
                    ((0 <= l2 < li && l2 < r2 < f) || (l2 == li && li < r2 < ri)) && near(ps@, fragments@[l2].components@, fragments@[r2].components@, max as int)
                        ==> exists|c: int| 0 <= c < pairs.len() && #[trigger] pairs[c] == (l2, r2),
                forall|c: int| 0 <= c < out@.len() ==> valid_candidate(ps@, fragments@, max, #[trigger] out@[c]),
                forall|l2: int, r2: int|
                    #![trigger fragments@[l2], fragments@[r2]]
                    ((0 <= l2 < li && l2 < r2 < f) || (l2 == li && li < r2 < ri)) && near(ps@, fragments@[l2].components@, fragments@[r2].components@, max as int)
                        ==> has_candidate(out@, fragments@[l2].id, fragments@[r2].id),
            decreases f - ri,
        {
            let left = &fragments[li];
            let right = &fragments[ri];
            proof {
                assert(all_known(ps@, fragments@[li as int].components@));
                assert(all_known(ps@, fragments@[ri as int].components@));
            }
            let ghost before = out@;
            match nearest_pair(ps, &left.components, &right.components) {
                Some((a, b, d)) => {
                    if d <= max as u64 {
                        let g = GapCandidate {
                            left: left.id,
                            right: right.id,
                            evidence: vec![GapEvidence::Nearby { left: a, right: b, manhattan_distance: d as u32 }],
                        };
                        proof {
                            assert(g.evidence@[0] == (GapEvidence::Nearby { left: a, right: b, manhattan_distance: d as u32 }));
                            assert(nearby_evidence(ps@, fragments@[li as int].components@, fragments@[ri as int].components@, max, g.evidence@[0]));
                            assert(valid_candidate(ps@, fragments@, max, g));
                        }
                        out.push(g);
                        proof {
                            let ghost old_pairs = pairs;
                            pairs = pairs.push((li as int, ri as int));
                            assert(candidate_from(ps@, fragments@, max, g, (li as int, ri as int)));
                            assert forall|c: int| 0 <= c < out@.len() implies candidate_from(ps@, fragments@, max, #[trigger] out@[c], pairs[c]) by {
                                if c < before.len() {
                                    assert(out@[c] == before[c]);
                                    assert(pairs[c] == old_pairs[c]);
                                }
                            }
                            assert forall|c: int, d: int| 0 <= c < d < pairs.len() implies pair_lt(#[trigger] pairs[c], #[trigger] pairs[d]) by {
                                if d < old_pairs.len() {
                                    assert(pairs[c] == old_pairs[c] && pairs[d] == old_pairs[d]);
                                } else {
                                    assert(pairs[c] == old_pairs[c]);
                                }
                            }
                            assert forall|c: int| 0 <= c < pairs.len() implies pair_lt(#[trigger] pairs[c], (li as int, ri + 1)) by {
                                if c < old_pairs.len() {
                                    assert(pairs[c] == old_pairs[c]);
                                }
                            }
                            assert forall|l2: int, r2: int|
                                #![trigger fragments@[l2], fragments@[r2]]
                                ((0 <= l2 < li && l2 < r2 < f) || (l2 == li && li < r2 < ri + 1)) && near(ps@, fragments@[l2].components@, fragments@[r2].components@, max as int)
                                    implies exists|c: int| 0 <= c < pairs.len() && #[trigger] pairs[c] == (l2, r2) by {
                                if l2 == li && r2 == ri {
                                    assert(pairs[old_pairs.len() as int] == (l2, r2));
                                } else {
                                    let c = choose|c: int| 0 <= c < old_pairs.len() && #[trigger] old_pairs[c] == (l2, r2);
                                    assert(pairs[c] == (l2, r2));
                                }
                            }
                            assert forall|c: int| 0 <= c < out@.len() implies valid_candidate(ps@, fragments@, max, #[trigger] out@[c]) by {
                                if c < before.len() {
                                    assert(out@[c] == before[c]);
                                }
                            }
                            assert forall|l2: int, r2: int|
                                #![trigger fragments@[l2], fragments@[r2]]
                                ((0 <= l2 < li && l2 < r2 < f) || (l2 == li && li < r2 < ri + 1)) && near(ps@, fragments@[l2].components@, fragments@[r2].components@, max as int)
                                    implies has_candidate(out@, fragments@[l2].id, fragments@[r2].id) by {
                                if l2 == li && r2 == ri {
                                    assert(out@[before.len() as int] == g);
                                } else {
                                    lemma_has_candidate_push(before, g, fragments@[l2].id, fragments@[r2].id);
                                }
                            }
                        }
                    } else {
                        proof {
                            assert(!near(ps@, fragments@[li as int].components@, fragments@[ri as int].components@, max as int)) by {
                                if near(ps@, fragments@[li as int].components@, fragments@[ri as int].components@, max as int) {
                                    let (x, y) = choose|x: ComponentId, y: ComponentId| related_pair(ps@, fragments@[li as int].components@, fragments@[ri as int].components@, x, y) && #[trigger] id_distance(ps@, x, y) <= max as int;
                                    assert(d <= id_distance(ps@, x, y));
                                }
                            }
                        }
                    }
                },
                None => {
                    proof {
                        assert(!near(ps@, fragments@[li as int].components@, fragments@[ri as int].components@, max as int)) by {
                            if near(ps@, fragments@[li as int].components@, fragments@[ri as int].components@, max as int) {
                                let (x, y) = choose|x: ComponentId, y: ComponentId| related_pair(ps@, fragments@[li as int].components@, fragments@[ri as int].components@, x, y) && #[trigger] id_distance(ps@, x, y) <= max as int;
                                assert(related_pair(ps@, fragments@[li as int].components@, fragments@[ri as int].components@, x, y));
                            }
                        }
                    }
                },
            }
            ri = ri + 1;
        }
        li = li + 1;
    }
    proof {
        assert(listed(ps@, fragments@, max, out@, pairs));
    }
    out
}

/// Two fragments with ids `a` and `b` are near each other.
pub open spec fn near_ids(ps: Seq<Probe>, fs: Seq<PhysicalFragment>, max: u32, a: FragmentId, b: FragmentId) -> bool {
    exists|li: int, ri: int|
        #![trigger fs[li], fs[ri]]
        0 <= li < ri < fs.len() && near(ps, fs[li].components@, fs[ri].components@, max as int) && ((fs[li].id == a
            && fs[ri].id == b) || (fs[li].id == b && fs[ri].id == a))
}

/// `p` steps from fragment to near fragment.
pub open spec fn near_walk(ps: Seq<Probe>, fs: Seq<PhysicalFragment>, max: u32, p: Seq<FragmentId>) -> bool {
    &&& p.len() > 0
    &&& forall|i: int| 0 <= i < p.len() - 1 ==> near_ids(ps, fs, max, #[trigger] p[i], p[i + 1])
}

/// A walk through near fragments leads from `seed` to `x`.
pub open spec fn reachable(ps: Seq<Probe>, fs: Seq<PhysicalFragment>, max: u32, seed: FragmentId, x: FragmentId) -> bool {
    exists|p: Seq<FragmentId>| #[trigger] near_walk(ps, fs, max, p) && p[0] == seed && p.last() == x
}

/// The closure of `seed` under the candidate pairs: it holds `seed`, a
/// fragment near one it holds, and nothing it cannot reach.
pub open spec fn closed_under(ps: Seq<Probe>, fs: Seq<PhysicalFragment>, max: u32, seed: FragmentId, r: Seq<FragmentId>) -> bool {
    &&& r.contains(seed)
    &&& fragment_ids_sorted(r)
    &&& forall|li: int, ri: int|
        #![trigger fs[li], fs[ri]]
        0 <= li < ri < fs.len() && near(ps, fs[li].components@, fs[ri].components@, max as int) ==> (r.contains(fs[li].id)
            <==> r.contains(fs[ri].id))
    &&& forall|x: FragmentId| #[trigger] r.contains(x) ==> reachable(ps, fs, max, seed, x)
}

proof fn lemma_reach_seed(ps: Seq<Probe>, fs: Seq<PhysicalFragment>, max: u32, seed: FragmentId)
    ensures
        reachable(ps, fs, max, seed, seed),
{
    let p = seq![seed];
    assert(near_walk(ps, fs, max, p));
}

proof fn lemma_reach_step(ps: Seq<Probe>, fs: Seq<PhysicalFragment>, max: u32, seed: FragmentId, a: FragmentId, b: FragmentId)
    requires
        reachable(ps, fs, max, seed, a),
        near_ids(ps, fs, max, a, b),
    ensures
        reachable(ps, fs, max, seed, b),
{
    let p = choose|p: Seq<FragmentId>| #[trigger] near_walk(ps, fs, max, p) && p[0] == seed && p.last() == a;
    let q = p.push(b);
    assert forall|i: int| 0 <= i < q.len() - 1 implies near_ids(ps, fs, max, #[trigger] q[i], q[i + 1]) by {
        if i < p.len() - 1 {
            assert(q[i] == p[i] && q[i + 1] == p[i + 1]);
        } else {
            assert(q[i] == a && q[i + 1] == b);
        }
    }
    assert(near_walk(ps, fs, max, q));
    assert(q[0] == seed && q.last() == b);
}

/// A valid candidate joins two near fragments.
proof fn lemma_candidate_near(ps: Seq<Probe>, fs: Seq<PhysicalFragment>, max: u32, g: GapCandidate)
    requires
        valid_candidate(ps, fs, max, g),
    ensures
        near_ids(ps, fs, max, g.left, g.right),
        near_ids(ps, fs, max, g.right, g.left),
{
    let (li, ri) = choose|li: int, ri: int|
        #![trigger fs[li], fs[ri]]
        0 <= li < ri < fs.len() && g.left == fs[li].id && g.right == fs[ri].id && g.evidence@.len() == 1
            && nearby_evidence(ps, fs[li].components@, fs[ri].components@, max, g.evidence@[0]);
    let e = g.evidence@[0];
    if let GapEvidence::Nearby { left, right, manhattan_distance } = e {
        assert(related_pair(ps, fs[li].components@, fs[ri].components@, left, right));
        assert(id_distance(ps, left, right) <= max);
        assert(near(ps, fs[li].components@, fs[ri].components@, max as int));
    }
}

fn insert_fragment_id(out: &mut Vec<FragmentId>, id: FragmentId)
    requires
        fragment_ids_sorted(old(out)@),
    ensures
        fragment_ids_sorted(final(out)@),
        forall|x: FragmentId| #[trigger] final(out)@.contains(x) <==> (old(out)@.contains(x) || x == id),
        !old(out)@.contains(id) ==> final(out)@.len() == old(out)@.len() + 1,
{
    let n = out.len();
    let mut k: usize = 0;
    while k < n && out[k].0 < id.0
        invariant
            n == out@.len(),
            k <= n,
            fragment_ids_sorted(out@),
            forall|j: int| 0 <= j < k ==> (#[trigger] out@[j]).0 < id.0,
        decreases n - k,
    {
        k = k + 1;
    }
    if k < n && out[k] == id {
        return;
    }
    proof {
        if k < n {
            assert(!(out@[k as int].0 < id.0));
            assert(out@[k as int] != id);
        }
    }
    let ghost before = out@;
    out.insert(k, id);
    proof {
        assert forall|i: int, j: int| 0 <= i < j < out@.len() implies (#[trigger] out@[i]).0 < (#[trigger] out@[j]).0 by {
            if j < k {
            } else if i < k && j == k {
            } else if i < k {
                assert(out@[j] == before[j - 1]);
            } else if i == k {
                assert(out@[j] == before[j - 1]);
                if j - 1 > k {
                    assert(before[k as int].0 < before[j - 1].0);
                }
            } else {
                assert(out@[i] == before[i - 1]);
                assert(out@[j] == before[j - 1]);
            }
        }
        assert forall|x: FragmentId| out@.contains(x) <==> (before.contains(x) || x == id) by {
            if out@.contains(x) {
                let i = choose|i: int| 0 <= i < out@.len() && #[trigger] out@[i] == x;
                if i < k {
                    assert(before[i] == x);
                } else if i > k {
                    assert(before[i - 1] == x);
                }
            }
            if before.contains(x) {
                let i = choose|i: int| 0 <= i < before.len() && #[trigger] before[i] == x;
                if i < k {
                    assert(out@[i] == x);
                } else {
                    assert(out@[i + 1] == x);
                }
            }
            if x == id {
                assert(out@[k as int] == id);
            }
        }
    }
    assert(forall|x: FragmentId| #[trigger] out@.contains(x) <==> (old(out)@.contains(x) || x == id));
}

fn contains_fragment(v: &Vec<FragmentId>, id: FragmentId) -> (r: bool)
    ensures
        r == v@.contains(id),
{
    let mut i: usize = 0;
    while i < v.len()
        invariant
            i <= v@.len(),
            forall|j: int| 0 <= j < i ==> v@[j] != id,
        decreases v@.len() - i,
    {
        if v[i] == id {
            assert(v@[i as int] == id);
            return true;
        }
        i = i + 1;
    }
    false
}

/// The fragments reachable from `seed` through the candidate pairs.
#[verifier::spinoff_prover]
pub(crate) fn discover(ps: &Vec<Probe>, fragments: &Vec<PhysicalFragment>, seed: FragmentId, max: u32) -> (r: Vec<FragmentId>)
    requires
        fragments_known(ps@, fragments@),
    ensures
        closed_under(ps@, fragments@, max, seed, r@),
{
    let found = candidates(ps, fragments, max);
    let mut discovered: Vec<FragmentId> = Vec::new();
    discovered.push(seed);
    assert(discovered@[0] == seed);
    proof {
        lemma_reach_seed(ps@, fragments@, max, seed);
        assert forall|x: FragmentId| #[trigger] discovered@.contains(x) implies reachable(ps@, fragments@, max, seed, x) by {
            assert(discovered@ =~= seq![seed]);
        }
    }
    let mut changed = true;
    while changed
        invariant
            fragment_ids_sorted(discovered@),
            discovered@.contains(seed),
            forall|x: FragmentId| #[trigger] discovered@.contains(x) ==> reachable(ps@, fragments@, max, seed, x),
            candidates_for(ps@, fragments@, max, found@),
            forall|x: FragmentId| #[trigger] discovered@.contains(x) ==> x == seed || exists|c: int| 0 <= c < found@.len() && (found@[c].left == x || found@[c].right == x),
            !changed ==> forall|c: int| 0 <= c < found@.len() ==> (discovered@.contains((#[trigger] found@[c]).left) <==> discovered@.contains(found@[c].right)),
            discovered@.len() <= 2 * found@.len() + 1,
        decreases (if changed { 1int } else { 0int }) + 2 * found@.len() + 2 - discovered@.len(),
    {
        changed = false;
        let m = found.len();
        let mut c: usize = 0;
        let ghost start_len = discovered@.len();
        while c < m
            invariant
                m == found@.len(),
                c <= m,
                fragment_ids_sorted(discovered@),
                discovered@.contains(seed),
                candidates_for(ps@, fragments@, max, found@),
                forall|x: FragmentId| #[trigger] discovered@.contains(x) ==> reachable(ps@, fragments@, max, seed, x),
                discovered@.len() >= start_len,
                changed ==> discovered@.len() > start_len,
                forall|x: FragmentId| #[trigger] discovered@.contains(x) ==> x == seed || exists|c2: int| 0 <= c2 < found@.len() && (found@[c2].left == x || found@[c2].right == x),
                !changed ==> forall|c2: int| 0 <= c2 < c ==> (discovered@.contains((#[trigger] found@[c2]).left) <==> discovered@.contains(found@[c2].right)),
            decreases m - c,
        {
            let l = found[c].left;
            let r = found[c].right;
            let has_l = contains_fragment(&discovered, l);
            let has_r = contains_fragment(&discovered, r);
            proof {
                assert(valid_candidate(ps@, fragments@, max, found@[c as int]));
                lemma_candidate_near(ps@, fragments@, max, found@[c as int]);
            }
            if has_l && !has_r {
                proof {
                    lemma_reach_step(ps@, fragments@, max, seed, l, r);
                }
                insert_fragment_id(&mut discovered, r);
                changed = true;
            } else if has_r && !has_l {
                proof {
                    lemma_reach_step(ps@, fragments@, max, seed, r, l);
                }
                insert_fragment_id(&mut discovered, l);
                changed = true;
            }
            c = c + 1;
        }
        proof {
            lemma_ids_bounded(discovered@, found@, seed);
        }
    }
    proof {
        assert forall|li: int, ri: int|
            #![trigger fragments@[li], fragments@[ri]]
            0 <= li < ri < fragments@.len() && near(ps@, fragments@[li].components@, fragments@[ri].components@, max as int) implies (discovered@.contains(fragments@[li].id)
                <==> discovered@.contains(fragments@[ri].id)) by {
            assert(has_candidate(found@, fragments@[li].id, fragments@[ri].id));
            let c = choose|c: int| 0 <= c < found@.len() && (#[trigger] found@[c]).left == fragments@[li].id && found@[c].right == fragments@[ri].id;
            assert(discovered@.contains(found@[c].left) <==> discovered@.contains(found@[c].right));
        }
    }
    discovered
}

/// A sorted id list whose ids are `seed` or candidate endpoints has at most
/// one more element than twice the candidates.
proof fn lemma_ids_bounded(d: Seq<FragmentId>, found: Seq<GapCandidate>, seed: FragmentId)
    requires
        fragment_ids_sorted(d),
        forall|x: FragmentId| #[trigger] d.contains(x) ==> x == seed || exists|c: int| 0 <= c < found.len() && (found[c].left == x || found[c].right == x),
    ensures
        d.len() <= 2 * found.len() + 1,
{
    let ends = Seq::new(found.len(), |c: int| found[c].left) + Seq::new(found.len(), |c: int| found[c].right) + seq![seed];
    assert forall|x: FragmentId| d.to_set().contains(x) implies ends.to_set().contains(x) by {
        assert(d.contains(x));
        if x == seed {
            assert(ends[2 * found.len() as int] == seed);
        } else {
            let c = choose|c: int| 0 <= c < found.len() && (found[c].left == x || found[c].right == x);
            if found[c].left == x {
                assert(ends[c] == x);
            } else {
                assert(ends[found.len() + c] == x);
            }
        }
    }
    assert(d.no_duplicates()) by {
        assert forall|i: int, j: int| 0 <= i < d.len() && 0 <= j < d.len() && i != j implies d[i] != d[j] by {
            if i < j {
                assert(d[i].0 < d[j].0);
            } else {
                assert(d[j].0 < d[i].0);
            }
        }
    }
    d.unique_seq_to_set();
    ends.lemma_cardinality_of_set();
    vstd::set_lib::lemma_len_subset(d.to_set(), ends.to_set());
}

impl VerifiedTopology {
    /// Undirected groups used to bound physical discovery. These groups do not
    /// imply common signal direction, driveability, or logical function.
    pub fn physical_traversal_groups(&self) -> (r: &[PhysicalTraversalGroup])
        ensures
            r@ == self.fragments@,
    {
        self.fragments.as_slice()
    }

    /// Every component a fragment names is one of the components.
    pub open spec fn ids_known(&self) -> bool {
        fragments_known(probes_of(self.components@), self.fragments@)
    }

    /// One candidate for each pair of fragments whose nearest redstone
    /// components lie within `max_manhattan_distance`, with that pair as
    /// evidence. Structural supports are never candidates.
    pub fn gap_candidates(&self, max_manhattan_distance: u32) -> (r: Vec<GapCandidate>)
        requires
            self.ids_known(),
        ensures
            candidates_for(probes_of(self.components@), self.fragments@, max_manhattan_distance, r@),
            candidates_in_order(probes_of(self.components@), self.fragments@, max_manhattan_distance, r@),
    {
        let ps = component_probes(&self.components);
        candidates(&ps, &self.fragments, max_manhattan_distance)
    }

    /// The fragments reachable from `seed` through nearby fragment pairs,
    /// sorted; no fragment is merged.
    pub fn discover_nearby_fragments(&self, seed: FragmentId, max_manhattan_distance: u32) -> (r: Vec<FragmentId>)
        requires
            self.ids_known(),
        ensures
            closed_under(probes_of(self.components@), self.fragments@, max_manhattan_distance, seed, r@),
    {
        let ps = component_probes(&self.components);
        discover(&ps, &self.fragments, seed, max_manhattan_distance)
    }
}


proof fn lemma_last_index(ps: Seq<Probe>, id: ComponentId, i: int)
    requires
        0 <= i < ps.len(),
        ps[i].0 == id,
    ensures
        exists|k: int| resolves_probe(ps, id, k),
    decreases ps.len() - i,
{
    if exists|j: int| i < j < ps.len() && (#[trigger] ps[j]).0 == id {
        let j = choose|j: int| i < j < ps.len() && (#[trigger] ps[j]).0 == id;
        lemma_last_index(ps, id, j);
    } else {
        assert(resolves_probe(ps, id, i));
    }
}

proof fn lemma_groups_known(cs: Seq<PhysicalComponent>, conns: Seq<PhysicalConnection>, nets: bool, groups: Seq<Vec<ComponentId>>)
    requires
        groups_of(cs, conns, nets, groups),
    ensures
        forall|g: int| 0 <= g < groups.len() ==> all_known(probes_of(cs), (#[trigger] groups[g])@),
{
    let ps = probes_of(cs);
    assert forall|g: int| 0 <= g < groups.len() implies all_known(ps, (#[trigger] groups[g])@) by {
        assert forall|i: int| 0 <= i < groups[g]@.len() implies known_id(ps, #[trigger] groups[g]@[i]) by {
            let x = groups[g]@[i];
            assert(groups[g]@.contains(x));
            assert(has_id(cs, x));
            let j = choose|j: int| 0 <= j < cs.len() && (#[trigger] cs[j]).id == x;
            assert(ps.len() == cs.len());
            assert(ps[j] == (cs[j].id, cs[j].pos, spec_is_redstone_related(cs[j].block.kind)));
            assert(ps[j].0 == x);
            lemma_last_index(ps, x, j);
            assert(exists|k: int| resolves_probe(ps, x, k));
        }
    }
}

/// Two sorted id lists share an id.
pub open spec fn overlaps(a: Seq<ComponentId>, b: Seq<ComponentId>) -> bool {
    exists|x: ComponentId| a.contains(x) && b.contains(x)
}

fn share_id(a: &Vec<ComponentId>, b: &Vec<ComponentId>) -> (r: bool)
    ensures
        r == overlaps(a@, b@),
{
    let mut i: usize = 0;
    while i < a.len()
        invariant
            i <= a@.len(),
            forall|x: ComponentId| a@.take(i as int).contains(x) ==> !b@.contains(x),
        decreases a@.len() - i,
    {
        let mut j: usize = 0;
        while j < b.len()
            invariant
                i < a@.len(),
                j <= b@.len(),
                forall|q: int| 0 <= q < j ==> b@[q] != a@[i as int],
            decreases b@.len() - j,
        {
            if a[i] == b[j] {
                assert(a@.contains(a@[i as int]));
                assert(b@.contains(b@[j as int]));
                return true;
            }
            j = j + 1;
        }
        proof {
            assert forall|x: ComponentId| a@.take(i + 1).contains(x) implies !b@.contains(x) by {
                let q = choose|q: int| 0 <= q < i + 1 && #[trigger] a@.take(i + 1)[q] == x;
                if q < i {
                    assert(a@.take(i as int)[q] == x);
                } else {
                    if b@.contains(x) {
                        let w = choose|w: int| 0 <= w < b@.len() && b@[w] == x;
                        assert(b@[w] != a@[i as int]);
                    }
                }
            }
        }
        i = i + 1;
    }
    proof {
        assert(a@.take(a@.len() as int) =~= a@);
    }
    false
}

pub open spec fn net_ids_sorted(s: Seq<NetId>) -> bool {
    forall|i: int, j: int| 0 <= i < j < s.len() ==> (#[trigger] s[i]).0 < (#[trigger] s[j]).0
}

/// The nets, in order, that share a component with `members`.
fn overlapping_nets(nets: &Vec<PhysicalNet>, members: &Vec<ComponentId>) -> (r: Vec<NetId>)
    requires
        forall|k: int| 0 <= k < nets@.len() ==> (#[trigger] nets@[k]).id == NetId(k as usize),
    ensures
        net_ids_sorted(r@),
        forall|x: NetId| #[trigger] r@.contains(x) <==> exists|k: int|
            0 <= k < nets@.len() && (#[trigger] nets@[k]).id == x && overlaps(nets@[k].components@, members@),
{
    let mut out: Vec<NetId> = Vec::new();
    let n = nets.len();
    let mut k: usize = 0;
    while k < n
        invariant
            n == nets@.len(),
            k <= n,
            forall|q: int| 0 <= q < nets@.len() ==> (#[trigger] nets@[q]).id == NetId(q as usize),
            net_ids_sorted(out@),
            forall|q: int| 0 <= q < out@.len() ==> (#[trigger] out@[q]).0 < k,
            forall|x: NetId| #[trigger] out@.contains(x) <==> exists|q: int|
                0 <= q < k && (#[trigger] nets@[q]).id == x && overlaps(nets@[q].components@, members@),
        decreases n - k,
    {
        let ghost before = out@;
        if share_id(&nets[k].components, members) {
            out.push(nets[k].id);
            proof {
                assert forall|x: NetId| #[trigger] out@.contains(x) <==> exists|q: int|
                    0 <= q < k + 1 && (#[trigger] nets@[q]).id == x && overlaps(nets@[q].components@, members@) by {
                    if out@.contains(x) {
                        let w = choose|w: int| 0 <= w < out@.len() && out@[w] == x;
                        if w < before.len() {
                            assert(before[w] == x);
                            assert(before.contains(x));
                        } else {
                            assert(nets@[k as int].id == x);
                        }
                    }
                    if exists|q: int| 0 <= q < k + 1 && (#[trigger] nets@[q]).id == x && overlaps(nets@[q].components@, members@) {
                        let q = choose|q: int| 0 <= q < k + 1 && (#[trigger] nets@[q]).id == x && overlaps(nets@[q].components@, members@);
                        if q < k {
                            assert(before.contains(x));
                            let w = choose|w: int| 0 <= w < before.len() && before[w] == x;
                            assert(out@[w] == x);
                        } else {
                            assert(out@[before.len() as int] == x);
                        }
                    }
                }
            }
        } else {
            proof {
                assert forall|x: NetId| #[trigger] out@.contains(x) <==> exists|q: int|
                    0 <= q < k + 1 && (#[trigger] nets@[q]).id == x && overlaps(nets@[q].components@, members@) by {
                    if exists|q: int| 0 <= q < k + 1 && (#[trigger] nets@[q]).id == x && overlaps(nets@[q].components@, members@) {
                        let q = choose|q: int| 0 <= q < k + 1 && (#[trigger] nets@[q]).id == x && overlaps(nets@[q].components@, members@);
                        assert(q < k);
                    }
                }
            }
        }
        k = k + 1;
    }
    out
}

proof fn lemma_groups_of_views(
    cs: Seq<PhysicalComponent>,
    conns: Seq<PhysicalConnection>,
    nets: bool,
    a: Seq<Vec<ComponentId>>,
    b: Seq<Vec<ComponentId>>,
)
    requires
        groups_of(cs, conns, nets, a),
        a.len() == b.len(),
        forall|g: int| 0 <= g < a.len() ==> (#[trigger] a[g])@ == b[g]@,
    ensures
        groups_of(cs, conns, nets, b),
{
    assert forall|g: int| 0 <= g < b.len() implies ids_sorted((#[trigger] b[g])@) by {
        assert(a[g]@ == b[g]@);
    }
    assert forall|g: int| 0 <= g < b.len() implies (#[trigger] b[g])@.len() > 0 by {
        assert(a[g]@ == b[g]@);
    }
    assert forall|g: int, x: ComponentId| 0 <= g < b.len() && #[trigger] b[g]@.contains(x) implies has_id(cs, x) by {
        assert(a[g]@ == b[g]@);
        assert(a[g]@.contains(x));
    }
    assert forall|i: int| 0 <= i < cs.len() implies grouped(b, (#[trigger] cs[i]).id) by {
        assert(grouped(a, cs[i].id));
        let g = choose|g: int| 0 <= g < a.len() && (#[trigger] a[g])@.contains(cs[i].id);
        assert(a[g]@ == b[g]@);
    }
    assert forall|k: int, s: int, t: int|
        #![trigger resolves(cs, conns[k].source, s), resolves(cs, conns[k].sink, t)]
        0 <= k < conns.len() && joins(nets, conns[k].kind) && resolves(cs, conns[k].source, s)
            && resolves(cs, conns[k].sink, t) implies together(b, cs[s].id, cs[t].id) by {
        assert(together(a, cs[s].id, cs[t].id));
        let g = choose|g: int| 0 <= g < a.len() && (#[trigger] a[g])@.contains(cs[s].id) && a[g]@.contains(cs[t].id);
        assert(a[g]@ == b[g]@);
    }
    assert forall|g: int, x: ComponentId, y: ComponentId|
        #![trigger b[g]@.contains(x), b[g]@.contains(y)]
        0 <= g < b.len() && b[g]@.contains(x) && b[g]@.contains(y) implies exists|i: int, j: int|
            0 <= i < cs.len() && 0 <= j < cs.len() && (#[trigger] cs[i]).id == x && (#[trigger] cs[j]).id == y && linked(
                cs,
                conns,
                nets,
                i,
                j,
            ) by {
        assert(a[g]@ == b[g]@);
        assert(a[g]@.contains(x) && a[g]@.contains(y));
    }
    assert forall|g1: int, g2: int, x: ComponentId|
        #![trigger b[g1]@.contains(x), b[g2]@.contains(x)]
        0 <= g1 < b.len() && 0 <= g2 < b.len() && g1 != g2 && b[g1]@.contains(x) && b[g2]@.contains(x) implies shared_id(
            cs,
            x,
        ) by {
        assert(a[g1]@ == b[g1]@);
        assert(a[g2]@ == b[g2]@);
        assert(a[g1]@.contains(x) && a[g2]@.contains(x));
    }
}

impl VerifiedTopology {
    /// Builds a topology: components sorted by position and id, the distinct
    /// connections in order, nets grouped by dust and power connections, and
    /// traversal groups by every connection but structural support, each
    /// numbered in order.
    #[verifier::spinoff_prover]
    pub fn from_parts(components: Vec<PhysicalComponent>, connections: Vec<PhysicalConnection>) -> (r: VerifiedTopology)
        ensures
            components_sorted(r.components@),
            r.components@.to_multiset() == components@.to_multiset(),
            connections_sorted(r.connections@),
            forall|x: PhysicalConnection| r.connections@.contains(x) <==> connections@.contains(x),
            forall|k: int| 0 <= k < r.nets@.len() ==> (#[trigger] r.nets@[k]).id == NetId(k as usize),
            groups_of(r.components@, r.connections@, true, net_members(r.nets@)),
            forall|k: int| 0 <= k < r.fragments@.len() ==> (#[trigger] r.fragments@[k]).id == FragmentId(k as usize),
            groups_of(r.components@, r.connections@, false, fragment_members(r.fragments@)),
            forall|k: int| 0 <= k < r.fragments@.len() ==> net_ids_sorted((#[trigger] r.fragments@[k]).nets@),
            forall|k: int, x: NetId|
                0 <= k < r.fragments@.len() ==> (#[trigger] r.fragments@[k].nets@.contains(x) <==> exists|j: int|
                    0 <= j < r.nets@.len() && (#[trigger] r.nets@[j]).id == x && overlaps(
                        r.nets@[j].components@,
                        r.fragments@[k].components@,
                    )),
            r.ids_known(),
    {
        let components = sort_components(components);
        let connections = sorted_connections(&connections);
        let net_groups = connection_groups(&components, &connections, true);
        let mut nets: Vec<PhysicalNet> = Vec::new();
        let mut i: usize = 0;
        while i < net_groups.len()
            invariant
                i <= net_groups@.len(),
                nets@.len() == i,
                forall|k: int| 0 <= k < i ==> (#[trigger] nets@[k]).id == NetId(k as usize),
                forall|k: int| 0 <= k < i ==> (#[trigger] nets@[k]).components@ == net_groups@[k]@,
            decreases net_groups@.len() - i,
        {
            let members = net_groups[i].clone();
            assert(members@ =~= net_groups@[i as int]@);
            nets.push(PhysicalNet { id: NetId(i), components: members });
            i = i + 1;
        }
        let fragment_groups = connection_groups(&components, &connections, false);
        let mut fragments: Vec<PhysicalFragment> = Vec::new();
        let mut j: usize = 0;
        while j < fragment_groups.len()
            invariant
                j <= fragment_groups@.len(),
                fragments@.len() == j,
                forall|k: int| 0 <= k < nets@.len() ==> (#[trigger] nets@[k]).id == NetId(k as usize),
                forall|k: int| 0 <= k < j ==> (#[trigger] fragments@[k]).id == FragmentId(k as usize),
                forall|k: int| 0 <= k < j ==> (#[trigger] fragments@[k]).components@ == fragment_groups@[k]@,
                forall|k: int| 0 <= k < j ==> net_ids_sorted((#[trigger] fragments@[k]).nets@),
                forall|k: int, x: NetId|
                    0 <= k < j ==> (#[trigger] fragments@[k].nets@.contains(x) <==> exists|q: int|
                        0 <= q < nets@.len() && (#[trigger] nets@[q]).id == x && overlaps(nets@[q].components@, fragments@[k].components@)),
            decreases fragment_groups@.len() - j,
        {
            let members = fragment_groups[j].clone();
            assert(members@ =~= fragment_groups@[j as int]@);
            let net_ids = overlapping_nets(&nets, &members);
            fragments.push(PhysicalFragment { id: FragmentId(j), nets: net_ids, components: members });
            j = j + 1;
        }
        let r = VerifiedTopology { components, connections, nets, fragments };
        proof {
            lemma_groups_of_views(r.components@, r.connections@, true, net_groups@, net_members(r.nets@));
            lemma_groups_of_views(r.components@, r.connections@, false, fragment_groups@, fragment_members(r.fragments@));
            lemma_groups_known(r.components@, r.connections@, false, fragment_groups@);
            assert forall|f: int| 0 <= f < r.fragments@.len() implies all_known(probes_of(r.components@), (#[trigger] r.fragments@[f]).components@) by {
                assert(r.fragments@[f].components@ == fragment_groups@[f]@);
            }
        }
        r
    }
}

} // verus!
