//! Reports produced while a replacement macro is realized in context: the
//! structural checks, the steady-state comparison and the transition
//! traces of the original and the candidate.

use vstd::prelude::*;

use crate::physical::patch::PhysicalPatch;
use crate::redstone::{insert_sorted, sorted_pos};
use crate::world::{
    kind_of, needs_support, offset_in_range, same_block, spec_offset, spec_redstone_traits, spec_support_pos,
    support_in_range, Block, BlockKind, Pos, World,
};

verus! {

#[derive(Clone, Copy, Debug, PartialEq, Eq, Structural)]
pub enum MacroBoundaryDirection {
    Input,
    Output,
}

#[derive(Clone, Debug, PartialEq, Eq)]
pub struct MacroBoundaryPort {
    pub observed_index: usize,
    pub name: String,
    pub position: Pos,
    pub direction: MacroBoundaryDirection,
}

#[derive(Clone, Debug, PartialEq, Eq)]
pub struct MacroPortRoute {
    pub boundary: MacroBoundaryPort,
    pub candidate_port: String,
    pub candidate_position: Pos,
    /// Inclusive, axis-aligned route skeleton. It is deliberately not a block
    /// patch until support, strength and neighbouring-net checks have passed.
    pub path: Vec<Pos>,
}

#[derive(Clone, Copy, Debug, PartialEq, Eq, Structural)]
pub enum ContextualVerificationState {
    Pending,
    Passed,
    Failed,
}

#[derive(Clone, Copy, Debug, PartialEq, Eq, Structural)]
pub struct MacroRealizationVerification {
    pub structural: ContextualVerificationState,
    pub steady_state: ContextualVerificationState,
    pub transitions: ContextualVerificationState,
}

#[derive(Clone, Debug, PartialEq, Eq)]
pub struct MacroStructuralReport {
    pub candidate_collisions: Vec<Pos>,
    pub route_collisions: Vec<Pos>,
    pub route_cross_net_contacts: Vec<(usize, usize, Pos, Pos)>,
    pub candidate_support_issues: Vec<Pos>,
    /// Supports that a later materializer may add if their positions are free.
    pub required_route_supports: Vec<Pos>,
    pub blocked_route_supports: Vec<Pos>,
}

impl Default for MacroStructuralReport {
    fn default() -> (r: MacroStructuralReport)
        ensures
            r.candidate_collisions@.len() == 0,
            r.route_collisions@.len() == 0,
            r.route_cross_net_contacts@.len() == 0,
            r.candidate_support_issues@.len() == 0,
            r.required_route_supports@.len() == 0,
            r.blocked_route_supports@.len() == 0,
    {
        MacroStructuralReport {
            candidate_collisions: Vec::new(),
            route_collisions: Vec::new(),
            route_cross_net_contacts: Vec::new(),
            candidate_support_issues: Vec::new(),
            required_route_supports: Vec::new(),
            blocked_route_supports: Vec::new(),
        }
    }
}

impl MacroStructuralReport {
    /// No collision, cross-net contact, support issue or blocked support;
    /// supports that still have to be added do not invalidate a report.
    pub open spec fn spec_valid(&self) -> bool {
        &&& self.candidate_collisions@.len() == 0
        &&& self.route_collisions@.len() == 0
        &&& self.route_cross_net_contacts@.len() == 0
        &&& self.candidate_support_issues@.len() == 0
        &&& self.blocked_route_supports@.len() == 0
    }

    pub fn valid(&self) -> (r: bool)
        ensures
            r == self.spec_valid(),
    {
        self.candidate_collisions.len() == 0 && self.route_collisions.len() == 0
            && self.route_cross_net_contacts.len() == 0 && self.candidate_support_issues.len() == 0
            && self.blocked_route_supports.len() == 0
    }
}

#[derive(Debug, PartialEq, Eq)]
pub struct MaterializedMacroReplacement {
    pub world: World,
    pub patch: PhysicalPatch,
    pub added_supports: Vec<Pos>,
    pub inserted_repeaters: Vec<Pos>,
}

#[derive(Clone, Debug, PartialEq, Eq)]
pub enum MacroRealizationError {
    UnsupportedLayoutReference(String),
    MissingObservedPort { direction: MacroBoundaryDirection, index: usize },
    MissingCandidatePort(String),
    NoPlacement,
    StructurallyInvalid(Box<MacroStructuralReport>),
    NoRepeaterSite { route: usize, after_steps: usize },
}

/// The comparison of an expected truth table with an observed one.
#[derive(Clone, Copy, Debug, PartialEq, Eq, Structural)]
pub struct TruthTableComparison {
    pub comparable: bool,
    pub expected_inputs: usize,
    pub actual_inputs: usize,
    pub expected_outputs: usize,
    pub actual_outputs: usize,
    pub differing_rows: usize,
    pub differing_bits: usize,
    pub terminal_count_delta: isize,
    pub fitness_penalty: usize,
}

/// The steady-state comparison of the original and the candidate macro.
#[derive(Clone, Debug, PartialEq, Eq)]
pub struct MacroSteadyStateReport {
    pub state: ContextualVerificationState,
    pub comparison: Option<TruthTableComparison>,
    /// For each candidate input, the observed input it is bound to.
    pub input_mapping: Vec<usize>,
    /// For each candidate output, the observed output it is bound to.
    pub output_mapping: Vec<usize>,
    /// The input assignments on which the two truth tables differ.
    pub differing_assignments: Vec<Vec<bool>>,
    pub reason: Option<String>,
}

/// One change of the sampled outputs: the tick it is first seen at, and
/// the values before and after it.
#[derive(Clone, Debug, PartialEq, Eq)]
pub struct MacroTransitionEdge {
    pub tick: usize,
    pub from: Vec<bool>,
    pub to: Vec<bool>,
}

/// The outputs of the original and the candidate, sampled tick by tick
/// after the inputs switch from `from` to `to`.
#[derive(Clone, Debug, PartialEq, Eq)]
pub struct MacroTransitionCase {
    pub from: Vec<bool>,
    pub to: Vec<bool>,
    pub original_outputs: Vec<Vec<bool>>,
    pub candidate_outputs: Vec<Vec<bool>>,
    pub equivalent: bool,
    pub first_difference_tick: Option<usize>,
}

/// The transition cases checked for a candidate.
#[derive(Clone, Debug, PartialEq, Eq)]
pub struct MacroTransitionReport {
    pub state: ContextualVerificationState,
    pub cases: Vec<MacroTransitionCase>,
    pub differing_cases: usize,
    pub reason: Option<String>,
}

/// A sampled trace as plain values.
pub open spec fn trace_view(t: Seq<Vec<bool>>) -> Seq<Seq<bool>> {
    t.map_values(|v: Vec<bool>| v@)
}

/// An edge as plain values.
pub open spec fn edge_view(e: MacroTransitionEdge) -> (int, Seq<bool>, Seq<bool>) {
    (e.tick as int, e.from@, e.to@)
}

/// The edges of a trace: each tick whose sample differs from the one
/// before, with both samples.
pub open spec fn spec_edges(t: Seq<Seq<bool>>) -> Seq<(int, Seq<bool>, Seq<bool>)>
    decreases t.len(),
{
    if t.len() < 2 {
        Seq::empty()
    } else {
        let n = t.len() - 1;
        let rest = spec_edges(t.drop_last());
        if t[n] != t[n - 1] {
            rest.push((n, t[n - 1], t[n]))
        } else {
            rest
        }
    }
}

/// Whether two samples hold the same values.
pub fn same_bits(a: &Vec<bool>, b: &Vec<bool>) -> (r: bool)
    ensures
        r == (a@ == b@),
{
    if a.len() != b.len() {
        return false;
    }
    let n = a.len();
    let mut i: usize = 0;
    while i < n
        invariant
            n == a@.len(),
            n == b@.len(),
            i <= n,
            forall|j: int| 0 <= j < i ==> a@[j] == b@[j],
        decreases n - i,
    {
        if a[i] != b[i] {
            return false;
        }
        i = i + 1;
    }
    assert(a@ =~= b@);
    true
}

/// A copy of a sample.
pub fn copy_bits(v: &Vec<bool>) -> (r: Vec<bool>)
    ensures
        r@ == v@,
{
    let mut out: Vec<bool> = Vec::new();
    let n = v.len();
    let mut i: usize = 0;
    while i < n
        invariant
            n == v@.len(),
            i <= n,
            out@ == v@.take(i as int),
        decreases n - i,
    {
        out.push(v[i]);
        assert(v@.take(i + 1) =~= v@.take(i as int).push(v@[i as int]));
        i = i + 1;
    }
    assert(v@.take(n as int) =~= v@);
    out
}

/// The edges of a sampled trace.
pub fn transition_edges(trace: &Vec<Vec<bool>>) -> (r: Vec<MacroTransitionEdge>)
    ensures
        r@.map_values(|e: MacroTransitionEdge| edge_view(e)) == spec_edges(trace_view(trace@)),
{
    let ghost t = trace_view(trace@);
    let mut out: Vec<MacroTransitionEdge> = Vec::new();
    let n = trace.len();
    if n < 2 {
        assert(out@.map_values(|e: MacroTransitionEdge| edge_view(e)) =~= spec_edges(t));
        return out;
    }
    let mut i: usize = 1;
    assert(out@.map_values(|e: MacroTransitionEdge| edge_view(e)) =~= spec_edges(t.take(1)));
    while i < n
        invariant
            n == trace@.len(),
            t == trace_view(trace@),
            1 <= i <= n,
            out@.map_values(|e: MacroTransitionEdge| edge_view(e)) == spec_edges(t.take(i as int)),
        decreases n - i,
    {
        let ghost before = out@;
        proof {
            assert(t.take(i + 1).drop_last() =~= t.take(i as int));
        }
        if !same_bits(&trace[i], &trace[i - 1]) {
            out.push(MacroTransitionEdge { tick: i, from: copy_bits(&trace[i - 1]), to: copy_bits(&trace[i]) });
        }
        assert(out@.map_values(|e: MacroTransitionEdge| edge_view(e)) =~= spec_edges(t.take(i + 1)));
        i = i + 1;
    }
    assert(t.take(n as int) =~= t);
    out
}

impl MacroTransitionCase {
    /// The edges of the original's outputs.
    pub fn original_transition_edges(&self) -> (r: Vec<MacroTransitionEdge>)
        ensures
            r@.map_values(|e: MacroTransitionEdge| edge_view(e)) == spec_edges(trace_view(self.original_outputs@)),
    {
        transition_edges(&self.original_outputs)
    }

    /// The edges of the candidate's outputs.
    pub fn candidate_transition_edges(&self) -> (r: Vec<MacroTransitionEdge>)
        ensures
            r@.map_values(|e: MacroTransitionEdge| edge_view(e)) == spec_edges(trace_view(self.candidate_outputs@)),
    {
        transition_edges(&self.candidate_outputs)
    }
}

// Structural validation of a replacement proposal against the observed
// world. The proposal is given by the blocks the placed macro occupies and
// its route skeletons; `replaceable` lists the positions owned by the
// implementation being replaced.

/// The block the candidate places at `p`: the last one it lists there.
pub open spec fn candidate_block(blocks: Seq<(Pos, Block)>, p: Pos) -> Option<Block>
    decreases blocks.len(),
{
    if blocks.len() == 0 {
        None
    } else if blocks.last().0 == p {
        Some(blocks.last().1)
    } else {
        candidate_block(blocks.drop_last(), p)
    }
}

/// What the world holds at `q` once the replaceable positions are cleared
/// and the candidate is placed.
pub open spec fn candidate_world_at(observed: World, blocks: Seq<(Pos, Block)>, replaceable: Seq<Pos>, q: Pos) -> Option<Block> {
    match candidate_block(blocks, q) {
        Some(b) => if b.kind == BlockKind::Air {
            None
        } else {
            Some(b)
        },
        None => if replaceable.contains(q) {
            None
        } else {
            observed.block_at(q)
        },
    }
}

/// The candidate's block at `p` meets a different observed block that is
/// not replaceable.
pub open spec fn candidate_collides(observed: World, blocks: Seq<(Pos, Block)>, replaceable: Seq<Pos>, p: Pos) -> bool {
    &&& candidate_block(blocks, p) matches Some(b)
    &&& observed.block_at(p) matches Some(a)
    &&& !same_block(a, b)
    &&& !replaceable.contains(p)
}

/// The candidate's block at `p` needs support and, in the world with the
/// candidate placed, does not stand on a block that supports components.
pub open spec fn candidate_unsupported(observed: World, blocks: Seq<(Pos, Block)>, replaceable: Seq<Pos>, p: Pos) -> bool {
    &&& candidate_block(blocks, p) matches Some(b)
    &&& needs_support(b.kind)
    &&& !(spec_support_pos(b, p) matches Some(at) && candidate_world_at(observed, blocks, replaceable, at) matches Some(s)
        && spec_redstone_traits(s).supports_dust_on_top)
}

/// `a` indexes a position strictly inside the path of route `i`.
pub open spec fn interior_index(routes: Seq<MacroPortRoute>, i: int, a: int) -> bool {
    0 <= i < routes.len() && 1 <= a < routes[i].path@.len() - 1
}

/// `p` lies strictly inside some route's path.
pub open spec fn route_interior(routes: Seq<MacroPortRoute>, p: Pos) -> bool {
    exists|i: int, a: int| interior_index(routes, i, a) && #[trigger] routes[i].path@[a] == p
}

/// `s` lies right below a position strictly inside some route's path.
pub open spec fn route_support(routes: Seq<MacroPortRoute>, s: Pos) -> bool {
    exists|i: int, a: int| interior_index(routes, i, a) && #[trigger] spec_offset(routes[i].path@[a], 0, -1, 0) == s
}

/// A route position collides: the candidate occupies it, or an observed
/// block that stays does.
pub open spec fn route_collides(observed: World, blocks: Seq<(Pos, Block)>, replaceable: Seq<Pos>, p: Pos) -> bool {
    candidate_block(blocks, p) is Some || (kind_of(observed.block_at(p)) != BlockKind::Air && !replaceable.contains(p))
}

/// Dust can rest on `s`: the candidate's block there supports components,
/// or, where the candidate places nothing, an observed block that stays
/// does.
pub open spec fn carries_dust(observed: World, blocks: Seq<(Pos, Block)>, replaceable: Seq<Pos>, s: Pos) -> bool {
    match candidate_block(blocks, s) {
        Some(b) => spec_redstone_traits(b).supports_dust_on_top,
        None => !replaceable.contains(s) && (observed.block_at(s) matches Some(b) && spec_redstone_traits(b).supports_dust_on_top),
    }
}

/// A missing route support can be added: `s` is empty or replaceable.
pub open spec fn support_addable(observed: World, replaceable: Seq<Pos>, s: Pos) -> bool {
    kind_of(observed.block_at(s)) == BlockKind::Air || replaceable.contains(s)
}

/// Two route positions touch: they coincide, or they are horizontal
/// neighbors at most one level apart.
pub open spec fn touching(a: Pos, b: Pos) -> bool {
    let dx = if a.x >= b.x { a.x - b.x } else { b.x - a.x };
    let dy = if a.y >= b.y { a.y - b.y } else { b.y - a.y };
    let dz = if a.z >= b.z { a.z - b.z } else { b.z - a.z };
    a == b || (dx + dz == 1 && dy <= 1)
}

/// Lexicographic order on index quadruples.
pub open spec fn quad_lt(a: (int, int, int, int), b: (int, int, int, int)) -> bool {
    a.0 < b.0 || (a.0 == b.0 && (a.1 < b.1 || (a.1 == b.1 && (a.2 < b.2 || (a.2 == b.2 && a.3 < b.3)))))
}

/// Position `c.2` of route `c.0` touches position `c.3` of a later route
/// `c.1`.
pub open spec fn contact_at(routes: Seq<MacroPortRoute>, c: (int, int, int, int)) -> bool {
    &&& 0 <= c.0 < c.1 < routes.len()
    &&& 0 <= c.2 < routes[c.0].path@.len()
    &&& 0 <= c.3 < routes[c.1].path@.len()
    &&& touching(routes[c.0].path@[c.2], routes[c.1].path@[c.3])
}

/// The report entry of a contact.
pub open spec fn contact_entry(routes: Seq<MacroPortRoute>, c: (int, int, int, int)) -> (usize, usize, Pos, Pos) {
    (c.0 as usize, c.1 as usize, routes[c.0].path@[c.2], routes[c.1].path@[c.3])
}

/// `list` reports, in order, the contacts indexed by `w`, which increase.
pub open spec fn lists_contacts(routes: Seq<MacroPortRoute>, list: Seq<(usize, usize, Pos, Pos)>, w: Seq<(int, int, int, int)>) -> bool {
    &&& list.len() == w.len()
    &&& forall|k: int| 0 <= k < w.len() ==> contact_at(routes, #[trigger] w[k]) && list[k] == contact_entry(routes, w[k])
    &&& forall|k: int, l: int| 0 <= k < l < w.len() ==> quad_lt(#[trigger] w[k], #[trigger] w[l])
}

/// Every contact below `bound` is indexed by `w`.
pub open spec fn contacts_covered(routes: Seq<MacroPortRoute>, w: Seq<(int, int, int, int)>, bound: (int, int, int, int)) -> bool {
    forall|c: (int, int, int, int)| contact_at(routes, c) && quad_lt(c, bound) ==> #[trigger] w.contains(c)
}

fn listed(v: &Vec<Pos>, p: Pos) -> (r: bool)
    ensures
        r == v@.contains(p),
{
    let mut i: usize = 0;
    while i < v.len()
        invariant
            i <= v@.len(),
            forall|t: int| 0 <= t < i ==> v@[t] != p,
        decreases v@.len() - i,
    {
        if v[i] == p {
            return true;
        }
        i = i + 1;
    }
    false
}

/// The index of the block the candidate places at `p`.
fn candidate_index(blocks: &Vec<(Pos, Block)>, p: Pos) -> (r: Option<usize>)
    ensures
        match r {
            None => candidate_block(blocks@, p) is None,
            Some(k) => k < blocks@.len() && blocks@[k as int].0 == p && candidate_block(blocks@, p) == Some(blocks@[k as int].1),
        },
{
    let mut i: usize = blocks.len();
    assert(blocks@.take(i as int) =~= blocks@);
    while i > 0
        invariant
            i <= blocks@.len(),
            candidate_block(blocks@, p) == candidate_block(blocks@.take(i as int), p),
        decreases i,
    {
        assert(blocks@.take(i as int).drop_last() =~= blocks@.take(i - 1));
        if blocks[i - 1].0 == p {
            return Some(i - 1);
        }
        i = i - 1;
    }
    None
}

proof fn lemma_candidate_listed(blocks: Seq<(Pos, Block)>, p: Pos)
    requires
        candidate_block(blocks, p) is Some,
    ensures
        exists|t: int| 0 <= t < blocks.len() && #[trigger] blocks[t].0 == p,
    decreases blocks.len(),
{
    if blocks.last().0 != p {
        lemma_candidate_listed(blocks.drop_last(), p);
        let t = choose|t: int| 0 <= t < blocks.drop_last().len() && #[trigger] blocks.drop_last()[t].0 == p;
        assert(blocks[t].0 == p);
    } else {
        assert(blocks[blocks.len() - 1].0 == p);
    }
}

proof fn lemma_candidate_present(blocks: Seq<(Pos, Block)>, t: int)
    requires
        0 <= t < blocks.len(),
    ensures
        candidate_block(blocks, blocks[t].0) is Some,
    decreases blocks.len(),
{
    if blocks.last().0 != blocks[t].0 {
        assert(t != blocks.len() - 1);
        assert(blocks.drop_last()[t] == blocks[t]);
        lemma_candidate_present(blocks.drop_last(), t);
    }
}

/// What the world holds at `q` with the candidate placed.
fn candidate_world_get<'a>(observed: &'a World, blocks: &'a Vec<(Pos, Block)>, replaceable: &Vec<Pos>, q: Pos) -> (r: Option<&'a Block>)
    requires
        observed.wf(),
    ensures
        match r {
            Some(b) => candidate_world_at(*observed, blocks@, replaceable@, q) == Some(*b),
            None => candidate_world_at(*observed, blocks@, replaceable@, q) is None,
        },
{
    match candidate_index(blocks, q) {
        Some(k) => {
            let b = &blocks[k].1;
            if b.kind == BlockKind::Air {
                None
            } else {
                Some(b)
            }
        },
        None => {
            if listed(replaceable, q) {
                None
            } else {
                observed.get(q)
            }
        },
    }
}

/// Whether dust can rest on `s` once the candidate is placed.
fn dust_carried(observed: &World, blocks: &Vec<(Pos, Block)>, replaceable: &Vec<Pos>, s: Pos) -> (r: bool)
    requires
        observed.wf(),
    ensures
        r == carries_dust(*observed, blocks@, replaceable@, s),
{
    match candidate_index(blocks, s) {
        Some(k) => blocks[k].1.redstone_traits().supports_dust_on_top,
        None => {
            if listed(replaceable, s) {
                false
            } else {
                match observed.get(s) {
                    Some(b) => b.redstone_traits().supports_dust_on_top,
                    None => false,
                }
            }
        },
    }
}

/// Whether position `a` of one route touches position `b` of another;
/// the distances are taken in 64 bits.
fn touches(a: Pos, b: Pos) -> (r: bool)
    ensures
        r == touching(a, b),
{
    let dx: i64 = if a.x >= b.x { a.x as i64 - b.x as i64 } else { b.x as i64 - a.x as i64 };
    let dy: i64 = if a.y >= b.y { a.y as i64 - b.y as i64 } else { b.y as i64 - a.y as i64 };
    let dz: i64 = if a.z >= b.z { a.z as i64 - b.z as i64 } else { b.z as i64 - a.z as i64 };
    a == b || (dx + dz == 1 && dy <= 1)
}

/// Checks a proposal against the observed world without changing it:
/// candidate blocks meeting different observed blocks that are not
/// replaceable, route positions already occupied, contacts between
/// positions of different routes, candidate components left without
/// support, and the supports the route dust needs, split into those that
/// can be added (empty or replaceable positions) and those that are
/// blocked. Every list of positions comes sorted without repetition; the
/// contacts come in route, then path order.
pub fn validate_macro_structure(
    blocks: &Vec<(Pos, Block)>,
    routes: &Vec<MacroPortRoute>,
    observed: &World,
    replaceable: &Vec<Pos>,
) -> (r: MacroStructuralReport)
    requires
        observed.wf(),
        forall|k: int| 0 <= k < blocks@.len() ==> support_in_range(#[trigger] blocks@[k].1, blocks@[k].0),
        forall|p: Pos| route_interior(routes@, p) ==> p.y > i32::MIN,
    ensures
        sorted_pos(r.candidate_collisions@),
        forall|p: Pos| r.candidate_collisions@.contains(p) <==> candidate_collides(*observed, blocks@, replaceable@, p),
        sorted_pos(r.candidate_support_issues@),
        forall|p: Pos| r.candidate_support_issues@.contains(p) <==> candidate_unsupported(*observed, blocks@, replaceable@, p),
        sorted_pos(r.route_collisions@),
        forall|p: Pos|
            r.route_collisions@.contains(p) <==> route_interior(routes@, p) && route_collides(*observed, blocks@, replaceable@, p),
        sorted_pos(r.required_route_supports@),
        forall|s: Pos|
            r.required_route_supports@.contains(s) <==> route_support(routes@, s) && !carries_dust(*observed, blocks@, replaceable@, s)
                && support_addable(*observed, replaceable@, s),
        sorted_pos(r.blocked_route_supports@),
        forall|s: Pos|
            r.blocked_route_supports@.contains(s) <==> route_support(routes@, s) && !carries_dust(*observed, blocks@, replaceable@, s)
                && !support_addable(*observed, replaceable@, s),
        exists|w: Seq<(int, int, int, int)>|
            lists_contacts(routes@, r.route_cross_net_contacts@, w) && forall|c: (int, int, int, int)|
                contact_at(routes@, c) ==> #[trigger] w.contains(c),
{
    let (candidate_collisions, candidate_support_issues) = candidate_checks(blocks, observed, replaceable);
    let (route_collisions, required_route_supports, blocked_route_supports) = route_checks(blocks, routes, observed, replaceable);
    let route_cross_net_contacts = cross_net_contacts(routes);
    let ghost contacts = route_cross_net_contacts@;
    let report = MacroStructuralReport {
        candidate_collisions,
        route_collisions,
        route_cross_net_contacts,
        candidate_support_issues,
        required_route_supports,
        blocked_route_supports,
    };
    proof {
        let w = choose|w: Seq<(int, int, int, int)>|
            lists_contacts(routes@, contacts, w) && forall|c: (int, int, int, int)| contact_at(routes@, c) ==> #[trigger] w.contains(c);
        assert(report.route_cross_net_contacts@ == contacts);
        assert(lists_contacts(routes@, report.route_cross_net_contacts@, w));
        assert(forall|c: (int, int, int, int)| contact_at(routes@, c) ==> #[trigger] w.contains(c));
    }
    report
}

fn candidate_checks(blocks: &Vec<(Pos, Block)>, observed: &World, replaceable: &Vec<Pos>) -> (r: (Vec<Pos>, Vec<Pos>))
    requires
        observed.wf(),
        forall|k: int| 0 <= k < blocks@.len() ==> support_in_range(#[trigger] blocks@[k].1, blocks@[k].0),
    ensures
        sorted_pos(r.0@),
        forall|p: Pos| r.0@.contains(p) <==> candidate_collides(*observed, blocks@, replaceable@, p),
        sorted_pos(r.1@),
        forall|p: Pos| r.1@.contains(p) <==> candidate_unsupported(*observed, blocks@, replaceable@, p),
{
    let mut collisions: Vec<Pos> = Vec::new();
    let mut issues: Vec<Pos> = Vec::new();
    let mut k: usize = 0;
    while k < blocks.len()
        invariant
            k <= blocks@.len(),
            observed.wf(),
            forall|t: int| 0 <= t < blocks@.len() ==> support_in_range(#[trigger] blocks@[t].1, blocks@[t].0),
            sorted_pos(collisions@),
            sorted_pos(issues@),
            forall|p: Pos|
                collisions@.contains(p) <==> (exists|t: int| 0 <= t < k && #[trigger] blocks@[t].0 == p) && candidate_collides(
                    *observed,
                    blocks@,
                    replaceable@,
                    p,
                ),
            forall|p: Pos|
                issues@.contains(p) <==> (exists|t: int| 0 <= t < k && #[trigger] blocks@[t].0 == p) && candidate_unsupported(
                    *observed,
                    blocks@,
                    replaceable@,
                    p,
                ),
        decreases blocks@.len() - k,
    {
        let p = blocks[k].0;
        proof {
            lemma_candidate_present(blocks@, k as int);
        }
        let e = match candidate_index(blocks, p) {
            Some(e) => e,
            None => {
                assert(false);
                k
            },
        };
        let block = &blocks[e].1;
        let ghost old_collisions = collisions@;
        let ghost old_issues = issues@;
        let collides = match observed.get(p) {
            Some(actual) => !actual.same_as(block) && !listed(replaceable, p),
            None => false,
        };
        if collides {
            insert_sorted(&mut collisions, p);
        }
        let unsupported = if needs_support_kind(block.kind) {
            match block.support_pos(p) {
                Some(at) => match candidate_world_get(observed, blocks, replaceable, at) {
                    Some(s) => !s.redstone_traits().supports_dust_on_top,
                    None => true,
                },
                None => true,
            }
        } else {
            false
        };
        if unsupported {
            insert_sorted(&mut issues, p);
        }
        proof {
            assert(collides == candidate_collides(*observed, blocks@, replaceable@, p));
            assert(unsupported == candidate_unsupported(*observed, blocks@, replaceable@, p));
            assert forall|q: Pos|
                collisions@.contains(q) <==> (exists|t: int| 0 <= t < k + 1 && #[trigger] blocks@[t].0 == q) && candidate_collides(
                    *observed,
                    blocks@,
                    replaceable@,
                    q,
                ) by {
                if q == p {
                    assert(blocks@[k as int].0 == q);
                }
                if exists|t: int| 0 <= t < k + 1 && #[trigger] blocks@[t].0 == q {
                    let t = choose|t: int| 0 <= t < k + 1 && #[trigger] blocks@[t].0 == q;
                    if t < k {
                        assert(exists|t2: int| 0 <= t2 < k && #[trigger] blocks@[t2].0 == q);
                    }
                }
            }
            assert forall|q: Pos|
                issues@.contains(q) <==> (exists|t: int| 0 <= t < k + 1 && #[trigger] blocks@[t].0 == q) && candidate_unsupported(
                    *observed,
                    blocks@,
                    replaceable@,
                    q,
                ) by {
                if q == p {
                    assert(blocks@[k as int].0 == q);
                }
                if exists|t: int| 0 <= t < k + 1 && #[trigger] blocks@[t].0 == q {
                    let t = choose|t: int| 0 <= t < k + 1 && #[trigger] blocks@[t].0 == q;
                    if t < k {
                        assert(exists|t2: int| 0 <= t2 < k && #[trigger] blocks@[t2].0 == q);
                    }
                }
            }
        }
        k = k + 1;
    }
    proof {
        assert forall|p: Pos| candidate_collides(*observed, blocks@, replaceable@, p) implies collisions@.contains(p) by {
            lemma_candidate_listed(blocks@, p);
        }
        assert forall|p: Pos| candidate_unsupported(*observed, blocks@, replaceable@, p) implies issues@.contains(p) by {
            lemma_candidate_listed(blocks@, p);
        }
    }
    (collisions, issues)
}

fn needs_support_kind(kind: BlockKind) -> (r: bool)
    ensures
        r == needs_support(kind),
{
    match kind {
        BlockKind::RedstoneWire | BlockKind::RedstoneTorch | BlockKind::Repeater | BlockKind::Comparator | BlockKind::Lever
        | BlockKind::Button | BlockKind::PressurePlate => true,
        _ => false,
    }
}

/// Position `a2` of route `i2` lies strictly inside its path and comes
/// before position `a` of route `i`.
pub open spec fn interior_before(routes: Seq<MacroPortRoute>, i: int, a: int, i2: int, a2: int) -> bool {
    interior_index(routes, i2, a2) && (i2 < i || (i2 == i && a2 < a))
}

/// Records the checks of one interior route position `p`.
fn check_route_position(
    p: Pos,
    blocks: &Vec<(Pos, Block)>,
    observed: &World,
    replaceable: &Vec<Pos>,
    collisions: &mut Vec<Pos>,
    required: &mut Vec<Pos>,
    blocked: &mut Vec<Pos>,
)
    requires
        observed.wf(),
        p.y > i32::MIN,
        sorted_pos(old(collisions)@),
        sorted_pos(old(required)@),
        sorted_pos(old(blocked)@),
    ensures
        sorted_pos(final(collisions)@),
        sorted_pos(final(required)@),
        sorted_pos(final(blocked)@),
        forall|q: Pos|
            final(collisions)@.contains(q) <==> old(collisions)@.contains(q) || (q == p && route_collides(
                *observed,
                blocks@,
                replaceable@,
                q,
            )),
        forall|s: Pos|
            final(required)@.contains(s) <==> old(required)@.contains(s) || (s == spec_offset(p, 0, -1, 0) && !carries_dust(
                *observed,
                blocks@,
                replaceable@,
                s,
            ) && support_addable(*observed, replaceable@, s)),
        forall|s: Pos|
            final(blocked)@.contains(s) <==> old(blocked)@.contains(s) || (s == spec_offset(p, 0, -1, 0) && !carries_dust(
                *observed,
                blocks@,
                replaceable@,
                s,
            ) && !support_addable(*observed, replaceable@, s)),
{
    let occupied = candidate_index(blocks, p).is_some() || (observed.kind_at(p) != BlockKind::Air && !listed(replaceable, p));
    if occupied {
        insert_sorted(collisions, p);
    }
    let support = p.offset(0, -1, 0);
    if !dust_carried(observed, blocks, replaceable, support) {
        if observed.kind_at(support) == BlockKind::Air || listed(replaceable, support) {
            insert_sorted(required, support);
        } else {
            insert_sorted(blocked, support);
        }
    }
}

fn route_checks(blocks: &Vec<(Pos, Block)>, routes: &Vec<MacroPortRoute>, observed: &World, replaceable: &Vec<Pos>) -> (r: (
    Vec<Pos>,
    Vec<Pos>,
    Vec<Pos>,
))
    requires
        observed.wf(),
        forall|p: Pos| route_interior(routes@, p) ==> p.y > i32::MIN,
    ensures
        sorted_pos(r.0@),
        forall|p: Pos| r.0@.contains(p) <==> route_interior(routes@, p) && route_collides(*observed, blocks@, replaceable@, p),
        sorted_pos(r.1@),
        forall|s: Pos|
            r.1@.contains(s) <==> route_support(routes@, s) && !carries_dust(*observed, blocks@, replaceable@, s) && support_addable(
                *observed,
                replaceable@,
                s,
            ),
        sorted_pos(r.2@),
        forall|s: Pos|
            r.2@.contains(s) <==> route_support(routes@, s) && !carries_dust(*observed, blocks@, replaceable@, s) && !support_addable(
                *observed,
                replaceable@,
                s,
            ),
{
    let mut collisions: Vec<Pos> = Vec::new();
    let mut required: Vec<Pos> = Vec::new();
    let mut blocked: Vec<Pos> = Vec::new();
    let mut i: usize = 0;
    while i < routes.len()
        invariant
            i <= routes@.len(),
            observed.wf(),
            forall|p: Pos| route_interior(routes@, p) ==> p.y > i32::MIN,
            sorted_pos(collisions@),
            sorted_pos(required@),
            sorted_pos(blocked@),
            forall|q: Pos|
                collisions@.contains(q) <==> (exists|i2: int, a2: int|
                    interior_before(routes@, i as int, 0, i2, a2) && #[trigger] routes@[i2].path@[a2] == q) && route_collides(
                    *observed,
                    blocks@,
                    replaceable@,
                    q,
                ),
            forall|s: Pos|
                required@.contains(s) <==> (exists|i2: int, a2: int|
                    interior_before(routes@, i as int, 0, i2, a2) && #[trigger] spec_offset(routes@[i2].path@[a2], 0, -1, 0) == s)
                    && !carries_dust(*observed, blocks@, replaceable@, s) && support_addable(*observed, replaceable@, s),
            forall|s: Pos|
                blocked@.contains(s) <==> (exists|i2: int, a2: int|
                    interior_before(routes@, i as int, 0, i2, a2) && #[trigger] spec_offset(routes@[i2].path@[a2], 0, -1, 0) == s)
                    && !carries_dust(*observed, blocks@, replaceable@, s) && !support_addable(*observed, replaceable@, s),
        decreases routes@.len() - i,
    {
        let path = &routes[i].path;
        let n = path.len();
        let mut a: usize = 1;
        while a + 1 < n
            invariant
                i < routes@.len(),
                *path == routes@[i as int].path,
                n == path@.len(),
                1 <= a,
                a + 1 <= n || a == 1,
                observed.wf(),
                forall|p: Pos| route_interior(routes@, p) ==> p.y > i32::MIN,
                sorted_pos(collisions@),
                sorted_pos(required@),
                sorted_pos(blocked@),
                forall|q: Pos|
                    collisions@.contains(q) <==> (exists|i2: int, a2: int|
                        interior_before(routes@, i as int, a as int, i2, a2) && #[trigger] routes@[i2].path@[a2] == q) && route_collides(
                        *observed,
                        blocks@,
                        replaceable@,
                        q,
                    ),
                forall|s: Pos|
                    required@.contains(s) <==> (exists|i2: int, a2: int|
                        interior_before(routes@, i as int, a as int, i2, a2) && #[trigger] spec_offset(routes@[i2].path@[a2], 0, -1, 0)
                            == s) && !carries_dust(*observed, blocks@, replaceable@, s) && support_addable(*observed, replaceable@, s),
                forall|s: Pos|
                    blocked@.contains(s) <==> (exists|i2: int, a2: int|
                        interior_before(routes@, i as int, a as int, i2, a2) && #[trigger] spec_offset(routes@[i2].path@[a2], 0, -1, 0)
                            == s) && !carries_dust(*observed, blocks@, replaceable@, s) && !support_addable(*observed, replaceable@, s),
            decreases n - a,
        {
            let p = path[a];
            proof {
                assert(interior_index(routes@, i as int, a as int));
                assert(route_interior(routes@, p));
            }
            let ghost c0 = collisions@;
            let ghost q0 = required@;
            let ghost b0 = blocked@;
            check_route_position(p, blocks, observed, replaceable, &mut collisions, &mut required, &mut blocked);
            proof {
                let ii = i as int;
                let aa = a as int;
                assert forall|q: Pos|
                    collisions@.contains(q) <==> (exists|i2: int, a2: int|
                        interior_before(routes@, ii, aa + 1, i2, a2) && #[trigger] routes@[i2].path@[a2] == q) && route_collides(
                        *observed,
                        blocks@,
                        replaceable@,
                        q,
                    ) by {
                    if exists|i2: int, a2: int| interior_before(routes@, ii, aa + 1, i2, a2) && #[trigger] routes@[i2].path@[a2] == q {
                        let (i2, a2) = choose|i2: int, a2: int|
                            interior_before(routes@, ii, aa + 1, i2, a2) && #[trigger] routes@[i2].path@[a2] == q;
                        if !(i2 == ii && a2 == aa) {
                            assert(interior_before(routes@, ii, aa, i2, a2));
                        }
                    }
                    if q == p {
                        assert(interior_before(routes@, ii, aa + 1, ii, aa));
                    }
                }
                assert forall|s: Pos|
                    required@.contains(s) <==> (exists|i2: int, a2: int|
                        interior_before(routes@, ii, aa + 1, i2, a2) && #[trigger] spec_offset(routes@[i2].path@[a2], 0, -1, 0) == s)
                        && !carries_dust(*observed, blocks@, replaceable@, s) && support_addable(*observed, replaceable@, s) by {
                    if exists|i2: int, a2: int|
                        interior_before(routes@, ii, aa + 1, i2, a2) && #[trigger] spec_offset(routes@[i2].path@[a2], 0, -1, 0) == s {
                        let (i2, a2) = choose|i2: int, a2: int|
                            interior_before(routes@, ii, aa + 1, i2, a2) && #[trigger] spec_offset(routes@[i2].path@[a2], 0, -1, 0) == s;
                        if !(i2 == ii && a2 == aa) {
                            assert(interior_before(routes@, ii, aa, i2, a2));
                        }
                    }
                    if s == spec_offset(p, 0, -1, 0) {
                        assert(interior_before(routes@, ii, aa + 1, ii, aa));
                    }
                }
                assert forall|s: Pos|
                    blocked@.contains(s) <==> (exists|i2: int, a2: int|
                        interior_before(routes@, ii, aa + 1, i2, a2) && #[trigger] spec_offset(routes@[i2].path@[a2], 0, -1, 0) == s)
                        && !carries_dust(*observed, blocks@, replaceable@, s) && !support_addable(*observed, replaceable@, s) by {
                    if exists|i2: int, a2: int|
                        interior_before(routes@, ii, aa + 1, i2, a2) && #[trigger] spec_offset(routes@[i2].path@[a2], 0, -1, 0) == s {
                        let (i2, a2) = choose|i2: int, a2: int|
                            interior_before(routes@, ii, aa + 1, i2, a2) && #[trigger] spec_offset(routes@[i2].path@[a2], 0, -1, 0) == s;
                        if !(i2 == ii && a2 == aa) {
                            assert(interior_before(routes@, ii, aa, i2, a2));
                        }
                    }
                    if s == spec_offset(p, 0, -1, 0) {
                        assert(interior_before(routes@, ii, aa + 1, ii, aa));
                    }
                }
            }
            a = a + 1;
        }
        proof {
            let ii = i as int;
            let aa = a as int;
            assert forall|i2: int, a2: int| interior_before(routes@, ii + 1, 0, i2, a2) <==> interior_before(routes@, ii, aa, i2, a2) by {}
            assert forall|q: Pos|
                collisions@.contains(q) <==> (exists|i2: int, a2: int|
                    interior_before(routes@, ii + 1, 0, i2, a2) && #[trigger] routes@[i2].path@[a2] == q) && route_collides(
                    *observed,
                    blocks@,
                    replaceable@,
                    q,
                ) by {
                if exists|i2: int, a2: int| interior_before(routes@, ii + 1, 0, i2, a2) && #[trigger] routes@[i2].path@[a2] == q {
                    let (i2, a2) = choose|i2: int, a2: int|
                        interior_before(routes@, ii + 1, 0, i2, a2) && #[trigger] routes@[i2].path@[a2] == q;
                    assert(interior_before(routes@, ii, aa, i2, a2));
                }
            }
            assert forall|s: Pos|
                required@.contains(s) <==> (exists|i2: int, a2: int|
                    interior_before(routes@, ii + 1, 0, i2, a2) && #[trigger] spec_offset(routes@[i2].path@[a2], 0, -1, 0) == s)
                    && !carries_dust(*observed, blocks@, replaceable@, s) && support_addable(*observed, replaceable@, s) by {
                if exists|i2: int, a2: int|
                    interior_before(routes@, ii + 1, 0, i2, a2) && #[trigger] spec_offset(routes@[i2].path@[a2], 0, -1, 0) == s {
                    let (i2, a2) = choose|i2: int, a2: int|
                        interior_before(routes@, ii + 1, 0, i2, a2) && #[trigger] spec_offset(routes@[i2].path@[a2], 0, -1, 0) == s;
                    assert(interior_before(routes@, ii, aa, i2, a2));
                }
            }
            assert forall|s: Pos|
                blocked@.contains(s) <==> (exists|i2: int, a2: int|
                    interior_before(routes@, ii + 1, 0, i2, a2) && #[trigger] spec_offset(routes@[i2].path@[a2], 0, -1, 0) == s)
                    && !carries_dust(*observed, blocks@, replaceable@, s) && !support_addable(*observed, replaceable@, s) by {
                if exists|i2: int, a2: int|
                    interior_before(routes@, ii + 1, 0, i2, a2) && #[trigger] spec_offset(routes@[i2].path@[a2], 0, -1, 0) == s {
                    let (i2, a2) = choose|i2: int, a2: int|
                        interior_before(routes@, ii + 1, 0, i2, a2) && #[trigger] spec_offset(routes@[i2].path@[a2], 0, -1, 0) == s;
                    assert(interior_before(routes@, ii, aa, i2, a2));
                }
            }
        }
        i = i + 1;
    }
    proof {
        let n = routes@.len() as int;
        assert forall|q: Pos|
            (exists|i2: int, a2: int| interior_before(routes@, n, 0, i2, a2) && #[trigger] routes@[i2].path@[a2] == q)
                <==> route_interior(routes@, q) by {
            if route_interior(routes@, q) {
                let (i2, a2) = choose|i2: int, a2: int| interior_index(routes@, i2, a2) && #[trigger] routes@[i2].path@[a2] == q;
                assert(interior_before(routes@, n, 0, i2, a2));
            }
        }
        assert forall|s: Pos|
            (exists|i2: int, a2: int|
                interior_before(routes@, n, 0, i2, a2) && #[trigger] spec_offset(routes@[i2].path@[a2], 0, -1, 0) == s)
                <==> route_support(routes@, s) by {
            if route_support(routes@, s) {
                let (i2, a2) = choose|i2: int, a2: int|
                    interior_index(routes@, i2, a2) && #[trigger] spec_offset(routes@[i2].path@[a2], 0, -1, 0) == s;
                assert(interior_before(routes@, n, 0, i2, a2));
            }
        }
    }
    (collisions, required, blocked)
}

/// Every contact between positions of two different routes, in route and
/// path order.
fn cross_net_contacts(routes: &Vec<MacroPortRoute>) -> (r: Vec<(usize, usize, Pos, Pos)>)
    ensures
        exists|w: Seq<(int, int, int, int)>|
            lists_contacts(routes@, r@, w) && forall|c: (int, int, int, int)| contact_at(routes@, c) ==> #[trigger] w.contains(c),
{
    let mut out: Vec<(usize, usize, Pos, Pos)> = Vec::new();
    let ghost mut w: Seq<(int, int, int, int)> = Seq::empty();
    let n = routes.len();
    let mut i: usize = 0;
    while i < n
        invariant
            n == routes@.len(),
            i <= n,
            lists_contacts(routes@, out@, w),
            forall|k: int| 0 <= k < w.len() ==> quad_lt(#[trigger] w[k], (i as int, i + 1, 0, 0)),
            contacts_covered(routes@, w, (i as int, i + 1, 0, 0)),
        decreases n - i,
    {
        let mut j: usize = i + 1;
        while j < n
            invariant
                n == routes@.len(),
                i < n,
                i + 1 <= j <= n,
                lists_contacts(routes@, out@, w),
                forall|k: int| 0 <= k < w.len() ==> quad_lt(#[trigger] w[k], (i as int, j as int, 0, 0)),
                contacts_covered(routes@, w, (i as int, j as int, 0, 0)),
            decreases n - j,
        {
            let first_path = &routes[i].path;
            let second_path = &routes[j].path;
            let mut a: usize = 0;
            while a < first_path.len()
                invariant
                    n == routes@.len(),
                    i < j < n,
                    *first_path == routes@[i as int].path,
                    *second_path == routes@[j as int].path,
                    a <= first_path@.len(),
                    lists_contacts(routes@, out@, w),
                    forall|k: int| 0 <= k < w.len() ==> quad_lt(#[trigger] w[k], (i as int, j as int, a as int, 0)),
                    contacts_covered(routes@, w, (i as int, j as int, a as int, 0)),
                decreases first_path@.len() - a,
            {
                let mut b: usize = 0;
                while b < second_path.len()
                    invariant
                        n == routes@.len(),
                        i < j < n,
                        *first_path == routes@[i as int].path,
                        *second_path == routes@[j as int].path,
                        a < first_path@.len(),
                        b <= second_path@.len(),
                        lists_contacts(routes@, out@, w),
                        forall|k: int| 0 <= k < w.len() ==> quad_lt(#[trigger] w[k], (i as int, j as int, a as int, b as int)),
                        contacts_covered(routes@, w, (i as int, j as int, a as int, b as int)),
                    decreases second_path@.len() - b,
                {
                    let first = first_path[a];
                    let second = second_path[b];
                    let ghost c = (i as int, j as int, a as int, b as int);
                    if touches(first, second) {
                        out.push((i, j, first, second));
                        proof {
                            let w0 = w;
                            w = w.push(c);
                            assert(contact_at(routes@, c));
                            assert forall|k: int| 0 <= k < w.len() implies contact_at(routes@, #[trigger] w[k]) && out@[k]
                                == contact_entry(routes@, w[k]) by {
                                if k < w0.len() {
                                    assert(w[k] == w0[k]);
                                }
                            }
                            assert forall|k: int, l: int| 0 <= k < l < w.len() implies quad_lt(#[trigger] w[k], #[trigger] w[l]) by {
                                if l < w0.len() {
                                    assert(w[k] == w0[k] && w[l] == w0[l]);
                                } else {
                                    assert(w[k] == w0[k]);
                                }
                            }
                            assert forall|d: (int, int, int, int)|
                                contact_at(routes@, d) && quad_lt(d, (i as int, j as int, a as int, b + 1)) implies #[trigger] w.contains(d) by {
                                if quad_lt(d, c) {
                                    assert(w0.contains(d));
                                    let k = choose|k: int| 0 <= k < w0.len() && w0[k] == d;
                                    assert(w[k] == d);
                                } else {
                                    assert(d == c);
                                    assert(w[w.len() - 1] == d);
                                }
                            }
                        }
                    } else {
                        proof {
                            assert forall|d: (int, int, int, int)|
                                contact_at(routes@, d) && quad_lt(d, (i as int, j as int, a as int, b + 1)) implies #[trigger] w.contains(d) by {
                                if !quad_lt(d, c) {
                                    assert(d == c);
                                }
                            }
                        }
                    }
                    b = b + 1;
                }
                proof {
                    assert forall|d: (int, int, int, int)|
                        contact_at(routes@, d) && quad_lt(d, (i as int, j as int, a + 1, 0)) implies #[trigger] w.contains(d) by {
                        assert(quad_lt(d, (i as int, j as int, a as int, b as int)));
                    }
                }
                a = a + 1;
            }
            proof {
                assert forall|d: (int, int, int, int)|
                    contact_at(routes@, d) && quad_lt(d, (i as int, j + 1, 0, 0)) implies #[trigger] w.contains(d) by {
                    assert(quad_lt(d, (i as int, j as int, a as int, 0)));
                }
            }
            j = j + 1;
        }
        proof {
            assert forall|d: (int, int, int, int)|
                contact_at(routes@, d) && quad_lt(d, (i + 1, i + 2, 0, 0)) implies #[trigger] w.contains(d) by {
                assert(quad_lt(d, (i as int, j as int, 0, 0)));
            }
        }
        i = i + 1;
    }
    proof {
        assert forall|d: (int, int, int, int)| contact_at(routes@, d) implies #[trigger] w.contains(d) by {
            assert(quad_lt(d, (i as int, i + 1, 0, 0)));
        }
    }
    out
}

} // verus!
