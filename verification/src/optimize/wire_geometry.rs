//! Position geometry of the dust path optimizer: straight and L-shaped
//! candidate paths, the four horizontal neighbours of a position, whether a
//! path touches itself only between consecutive steps, the canonical form
//! of an edge, the layout score of a set of positions, the size of the
//! part of a dust network connected to a position, and the bounded search
//! for dust paths of a given length.

use vstd::prelude::*;

use crate::delta::{region_contains, Region};
use crate::optimize::physical::{PhasedPhysicalScore, PhysicalOptimizationSearchBudget, PhysicalOptimizationSearchStats};
use crate::world::{kind_of, pos_lt, spec_redstone_traits, BlockKind, Pos, World};

verus! {

/// The edge between two positions with its smaller end first in world
/// order.
pub fn ordered_edge(first: Pos, second: Pos) -> (r: (Pos, Pos))
    ensures
        r == (if pos_lt(second, first) {
            (second, first)
        } else {
            (first, second)
        }),
{
    if second.precedes(first) {
        (second, first)
    } else {
        (first, second)
    }
}

/// `p` has a neighbour on both sides along x and along z.
pub open spec fn horizontal_room(p: Pos) -> bool {
    i32::MIN < p.x < i32::MAX && i32::MIN < p.z < i32::MAX
}

/// The four horizontal neighbours of `p`: east, west, south, north.
pub open spec fn horizontal_ring(p: Pos) -> Seq<Pos> {
    seq![
        Pos { x: (p.x + 1) as i32, y: p.y, z: p.z },
        Pos { x: (p.x - 1) as i32, y: p.y, z: p.z },
        Pos { x: p.x, y: p.y, z: (p.z + 1) as i32 },
        Pos { x: p.x, y: p.y, z: (p.z - 1) as i32 },
    ]
}

/// The four horizontal neighbours of `pos`.
pub fn horizontal_neighbors(pos: Pos) -> (r: [Pos; 4])
    requires
        horizontal_room(pos),
    ensures
        r@ == horizontal_ring(pos),
{
    let r = [
        Pos { x: pos.x + 1, y: pos.y, z: pos.z },
        Pos { x: pos.x - 1, y: pos.y, z: pos.z },
        Pos { x: pos.x, y: pos.y, z: pos.z + 1 },
        Pos { x: pos.x, y: pos.y, z: pos.z - 1 },
    ];
    assert(r@ =~= horizontal_ring(pos));
    r
}

/// `a` moved `k` steps towards `b`, one unit per step.
pub open spec fn towards(a: int, b: int, k: int) -> int {
    if b > a {
        a + k
    } else if b < a {
        a - k
    } else {
        a
    }
}

pub open spec fn distance(a: int, b: int) -> int {
    if a <= b {
        b - a
    } else {
        a - b
    }
}

/// The number of steps of the segment from `start` to `end`.
pub open spec fn segment_steps(start: Pos, end: Pos) -> int {
    distance(start.x as int, end.x as int) + distance(start.z as int, end.z as int)
}

/// The `k`-th position of the segment from `start` towards `end`: each step
/// moves one unit towards `end` along x and along z, at the height of
/// `start`.
pub open spec fn segment_at(start: Pos, end: Pos, k: int) -> Pos {
    Pos {
        x: towards(start.x as int, end.x as int, k) as i32,
        y: start.y,
        z: towards(start.z as int, end.z as int, k) as i32,
    }
}

/// The positions of the segment from `start` towards `end`, both ends
/// included.
pub open spec fn segment(start: Pos, end: Pos) -> Seq<Pos> {
    Seq::new((segment_steps(start, end) + 1) as nat, |k: int| segment_at(start, end, k))
}

/// The segment can be walked: its step count fits an `i32` and its last
/// position stays inside the coordinate range.
pub open spec fn segment_fits(start: Pos, end: Pos) -> bool {
    let n = segment_steps(start, end);
    &&& n <= i32::MAX
    &&& i32::MIN <= towards(start.x as int, end.x as int, n) <= i32::MAX
    &&& i32::MIN <= towards(start.z as int, end.z as int, n) <= i32::MAX
}

fn step_coord(a: i32, b: i32, k: i32) -> (r: i32)
    requires
        0 <= k,
        i32::MIN <= towards(a as int, b as int, k as int) <= i32::MAX,
    ensures
        r == towards(a as int, b as int, k as int),
{
    if b > a {
        a + k
    } else if b < a {
        a - k
    } else {
        a
    }
}

fn coord_distance(a: i32, b: i32) -> (r: u32)
    ensures
        r == distance(a as int, b as int),
{
    if a <= b {
        ((b as i64) - (a as i64)) as u32
    } else {
        ((a as i64) - (b as i64)) as u32
    }
}

/// The straight segment from `start` towards `end`, both ends included.
pub fn axis_segment(start: Pos, end: Pos) -> (r: Vec<Pos>)
    requires
        segment_fits(start, end),
    ensures
        r@ == segment(start, end),
{
    let length: u32 = coord_distance(start.x, end.x) + coord_distance(start.z, end.z);
    let ghost n = segment_steps(start, end);
    let mut out: Vec<Pos> = Vec::new();
    let mut step: u32 = 0;
    while step <= length
        invariant
            length == n,
            n == segment_steps(start, end),
            segment_fits(start, end),
            step <= length + 1,
            out@.len() == step,
            forall|k: int| 0 <= k < step ==> #[trigger] out@[k] == segment_at(start, end, k),
        decreases length + 1 - step,
    {
        let s: i32 = step as i32;
        let p = Pos { x: step_coord(start.x, end.x, s), y: start.y, z: step_coord(start.z, end.z, s) };
        out.push(p);
        step = step + 1;
    }
    assert(out@ =~= segment(start, end));
    out
}

/// The corner of the L-shaped path from `start` to `end`: along x first or
/// along z first, at the height of `start`.
pub open spec fn path_corner(start: Pos, end: Pos, x_first: bool) -> Pos {
    if x_first {
        Pos { x: end.x, y: start.y, z: start.z }
    } else {
        Pos { x: start.x, y: start.y, z: end.z }
    }
}

/// The L-shaped path from `start` to `end` through `path_corner`, the
/// corner listed once.
pub open spec fn spec_orthogonal_path(start: Pos, end: Pos, x_first: bool) -> Seq<Pos> {
    let c = path_corner(start, end, x_first);
    segment(start, c) + segment(c, end).drop_first()
}

/// The L-shaped path from `start` to `end`, turning once.
pub fn orthogonal_path(start: Pos, end: Pos, x_first: bool) -> (r: Vec<Pos>)
    requires
        distance(start.x as int, end.x as int) <= i32::MAX,
        distance(start.z as int, end.z as int) <= i32::MAX,
    ensures
        r@ == spec_orthogonal_path(start, end, x_first),
{
    let corner = if x_first {
        Pos { x: end.x, y: start.y, z: start.z }
    } else {
        Pos { x: start.x, y: start.y, z: end.z }
    };
    let mut out = axis_segment(start, corner);
    let rest = axis_segment(corner, end);
    let ghost first = out@;
    let n = rest.len();
    let mut i: usize = 1;
    while i < n
        invariant
            n == rest@.len(),
            1 <= i <= n || n == 0,
            rest@.len() >= 1,
            out@ == first + rest@.subrange(1, i as int),
        decreases n - i,
    {
        out.push(rest[i]);
        i = i + 1;
        assert(out@ =~= first + rest@.subrange(1, i as int));
    }
    assert(rest@.drop_first() =~= rest@.subrange(1, n as int));
    out
}

/// The index of the first occurrence of `p` in `s`.
pub open spec fn first_at(s: Seq<Pos>, p: Pos, j: int) -> bool {
    0 <= j < s.len() && s[j] == p && forall|m: int| 0 <= m < j ==> s[m] != p
}

/// Every horizontal neighbour of a path position that lies on the path
/// first occurs there next to it: the path touches itself only between
/// consecutive steps.
pub open spec fn spec_induced_path(path: Seq<Pos>) -> bool {
    forall|i: int, f: int, j: int|
        0 <= i < path.len() && 0 <= f < 4 && #[trigger] first_at(path, horizontal_ring(path[i])[f], j) ==> distance(i, j) == 1
}

/// The first index of `p` in `path`.
fn find_first(path: &[Pos], p: Pos) -> (r: Option<usize>)
    ensures
        r matches Some(j) ==> first_at(path@, p, j as int),
        r is None ==> forall|m: int| 0 <= m < path@.len() ==> path@[m] != p,
{
    let n = path.len();
    let mut m: usize = 0;
    while m < n
        invariant
            n == path@.len(),
            m <= n,
            forall|k: int| 0 <= k < m ==> path@[k] != p,
        decreases n - m,
    {
        if path[m] == p {
            return Some(m);
        }
        m = m + 1;
    }
    None
}

/// Whether the path touches itself only between consecutive steps.
pub fn induced_path(path: &[Pos]) -> (r: bool)
    requires
        forall|i: int| 0 <= i < path@.len() ==> horizontal_room(#[trigger] path@[i]),
    ensures
        r == spec_induced_path(path@),
{
    let n = path.len();
    let mut i: usize = 0;
    while i < n
        invariant
            n == path@.len(),
            i <= n,
            forall|i: int| 0 <= i < path@.len() ==> horizontal_room(#[trigger] path@[i]),
            forall|a: int, f: int, j: int|
                0 <= a < i && 0 <= f < 4 && #[trigger] first_at(path@, horizontal_ring(path@[a])[f], j) ==> distance(a, j) == 1,
        decreases n - i,
    {
        let ring = horizontal_neighbors(path[i]);
        let mut f: usize = 0;
        while f < 4
            invariant
                n == path@.len(),
                i < n,
                f <= 4,
                ring@ == horizontal_ring(path@[i as int]),
                forall|g: int, j: int|
                    0 <= g < f && #[trigger] first_at(path@, horizontal_ring(path@[i as int])[g], j) ==> distance(i as int, j) == 1,
            decreases 4 - f,
        {
            match find_first(path, ring[f]) {
                Some(j) => {
                    let d = if i <= j {
                        j - i
                    } else {
                        i - j
                    };
                    if d != 1 {
                        assert(first_at(path@, horizontal_ring(path@[i as int])[f as int], j as int));
                        return false;
                    }
                    assert forall|j2: int| #[trigger] first_at(path@, horizontal_ring(path@[i as int])[f as int], j2) implies distance(i as int, j2) == 1 by {
                        if j2 < j {
                            assert(path@[j2] != ring@[f as int]);
                        } else if j < j2 {
                            assert(path@[j as int] != ring@[f as int]);
                        }
                    }
                },
                None => {},
            }
            f = f + 1;
        }
        i = i + 1;
    }
    true
}

/// The length of the axis interval from `lo` to `hi`, saturated at the
/// largest `usize`.
pub open spec fn axis_len(lo: int, hi: int) -> int {
    if hi - lo + 1 <= usize::MAX {
        hi - lo + 1
    } else {
        usize::MAX as int
    }
}

/// `a * b`, saturated at the largest `usize`.
pub open spec fn sat_mul(a: int, b: int) -> int {
    if a * b <= usize::MAX {
        a * b
    } else {
        usize::MAX as int
    }
}

/// The coordinate `axis` (0 for x, 1 for y, 2 for z) of `p`.
pub open spec fn coord(p: Pos, axis: int) -> int {
    if axis == 0 {
        p.x as int
    } else if axis == 1 {
        p.y as int
    } else {
        p.z as int
    }
}

/// The least coordinate `axis` of the positions, 0 when there are none.
pub open spec fn lowest(s: Seq<Pos>, axis: int) -> int
    decreases s.len(),
{
    if s.len() == 0 {
        0
    } else if s.len() == 1 {
        coord(s[0], axis)
    } else {
        let m = lowest(s.drop_last(), axis);
        if coord(s.last(), axis) < m {
            coord(s.last(), axis)
        } else {
            m
        }
    }
}

/// The greatest coordinate `axis` of the positions, 0 when there are none.
pub open spec fn highest(s: Seq<Pos>, axis: int) -> int
    decreases s.len(),
{
    if s.len() == 0 {
        0
    } else if s.len() == 1 {
        coord(s[0], axis)
    } else {
        let m = highest(s.drop_last(), axis);
        if coord(s.last(), axis) > m {
            coord(s.last(), axis)
        } else {
            m
        }
    }
}

proof fn lemma_low_high(s: Seq<Pos>, axis: int)
    ensures
        lowest(s, axis) <= highest(s, axis),
        i32::MIN <= lowest(s, axis) <= i32::MAX,
        i32::MIN <= highest(s, axis) <= i32::MAX,
    decreases s.len(),
{
    if s.len() > 1 {
        lemma_low_high(s.drop_last(), axis);
    }
}

/// The layout score of a set of positions: the volume of their bounding
/// box, their number, and that number less one.
pub open spec fn positions_score(s: Seq<Pos>) -> PhasedPhysicalScore {
    PhasedPhysicalScore {
        bounding_volume: sat_mul(
            sat_mul(axis_len(lowest(s, 0), highest(s, 0)), axis_len(lowest(s, 1), highest(s, 1))),
            axis_len(lowest(s, 2), highest(s, 2)),
        ) as usize,
        occupied_blocks: s.len() as usize,
        connector_length: if s.len() == 0 {
            0
        } else {
            (s.len() - 1) as usize
        },
    }
}

fn coord_of(p: Pos, axis: u8) -> (r: i32)
    requires
        axis < 3,
    ensures
        r == coord(p, axis as int),
{
    if axis == 0 {
        p.x
    } else if axis == 1 {
        p.y
    } else {
        p.z
    }
}

fn bounds_of(positions: &Vec<Pos>, axis: u8) -> (r: (i32, i32))
    requires
        axis < 3,
    ensures
        r.0 == lowest(positions@, axis as int),
        r.1 == highest(positions@, axis as int),
{
    let n = positions.len();
    if n == 0 {
        return (0, 0);
    }
    let mut lo = coord_of(positions[0], axis);
    let mut hi = lo;
    let mut i: usize = 1;
    while i < n
        invariant
            n == positions@.len(),
            axis < 3,
            1 <= i <= n,
            lo == lowest(positions@.take(i as int), axis as int),
            hi == highest(positions@.take(i as int), axis as int),
        decreases n - i,
    {
        let c = coord_of(positions[i], axis);
        assert(positions@.take(i + 1).drop_last() =~= positions@.take(i as int));
        if c < lo {
            lo = c;
        }
        if c > hi {
            hi = c;
        }
        i = i + 1;
    }
    assert(positions@.take(n as int) =~= positions@);
    (lo, hi)
}

fn interval_len(lo: i32, hi: i32) -> (r: usize)
    requires
        lo <= hi,
    ensures
        r == axis_len(lo as int, hi as int),
{
    let len: u64 = ((hi as i64) - (lo as i64)) as u64 + 1;
    if len <= usize::MAX as u64 {
        len as usize
    } else {
        usize::MAX
    }
}

fn saturating_product(a: usize, b: usize) -> (r: usize)
    ensures
        r == sat_mul(a as int, b as int),
{
    match a.checked_mul(b) {
        Some(v) => v,
        None => usize::MAX,
    }
}

/// The layout score of a set of positions.
pub fn score_positions(positions: &Vec<Pos>) -> (r: PhasedPhysicalScore)
    ensures
        r == positions_score(positions@),
{
    let (min_x, max_x) = bounds_of(positions, 0);
    let (min_y, max_y) = bounds_of(positions, 1);
    let (min_z, max_z) = bounds_of(positions, 2);
    proof {
        lemma_low_high(positions@, 0);
        lemma_low_high(positions@, 1);
        lemma_low_high(positions@, 2);
    }
    let volume = saturating_product(
        saturating_product(interval_len(min_x, max_x), interval_len(min_y, max_y)),
        interval_len(min_z, max_z),
    );
    PhasedPhysicalScore {
        bounding_volume: volume,
        occupied_blocks: positions.len(),
        connector_length: positions.len().saturating_sub(1),
    }
}

/// The adjacency lists a position `a` links to `b`.
pub open spec fn linked(adj: Seq<(Pos, Vec<Pos>)>, a: Pos, b: Pos) -> bool {
    exists|i: int| 0 <= i < adj.len() && adj[i].0 == a && #[trigger] adj[i].1@.contains(b)
}

/// `p` has an adjacency list.
pub open spec fn listed(adj: Seq<(Pos, Vec<Pos>)>, p: Pos) -> bool {
    exists|i: int| 0 <= i < adj.len() && #[trigger] adj[i].0 == p
}

/// Each step of `w` follows a link.
pub open spec fn is_walk(adj: Seq<(Pos, Vec<Pos>)>, w: Seq<Pos>) -> bool {
    forall|k: int| 0 <= k < w.len() - 1 ==> linked(adj, #[trigger] w[k], w[k + 1])
}

/// Some walk leads from `start` to `p`.
pub open spec fn reaches(adj: Seq<(Pos, Vec<Pos>)>, start: Pos, p: Pos) -> bool {
    exists|w: Seq<Pos>| w.len() >= 1 && w[0] == start && w.last() == p && #[trigger] is_walk(adj, w)
}

/// The positions reachable from `start`.
pub open spec fn reachable(adj: Seq<(Pos, Vec<Pos>)>, start: Pos) -> Set<Pos> {
    Set::new(|p: Pos| reaches(adj, start, p))
}

/// No position has two lists, and every position reachable from `start`
/// has one.
pub open spec fn closed_adjacency(adj: Seq<(Pos, Vec<Pos>)>, start: Pos) -> bool {
    &&& forall|i: int, j: int| 0 <= i < j < adj.len() ==> (#[trigger] adj[i]).0 != (#[trigger] adj[j]).0
    &&& forall|p: Pos| #[trigger] reaches(adj, start, p) ==> listed(adj, p)
}

proof fn lemma_reach_step(adj: Seq<(Pos, Vec<Pos>)>, start: Pos, p: Pos, n: Pos)
    requires
        reaches(adj, start, p),
        linked(adj, p, n),
    ensures
        reaches(adj, start, n),
{
    let w = choose|w: Seq<Pos>| w.len() >= 1 && w[0] == start && w.last() == p && #[trigger] is_walk(adj, w);
    let v = w.push(n);
    assert forall|k: int| 0 <= k < v.len() - 1 implies linked(adj, #[trigger] v[k], v[k + 1]) by {
        if k < w.len() - 1 {
            assert(v[k] == w[k] && v[k + 1] == w[k + 1]);
        } else {
            assert(v[k] == p && v[k + 1] == n);
        }
    }
    assert(is_walk(adj, v));
}

proof fn lemma_seen_bound(adj: Seq<(Pos, Vec<Pos>)>, s: Seq<Pos>)
    requires
        s.no_duplicates(),
        forall|j: int| 0 <= j < s.len() ==> listed(adj, #[trigger] s[j]),
    ensures
        s.len() <= adj.len(),
{
    let keys = Seq::new(adj.len(), |i: int| adj[i].0);
    s.unique_seq_to_set();
    keys.lemma_cardinality_of_set();
    assert(s.to_set().subset_of(keys.to_set())) by {
        assert forall|x: Pos| s.to_set().contains(x) implies keys.to_set().contains(x) by {
            let j = choose|j: int| 0 <= j < s.len() && s[j] == x;
            assert(listed(adj, s[j]));
            let i = choose|i: int| 0 <= i < adj.len() && #[trigger] adj[i].0 == s[j];
            assert(keys[i] == x);
        }
    }
    vstd::set_lib::lemma_len_subset(s.to_set(), keys.to_set());
}

/// Every walk from `start` stays among the positions seen, when every seen
/// position has had all its neighbours seen.
proof fn lemma_walk_seen(adj: Seq<(Pos, Vec<Pos>)>, seen: Seq<Pos>, w: Seq<Pos>, k: int)
    requires
        w.len() >= 1,
        seen.contains(w[0]),
        is_walk(adj, w),
        0 <= k < w.len(),
        forall|j: int, i: int, n: Pos|
            0 <= j < seen.len() && 0 <= i < adj.len() && adj[i].0 == #[trigger] seen[j] && #[trigger] adj[i].1@.contains(n)
                ==> seen.contains(n),
    ensures
        seen.contains(w[k]),
    decreases k,
{
    if k > 0 {
        lemma_walk_seen(adj, seen, w, k - 1);
        assert(linked(adj, w[k - 1], w[k]));
        let i = choose|i: int| 0 <= i < adj.len() && adj[i].0 == w[k - 1] && #[trigger] adj[i].1@.contains(w[k]);
        let j = choose|j: int| 0 <= j < seen.len() && seen[j] == w[k - 1];
        assert(adj[i].0 == seen[j]);
    }
}

fn entry_of(adjacency: &Vec<(Pos, Vec<Pos>)>, p: Pos) -> (r: usize)
    requires
        listed(adjacency@, p),
    ensures
        r < adjacency@.len(),
        adjacency@[r as int].0 == p,
{
    let n = adjacency.len();
    let mut i: usize = 0;
    while i < n
        invariant
            n == adjacency@.len(),
            i <= n,
            listed(adjacency@, p),
            forall|k: int| 0 <= k < i ==> adjacency@[k].0 != p,
        decreases n - i,
    {
        if adjacency[i].0 == p {
            return i;
        }
        i = i + 1;
    }
    proof {
        let k = choose|k: int| 0 <= k < adjacency@.len() && #[trigger] adjacency@[k].0 == p;
        assert(adjacency@[k].0 != p);
    }
    0
}

fn seen_contains(seen: &Vec<Pos>, p: Pos) -> (r: bool)
    ensures
        r == seen@.contains(p),
{
    let n = seen.len();
    let mut i: usize = 0;
    while i < n
        invariant
            n == seen@.len(),
            i <= n,
            forall|k: int| 0 <= k < i ==> seen@[k] != p,
        decreases n - i,
    {
        if seen[i] == p {
            return true;
        }
        i = i + 1;
    }
    false
}

/// The number of positions reachable from `start` through the adjacency
/// lists, `start` included.
pub fn connected_count(adjacency: &Vec<(Pos, Vec<Pos>)>, start: Pos) -> (r: usize)
    requires
        closed_adjacency(adjacency@, start),
    ensures
        reachable(adjacency@, start).finite(),
        r == reachable(adjacency@, start).len(),
{
    let ghost adj = adjacency@;
    let mut seen: Vec<Pos> = Vec::new();
    seen.push(start);
    proof {
        let w = seq![start];
        assert(is_walk(adj, w));
        assert(reaches(adj, start, start));
        lemma_seen_bound(adj, seen@);
    }
    let mut head: usize = 0;
    while head < seen.len()
        invariant
            adj == adjacency@,
            closed_adjacency(adj, start),
            seen@.no_duplicates(),
            head <= seen@.len() <= adj.len(),
            seen@.len() >= 1,
            seen@[0] == start,
            forall|j: int| 0 <= j < seen@.len() ==> reaches(adj, start, #[trigger] seen@[j]),
            forall|j: int| 0 <= j < seen@.len() ==> listed(adj, #[trigger] seen@[j]),
            forall|j: int, i: int, n: Pos|
                0 <= j < head && 0 <= i < adj.len() && adj[i].0 == #[trigger] seen@[j] && #[trigger] adj[i].1@.contains(n)
                    ==> seen@.contains(n),
        decreases adj.len() - head,
    {
        let p = seen[head];
        let e = entry_of(adjacency, p);
        let neighbors = &adjacency[e].1;
        let m = neighbors.len();
        let mut k: usize = 0;
        while k < m
            invariant
                adj == adjacency@,
                closed_adjacency(adj, start),
                e < adj.len(),
                adj[e as int].0 == p,
                *neighbors == adj[e as int].1,
                m == neighbors@.len(),
                k <= m,
                head < seen@.len() <= adj.len(),
                seen@[head as int] == p,
                seen@.no_duplicates(),
                seen@[0] == start,
                forall|j: int| 0 <= j < seen@.len() ==> reaches(adj, start, #[trigger] seen@[j]),
                forall|j: int| 0 <= j < seen@.len() ==> listed(adj, #[trigger] seen@[j]),
                forall|j: int, i: int, n: Pos|
                    0 <= j < head && 0 <= i < adj.len() && adj[i].0 == #[trigger] seen@[j] && #[trigger] adj[i].1@.contains(n)
                        ==> seen@.contains(n),
                forall|t: int| 0 <= t < k ==> seen@.contains(#[trigger] neighbors@[t]),
            decreases m - k,
        {
            let n = neighbors[k];
            if !seen_contains(&seen, n) {
                proof {
                    assert(adj[e as int].1@.contains(n));
                    assert(linked(adj, p, n));
                    lemma_reach_step(adj, start, p, n);
                    assert(listed(adj, n));
                }
                let ghost before = seen@;
                seen.push(n);
                proof {
                    assert forall|t: int| 0 <= t < k implies seen@.contains(#[trigger] neighbors@[t]) by {
                        let x = choose|x: int| 0 <= x < before.len() && before[x] == neighbors@[t];
                        assert(seen@[x] == neighbors@[t]);
                    }
                    assert forall|j: int, i: int, q: Pos|
                        0 <= j < head && 0 <= i < adj.len() && adj[i].0 == #[trigger] seen@[j] && #[trigger] adj[i].1@.contains(q)
                            implies seen@.contains(q) by {
                        assert(seen@[j] == before[j]);
                        assert(before.contains(q));
                        let x = choose|x: int| 0 <= x < before.len() && before[x] == q;
                        assert(seen@[x] == q);
                    }
                    lemma_seen_bound(adj, seen@);
                }
            }
            proof {
                assert(seen@.contains(neighbors@[k as int])) by {
                    if seen@.last() == n {
                        assert(seen@[seen@.len() - 1] == n);
                    }
                }
            }
            k = k + 1;
        }
        proof {
            assert forall|j: int, i: int, q: Pos|
                0 <= j < head + 1 && 0 <= i < adj.len() && adj[i].0 == #[trigger] seen@[j] && #[trigger] adj[i].1@.contains(q)
                    implies seen@.contains(q) by {
                if j == head {
                    if i != e {
                        assert(adj[i].0 == adj[e as int].0);
                        if i < e {
                            assert(adj[i].0 != adj[e as int].0);
                        } else {
                            assert(adj[e as int].0 != adj[i].0);
                        }
                    }
                    let t = choose|t: int| 0 <= t < neighbors@.len() && neighbors@[t] == q;
                    assert(seen@.contains(neighbors@[t]));
                }
            }
        }
        head = head + 1;
    }
    proof {
        let s = seen@;
        assert(reachable(adj, start) =~= s.to_set()) by {
            assert forall|p: Pos| reachable(adj, start).contains(p) implies s.to_set().contains(p) by {
                let w = choose|w: Seq<Pos>| w.len() >= 1 && w[0] == start && w.last() == p && #[trigger] is_walk(adj, w);
                assert(s[0] == start);
                lemma_walk_seen(adj, s, w, w.len() - 1);
            }
            assert forall|p: Pos| s.to_set().contains(p) implies reachable(adj, start).contains(p) by {
                let j = choose|j: int| 0 <= j < s.len() && s[j] == p;
                assert(reaches(adj, start, s[j]));
            }
        }
        s.unique_seq_to_set();
    }
    seen.len()
}

/// The region leaves one block of room beside it along x and z and one
/// below it, so that neighbours and supports of its positions exist.
pub open spec fn search_room(focus: Region) -> bool {
    &&& i32::MIN < focus.min.x && focus.max.x < i32::MAX
    &&& i32::MIN < focus.min.z && focus.max.z < i32::MAX
    &&& i32::MIN < focus.min.y
}

/// The block under `p` supports dust.
pub open spec fn stands_on_support(w: World, p: Pos) -> bool {
    match w.block_at(Pos { x: p.x, y: (p.y - 1) as i32, z: p.z }) {
        Some(b) => spec_redstone_traits(b).supports_dust_on_top,
        None => false,
    }
}

/// A path may step from `current` to `next`: a horizontal neighbour on the
/// same level, inside `focus`, free or part of the `original` network, and
/// standing on a block that supports dust.
pub open spec fn step_allowed(w: World, focus: Region, original: Seq<Pos>, current: Pos, next: Pos) -> bool {
    &&& horizontal_ring(current).contains(next)
    &&& next.y == current.y
    &&& region_contains(focus, next)
    &&& (original.contains(next) || kind_of(w.block_at(next)) == BlockKind::Air)
    &&& stands_on_support(w, next)
}

/// A partial path from `start`: distinct positions, each step allowed.
pub open spec fn partial_path(w: World, focus: Region, original: Seq<Pos>, start: Pos, p: Seq<Pos>) -> bool {
    &&& p.len() >= 1
    &&& p[0] == start
    &&& p.no_duplicates()
    &&& forall|i: int| 0 <= i < p.len() - 1 ==> step_allowed(w, focus, original, #[trigger] p[i], p[i + 1])
}

/// A candidate path: `target` distinct positions from `start` to `end`,
/// each step allowed, touching itself only between consecutive steps, and
/// covering another set of positions than `original`.
pub open spec fn candidate_path(
    w: World,
    focus: Region,
    original: Seq<Pos>,
    start: Pos,
    end: Pos,
    target: int,
    p: Seq<Pos>,
) -> bool {
    &&& partial_path(w, focus, original, start, p)
    &&& p.len() == target
    &&& p.last() == end
    &&& spec_induced_path(p)
    &&& p.to_set() != original.to_set()
}

/// Every path of `rs` is a candidate path.
#[verifier::opaque]
pub open spec fn all_candidates(
    w: World,
    focus: Region,
    original: Seq<Pos>,
    start: Pos,
    end: Pos,
    target: int,
    rs: Seq<Vec<Pos>>,
) -> bool {
    forall|k: int| 0 <= k < rs.len() ==> candidate_path(w, focus, original, start, end, target, #[trigger] rs[k]@)
}

fn contains_pos(s: &Vec<Pos>, p: Pos) -> (r: bool)
    ensures
        r == s@.contains(p),
{
    let n = s.len();
    let mut i: usize = 0;
    while i < n
        invariant
            n == s@.len(),
            i <= n,
            forall|k: int| 0 <= k < i ==> s@[k] != p,
        decreases n - i,
    {
        if s[i] == p {
            return true;
        }
        i = i + 1;
    }
    false
}

fn all_contained(a: &Vec<Pos>, b: &Vec<Pos>) -> (r: bool)
    ensures
        r == (forall|k: int| 0 <= k < a@.len() ==> b@.contains(#[trigger] a@[k])),
{
    let n = a.len();
    let mut i: usize = 0;
    while i < n
        invariant
            n == a@.len(),
            i <= n,
            forall|k: int| 0 <= k < i ==> b@.contains(#[trigger] a@[k]),
        decreases n - i,
    {
        if !contains_pos(b, a[i]) {
            return false;
        }
        i = i + 1;
    }
    true
}

fn same_position_set(a: &Vec<Pos>, b: &Vec<Pos>) -> (r: bool)
    ensures
        r == (a@.to_set() == b@.to_set()),
{
    let x = all_contained(a, b);
    let y = all_contained(b, a);
    proof {
        if x && y {
            assert forall|p: Pos| a@.to_set().contains(p) <==> b@.to_set().contains(p) by {
                if a@.contains(p) {
                    let k = choose|k: int| 0 <= k < a@.len() && a@[k] == p;
                    assert(b@.contains(a@[k]));
                }
                if b@.contains(p) {
                    let k = choose|k: int| 0 <= k < b@.len() && b@[k] == p;
                    assert(a@.contains(b@[k]));
                }
            }
            assert(a@.to_set() =~= b@.to_set());
        } else if !x {
            let k = choose|k: int| 0 <= k < a@.len() && !b@.contains(#[trigger] a@[k]);
            assert(a@.to_set().contains(a@[k]));
            assert(!b@.to_set().contains(a@[k]));
        } else {
            let k = choose|k: int| 0 <= k < b@.len() && !a@.contains(#[trigger] b@[k]);
            assert(b@.to_set().contains(b@[k]));
            assert(!a@.to_set().contains(b@[k]));
        }
    }
    x && y
}

fn copy_path(path: &Vec<Pos>) -> (r: Vec<Pos>)
    ensures
        r@ == path@,
{
    let mut out: Vec<Pos> = Vec::new();
    let n = path.len();
    let mut i: usize = 0;
    while i < n
        invariant
            n == path@.len(),
            i <= n,
            out@ == path@.take(i as int),
        decreases n - i,
    {
        out.push(path[i]);
        i = i + 1;
        assert(out@ =~= path@.take(i as int));
    }
    assert(path@.take(n as int) =~= path@);
    out
}

fn on_support(world: &World, p: Pos) -> (r: bool)
    requires
        world.wf(),
        i32::MIN < p.y,
    ensures
        r == stands_on_support(*world, p),
{
    match world.get(Pos { x: p.x, y: p.y - 1, z: p.z }) {
        Some(b) => b.redstone_traits().supports_dust_on_top,
        None => false,
    }
}

fn coord_gap(a: i32, b: i32) -> (r: u64)
    ensures
        r == distance(a as int, b as int),
{
    if a <= b {
        ((b as i64) - (a as i64)) as u64
    } else {
        ((a as i64) - (b as i64)) as u64
    }
}

/// Whether the search may extend `path`, which ends at `current`, by its
/// horizontal neighbour `next`.
fn step_ok(world: &World, focus: Region, original: &Vec<Pos>, path: &Vec<Pos>, current: Pos, next: Pos, end: Pos, target: usize) -> (r: bool)
    requires
        world.wf(),
        search_room(focus),
        horizontal_ring(current).contains(next),
    ensures
        r == (step_allowed(*world, focus, original@, current, next) && !path@.contains(next) && !(next == end && path@.len() + 1
            != target)),
{
    if next.y != current.y || !focus.contains(next) {
        return false;
    }
    if contains_pos(path, next) || (next == end && !(path.len() < target && target - path.len() == 1)) {
        return false;
    }
    if !contains_pos(original, next) && world.kind_at(next) != BlockKind::Air {
        return false;
    }
    on_support(world, next)
}

proof fn lemma_extend_path(w: World, focus: Region, original: Seq<Pos>, start: Pos, p: Seq<Pos>, next: Pos)
    requires
        partial_path(w, focus, original, start, p),
        step_allowed(w, focus, original, p.last(), next),
        !p.contains(next),
    ensures
        partial_path(w, focus, original, start, p.push(next)),
{
    let q = p.push(next);
    assert forall|i: int| 0 <= i < q.len() - 1 implies step_allowed(w, focus, original, #[trigger] q[i], q[i + 1]) by {
        if i < p.len() - 1 {
            assert(q[i] == p[i] && q[i + 1] == p[i + 1]);
        } else {
            assert(q[i] == p.last() && q[i + 1] == next);
        }
    }
    assert forall|a: int, b: int| 0 <= a < q.len() && 0 <= b < q.len() && a != b implies q[a] != q[b] by {
        if a < p.len() && b < p.len() {
            assert(q[a] == p[a] && q[b] == p[b]);
        } else if a == p.len() {
            assert(q[b] == p[b]);
        } else {
            assert(q[a] == p[a]);
        }
    }
}

#[verifier::rlimit(100)]
#[verifier::spinoff_prover]
fn visit<F: Fn() -> bool>(
    world: &World,
    focus: Region,
    original: &Vec<Pos>,
    start: Pos,
    end: Pos,
    target: usize,
    budget: PhysicalOptimizationSearchBudget,
    expired: &F,
    stats: &mut PhysicalOptimizationSearchStats,
    results: &mut Vec<Vec<Pos>>,
    path: &mut Vec<Pos>,
)
    requires
        world.wf(),
        call_requires(*expired, ()),
        search_room(focus),
        horizontal_room(start),
        partial_path(*world, focus, original@, start, old(path)@),
        all_candidates(*world, focus, original@, start, end, target as int, old(results)@),
        old(results)@.len() <= budget.max_candidates,
        old(stats).candidates + budget.max_candidates - old(results)@.len() <= usize::MAX,
    ensures
        final(path)@ == old(path)@,
        all_candidates(*world, focus, original@, start, end, target as int, final(results)@),
        old(results)@.len() <= final(results)@.len() <= budget.max_candidates,
        final(stats).candidates == old(stats).candidates + (final(results)@.len() - old(results)@.len()),
        final(stats).expansions >= old(stats).expansions,
        old(stats).expansions <= budget.max_expansions ==> final(stats).expansions <= budget.max_expansions,
    decreases budget.max_expansions - old(stats).expansions,
{
    if stats.expansions >= budget.max_expansions {
        stats.truncated = true;
        stats.stop_reason = Some("max_expansions");
        return;
    }
    if expired() {
        stats.truncated = true;
        stats.stop_reason = Some("time_budget");
        return;
    }
    if results.len() >= budget.max_candidates {
        stats.truncated = true;
        stats.stop_reason = Some("max_candidates");
        return;
    }
    stats.expansions = stats.expansions + 1;
    let current = path[path.len() - 1];
    let remaining: u64 = if target >= path.len() {
        (target - path.len()) as u64
    } else {
        0
    };
    let gap: u64 = coord_gap(current.x, end.x) + coord_gap(current.z, end.z);
    if gap > remaining || (remaining - gap) % 2 != 0 {
        return;
    }
    proof {
        assert forall|i: int| 0 <= i < path@.len() implies horizontal_room(#[trigger] path@[i]) by {
            if i > 0 {
                assert(step_allowed(*world, focus, original@, path@[i - 1], path@[i]));
            }
        }
        if path@.len() > 1 {
            assert(step_allowed(*world, focus, original@, path@[path@.len() - 2], path@[path@.len() - 1]));
        }
    }
    if path.len() == target {
        if current == end && induced_path(path.as_slice()) && !same_position_set(path, original) {
            let ghost before = results@;
            results.push(copy_path(path));
            stats.candidates = stats.candidates + 1;
            proof {
                reveal(all_candidates);
                assert forall|k: int| 0 <= k < results@.len() implies candidate_path(*world, focus, original@, start, end, target as int, #[trigger] results@[k]@) by {
                    if k < before.len() {
                        assert(results@[k] == before[k]);
                    }
                }
            }
        }
        return;
    }
    let ring = horizontal_neighbors(current);
    let ghost entry = path@;
    let mut f: usize = 0;
    while f < 4
        invariant
            world.wf(),
            call_requires(*expired, ()),
            search_room(focus),
            horizontal_room(start),
            partial_path(*world, focus, original@, start, entry),
            path@ == entry,
            current == entry.last(),
            ring@ == horizontal_ring(current),
            all_candidates(*world, focus, original@, start, end, target as int, results@),
            old(results)@.len() <= results@.len() <= budget.max_candidates,
            stats.candidates == old(stats).candidates + (results@.len() - old(results)@.len()),
            old(stats).candidates + budget.max_candidates - old(results)@.len() <= usize::MAX,
            stats.expansions > old(stats).expansions,
            stats.expansions <= budget.max_expansions,
            f <= 4,
        decreases 4 - f,
    {
        let next = ring[f];
        proof {
            assert(horizontal_ring(current).contains(ring@[f as int]));
        }
        let allowed = step_ok(world, focus, original, path, current, next, end, target);
        if allowed {
            let ghost p0 = path@;
            path.push(next);
            proof {
                lemma_extend_path(*world, focus, original@, start, p0, next);
                assert(path@ == p0.push(next));
            }
            visit(world, focus, original, start, end, target, budget, expired, stats, results, path);
            path.pop();
            proof {
                assert(path@ =~= p0);
            }
        }
        f = f + 1;
    }
}

/// Searches the dust paths of exactly `target_cells` positions from
/// `start` to `end` inside `focus`: each step to a free or original
/// position on the same level that stands on a dust support, the path
/// touching itself only between consecutive steps and covering other
/// positions than `original`. The search stops early when the budget's
/// expansions or candidates run out or `expired` reports that time is up;
/// every path it returns is such a candidate.
pub fn strength_preserving_paths<F: Fn() -> bool>(
    world: &World,
    focus: Region,
    original: &Vec<Pos>,
    start: Pos,
    end: Pos,
    target_cells: usize,
    budget: PhysicalOptimizationSearchBudget,
    stats: &mut PhysicalOptimizationSearchStats,
    expired: &F,
) -> (r: Vec<Vec<Pos>>)
    requires
        world.wf(),
        call_requires(*expired, ()),
        search_room(focus),
        horizontal_room(start),
        old(stats).candidates + budget.max_candidates <= usize::MAX,
    ensures
        forall|k: int| 0 <= k < r@.len() ==> candidate_path(*world, focus, original@, start, end, target_cells as int, #[trigger] r@[k]@),
        r@.len() <= budget.max_candidates,
        final(stats).candidates == old(stats).candidates + r@.len(),
        final(stats).expansions >= old(stats).expansions,
{
    let mut results: Vec<Vec<Pos>> = Vec::new();
    let mut path: Vec<Pos> = Vec::new();
    path.push(start);
    proof {
        assert(path@.no_duplicates());
    }
    proof {
        reveal(all_candidates);
    }
    visit(world, focus, original, start, end, target_cells, budget, expired, stats, &mut results, &mut path);
    proof {
        reveal(all_candidates);
    }
    results
}

} // verus!
