//! Metrics of an observed macro, used to rank replacement candidates, and
//! the search for a port mapping under which a catalog component computes
//! the observed truth table.

use vstd::prelude::*;

use crate::world::{in_box, Block, BlockKind, Pos, World};

verus! {

#[derive(Clone, Copy, Debug, PartialEq, Eq)]
pub struct ObservedMacroMetrics {
    pub bounding_size: [usize; 3],
    pub occupied_blocks: usize,
    pub dust_blocks: usize,
    pub repeater_count: usize,
}

/// `lo` and `hi` are the corners of the smallest box holding every entry.
pub open spec fn is_bounds(s: Seq<(Pos, Block)>, lo: Pos, hi: Pos) -> bool {
    &&& forall|i: int| 0 <= i < s.len() ==> in_box(lo, hi, #[trigger] s[i].0)
    &&& exists|i: int| 0 <= i < s.len() && #[trigger] s[i].0.x == lo.x
    &&& exists|i: int| 0 <= i < s.len() && #[trigger] s[i].0.y == lo.y
    &&& exists|i: int| 0 <= i < s.len() && #[trigger] s[i].0.z == lo.z
    &&& exists|i: int| 0 <= i < s.len() && #[trigger] s[i].0.x == hi.x
    &&& exists|i: int| 0 <= i < s.len() && #[trigger] s[i].0.y == hi.y
    &&& exists|i: int| 0 <= i < s.len() && #[trigger] s[i].0.z == hi.z
}

/// The number of blocks from `lo` to `hi` along one axis, or `usize::MAX`
/// when that does not fit.
pub open spec fn span(lo: i32, hi: i32) -> usize {
    if 0 <= hi - lo + 1 <= usize::MAX {
        (hi - lo + 1) as usize
    } else {
        usize::MAX
    }
}

/// The number of entries of `kind`.
pub open spec fn count_kind(s: Seq<(Pos, Block)>, kind: BlockKind) -> nat
    decreases s.len(),
{
    if s.len() == 0 {
        0
    } else {
        count_kind(s.drop_last(), kind) + if s.last().1.kind == kind {
            1nat
        } else {
            0nat
        }
    }
}

proof fn lemma_count_bounded(s: Seq<(Pos, Block)>, kind: BlockKind)
    ensures
        count_kind(s, kind) <= s.len(),
    decreases s.len(),
{
    if s.len() > 0 {
        lemma_count_bounded(s.drop_last(), kind);
    }
}

fn span_of(lo: i32, hi: i32) -> (r: usize)
    ensures
        r == span(lo, hi),
{
    let d: i64 = hi as i64 - lo as i64 + 1;
    if d >= 0 && (d as u64) <= (usize::MAX as u64) {
        d as usize
    } else {
        usize::MAX
    }
}

fn count_of(world: &World, kind: BlockKind) -> (r: usize)
    requires
        world.wf(),
    ensures
        r == count_kind(world@, kind),
{
    let entries = world.iter();
    let n = entries.len();
    let mut count: usize = 0;
    let mut i: usize = 0;
    while i < n
        invariant
            n == world@.len(),
            entries@ == world@,
            i <= n,
            count == count_kind(world@.take(i as int), kind),
        decreases n - i,
    {
        proof {
            assert(world@.take(i + 1).drop_last() =~= world@.take(i as int));
            lemma_count_bounded(world@.take(i as int), kind);
        }
        if entries[i].1.kind == kind {
            count = count + 1;
        }
        i = i + 1;
    }
    assert(world@.take(n as int) =~= world@);
    count
}

impl ObservedMacroMetrics {
    /// The metrics of an observed world: its bounding box, its blocks, its
    /// dust and its repeaters.
    pub fn from_world(world: &World) -> (r: ObservedMacroMetrics)
        requires
            world.wf(),
        ensures
            world@.len() == 0 ==> r.bounding_size@ == seq![0usize, 0usize, 0usize],
            world@.len() > 0 ==> exists|lo: Pos, hi: Pos|
                is_bounds(world@, lo, hi) && r.bounding_size@ == seq![span(lo.x, hi.x), span(lo.y, hi.y), span(lo.z, hi.z)],
            r.occupied_blocks == world@.len(),
            r.dust_blocks == count_kind(world@, BlockKind::RedstoneWire),
            r.repeater_count == count_kind(world@, BlockKind::Repeater),
    {
        let bounding_size = match world.bounds() {
            Some((lo, hi)) => {
                let size = [span_of(lo.x, hi.x), span_of(lo.y, hi.y), span_of(lo.z, hi.z)];
                assert(is_bounds(world@, lo, hi));
                assert(size@ =~= seq![span(lo.x, hi.x), span(lo.y, hi.y), span(lo.z, hi.z)]);
                size
            },
            None => {
                let size = [0, 0, 0];
                assert(size@ =~= seq![0usize, 0usize, 0usize]);
                size
            },
        };
        ObservedMacroMetrics {
            bounding_size,
            occupied_blocks: world.len(),
            dust_blocks: count_of(world, BlockKind::RedstoneWire),
            repeater_count: count_of(world, BlockKind::Repeater),
        }
    }

    /// The product of the three sizes, saturated at `usize::MAX`.
    pub open spec fn spec_bounding_volume(self) -> int {
        let a = self.bounding_size[0] as int;
        let b = self.bounding_size[1] as int;
        let c = self.bounding_size[2] as int;
        let ab = if a * b > usize::MAX {
            usize::MAX as int
        } else {
            a * b
        };
        if ab * c > usize::MAX {
            usize::MAX as int
        } else {
            ab * c
        }
    }

    pub fn bounding_volume(self) -> (r: usize)
        ensures
            r == self.spec_bounding_volume(),
    {
        let ab = saturating_product(self.bounding_size[0], self.bounding_size[1]);
        saturating_product(ab, self.bounding_size[2])
    }
}

fn saturating_product(a: usize, b: usize) -> (r: usize)
    ensures
        r == if a * b > usize::MAX {
            usize::MAX as int
        } else {
            a * b
        },
{
    match a.checked_mul(b) {
        Some(v) => v,
        None => usize::MAX,
    }
}

// Port mappings are searched over permutations in lexicographic order.

/// `q` lists each of `0..n` exactly once.
pub open spec fn is_permutation(q: Seq<usize>, n: nat) -> bool {
    &&& q.len() == n
    &&& q.no_duplicates()
    &&& forall|i: int| 0 <= i < q.len() ==> q[i] < n
    &&& forall|x: usize| x < n ==> q.contains(x)
}

/// `a` comes strictly before `b` in lexicographic order: they agree up to
/// some position, where `a` holds the smaller value.
pub open spec fn lex_lt(a: Seq<usize>, b: Seq<usize>) -> bool {
    exists|i: int| 0 <= i < a.len() && i < b.len() && a.take(i) == b.take(i) && #[trigger] a[i] < b[i]
}

/// Lexicographic order is asymmetric, hence irreflexive.
pub proof fn lemma_lex_lt_asymmetric(a: Seq<usize>, b: Seq<usize>)
    ensures
        !(lex_lt(a, b) && lex_lt(b, a)),
{
    if lex_lt(a, b) && lex_lt(b, a) {
        let i = choose|i: int| 0 <= i < a.len() && i < b.len() && a.take(i) == b.take(i) && #[trigger] a[i] < b[i];
        let j = choose|j: int| 0 <= j < b.len() && j < a.len() && b.take(j) == a.take(j) && #[trigger] b[j] < a[j];
        if i < j {
            assert(b.take(j)[i] == a.take(j)[i]);
        } else if j < i {
            assert(a.take(i)[j] == b.take(i)[j]);
        }
    }
}

/// The values of a sequence strictly increase.
pub open spec fn strictly_increasing(u: Seq<usize>) -> bool {
    forall|i: int, j: int| 0 <= i < j < u.len() ==> u[i] < u[j]
}

/// `q` orders exactly the values of `u`, each once.
pub open spec fn arranges(q: Seq<usize>, u: Seq<usize>) -> bool {
    &&& q.len() == u.len()
    &&& q.no_duplicates()
    &&& forall|x: usize| q.contains(x) <==> u.contains(x)
}

/// `items` are exactly the sequences `prefix + q` for the arrangements
/// `q` of `unused`, in strictly increasing lexicographic order.
pub open spec fn enumerates(items: Seq<Seq<usize>>, prefix: Seq<usize>, unused: Seq<usize>) -> bool {
    &&& forall|k: int|
        0 <= k < items.len() ==> (#[trigger] items[k]).len() == prefix.len() + unused.len() && items[k].take(
            prefix.len() as int,
        ) == prefix && arranges(items[k].skip(prefix.len() as int), unused)
    &&& forall|q: Seq<usize>| arranges(q, unused) ==> exists|k: int| 0 <= k < items.len() && #[trigger] items[k] == prefix + q
    &&& forall|i: int, j: int| 0 <= i < j < items.len() ==> lex_lt(#[trigger] items[i], #[trigger] items[j])
}

pub open spec fn views(r: Seq<Vec<usize>>) -> Seq<Seq<usize>> {
    r.map_values(|v: Vec<usize>| v@)
}

proof fn lemma_remove_contains(u: Seq<usize>, i: int, x: usize)
    requires
        strictly_increasing(u),
        0 <= i < u.len(),
    ensures
        u.remove(i).contains(x) <==> u.contains(x) && x != u[i],
        strictly_increasing(u.remove(i)),
{
    let r = u.remove(i);
    if r.contains(x) {
        let k = choose|k: int| 0 <= k < r.len() && r[k] == x;
        if k < i {
            assert(u[k] == x);
        } else {
            assert(u[k + 1] == x);
        }
    }
    if u.contains(x) && x != u[i] {
        let k = choose|k: int| 0 <= k < u.len() && u[k] == x;
        if k < i {
            assert(r[k] == x);
        } else {
            assert(r[k - 1] == x);
        }
    }
    assert forall|a: int, b: int| 0 <= a < b < r.len() implies r[a] < r[b] by {
        let a2 = if a < i { a } else { a + 1 };
        let b2 = if b < i { b } else { b + 1 };
        assert(r[a] == u[a2] && r[b] == u[b2]);
    }
}

/// Putting `u[i]` in front of an arrangement of the rest arranges `u`.
proof fn lemma_arranges_cons(u: Seq<usize>, i: int, q: Seq<usize>)
    requires
        strictly_increasing(u),
        0 <= i < u.len(),
        arranges(q, u.remove(i)),
    ensures
        arranges(seq![u[i]] + q, u),
{
    let v = u[i];
    let s = seq![v] + q;
    assert forall|x: usize| s.contains(x) <==> u.contains(x) by {
        lemma_remove_contains(u, i, x);
        if s.contains(x) {
            let k = choose|k: int| 0 <= k < s.len() && s[k] == x;
            if k > 0 {
                assert(q[k - 1] == x);
            }
        }
        if u.contains(x) && x != v {
            assert(q.contains(x));
            let k = choose|k: int| 0 <= k < q.len() && q[k] == x;
            assert(s[k + 1] == x);
        }
        if x == v {
            assert(s[0] == x);
        }
    }
    assert forall|a: int, b: int| 0 <= a < s.len() && 0 <= b < s.len() && a != b implies s[a] != s[b] by {
        lemma_remove_contains(u, i, v);
        if a == 0 {
            assert(q[b - 1] == s[b]);
            assert(q.contains(s[b]));
        } else if b == 0 {
            assert(q[a - 1] == s[a]);
            assert(q.contains(s[a]));
        } else {
            assert(s[a] == q[a - 1] && s[b] == q[b - 1]);
        }
    }
}

/// An arrangement of `u` starting with `u[i]` continues with an
/// arrangement of the rest.
proof fn lemma_arranges_tail(u: Seq<usize>, i: int, q: Seq<usize>)
    requires
        strictly_increasing(u),
        0 <= i < u.len(),
        arranges(q, u),
        q.len() > 0,
        q[0] == u[i],
    ensures
        arranges(q.drop_first(), u.remove(i)),
{
    let t = q.drop_first();
    assert forall|x: usize| t.contains(x) <==> u.remove(i).contains(x) by {
        lemma_remove_contains(u, i, x);
        if t.contains(x) {
            let k = choose|k: int| 0 <= k < t.len() && t[k] == x;
            assert(q[k + 1] == x);
            assert(q.contains(x));
            assert(x != q[0]);
        }
        if u.contains(x) && x != u[i] {
            assert(q.contains(x));
            let k = choose|k: int| 0 <= k < q.len() && q[k] == x;
            assert(k != 0);
            assert(t[k - 1] == x);
        }
    }
    assert forall|a: int, b: int| 0 <= a < t.len() && 0 <= b < t.len() && a != b implies t[a] != t[b] by {
        assert(t[a] == q[a + 1] && t[b] == q[b + 1]);
    }
}

fn copy_indices(v: &Vec<usize>) -> (r: Vec<usize>)
    ensures
        r@ == v@,
{
    let mut r: Vec<usize> = Vec::new();
    let mut i: usize = 0;
    while i < v.len()
        invariant
            i <= v.len(),
            r@ == v@.take(i as int),
        decreases v.len() - i,
    {
        r.push(v[i]);
        i = i + 1;
        assert(r@ =~= v@.take(i as int));
    }
    assert(v@.take(v.len() as int) =~= v@);
    r
}

/// After the branches for `u0[..index]`: `items` lists `p0` followed by
/// each arrangement of `u0` starting with one of those values, in strictly
/// increasing lexicographic order.
pub open spec fn enumerated_upto(items: Seq<Seq<usize>>, p0: Seq<usize>, u0: Seq<usize>, index: int) -> bool {
    &&& forall|k: int|
        0 <= k < items.len() ==> (#[trigger] items[k]).len() == p0.len() + u0.len() && items[k].take(p0.len() as int) == p0
            && arranges(items[k].skip(p0.len() as int), u0) && (index < u0.len() ==> items[k][p0.len() as int] < u0[index])
    &&& forall|q: Seq<usize>|
        arranges(q, u0) && q.len() > 0 && u0.take(index).contains(q[0]) ==> exists|k: int|
            0 <= k < items.len() && #[trigger] items[k] == p0 + q
    &&& forall|i: int, j: int| 0 <= i < j < items.len() ==> lex_lt(#[trigger] items[i], #[trigger] items[j])
}

/// Each item of the branch for `u0[index]` starts with `p0` and `u0[index]`
/// and arranges `u0` after `p0`.
proof fn lemma_branch_items(branch: Seq<Seq<usize>>, p0: Seq<usize>, u0: Seq<usize>, index: int, k: int)
    requires
        strictly_increasing(u0),
        0 <= index < u0.len(),
        0 <= k < branch.len(),
        branch[k].len() == p0.len() + 1 + u0.remove(index).len(),
        branch[k].take((p0.len() + 1) as int) == p0.push(u0[index]),
        arranges(branch[k].skip((p0.len() + 1) as int), u0.remove(index)),
    ensures
        branch[k].len() == p0.len() + u0.len(),
        branch[k].take(p0.len() as int) == p0,
        arranges(branch[k].skip(p0.len() as int), u0),
        branch[k][p0.len() as int] == u0[index],
{
    let value = u0[index];
    let pv = p0.push(value);
    let it = branch[k];
    let q = it.skip(pv.len() as int);
    assert(it.take(p0.len() as int) =~= p0) by {
        assert forall|t: int| 0 <= t < p0.len() implies it.take(p0.len() as int)[t] == p0[t] by {
            assert(it.take(pv.len() as int)[t] == pv[t]);
        }
    }
    assert(it[p0.len() as int] == value) by {
        assert(it.take(pv.len() as int)[p0.len() as int] == pv[p0.len() as int]);
    }
    lemma_arranges_cons(u0, index, q);
    assert(it.skip(p0.len() as int) =~= seq![value] + q);
}

/// Appending the branch for `u0[index]` extends the enumeration by one value.
proof fn lemma_enumerated_step(old_items: Seq<Seq<usize>>, branch: Seq<Seq<usize>>, p0: Seq<usize>, u0: Seq<usize>, index: int)
    requires
        strictly_increasing(u0),
        0 <= index < u0.len(),
        enumerated_upto(old_items, p0, u0, index),
        enumerates(branch, p0.push(u0[index]), u0.remove(index)),
    ensures
        enumerated_upto(old_items + branch, p0, u0, index + 1),
{
    let value = u0[index];
    let pv = p0.push(value);
    let items = old_items + branch;
    let n = u0.len();
    assert forall|k: int| 0 <= k < items.len() implies (#[trigger] items[k]).len() == p0.len() + u0.len()
        && items[k].take(p0.len() as int) == p0 && arranges(items[k].skip(p0.len() as int), u0)
        && (index + 1 < n ==> items[k][p0.len() as int] < u0[index + 1]) by {
        if k < old_items.len() {
            assert(items[k] == old_items[k]);
        } else {
            let kb = k - old_items.len();
            assert(items[k] == branch[kb]);
            assert(branch[kb].len() == pv.len() + u0.remove(index).len());
            lemma_branch_items(branch, p0, u0, index, kb);
        }
    }
    lemma_enumerated_cover(old_items, branch, p0, u0, index);
    lemma_enumerated_order(old_items, branch, p0, u0, index);
}

proof fn lemma_enumerated_cover(old_items: Seq<Seq<usize>>, branch: Seq<Seq<usize>>, p0: Seq<usize>, u0: Seq<usize>, index: int)
    requires
        strictly_increasing(u0),
        0 <= index < u0.len(),
        forall|q: Seq<usize>|
            arranges(q, u0) && q.len() > 0 && u0.take(index).contains(q[0]) ==> exists|k: int|
                0 <= k < old_items.len() && #[trigger] old_items[k] == p0 + q,
        forall|q: Seq<usize>|
            arranges(q, u0.remove(index)) ==> exists|k: int| 0 <= k < branch.len() && #[trigger] branch[k] == p0.push(u0[index]) + q,
    ensures
        forall|q: Seq<usize>|
            arranges(q, u0) && q.len() > 0 && u0.take(index + 1).contains(q[0]) ==> exists|k: int|
                0 <= k < (old_items + branch).len() && #[trigger] (old_items + branch)[k] == p0 + q,
{
    let items = old_items + branch;
    let pv = p0.push(u0[index]);
    assert forall|q: Seq<usize>|
        arranges(q, u0) && q.len() > 0 && u0.take(index + 1).contains(q[0]) implies exists|k: int|
            0 <= k < items.len() && #[trigger] items[k] == p0 + q by {
        let t = choose|t: int| 0 <= t < index + 1 && #[trigger] u0.take(index + 1)[t] == q[0];
        if t < index {
            assert(u0.take(index)[t] == q[0]);
            let k = choose|k: int| 0 <= k < old_items.len() && #[trigger] old_items[k] == p0 + q;
            assert(items[k] == p0 + q);
        } else {
            lemma_arranges_tail(u0, index, q);
            let k = choose|k: int| 0 <= k < branch.len() && #[trigger] branch[k] == pv + q.drop_first();
            assert(pv + q.drop_first() =~= p0 + q);
            assert(items[old_items.len() + k] == branch[k]);
        }
    }
}

proof fn lemma_enumerated_order(old_items: Seq<Seq<usize>>, branch: Seq<Seq<usize>>, p0: Seq<usize>, u0: Seq<usize>, index: int)
    requires
        strictly_increasing(u0),
        0 <= index < u0.len(),
        forall|k: int|
            0 <= k < old_items.len() ==> (#[trigger] old_items[k]).take(p0.len() as int) == p0 && old_items[k].len() > p0.len()
                && old_items[k][p0.len() as int] < u0[index],
        forall|i: int, j: int| 0 <= i < j < old_items.len() ==> lex_lt(#[trigger] old_items[i], #[trigger] old_items[j]),
        forall|k: int|
            0 <= k < branch.len() ==> (#[trigger] branch[k]).len() == p0.len() + 1 + u0.remove(index).len() && branch[k].take(
                (p0.len() + 1) as int,
            ) == p0.push(u0[index]) && arranges(branch[k].skip((p0.len() + 1) as int), u0.remove(index)),
        forall|i: int, j: int| 0 <= i < j < branch.len() ==> lex_lt(#[trigger] branch[i], #[trigger] branch[j]),
    ensures
        forall|i: int, j: int| 0 <= i < j < (old_items + branch).len() ==> lex_lt(#[trigger] (old_items + branch)[i], #[trigger] (old_items + branch)[j]),
{
    let items = old_items + branch;
    assert forall|i: int, j: int| 0 <= i < j < items.len() implies lex_lt(#[trigger] items[i], #[trigger] items[j]) by {
        if j < old_items.len() {
            assert(items[i] == old_items[i] && items[j] == old_items[j]);
        } else if i >= old_items.len() {
            assert(items[i] == branch[i - old_items.len()] && items[j] == branch[j - old_items.len()]);
        } else {
            let a = items[i];
            let b = items[j];
            let kb = j - old_items.len();
            assert(a == old_items[i]);
            assert(b == branch[kb]);
            lemma_branch_items(branch, p0, u0, index, kb);
            let p = p0.len() as int;
            assert(a.take(p) == b.take(p));
            assert(a[p] < b[p]);
        }
    }
}

/// Once every value has had its branch, the enumeration is complete.
proof fn lemma_enumerated_done(items: Seq<Seq<usize>>, p0: Seq<usize>, u0: Seq<usize>)
    requires
        u0.len() > 0,
        enumerated_upto(items, p0, u0, u0.len() as int),
    ensures
        enumerates(items, p0, u0),
{
    assert forall|q: Seq<usize>| arranges(q, u0) implies exists|k: int| 0 <= k < items.len() && #[trigger] items[k] == p0 + q by {
        assert(u0.contains(u0[0]));
        assert(q.contains(u0[0]));
        assert(q.len() > 0);
        assert(q.contains(q[0]));
        assert(u0.contains(q[0]));
        assert(u0.take(u0.len() as int) =~= u0);
    }
}

/// The views of `after` extend those of `before`, which extend those of
/// `r0`; the part after `r0` is the old part followed by the new one.
proof fn lemma_views_split(r0: Seq<Vec<usize>>, before: Seq<Vec<usize>>, after: Seq<Vec<usize>>)
    requires
        before.len() >= r0.len(),
        after.len() >= before.len(),
        views(before).take(r0.len() as int) == views(r0),
        views(after).take(before.len() as int) == views(before),
    ensures
        views(after).take(r0.len() as int) == views(r0),
        views(after).skip(r0.len() as int) == views(before).skip(r0.len() as int) + views(after).skip(before.len() as int),
{
    assert forall|k: int| 0 <= k < r0.len() implies views(after).take(r0.len() as int)[k] == views(r0)[k] by {
        assert(views(after).take(before.len() as int)[k] == views(before)[k]);
        assert(views(before).take(r0.len() as int)[k] == views(r0)[k]);
    }
    assert(views(after).take(r0.len() as int) =~= views(r0));
    let lhs = views(after).skip(r0.len() as int);
    let rhs = views(before).skip(r0.len() as int) + views(after).skip(before.len() as int);
    assert forall|k: int| 0 <= k < lhs.len() implies lhs[k] == rhs[k] by {
        if r0.len() + k < before.len() {
            assert(views(after).take(before.len() as int)[r0.len() + k] == views(before)[r0.len() + k]);
        }
    }
    assert(lhs =~= rhs);
}

/// Appends to `result`, in lexicographic order, `prefix` followed by each
/// arrangement of `unused`.
fn visit(prefix: &mut Vec<usize>, unused: &mut Vec<usize>, result: &mut Vec<Vec<usize>>)
    requires
        strictly_increasing(old(unused)@),
    ensures
        final(prefix)@ == old(prefix)@,
        final(unused)@ == old(unused)@,
        final(result)@.len() >= old(result)@.len(),
        views(final(result)@).take(old(result)@.len() as int) == views(old(result)@),
        enumerates(views(final(result)@).skip(old(result)@.len() as int), old(prefix)@, old(unused)@),
    decreases old(unused)@.len(),
{
    let ghost p0 = prefix@;
    let ghost u0 = unused@;
    let ghost r0 = result@;
    if unused.len() == 0 {
        let item = copy_indices(prefix);
        result.push(item);
        proof {
            let items = views(result@).skip(r0.len() as int);
            assert(views(result@).take(r0.len() as int) =~= views(r0));
            assert(items =~= seq![p0]);
            assert forall|q: Seq<usize>| arranges(q, u0) implies exists|k: int| 0 <= k < items.len() && #[trigger] items[k] == p0 + q by {
                assert(q =~= Seq::<usize>::empty());
                assert(p0 + q =~= p0);
                assert(items[0] == p0 + q);
            }
            assert(items[0].take(p0.len() as int) =~= p0);
            assert(items[0].skip(p0.len() as int) =~= Seq::<usize>::empty());
            assert forall|x: usize| Seq::<usize>::empty().contains(x) <==> u0.contains(x) by {}
        }
        return;
    }
    let n = unused.len();
    let mut index: usize = 0;
    proof {
        assert(views(result@).skip(r0.len() as int) =~= Seq::<Seq<usize>>::empty());
        assert(views(result@).take(r0.len() as int) =~= views(r0));
    }
    while index < n
        invariant
            n == u0.len(),
            u0 == old(unused)@,
            n > 0,
            index <= n,
            strictly_increasing(u0),
            prefix@ == p0,
            unused@ == u0,
            result@.len() >= r0.len(),
            views(result@).take(r0.len() as int) == views(r0),
            enumerated_upto(views(result@).skip(r0.len() as int), p0, u0, index as int),
        decreases n - index,
    {
        let ghost before = result@;
        let value = unused.remove(index);
        prefix.push(value);
        proof {
            lemma_remove_contains(u0, index as int, value);
        }
        visit(prefix, unused, result);
        prefix.pop();
        unused.insert(index, value);
        proof {
            assert(prefix@ =~= p0);
            assert(unused@ =~= u0);
            lemma_views_split(r0, before, result@);
            lemma_enumerated_step(
                views(before).skip(r0.len() as int),
                views(result@).skip(before.len() as int),
                p0,
                u0,
                index as int,
            );
        }
        index = index + 1;
    }
    proof {
        lemma_enumerated_done(views(result@).skip(r0.len() as int), p0, u0);
    }
}

/// Every permutation of `0..count`, in lexicographic order.
pub fn permutations(count: usize) -> (r: Vec<Vec<usize>>)
    ensures
        forall|k: int| 0 <= k < r@.len() ==> is_permutation(#[trigger] r@[k]@, count as nat),
        forall|q: Seq<usize>| is_permutation(q, count as nat) ==> exists|k: int| 0 <= k < r@.len() && #[trigger] r@[k]@ == q,
        forall|i: int, j: int| 0 <= i < j < r@.len() ==> lex_lt(#[trigger] r@[i]@, #[trigger] r@[j]@),
{
    let mut unused: Vec<usize> = Vec::new();
    let mut i: usize = 0;
    while i < count
        invariant
            i <= count,
            unused@.len() == i,
            forall|t: int| 0 <= t < i ==> unused@[t] == t,
        decreases count - i,
    {
        unused.push(i);
        i = i + 1;
    }
    let ghost u = unused@;
    let mut prefix: Vec<usize> = Vec::new();
    let mut result: Vec<Vec<usize>> = Vec::new();
    visit(&mut prefix, &mut unused, &mut result);
    proof {
        let items = views(result@).skip(0);
        assert(items =~= views(result@));
        assert forall|k: int| 0 <= k < result@.len() implies #[trigger] views(result@)[k] == result@[k]@ by {}
        assert forall|x: usize| u.contains(x) <==> x < count by {
            if x < count {
                assert(u[x as int] == x);
            }
        }
        assert forall|k: int| 0 <= k < result@.len() implies is_permutation(#[trigger] result@[k]@, count as nat) by {
            assert(items[k] == result@[k]@);
            assert(items[k].skip(0) =~= items[k]);
            let q = items[k];
            assert forall|t: int| 0 <= t < q.len() implies q[t] < count by {
                assert(q.contains(q[t]));
            }
        }
        assert forall|q: Seq<usize>| is_permutation(q, count as nat) implies exists|k: int| 0 <= k < result@.len() && #[trigger] result@[k]@ == q by {
            assert forall|x: usize| q.contains(x) <==> u.contains(x) by {
                if q.contains(x) {
                    let t = choose|t: int| 0 <= t < q.len() && q[t] == x;
                }
            }
            assert(Seq::<usize>::empty() + q =~= q);
            assert(arranges(q, u));
            let k = choose|k: int| 0 <= k < items.len() && #[trigger] items[k] == Seq::<usize>::empty() + q;
            assert(views(result@)[k] == result@[k]@);
        }
        assert forall|i: int, j: int| 0 <= i < j < result@.len() implies lex_lt(#[trigger] result@[i]@, #[trigger] result@[j]@) by {
            assert(items[i] == result@[i]@ && items[j] == result@[j]@);
        }
    }
    result
}

// The mapping search between an observed truth table and a catalog
// component's logical table.

/// The logical behavior of a catalog component, as the mapping search reads
/// it.
#[derive(Clone, Debug, PartialEq, Eq)]
pub struct ComponentLogic {
    pub stateful: bool,
    pub input_names: Vec<String>,
    pub output_names: Vec<String>,
    /// Each row lists the input values followed by the output values.
    pub truth_table: Vec<Vec<bool>>,
}

/// One observed combination of input values and the outputs it gave.
#[derive(Clone, Debug, PartialEq, Eq)]
pub struct ObservedTruthRow {
    pub inputs: Vec<bool>,
    pub outputs: Vec<bool>,
}

/// The observed truth table of a functional network.
#[derive(Clone, Debug, PartialEq, Eq)]
pub struct ObservedTruthTable {
    pub input_count: usize,
    pub output_count: usize,
    pub rows: Vec<ObservedTruthRow>,
}

impl ComponentLogic {
    pub open spec fn table(self) -> Seq<Seq<bool>> {
        self.truth_table@.map_values(|row: Vec<bool>| row@)
    }
}

impl ObservedTruthTable {
    /// Every row has one value per input and one per output.
    pub open spec fn well_shaped(self) -> bool {
        forall|r: int|
            0 <= r < self.rows@.len() ==> (#[trigger] self.rows@[r]).inputs@.len() == self.input_count
                && self.rows@[r].outputs@.len() == self.output_count
    }
}

/// The candidate's input values when observed input `o` drives candidate
/// input `pi[o]`.
pub open spec fn arranged_inputs(inputs: Seq<bool>, pi: Seq<usize>) -> Seq<bool> {
    Seq::new(pi.len(), |j: int| inputs[pi.index_of(j as usize)])
}

/// The outputs of the last row of `table` with exactly `n + m` values whose
/// first `n` values are `ins`.
pub open spec fn lookup_row(table: Seq<Seq<bool>>, n: nat, m: nat, ins: Seq<bool>) -> Option<Seq<bool>>
    decreases table.len(),
{
    if table.len() == 0 {
        None
    } else if table.last().len() == n + m && table.last().take(n as int) == ins {
        Some(table.last().skip(n as int))
    } else {
        lookup_row(table.drop_last(), n, m, ins)
    }
}

/// Under inputs mapped by `pi` and outputs mapped by `po`, the component
/// has a row for the observed inputs and gives every observed output.
pub open spec fn row_matches(logic: ComponentLogic, n: nat, m: nat, row: ObservedTruthRow, pi: Seq<usize>, po: Seq<usize>) -> bool {
    match lookup_row(logic.table(), n, m, arranged_inputs(row.inputs@, pi)) {
        None => false,
        Some(outs) => forall|o: int| 0 <= o < m ==> row.outputs@[o] == #[trigger] outs[po[o] as int],
    }
}

/// The component computes every observed row under the mappings `pi` and
/// `po`.
pub open spec fn mapping_matches(logic: ComponentLogic, table: ObservedTruthTable, pi: Seq<usize>, po: Seq<usize>) -> bool {
    forall|r: int|
        0 <= r < table.rows@.len() ==> row_matches(
            logic,
            table.input_count as nat,
            table.output_count as nat,
            #[trigger] table.rows@[r],
            pi,
            po,
        )
}

/// `names` picks, in order, the names at the indices `idx`.
pub open spec fn picks(names: Seq<String>, source: Seq<String>, idx: Seq<usize>) -> bool {
    &&& names.len() == idx.len()
    &&& forall|k: int| 0 <= k < idx.len() ==> (#[trigger] names[k])@ == source[idx[k] as int]@
}

/// The search applies: the component is stateless, its port counts match
/// the observation and neither count exceeds six.
pub open spec fn searchable(logic: ComponentLogic, table: ObservedTruthTable) -> bool {
    &&& !logic.stateful
    &&& logic.input_names@.len() == table.input_count
    &&& logic.output_names@.len() == table.output_count
    &&& table.input_count <= 6
    &&& table.output_count <= 6
}

/// Some pair of permutations maps the component onto the observation.
pub open spec fn mapping_exists(logic: ComponentLogic, table: ObservedTruthTable) -> bool {
    exists|pi: Seq<usize>, po: Seq<usize>|
        is_permutation(pi, table.input_count as nat) && is_permutation(po, table.output_count as nat)
            && #[trigger] mapping_matches(logic, table, pi, po)
}

/// `(pi, po)` is the first matching pair in lexicographic order, input
/// mapping first.
pub open spec fn first_mapping(logic: ComponentLogic, table: ObservedTruthTable, pi: Seq<usize>, po: Seq<usize>) -> bool {
    &&& is_permutation(pi, table.input_count as nat)
    &&& is_permutation(po, table.output_count as nat)
    &&& mapping_matches(logic, table, pi, po)
    &&& forall|pi2: Seq<usize>, po2: Seq<usize>|
        is_permutation(pi2, table.input_count as nat) && is_permutation(po2, table.output_count as nat) && (lex_lt(pi2, pi)
            || (pi2 == pi && lex_lt(po2, po))) ==> !#[trigger] mapping_matches(logic, table, pi2, po2)
}

fn arrange(inputs: &Vec<bool>, pi: &Vec<usize>) -> (r: Vec<bool>)
    requires
        is_permutation(pi@, pi@.len()),
        inputs@.len() == pi@.len(),
    ensures
        r@ == arranged_inputs(inputs@, pi@),
{
    let n = pi.len();
    let mut r: Vec<bool> = Vec::new();
    let mut j: usize = 0;
    while j < n
        invariant
            j <= n,
            n == pi@.len(),
            r@.len() == j,
        decreases n - j,
    {
        r.push(false);
        j = j + 1;
    }
    let mut o: usize = 0;
    while o < n
        invariant
            o <= n,
            n == pi@.len(),
            n == inputs@.len(),
            is_permutation(pi@, n as nat),
            r@.len() == n,
            forall|t: int| 0 <= t < o ==> r@[pi@[t] as int] == inputs@[t],
        decreases n - o,
    {
        let target = pi[o];
        r.set(target, inputs[o]);
        proof {
            assert forall|t: int| 0 <= t < o + 1 implies r@[pi@[t] as int] == inputs@[t] by {
                if t < o {
                    assert(pi@[t] != pi@[o as int]);
                }
            }
        }
        o = o + 1;
    }
    proof {
        assert forall|j2: int| 0 <= j2 < n implies r@[j2] == arranged_inputs(inputs@, pi@)[j2] by {
            assert(pi@.contains(j2 as usize));
            let t = pi@.index_of(j2 as usize);
            assert(0 <= t < n && pi@[t] == j2 as usize);
        }
        assert(r@ =~= arranged_inputs(inputs@, pi@));
    }
    r
}

fn same_prefix(row: &Vec<bool>, ins: &Vec<bool>) -> (r: bool)
    requires
        ins@.len() <= row@.len(),
    ensures
        r == (row@.take(ins@.len() as int) == ins@),
{
    let mut i: usize = 0;
    while i < ins.len()
        invariant
            i <= ins@.len(),
            ins@.len() <= row@.len(),
            forall|t: int| 0 <= t < i ==> row@[t] == ins@[t],
        decreases ins@.len() - i,
    {
        if row[i] != ins[i] {
            assert(row@.take(ins@.len() as int)[i as int] != ins@[i as int]);
            return false;
        }
        i = i + 1;
    }
    assert(row@.take(ins@.len() as int) =~= ins@);
    true
}

/// The index of the last row with `n + m` values starting with `ins`.
fn find_row(logic: &ComponentLogic, n: usize, m: usize, ins: &Vec<bool>) -> (r: Option<usize>)
    requires
        ins@.len() == n,
        n + m <= usize::MAX,
    ensures
        match r {
            None => lookup_row(logic.table(), n as nat, m as nat, ins@) is None,
            Some(k) => k < logic.truth_table@.len() && logic.table()[k as int].len() == n + m && lookup_row(
                logic.table(),
                n as nat,
                m as nat,
                ins@,
            ) == Some(logic.table()[k as int].skip(n as int)),
        },
{
    let mut i: usize = logic.truth_table.len();
    assert(logic.table().take(i as int) =~= logic.table());
    while i > 0
        invariant
            i <= logic.truth_table@.len(),
            ins@.len() == n,
            n + m <= usize::MAX,
            lookup_row(logic.table(), n as nat, m as nat, ins@) == lookup_row(logic.table().take(i as int), n as nat, m as nat, ins@),
        decreases i,
    {
        let ghost t = logic.table().take(i as int);
        assert(t.last() == logic.truth_table@[i - 1]@);
        assert(t.drop_last() =~= logic.table().take(i - 1));
        let row = &logic.truth_table[i - 1];
        if row.len() == n + m && same_prefix(row, ins) {
            return Some(i - 1);
        }
        i = i - 1;
    }
    None
}

/// Whether every observed row matches under `pi` and `po`.
fn mapping_holds(logic: &ComponentLogic, table: &ObservedTruthTable, pi: &Vec<usize>, po: &Vec<usize>) -> (r: bool)
    requires
        table.well_shaped(),
        is_permutation(pi@, table.input_count as nat),
        is_permutation(po@, table.output_count as nat),
        table.input_count <= 6,
        table.output_count <= 6,
    ensures
        r == mapping_matches(*logic, *table, pi@, po@),
{
    let n = table.input_count;
    let m = table.output_count;
    let mut r: usize = 0;
    while r < table.rows.len()
        invariant
            r <= table.rows@.len(),
            n == table.input_count,
            m == table.output_count,
            n <= 6,
            m <= 6,
            table.well_shaped(),
            is_permutation(pi@, n as nat),
            is_permutation(po@, m as nat),
            forall|t: int| 0 <= t < r ==> row_matches(*logic, n as nat, m as nat, #[trigger] table.rows@[t], pi@, po@),
        decreases table.rows@.len() - r,
    {
        let row = &table.rows[r];
        assert(row.inputs@.len() == n);
        let ins = arrange(&row.inputs, pi);
        let found = find_row(logic, n, m, &ins);
        match found {
            None => {
                assert(!row_matches(*logic, n as nat, m as nat, table.rows@[r as int], pi@, po@));
                return false;
            },
            Some(k) => {
                let full = &logic.truth_table[k];
                let ghost outs = logic.table()[k as int].skip(n as int);
                assert(full@ == logic.table()[k as int]);
                let mut o: usize = 0;
                while o < m
                    invariant
                        o <= m,
                        n == table.input_count,
                        m == table.output_count,
                        m <= 6,
                        n <= 6,
                        row.outputs@.len() == m,
                        full@.len() == n + m,
                        outs == full@.skip(n as int),
                        r < table.rows@.len(),
                        *row == table.rows@[r as int],
                        lookup_row(logic.table(), n as nat, m as nat, arranged_inputs(row.inputs@, pi@)) == Some(outs),
                        is_permutation(po@, m as nat),
                        forall|t: int| 0 <= t < o ==> row.outputs@[t] == #[trigger] outs[po@[t] as int],
                    decreases m - o,
                {
                    let at = n + po[o];
                    if row.outputs[o] != full[at] {
                        assert(outs[po@[o as int] as int] == full@[at as int]);
                        assert(row.outputs@[o as int] != outs[po@[o as int] as int]);
                        assert(lookup_row(logic.table(), n as nat, m as nat, arranged_inputs(table.rows@[r as int].inputs@, pi@))
                            == Some(outs));
                        proof {
                            let rr = table.rows@[r as int];
                            let oi = o as int;
                            let found_outs = lookup_row(logic.table(), n as nat, m as nat, arranged_inputs(rr.inputs@, pi@));
                            assert(found_outs->0 == outs);
                            if row_matches(*logic, n as nat, m as nat, rr, pi@, po@) {
                                assert(rr.outputs@[oi] == outs[po@[oi] as int]);
                            }
                        }
                        return false;
                    }
                    o = o + 1;
                }
                assert(row_matches(*logic, n as nat, m as nat, table.rows@[r as int], pi@, po@));
            },
        }
        r = r + 1;
    }
    true
}

fn pick_names(source: &Vec<String>, idx: &Vec<usize>) -> (r: Vec<String>)
    requires
        forall|k: int| 0 <= k < idx@.len() ==> idx@[k] < source@.len(),
    ensures
        picks(r@, source@, idx@),
{
    let mut r: Vec<String> = Vec::new();
    let mut k: usize = 0;
    while k < idx.len()
        invariant
            k <= idx@.len(),
            forall|t: int| 0 <= t < idx@.len() ==> idx@[t] < source@.len(),
            r@.len() == k,
            forall|t: int| 0 <= t < k ==> (#[trigger] r@[t])@ == source@[idx@[t] as int]@,
        decreases idx@.len() - k,
    {
        r.push(source[idx[k]].clone());
        k = k + 1;
    }
    r
}

/// The port names under which `logic` computes the observed table: for
/// each observed input and output, in order, the name of the component
/// port it maps to. The mappings tried are the permutations of the ports,
/// inputs first, in lexicographic order, and the first that matches every
/// observed row is taken. There is none for a stateful component, for
/// mismatched port counts and for more than six inputs or outputs.
pub fn truth_table_mapping(logic: &ComponentLogic, table: &ObservedTruthTable) -> (r: Option<(Vec<String>, Vec<String>)>)
    requires
        table.well_shaped(),
    ensures
        !searchable(*logic, *table) ==> r is None,
        searchable(*logic, *table) ==> (r is Some <==> mapping_exists(*logic, *table)),
        r matches Some((ins, outs)) ==> exists|pi: Seq<usize>, po: Seq<usize>|
            #[trigger] first_mapping(*logic, *table, pi, po) && picks(ins@, logic.input_names@, pi) && picks(
                outs@,
                logic.output_names@,
                po,
            ),
{
    if logic.stateful {
        return None;
    }
    let n = table.input_count;
    let m = table.output_count;
    if logic.input_names.len() != n || logic.output_names.len() != m || n > 6 || m > 6 {
        return None;
    }
    let input_perms = permutations(n);
    let output_perms = permutations(m);
    let mut i: usize = 0;
    while i < input_perms.len()
        invariant
            i <= input_perms@.len(),
            n == table.input_count,
            m == table.output_count,
            searchable(*logic, *table),
            table.well_shaped(),
            forall|k: int| 0 <= k < input_perms@.len() ==> is_permutation(#[trigger] input_perms@[k]@, n as nat),
            forall|q: Seq<usize>| is_permutation(q, n as nat) ==> exists|k: int| 0 <= k < input_perms@.len() && #[trigger] input_perms@[k]@ == q,
            forall|a: int, b: int| 0 <= a < b < input_perms@.len() ==> lex_lt(#[trigger] input_perms@[a]@, #[trigger] input_perms@[b]@),
            forall|k: int| 0 <= k < output_perms@.len() ==> is_permutation(#[trigger] output_perms@[k]@, m as nat),
            forall|q: Seq<usize>| is_permutation(q, m as nat) ==> exists|k: int| 0 <= k < output_perms@.len() && #[trigger] output_perms@[k]@ == q,
            forall|a: int, b: int| 0 <= a < b < output_perms@.len() ==> lex_lt(#[trigger] output_perms@[a]@, #[trigger] output_perms@[b]@),
            forall|k: int, po: Seq<usize>|
                0 <= k < i && is_permutation(po, m as nat) ==> !#[trigger] mapping_matches(*logic, *table, input_perms@[k]@, po),
        decreases input_perms@.len() - i,
    {
        let pi = &input_perms[i];
        let mut j: usize = 0;
        while j < output_perms.len()
            invariant
                forall|k: int| 0 <= k < input_perms@.len() ==> is_permutation(#[trigger] input_perms@[k]@, n as nat),
                forall|q: Seq<usize>| is_permutation(q, n as nat) ==> exists|k: int| 0 <= k < input_perms@.len() && #[trigger] input_perms@[k]@ == q,
                forall|a: int, b: int| 0 <= a < b < input_perms@.len() ==> lex_lt(#[trigger] input_perms@[a]@, #[trigger] input_perms@[b]@),
                forall|q: Seq<usize>| is_permutation(q, m as nat) ==> exists|k: int| 0 <= k < output_perms@.len() && #[trigger] output_perms@[k]@ == q,
                forall|a: int, b: int| 0 <= a < b < output_perms@.len() ==> lex_lt(#[trigger] output_perms@[a]@, #[trigger] output_perms@[b]@),
                forall|k: int, po: Seq<usize>|
                    0 <= k < i && is_permutation(po, m as nat) ==> !#[trigger] mapping_matches(*logic, *table, input_perms@[k]@, po),
                j <= output_perms@.len(),
                i < input_perms@.len(),
                pi@ == input_perms@[i as int]@,
                n == table.input_count,
                m == table.output_count,
                searchable(*logic, *table),
                table.well_shaped(),
                is_permutation(pi@, n as nat),
                forall|k: int| 0 <= k < output_perms@.len() ==> is_permutation(#[trigger] output_perms@[k]@, m as nat),
                forall|k: int| 0 <= k < j ==> !#[trigger] mapping_matches(*logic, *table, pi@, output_perms@[k]@),
            decreases output_perms@.len() - j,
        {
            let po = &output_perms[j];
            if mapping_holds(logic, table, pi, po) {
                let ins = pick_names(&logic.input_names, pi);
                let outs = pick_names(&logic.output_names, po);
                proof {
                    assert forall|pi2: Seq<usize>, po2: Seq<usize>|
                        is_permutation(pi2, n as nat) && is_permutation(po2, m as nat) && (lex_lt(pi2, pi@) || (pi2 == pi@
                            && lex_lt(po2, po@))) implies !#[trigger] mapping_matches(*logic, *table, pi2, po2) by {
                        let a = choose|a: int| 0 <= a < input_perms@.len() && #[trigger] input_perms@[a]@ == pi2;
                        let b = choose|b: int| 0 <= b < output_perms@.len() && #[trigger] output_perms@[b]@ == po2;
                        lemma_lex_lt_asymmetric(pi2, pi@);
                        lemma_lex_lt_asymmetric(po2, po@);
                        if lex_lt(pi2, pi@) {
                            if a > i {
                                assert(lex_lt(input_perms@[i as int]@, input_perms@[a]@));
                            }
                            assert(a != i);
                            assert(a < i);
                        } else {
                            if b > j {
                                assert(lex_lt(output_perms@[j as int]@, output_perms@[b]@));
                            }
                            assert(b != j);
                            assert(b < j);
                        }
                    }
                    assert(first_mapping(*logic, *table, pi@, po@));
                }
                return Some((ins, outs));
            }
            j = j + 1;
        }
        proof {
            assert forall|k: int, po: Seq<usize>|
                0 <= k < i + 1 && is_permutation(po, m as nat) implies !#[trigger] mapping_matches(*logic, *table, input_perms@[k]@, po) by {
                if k == i {
                    let b = choose|b: int| 0 <= b < output_perms@.len() && #[trigger] output_perms@[b]@ == po;
                }
            }
        }
        i = i + 1;
    }
    proof {
        if mapping_exists(*logic, *table) {
            let (pi, po) = choose|pi: Seq<usize>, po: Seq<usize>|
                is_permutation(pi, table.input_count as nat) && is_permutation(po, table.output_count as nat)
                    && #[trigger] mapping_matches(*logic, *table, pi, po);
            let a = choose|a: int| 0 <= a < input_perms@.len() && #[trigger] input_perms@[a]@ == pi;
            assert(!mapping_matches(*logic, *table, input_perms@[a]@, po));
        }
    }
    None
}

/// The game editions and versions a catalog component is known to work in.
#[derive(Clone, Debug, PartialEq, Eq)]
pub struct ComponentCompatibility {
    pub edition: String,
    /// The versions it works in; empty when not restricted.
    pub versions: Vec<String>,
    pub incompatible_versions: Vec<String>,
}

/// `version` is one of `list`.
pub open spec fn lists_version(list: Seq<String>, version: Seq<char>) -> bool {
    exists|i: int| 0 <= i < list.len() && (#[trigger] list[i])@ == version
}

fn any_equal(list: &Vec<String>, version: &str) -> (r: bool)
    ensures
        r == lists_version(list@, version@),
{
    let mut i: usize = 0;
    while i < list.len()
        invariant
            i <= list@.len(),
            forall|t: int| 0 <= t < i ==> (#[trigger] list@[t])@ != version@,
        decreases list@.len() - i,
    {
        if crate::text::str_eq(list[i].as_str(), version) {
            return true;
        }
        i = i + 1;
    }
    false
}

/// Whether a component with this compatibility record may replace a macro
/// in `edition` at `version`: the record exists, names the edition, does
/// not list the version as incompatible, and lists it as supported unless
/// no supported versions are listed.
pub fn compatible(compatibility: &Option<ComponentCompatibility>, edition: &str, version: &str) -> (r: bool)
    ensures
        r == (compatibility matches Some(c) && c.edition@ == edition@ && !lists_version(c.incompatible_versions@, version@)
            && (c.versions@.len() == 0 || lists_version(c.versions@, version@))),
{
    match compatibility {
        None => false,
        Some(c) => crate::text::str_eq(c.edition.as_str(), edition) && !any_equal(&c.incompatible_versions, version) && (
        c.versions.len() == 0 || any_equal(&c.versions, version)),
    }
}

} // verus!
