//! Bounded redstone signal propagation helpers.
//!
//! Only the block-only subset needed by the world-driven runner is modeled:
//! wire levels, lamps, simple sources, and repeaters with one directional
//! rear-input/front-output path. Unknown observed state is an error, never
//! an unpowered source.

use vstd::prelude::*;

use crate::delta::{
    before_matches, region_contains, sorted_regions, spec_around, spec_shape_id, BlockChange,
    ChangeReason, DeltaCause, Region, RegionSet, WorldDelta,
};
use crate::text::{
    bool_to_string, parse_bool, parse_u8, spec_bool_text, spec_decimal, spec_parse_bool,
    spec_parse_u8, u8_to_string,
};
use crate::world::{
    facing_opposite, is_horizontal, neighbor, neighbor_of, neighbors_in_range, opt_view, pos_lt,
    same_block, wire_lookup, Block, BlockKind, Facing, Pos, WireConnection, World,
};

verus! {

/// An observed redstone state that cannot be evaluated conservatively.
#[allow(inconsistent_fields)]
#[derive(Clone, Debug, PartialEq, Eq)]
pub enum RedstonePropagationError {
    UnknownState { position: Pos, kind: BlockKind, reason: String },
    UnsupportedComponent { position: Pos, kind: BlockKind, reason: String },
    InvalidRepeaterDelay { position: Pos, delay: u8 },
}

/// Why propagation refuses to evaluate a block.
pub enum RedstoneFailure {
    Unknown(Pos, BlockKind, Seq<char>),
    Unsupported(Pos, BlockKind, Seq<char>),
    InvalidDelay(Pos, u8),
}

/// The error `e` reports the failure `f`.
pub open spec fn reports_redstone(e: RedstonePropagationError, f: RedstoneFailure) -> bool {
    match (e, f) {
        (RedstonePropagationError::UnknownState { position, kind, reason }, RedstoneFailure::Unknown(
            p,
            k,
            r,
        )) => position == p && kind == k && reason@ == r,
        (
            RedstonePropagationError::UnsupportedComponent { position, kind, reason },
            RedstoneFailure::Unsupported(p, k, r),
        ) => position == p && kind == k && reason@ == r,
        (RedstonePropagationError::InvalidRepeaterDelay { position, delay }, RedstoneFailure::InvalidDelay(
            p,
            d,
        )) => position == p && delay == d,
        _ => false,
    }
}

/// `r` carries the outcome `s`: the same value, or an error reporting the
/// same failure.
pub open spec fn outcome_is<T>(r: Result<T, RedstonePropagationError>, s: Result<T, RedstoneFailure>) -> bool {
    match (r, s) {
        (Ok(a), Ok(b)) => a == b,
        (Err(e), Err(f)) => reports_redstone(e, f),
        _ => false,
    }
}

pub open spec fn outside_text() -> Seq<char> {
    "propagation reached outside the complete observed region"@
}

/// The failure of a lookup outside the known region, if it is outside.
pub open spec fn known_failure(known: Option<Region>, p: Pos, kind: BlockKind) -> Option<RedstoneFailure> {
    match known {
        Some(r) => if region_contains(r, p) {
            None
        } else {
            Some(RedstoneFailure::Unknown(p, kind, outside_text()))
        },
        None => None,
    }
}

fn ensure_known(known_region: Option<Region>, position: Pos, kind: BlockKind) -> (r: Result<(), RedstonePropagationError>)
    ensures
        match known_failure(known_region, position, kind) {
            None => r is Ok,
            Some(f) => r matches Err(e) && reports_redstone(e, f),
        },
{
    match known_region {
        Some(region) => {
            if !region.contains(position) {
                return Err(
                    RedstonePropagationError::UnknownState {
                        position,
                        kind,
                        reason: "propagation reached outside the complete observed region".to_owned(),
                    },
                );
            }
        },
        None => {},
    }
    Ok(())
}

/// Validates that a lookup is inside the caller's complete observation
/// boundary.
pub fn redstone_position_known(known_region: Option<Region>, position: Pos) -> (r: Result<(), RedstonePropagationError>)
    ensures
        match known_failure(known_region, position, BlockKind::Air) {
            None => r is Ok,
            Some(f) => r matches Err(e) && reports_redstone(e, f),
        },
{
    ensure_known(known_region, position, BlockKind::Air)
}

// ---------------------------------------------------------------------------
// Observed block state.
// ---------------------------------------------------------------------------

pub open spec fn observed_bool(b: Block, key: Seq<char>) -> Option<bool> {
    match b.observed_properties.lookup(key) {
        Some(v) => spec_parse_bool(v),
        None => None,
    }
}

pub open spec fn observed_u8(b: Block, key: Seq<char>) -> Option<u8> {
    match b.observed_properties.lookup(key) {
        Some(v) => spec_parse_u8(v),
        None => None,
    }
}

/// `a`, or `b` when `a` is absent.
pub open spec fn or_else<T>(a: Option<T>, b: Option<T>) -> Option<T> {
    match a {
        Some(x) => Some(x),
        None => b,
    }
}

/// `v` for a synthetic block (one without an observed identifier).
pub open spec fn synthetic<T>(b: Block, v: T) -> Option<T> {
    if b.observed_name is None {
        Some(v)
    } else {
        None
    }
}

/// Full strength for a powered flag, zero for an unpowered one.
pub open spec fn flag_level(o: Option<bool>) -> Option<u8> {
    match o {
        Some(true) => Some(15u8),
        Some(false) => Some(0u8),
        None => None,
    }
}

fn observed_bool_property(block: &Block, key: &str) -> (r: Option<bool>)
    ensures
        r == observed_bool(*block, key@),
{
    match block.observed_properties.get(key) {
        Some(v) => parse_bool(v.as_str()),
        None => None,
    }
}

fn observed_u8_property(block: &Block, key: &str) -> (r: Option<u8>)
    ensures
        r == observed_u8(*block, key@),
{
    match block.observed_properties.get(key) {
        Some(v) => parse_u8(v.as_str()),
        None => None,
    }
}

fn flag_to_level(o: Option<bool>) -> (r: Option<u8>)
    ensures
        r == flag_level(o),
{
    match o {
        Some(true) => Some(15),
        Some(false) => Some(0),
        None => None,
    }
}

/// The observed power of a wire.
pub open spec fn spec_wire_level(b: Block, p: Pos) -> Result<u8, RedstoneFailure> {
    match or_else(or_else(b.power_level, observed_u8(b, "power"@)), synthetic(b, 0u8)) {
        Some(l) => Ok(l),
        None => Err(RedstoneFailure::Unknown(p, b.kind, "wire power level is missing"@)),
    }
}

fn wire_level(block: &Block, position: Pos) -> (r: Result<u8, RedstonePropagationError>)
    ensures
        outcome_is(r, spec_wire_level(*block, position)),
{
    match block.power_level {
        Some(l) => Ok(l),
        None => match observed_u8_property(block, "power") {
            Some(l) => Ok(l),
            None => if block.observed_name.is_none() {
                Ok(0)
            } else {
                Err(
                    RedstonePropagationError::UnknownState {
                        position,
                        kind: block.kind,
                        reason: "wire power level is missing".to_owned(),
                    },
                )
            },
        },
    }
}

/// Whether a wire has an arm toward `toward`; a synthetic wire without a
/// recorded shape connects everywhere.
pub open spec fn spec_wire_connects(b: Block, p: Pos, toward: Facing) -> Result<bool, RedstoneFailure> {
    match b.wire_connections {
        Some(c) => Ok(
            match wire_lookup(c, toward) {
                Some(x) => x != WireConnection::Disconnected,
                None => false,
            },
        ),
        None => if b.observed_name is Some {
            Err(RedstoneFailure::Unknown(p, b.kind, "observed wire connection shape is missing"@))
        } else {
            Ok(true)
        },
    }
}

fn wire_connects(block: &Block, position: Pos, toward: Facing) -> (r: Result<bool, RedstonePropagationError>)
    ensures
        outcome_is(r, spec_wire_connects(*block, position, toward)),
{
    match &block.wire_connections {
        Some(connections) => Ok(
            match connections.get(toward) {
                Some(c) => c != WireConnection::Disconnected,
                None => false,
            },
        ),
        None => if block.observed_name.is_some() {
            Err(
                RedstonePropagationError::UnknownState {
                    position,
                    kind: block.kind,
                    reason: "observed wire connection shape is missing".to_owned(),
                },
            )
        } else {
            Ok(true)
        },
    }
}

/// The signal strength a block emits.
pub open spec fn spec_source_signal(b: Block, p: Pos) -> Result<u8, RedstoneFailure> {
    if b.kind is RedstoneWire {
        spec_wire_level(b, p)
    } else {
        let level = match b.kind {
            BlockKind::RedstoneBlock => flag_level(
                or_else(or_else(b.powered, synthetic(b, true)), observed_bool(b, "powered"@)),
            ),
            BlockKind::RedstoneTorch => flag_level(
                or_else(or_else(b.powered, observed_bool(b, "lit"@)), synthetic(b, true)),
            ),
            BlockKind::Lever | BlockKind::Button | BlockKind::PressurePlate => flag_level(
                or_else(or_else(b.powered, observed_bool(b, "powered"@)), synthetic(b, false)),
            ),
            BlockKind::Repeater | BlockKind::Comparator | BlockKind::Observer => or_else(
                or_else(b.power_level, flag_level(or_else(b.powered, observed_bool(b, "powered"@)))),
                synthetic(b, 0u8),
            ),
            _ => Some(0u8),
        };
        match level {
            Some(l) => Ok(l),
            None => Err(RedstoneFailure::Unknown(p, b.kind, "source power state is missing"@)),
        }
    }
}

fn source_signal(block: &Block, position: Pos) -> (r: Result<u8, RedstonePropagationError>)
    ensures
        outcome_is(r, spec_source_signal(*block, position)),
{
    let synthetic = block.observed_name.is_none();
    let level: Option<u8> = match block.kind {
        BlockKind::RedstoneWire => {
            return wire_level(block, position);
        },
        BlockKind::RedstoneBlock => flag_to_level(
            match block.powered {
                Some(v) => Some(v),
                None => if synthetic {
                    Some(true)
                } else {
                    observed_bool_property(block, "powered")
                },
            },
        ),
        BlockKind::RedstoneTorch => flag_to_level(
            match block.powered {
                Some(v) => Some(v),
                None => match observed_bool_property(block, "lit") {
                    Some(v) => Some(v),
                    None => if synthetic {
                        Some(true)
                    } else {
                        None
                    },
                },
            },
        ),
        BlockKind::Lever | BlockKind::Button | BlockKind::PressurePlate => flag_to_level(
            match block.powered {
                Some(v) => Some(v),
                None => match observed_bool_property(block, "powered") {
                    Some(v) => Some(v),
                    None => if synthetic {
                        Some(false)
                    } else {
                        None
                    },
                },
            },
        ),
        BlockKind::Repeater | BlockKind::Comparator | BlockKind::Observer => match block.power_level {
            Some(l) => Some(l),
            None => match flag_to_level(
                match block.powered {
                    Some(v) => Some(v),
                    None => observed_bool_property(block, "powered"),
                },
            ) {
                Some(l) => Some(l),
                None => if synthetic {
                    Some(0)
                } else {
                    None
                },
            },
        },
        _ => Some(0),
    };
    match level {
        Some(l) => Ok(l),
        None => Err(
            RedstonePropagationError::UnknownState {
                position,
                kind: block.kind,
                reason: "source power state is missing".to_owned(),
            },
        ),
    }
}

/// Directional components emit only toward their facing.
pub open spec fn spec_source_signal_toward(b: Block, p: Pos, toward: Facing) -> Result<u8, RedstoneFailure> {
    if b.kind is Repeater || b.kind is Comparator || b.kind is Observer {
        match b.facing {
            Some(f) => if f != toward {
                Ok(0u8)
            } else {
                spec_source_signal(b, p)
            },
            None => if b.observed_name is Some {
                Err(RedstoneFailure::Unknown(p, b.kind, "observed directional source has no facing"@))
            } else {
                Ok(0u8)
            },
        }
    } else {
        spec_source_signal(b, p)
    }
}

fn source_signal_toward(block: &Block, position: Pos, toward: Facing) -> (r: Result<u8, RedstonePropagationError>)
    ensures
        outcome_is(r, spec_source_signal_toward(*block, position, toward)),
{
    if matches!(block.kind, BlockKind::Repeater | BlockKind::Comparator | BlockKind::Observer) {
        match block.facing {
            Some(f) => {
                if f != toward {
                    return Ok(0);
                }
            },
            None => {
                if block.observed_name.is_some() {
                    return Err(
                        RedstonePropagationError::UnknownState {
                            position,
                            kind: block.kind,
                            reason: "observed directional source has no facing".to_owned(),
                        },
                    );
                }
                return Ok(0);
            },
        }
    }
    source_signal(block, position)
}

// ---------------------------------------------------------------------------
// Received signal.
// ---------------------------------------------------------------------------

/// The horizontal directions in evaluation order.
pub open spec fn horizontal_at(i: int) -> Facing {
    if i == 0 {
        Facing::North
    } else if i == 1 {
        Facing::East
    } else if i == 2 {
        Facing::South
    } else {
        Facing::West
    }
}

/// The signal a source at `sp` offers toward a target on its `f`-opposite
/// side: a wire loses one level, other sources emit toward the target.
pub open spec fn offered(src: Block, sp: Pos, f: Facing) -> Result<u8, RedstoneFailure> {
    if src.kind is RedstoneWire {
        match spec_wire_connects(src, sp, facing_opposite(f)) {
            Err(e) => Err(e),
            Ok(false) => Ok(0u8),
            Ok(true) => match spec_wire_level(src, sp) {
                Err(e) => Err(e),
                Ok(l) => Ok(if l > 0 { (l - 1) as u8 } else { 0u8 }),
            },
        }
    } else {
        spec_source_signal_toward(src, sp, facing_opposite(f))
    }
}

/// What the target at `t` receives from its `i`-th horizontal neighbor. A
/// wire target only listens through its arms.
pub open spec fn contribution(w: World, known: Option<Region>, t: Pos, i: int) -> Result<u8, RedstoneFailure> {
    let f = horizontal_at(i);
    let sp = neighbor(t, f);
    match known_failure(known, sp, BlockKind::Air) {
        Some(e) => Err(e),
        None => match w.block_at(sp) {
            None => Ok(0u8),
            Some(src) => match w.block_at(t) {
                None => Ok(0u8),
                Some(tb) => {
                    let gate = if tb.kind is RedstoneWire {
                        spec_wire_connects(tb, t, f)
                    } else {
                        Ok(true)
                    };
                    match gate {
                        Err(e) => Err(e),
                        Ok(false) => Ok(0u8),
                        Ok(true) => offered(src, sp, f),
                    }
                },
            },
        },
    }
}

/// The strongest signal among the first `n` horizontal neighbors; the first
/// failure in evaluation order wins.
pub open spec fn received(w: World, known: Option<Region>, t: Pos, n: nat) -> Result<u8, RedstoneFailure>
    decreases n,
{
    if n == 0 {
        Ok(0u8)
    } else {
        match received(w, known, t, (n - 1) as nat) {
            Err(e) => Err(e),
            Ok(m) => match contribution(w, known, t, n - 1) {
                Err(e) => Err(e),
                Ok(c) => Ok(if m >= c { m } else { c }),
            },
        }
    }
}

fn horizontal_facing(i: usize) -> (r: Facing)
    requires
        i < 4,
    ensures
        r == horizontal_at(i as int),
{
    if i == 0 {
        Facing::North
    } else if i == 1 {
        Facing::East
    } else if i == 2 {
        Facing::South
    } else {
        Facing::West
    }
}

fn offered_signal(source: &Block, source_position: Pos, f: Facing) -> (r: Result<u8, RedstonePropagationError>)
    ensures
        outcome_is(r, offered(*source, source_position, f)),
{
    if source.kind == BlockKind::RedstoneWire {
        let connects = wire_connects(source, source_position, f.opposite())?;
        if !connects {
            Ok(0)
        } else {
            let l = wire_level(source, source_position)?;
            Ok(
                if l > 0 {
                    l - 1
                } else {
                    0
                },
            )
        }
    } else {
        source_signal_toward(source, source_position, f.opposite())
    }
}

proof fn lemma_received_stable(w: World, known: Option<Region>, t: Pos, a: nat, b: nat)
    requires
        a <= b,
        received(w, known, t, a) is Err,
    ensures
        received(w, known, t, b) == received(w, known, t, a),
    decreases b - a,
{
    if a < b {
        lemma_received_stable(w, known, t, a, (b - 1) as nat);
    }
}

proof fn lemma_received_strongest(w: World, known: Option<Region>, t: Pos, n: nat)
    requires
        n <= 4,
        forall|i: int| 0 <= i < n ==> #[trigger] contribution(w, known, t, i) is Ok,
    ensures
        received(w, known, t, n) is Ok,
        forall|i: int| 0 <= i < n ==> received(w, known, t, n)->Ok_0 >= #[trigger] contribution(w, known, t, i)->Ok_0,
        received(w, known, t, n)->Ok_0 == 0 || exists|i: int|
            0 <= i < n && received(w, known, t, n)->Ok_0 == #[trigger] contribution(w, known, t, i)->Ok_0,
    decreases n,
{
    if n > 0 {
        lemma_received_strongest(w, known, t, (n - 1) as nat);
        assert(contribution(w, known, t, n - 1) is Ok);
        let m = received(w, known, t, (n - 1) as nat)->Ok_0;
        let c = contribution(w, known, t, n - 1)->Ok_0;
        if m == 0 || c > m {
        } else {
            let i = choose|i: int| 0 <= i < n - 1 && m == #[trigger] contribution(w, known, t, i)->Ok_0;
            assert(0 <= i < n && received(w, known, t, n)->Ok_0 == contribution(w, known, t, i)->Ok_0);
        }
        if c > m {
            assert(received(w, known, t, n)->Ok_0 == contribution(w, known, t, n - 1)->Ok_0);
        }
    }
}

proof fn lemma_received_fails(w: World, known: Option<Region>, t: Pos, n: nat)
    requires
        n <= 4,
    ensures
        received(w, known, t, n) is Err <==> exists|i: int| 0 <= i < n && #[trigger] contribution(w, known, t, i) is Err,
    decreases n,
{
    if n > 0 {
        lemma_received_fails(w, known, t, (n - 1) as nat);
        if contribution(w, known, t, n - 1) is Err {
            assert(0 <= n - 1 < n && contribution(w, known, t, n - 1) is Err);
        }
        if exists|i: int| 0 <= i < n - 1 && #[trigger] contribution(w, known, t, i) is Err {
            let i = choose|i: int| 0 <= i < n - 1 && #[trigger] contribution(w, known, t, i) is Err;
            assert(0 <= i < n && contribution(w, known, t, i) is Err);
        }
    }
}

/// A position's received signal cannot be evaluated exactly when one of its
/// four horizontal contributions cannot.
pub proof fn law_received_fails_with_a_contribution(w: World, known: Option<Region>, t: Pos)
    ensures
        received(w, known, t, 4) is Err <==> exists|i: int| 0 <= i < 4 && #[trigger] contribution(w, known, t, i) is Err,
{
    lemma_received_fails(w, known, t, 4);
}

/// The signal a position receives is the strongest of its four horizontal
/// contributions: when none of them fails, it is at least each of them and
/// equal to one of them, or 0.
pub proof fn law_received_is_strongest(w: World, known: Option<Region>, t: Pos)
    requires
        forall|i: int| 0 <= i < 4 ==> #[trigger] contribution(w, known, t, i) is Ok,
    ensures
        received(w, known, t, 4) is Ok,
        forall|i: int| 0 <= i < 4 ==> received(w, known, t, 4)->Ok_0 >= #[trigger] contribution(w, known, t, i)->Ok_0,
        received(w, known, t, 4)->Ok_0 == 0 || exists|i: int|
            0 <= i < 4 && received(w, known, t, 4)->Ok_0 == #[trigger] contribution(w, known, t, i)->Ok_0,
{
    lemma_received_strongest(w, known, t, 4);
}

fn received_signal(world: &World, target: Pos, known_region: Option<Region>) -> (r: Result<u8, RedstonePropagationError>)
    requires
        world.wf(),
        neighbors_in_range(target),
    ensures
        outcome_is(r, received(*world, known_region, target, 4)),
{
    let mut signal: u8 = 0;
    let mut i: usize = 0;
    while i < 4
        invariant
            world.wf(),
            neighbors_in_range(target),
            i <= 4,
            received(*world, known_region, target, i as nat) == Ok::<u8, RedstoneFailure>(signal),
        decreases 4 - i,
    {
        let f = horizontal_facing(i);
        let source_position = neighbor_of(target, f);
        let candidate: Result<u8, RedstonePropagationError> = match ensure_known(known_region, source_position, BlockKind::Air) {
            Err(e) => Err(e),
            Ok(()) => match world.get(source_position) {
                None => Ok(0),
                Some(source) => match world.get(target) {
                    None => Ok(0),
                    Some(target_block) => {
                        let gate = if target_block.kind == BlockKind::RedstoneWire {
                            wire_connects(target_block, target, f)
                        } else {
                            Ok(true)
                        };
                        match gate {
                            Err(e) => Err(e),
                            Ok(false) => Ok(0),
                            Ok(true) => offered_signal(source, source_position, f),
                        }
                    },
                },
            },
        };
        assert(outcome_is(candidate, contribution(*world, known_region, target, i as int)));
        match candidate {
            Err(e) => {
                proof {
                    lemma_received_stable(*world, known_region, target, (i + 1) as nat, 4);
                }
                return Err(e);
            },
            Ok(c) => {
                if c > signal {
                    signal = c;
                }
            },
        }
        i = i + 1;
    }
    Ok(signal)
}

// ---------------------------------------------------------------------------
// Update positions and signal deltas.
// ---------------------------------------------------------------------------

pub open spec fn sorted_pos(s: Seq<Pos>) -> bool {
    forall|i: int, j: int| 0 <= i < j < s.len() ==> pos_lt(#[trigger] s[i], #[trigger] s[j])
}

/// Inserts `p` at its place in a strictly increasing list, unless present.
pub(crate) fn insert_sorted(v: &mut Vec<Pos>, p: Pos)
    requires
        sorted_pos(old(v)@),
    ensures
        sorted_pos(final(v)@),
        forall|q: Pos| final(v)@.contains(q) <==> (old(v)@.contains(q) || q == p),
{
    let m = v.len();
    let mut k: usize = 0;
    while k < m && v[k].precedes(p)
        invariant
            m == v@.len(),
            k <= m,
            forall|j: int| 0 <= j < k ==> pos_lt(#[trigger] v@[j], p),
        decreases m - k,
    {
        k = k + 1;
    }
    if k < m && v[k] == p {
        return;
    }
    let ghost before = v@;
    assert(before == old(v)@);
    v.insert(k, p);
    proof {
        assert(v@ =~= before.insert(k as int, p));
        assert forall|a: int, b: int| 0 <= a < b < v@.len() implies pos_lt(#[trigger] v@[a], #[trigger] v@[b]) by {
            if b < k {
            } else if a < k && b == k {
            } else if a < k {
                assert(v@[b] == before[b - 1]);
            } else if a == k {
                assert(v@[b] == before[b - 1]);
                assert(!pos_lt(before[k as int], p));
                crate::world::lemma_pos_lt_total(before[k as int], p);
                if b - 1 > k {
                    crate::world::lemma_pos_lt_trans(p, before[k as int], before[b - 1]);
                }
            } else {
                assert(v@[a] == before[a - 1]);
                assert(v@[b] == before[b - 1]);
            }
        }
        assert forall|q: Pos| v@.contains(q) <==> (before.contains(q) || q == p) by {
            if v@.contains(q) {
                let t = choose|t: int| 0 <= t < v@.len() && #[trigger] v@[t] == q;
                if t < k {
                    assert(before[t] == q);
                } else if t > k {
                    assert(before[t - 1] == q);
                }
            }
            if before.contains(q) {
                let t = choose|t: int| 0 <= t < before.len() && #[trigger] before[t] == q;
                if t < k {
                    assert(v@[t] == q);
                } else {
                    assert(v@[t + 1] == q);
                }
            }
            if q == p {
                assert(v@[k as int] == q);
            }
        }
        assert(forall|q: Pos| v@.contains(q) <==> (old(v)@.contains(q) || q == p));
    }
}

/// The positions that can receive a neighbor update after a transition at
/// `p`: its six neighbors, and `p` itself when asked.
pub open spec fn update_target(p: Pos, include_self: bool, q: Pos) -> bool {
    (include_self && q == p) || exists|f: Facing| q == #[trigger] neighbor(p, f)
}

/// The positions that can receive a neighbor update, sorted and without
/// duplicates so that event insertion is deterministic.
pub fn redstone_update_positions(position: Pos, include_self: bool) -> (r: Vec<Pos>)
    requires
        neighbors_in_range(position),
    ensures
        sorted_pos(r@),
        forall|q: Pos| r@.contains(q) <==> update_target(position, include_self, q),
{
    let mut v: Vec<Pos> = Vec::new();
    if include_self {
        insert_sorted(&mut v, position);
    }
    insert_sorted(&mut v, neighbor_of(position, Facing::North));
    insert_sorted(&mut v, neighbor_of(position, Facing::East));
    insert_sorted(&mut v, neighbor_of(position, Facing::South));
    insert_sorted(&mut v, neighbor_of(position, Facing::West));
    insert_sorted(&mut v, neighbor_of(position, Facing::Up));
    insert_sorted(&mut v, neighbor_of(position, Facing::Down));
    proof {
        assert forall|q: Pos| v@.contains(q) <==> update_target(position, include_self, q) by {
            if exists|f: Facing| q == #[trigger] neighbor(position, f) {
                let f = choose|f: Facing| q == #[trigger] neighbor(position, f);
                match f {
                    Facing::North => {},
                    Facing::East => {},
                    Facing::South => {},
                    Facing::West => {},
                    Facing::Up => {},
                    Facing::Down => {},
                }
            }
            if v@.contains(q) && !(include_self && q == position) {
                if q == neighbor(position, Facing::North) {
                    assert(q == neighbor(position, Facing::North));
                } else if q == neighbor(position, Facing::East) {
                    assert(q == neighbor(position, Facing::East));
                } else if q == neighbor(position, Facing::South) {
                    assert(q == neighbor(position, Facing::South));
                } else if q == neighbor(position, Facing::West) {
                    assert(q == neighbor(position, Facing::West));
                } else if q == neighbor(position, Facing::Up) {
                    assert(q == neighbor(position, Facing::Up));
                } else {
                    assert(q == neighbor(position, Facing::Down));
                }
            }
        }
    }
    v
}

/// `d` is a one-change delta at `p` against `w` with the given reason and
/// cause, marking the neighborhood of `p` dirty.
pub open spec fn single_change(d: WorldDelta, w: World, p: Pos, reason: ChangeReason, cause: DeltaCause) -> bool {
    &&& d.parent_shape == spec_shape_id(w)
    &&& d.changes@.len() == 1
    &&& d.changes@[0].position == p
    &&& before_matches(w, p, d.changes@[0].before)
    &&& d.changes@[0].reason == reason
    &&& d.moves@.len() == 0
    &&& sorted_regions(d.dirty_region.regions@)
    &&& forall|x: Region| d.dirty_region.regions@.contains(x) <==> x == spec_around(p, 1)
    &&& d.cause == cause
}

fn single_change_delta(world: &World, position: Pos, before: Block, after: Block, reason: ChangeReason, cause: DeltaCause) -> (r: WorldDelta)
    requires
        world.wf(),
        neighbors_in_range(position),
        before_matches(*world, position, before),
    ensures
        single_change(r, *world, position, reason, cause),
        r.changes@[0].after == after,
{
    let mut changes: Vec<BlockChange> = Vec::new();
    changes.push(BlockChange { position, before, after, reason });
    let mut positions: Vec<Pos> = Vec::new();
    positions.push(position);
    let dirty_region = RegionSet::around_positions(positions, 1);
    proof {
        assert forall|x: Region| dirty_region.regions@.contains(x) <==> x == spec_around(position, 1) by {
            if x == spec_around(position, 1) {
                assert(x == spec_around(positions@[0], 1));
            }
        }
    }
    WorldDelta { parent_shape: world.shape_id(), changes, moves: Vec::new(), dirty_region, cause }
}

/// An externally supplied transition setting `position` to `after`, or
/// `None` when the world already holds it.
pub fn external_world_delta(world: &World, position: Pos, after: &Block) -> (r: Option<WorldDelta>)
    requires
        world.wf(),
        neighbors_in_range(position),
    ensures
        r is None <==> before_matches(*world, position, *after),
        r matches Some(d) ==> single_change(d, *world, position, ChangeReason::ExternalInput, DeltaCause::External)
            && same_block(d.changes@[0].after, *after),
{
    let before = world.block_or_air(position);
    proof {
        if let Some(b) = world.block_at(position) {
            crate::world::lemma_same_block_sym(before, b);
        }
    }
    let same = before.same_as(after);
    proof {
        match world.block_at(position) {
            Some(b) => {
                if same {
                    crate::world::lemma_same_block_trans(b, before, *after);
                }
                if same_block(b, *after) {
                    crate::world::lemma_same_block_trans(before, b, *after);
                }
            },
            None => {
                if same {
                    crate::piston::lemma_fresh_copy_pub(before, *after);
                }
                if crate::world::is_fresh_block(*after, BlockKind::Air) {
                    crate::delta::lemma_fresh_same(before, *after, BlockKind::Air);
                }
            },
        }
    }
    if same {
        return None;
    }
    Some(single_change_delta(world, position, before, after.copy(), ChangeReason::ExternalInput, DeltaCause::External))
}

/// `after` is `before` with only its signal fields changed: its power level
/// and powered flag set as given, and, for an observed block, the property
/// `key` recording `text`.
pub open spec fn with_signal(
    after: Block,
    before: Block,
    power_level: Option<u8>,
    powered: Option<bool>,
    key: Seq<char>,
    text: Seq<char>,
) -> bool {
    &&& after.kind == before.kind
    &&& opt_view(after.observed_name) == opt_view(before.observed_name)
    &&& after.observation_classification == before.observation_classification
    &&& after.facing == before.facing
    &&& after.powered == powered
    &&& after.power_level == power_level
    &&& after.delay == before.delay
    &&& after.support_offset == before.support_offset
    &&& after.wire_connections == before.wire_connections
    &&& after.piston_variant == before.piston_variant
    &&& after.piston_state == before.piston_state
    &&& after.piston_head == before.piston_head
    &&& crate::piston::same_opt_entity(after, before)
    &&& if before.observed_name is Some {
        &&& after.observed_properties.lookup(key) == Some(text)
        &&& forall|k: Seq<char>|
            k != key ==> #[trigger] after.observed_properties.lookup(k)
                == before.observed_properties.lookup(k)
    } else {
        after.observed_properties.pairs() == before.observed_properties.pairs()
    }
}

fn set_signal(block: &Block, power_level: Option<u8>, powered: Option<bool>, key: &str, text: String) -> (r: Block)
    ensures
        with_signal(r, *block, power_level, powered, key@, text@),
{
    let mut after = block.copy();
    after.power_level = power_level;
    after.powered = powered;
    if after.observed_name.is_some() {
        after.observed_properties.insert(key.to_owned(), text);
    }
    proof {
        let ghost a = after;
        let ghost b = *block;
        if let (Some(x), Some(y)) = (a.piston_entity, b.piston_entity) {
            crate::world::lemma_same_block_refl(*y.pushed_block);
        }
    }
    after
}

// ---------------------------------------------------------------------------
// Wires and lamps.
// ---------------------------------------------------------------------------

/// The outcome of re-evaluating one component: unchanged, a new state, or
/// a failure.
pub enum Reevaluation {
    Unchanged,
    Changes,
    Fails(RedstoneFailure),
}

/// Re-evaluating the wire at `p`: its level becomes the strongest signal it
/// receives.
pub open spec fn wire_reevaluation(w: World, known: Option<Region>, p: Pos) -> Reevaluation {
    match known_failure(known, p, BlockKind::RedstoneWire) {
        Some(f) => Reevaluation::Fails(f),
        None => match w.block_at(p) {
            None => Reevaluation::Unchanged,
            Some(b) => if !(b.kind is RedstoneWire) {
                Reevaluation::Fails(RedstoneFailure::Unsupported(p, b.kind, "wire evaluator received a non-wire target"@))
            } else {
                match spec_wire_level(b, p) {
                    Err(f) => Reevaluation::Fails(f),
                    Ok(current) => match received(w, known, p, 4) {
                        Err(f) => Reevaluation::Fails(f),
                        Ok(expected) => if current == expected {
                            Reevaluation::Unchanged
                        } else {
                            Reevaluation::Changes
                        },
                    },
                }
            },
        },
    }
}

/// `r` reports a re-evaluation outcome; a change is a one-change delta whose
/// after-block satisfies `after_ok`.
pub open spec fn reevaluation_result(
    r: Result<Option<WorldDelta>, RedstonePropagationError>,
    e: Reevaluation,
    w: World,
    p: Pos,
    reason: ChangeReason,
    cause: DeltaCause,
) -> bool {
    match e {
        Reevaluation::Unchanged => r == Ok::<Option<WorldDelta>, RedstonePropagationError>(None),
        Reevaluation::Fails(f) => r matches Err(x) && reports_redstone(x, f),
        Reevaluation::Changes => r matches Ok(Some(d)) && single_change(d, w, p, reason, cause),
    }
}

/// Recomputes one wire's steady-state power from adjacent sources and
/// wires: the maximum input, with one level lost from another wire.
pub fn redstone_wire_delta(world: &World, position: Pos, known_region: Option<Region>) -> (r: Result<Option<WorldDelta>, RedstonePropagationError>)
    requires
        world.wf(),
        neighbors_in_range(position),
    ensures
        reevaluation_result(
            r,
            wire_reevaluation(*world, known_region, position),
            *world,
            position,
            ChangeReason::NeighborUpdate,
            DeltaCause::NeighborUpdate,
        ),
        r matches Ok(Some(d)) ==> received(*world, known_region, position, 4) matches Ok(l)
            && with_signal(
            d.changes@[0].after,
            world.block_at(position)->0,
            Some(l),
            world.block_at(position)->0.powered,
            "power"@,
            spec_decimal(l as nat),
        ),
{
    ensure_known(known_region, position, BlockKind::RedstoneWire)?;
    let block = match world.get(position) {
        Some(b) => b,
        None => {
            return Ok(None);
        },
    };
    if block.kind != BlockKind::RedstoneWire {
        return Err(
            RedstonePropagationError::UnsupportedComponent {
                position,
                kind: block.kind,
                reason: "wire evaluator received a non-wire target".to_owned(),
            },
        );
    }
    let current = wire_level(block, position)?;
    let expected = received_signal(world, position, known_region)?;
    if current == expected {
        return Ok(None);
    }
    let after = set_signal(block, Some(expected), block.powered, "power", u8_to_string(expected));
    let before = block.copy();
    proof {
        crate::world::lemma_same_block_sym(before, *block);
    }
    Ok(Some(single_change_delta(world, position, before, after, ChangeReason::NeighborUpdate, DeltaCause::NeighborUpdate)))
}

/// The lit state a lamp shows.
pub open spec fn spec_lamp_lit(b: Block, p: Pos) -> Result<bool, RedstoneFailure> {
    match or_else(or_else(b.powered, observed_bool(b, "lit"@)), synthetic(b, false)) {
        Some(v) => Ok(v),
        None => Err(RedstoneFailure::Unknown(p, b.kind, "lamp lit state is missing"@)),
    }
}

/// Re-evaluating the lamp at `p`: it is lit exactly when it receives a
/// signal.
pub open spec fn lamp_reevaluation(w: World, known: Option<Region>, p: Pos) -> Reevaluation {
    match known_failure(known, p, BlockKind::RedstoneLamp) {
        Some(f) => Reevaluation::Fails(f),
        None => match w.block_at(p) {
            None => Reevaluation::Unchanged,
            Some(b) => if !(b.kind is RedstoneLamp) {
                Reevaluation::Fails(RedstoneFailure::Unsupported(p, b.kind, "lamp evaluator received a non-lamp target"@))
            } else {
                match spec_lamp_lit(b, p) {
                    Err(f) => Reevaluation::Fails(f),
                    Ok(current) => match received(w, known, p, 4) {
                        Err(f) => Reevaluation::Fails(f),
                        Ok(l) => if current == (l > 0) {
                            Reevaluation::Unchanged
                        } else {
                            Reevaluation::Changes
                        },
                    },
                }
            },
        },
    }
}

/// Recomputes a lamp's lit state from adjacent signals.
pub fn redstone_lamp_delta(world: &World, position: Pos, known_region: Option<Region>) -> (r: Result<Option<WorldDelta>, RedstonePropagationError>)
    requires
        world.wf(),
        neighbors_in_range(position),
    ensures
        reevaluation_result(
            r,
            lamp_reevaluation(*world, known_region, position),
            *world,
            position,
            ChangeReason::NeighborUpdate,
            DeltaCause::NeighborUpdate,
        ),
        r matches Ok(Some(d)) ==> received(*world, known_region, position, 4) matches Ok(l)
            && with_signal(
            d.changes@[0].after,
            world.block_at(position)->0,
            world.block_at(position)->0.power_level,
            Some(l > 0),
            "lit"@,
            spec_bool_text(l > 0),
        ),
{
    ensure_known(known_region, position, BlockKind::RedstoneLamp)?;
    let block = match world.get(position) {
        Some(b) => b,
        None => {
            return Ok(None);
        },
    };
    if block.kind != BlockKind::RedstoneLamp {
        return Err(
            RedstonePropagationError::UnsupportedComponent {
                position,
                kind: block.kind,
                reason: "lamp evaluator received a non-lamp target".to_owned(),
            },
        );
    }
    let current = match block.powered {
        Some(v) => v,
        None => match observed_bool_property(block, "lit") {
            Some(v) => v,
            None => {
                if block.observed_name.is_none() {
                    false
                } else {
                    return Err(
                        RedstonePropagationError::UnknownState {
                            position,
                            kind: block.kind,
                            reason: "lamp lit state is missing".to_owned(),
                        },
                    );
                }
            },
        },
    };
    let expected = received_signal(world, position, known_region)? > 0;
    if current == expected {
        return Ok(None);
    }
    let after = set_signal(block, block.power_level, Some(expected), "lit", bool_to_string(expected));
    let before = block.copy();
    proof {
        crate::world::lemma_same_block_sym(before, *block);
    }
    Ok(Some(single_change_delta(world, position, before, after, ChangeReason::NeighborUpdate, DeltaCause::NeighborUpdate)))
}

// ---------------------------------------------------------------------------
// Repeaters.
// ---------------------------------------------------------------------------

pub open spec fn missing_repeater(p: Pos) -> RedstoneFailure {
    RedstoneFailure::Unknown(p, BlockKind::Repeater, "repeater block is missing"@)
}

/// The repeater at `p`, or why there is none.
pub open spec fn repeater_at(w: World, p: Pos, what: Seq<char>) -> Result<Block, RedstoneFailure> {
    match w.block_at(p) {
        None => Err(missing_repeater(p)),
        Some(b) => if b.kind is Repeater {
            Ok(b)
        } else {
            Err(RedstoneFailure::Unsupported(p, b.kind, what))
        },
    }
}

/// The output direction of a repeater: its facing, which must be
/// horizontal.
pub open spec fn spec_repeater_facing(b: Block, p: Pos) -> Result<Facing, RedstoneFailure> {
    match b.facing {
        None => Err(RedstoneFailure::Unknown(p, b.kind, "repeater facing is missing"@)),
        Some(f) => if is_horizontal(f) {
            Ok(f)
        } else {
            Err(RedstoneFailure::Unsupported(p, b.kind, "only horizontal repeater directions are supported"@))
        },
    }
}

fn repeater_facing(block: &Block, position: Pos) -> (r: Result<Facing, RedstonePropagationError>)
    ensures
        outcome_is(r, spec_repeater_facing(*block, position)),
{
    let facing = match block.facing {
        Some(f) => f,
        None => {
            return Err(
                RedstonePropagationError::UnknownState {
                    position,
                    kind: block.kind,
                    reason: "repeater facing is missing".to_owned(),
                },
            );
        },
    };
    if facing.horizontal_offset().is_none() {
        return Err(
            RedstonePropagationError::UnsupportedComponent {
                position,
                kind: block.kind,
                reason: "only horizontal repeater directions are supported".to_owned(),
            },
        );
    }
    Ok(facing)
}

fn get_repeater<'a>(world: &'a World, position: Pos, what: &str) -> (r: Result<&'a Block, RedstonePropagationError>)
    requires
        world.wf(),
    ensures
        match repeater_at(*world, position, what@) {
            Ok(b) => r matches Ok(x) && *x == b,
            Err(f) => r matches Err(e) && reports_redstone(e, f),
        },
{
    match world.get(position) {
        None => Err(
            RedstonePropagationError::UnknownState {
                position,
                kind: BlockKind::Repeater,
                reason: "repeater block is missing".to_owned(),
            },
        ),
        Some(b) => if b.kind == BlockKind::Repeater {
            Ok(b)
        } else {
            Err(
                RedstonePropagationError::UnsupportedComponent {
                    position,
                    kind: b.kind,
                    reason: what.to_owned(),
                },
            )
        },
    }
}

/// The output coordinate of the repeater at `p`.
pub open spec fn repeater_output(w: World, known: Option<Region>, p: Pos) -> Result<Pos, RedstoneFailure> {
    match known_failure(known, p, BlockKind::Repeater) {
        Some(f) => Err(f),
        None => match repeater_at(w, p, "repeater evaluator received a non-repeater target"@) {
            Err(f) => Err(f),
            Ok(b) => match spec_repeater_facing(b, p) {
                Err(f) => Err(f),
                Ok(f) => {
                    let out = neighbor(p, f);
                    match known_failure(known, out, BlockKind::Air) {
                        Some(e) => Err(e),
                        None => Ok(out),
                    }
                },
            },
        },
    }
}

/// The validated output coordinate of a repeater; `facing` is the
/// signal-flow direction.
pub fn redstone_repeater_output_position(world: &World, position: Pos, known_region: Option<Region>) -> (r: Result<Pos, RedstonePropagationError>)
    requires
        world.wf(),
        neighbors_in_range(position),
    ensures
        outcome_is(r, repeater_output(*world, known_region, position)),
{
    ensure_known(known_region, position, BlockKind::Repeater)?;
    let block = get_repeater(world, position, "repeater evaluator received a non-repeater target")?;
    let facing = repeater_facing(block, position)?;
    let output = neighbor_of(position, facing);
    ensure_known(known_region, output, BlockKind::Air)?;
    Ok(output)
}

/// Whether the rear input of the repeater at `p` carries a signal.
pub open spec fn repeater_input(w: World, known: Option<Region>, p: Pos) -> Result<bool, RedstoneFailure> {
    match known_failure(known, p, BlockKind::Repeater) {
        Some(f) => Err(f),
        None => match repeater_at(w, p, "repeater evaluator received a non-repeater target"@) {
            Err(f) => Err(f),
            Ok(b) => match spec_repeater_facing(b, p) {
                Err(f) => Err(f),
                Ok(f) => {
                    let input = neighbor(p, facing_opposite(f));
                    match known_failure(known, input, BlockKind::Air) {
                        Some(e) => Err(e),
                        None => match w.block_at(input) {
                            None => Ok(false),
                            Some(src) => {
                                let signal = if src.kind is RedstoneWire {
                                    match spec_wire_connects(src, input, f) {
                                        Err(e) => Err(e),
                                        Ok(false) => Ok(0u8),
                                        Ok(true) => spec_wire_level(src, input),
                                    }
                                } else if src.kind is Repeater {
                                    spec_source_signal_toward(src, input, f)
                                } else {
                                    spec_source_signal(src, input)
                                };
                                match signal {
                                    Err(e) => Err(e),
                                    Ok(l) => Ok(l > 0),
                                }
                            },
                        },
                    }
                },
            },
        },
    }
}

/// Whether a repeater's rear input is powered. Wire input is read at its
/// full level.
pub fn redstone_repeater_input_powered(world: &World, position: Pos, known_region: Option<Region>) -> (r: Result<bool, RedstonePropagationError>)
    requires
        world.wf(),
        neighbors_in_range(position),
    ensures
        outcome_is(r, repeater_input(*world, known_region, position)),
{
    ensure_known(known_region, position, BlockKind::Repeater)?;
    let block = get_repeater(world, position, "repeater evaluator received a non-repeater target")?;
    let facing = repeater_facing(block, position)?;
    let input = neighbor_of(position, facing.opposite());
    ensure_known(known_region, input, BlockKind::Air)?;
    let source = match world.get(input) {
        None => {
            return Ok(false);
        },
        Some(s) => s,
    };
    let signal = match source.kind {
        BlockKind::RedstoneWire => {
            if !wire_connects(source, input, facing)? {
                0
            } else {
                wire_level(source, input)?
            }
        },
        BlockKind::Repeater => source_signal_toward(source, input, facing)?,
        _ => source_signal(source, input)?,
    };
    Ok(signal > 0)
}

/// The stable output state of a repeater.
pub open spec fn repeater_powered(w: World, p: Pos) -> Result<bool, RedstoneFailure> {
    match repeater_at(w, p, "repeater state evaluator received a non-repeater target"@) {
        Err(f) => Err(f),
        Ok(b) => match or_else(or_else(b.powered, observed_bool(b, "powered"@)), synthetic(b, false)) {
            Some(v) => Ok(v),
            None => Err(RedstoneFailure::Unknown(p, b.kind, "repeater powered state is missing"@)),
        },
    }
}

/// The current stable output state of a repeater; synthetic repeaters
/// default to unpowered.
pub fn redstone_repeater_powered(world: &World, position: Pos) -> (r: Result<bool, RedstonePropagationError>)
    requires
        world.wf(),
    ensures
        outcome_is(r, repeater_powered(*world, position)),
{
    let block = get_repeater(world, position, "repeater state evaluator received a non-repeater target")?;
    match block.powered {
        Some(v) => Ok(v),
        None => match observed_bool_property(block, "powered") {
            Some(v) => Ok(v),
            None => if block.observed_name.is_none() {
                Ok(false)
            } else {
                Err(
                    RedstonePropagationError::UnknownState {
                        position,
                        kind: block.kind,
                        reason: "repeater powered state is missing".to_owned(),
                    },
                )
            },
        },
    }
}

/// A repeater's delay in game ticks: two per configured redstone tick.
pub open spec fn repeater_delay(w: World, p: Pos) -> Result<u64, RedstoneFailure> {
    match repeater_at(w, p, "repeater delay evaluator received a non-repeater target"@) {
        Err(f) => Err(f),
        Ok(b) => match or_else(or_else(b.delay, observed_u8(b, "delay"@)), synthetic(b, 1u8)) {
            None => Err(RedstoneFailure::Unknown(p, b.kind, "repeater delay is missing"@)),
            Some(d) => if 1 <= d <= 4 {
                Ok((d * 2) as u64)
            } else {
                Err(RedstoneFailure::InvalidDelay(p, d))
            },
        },
    }
}

/// Resolves a repeater's delay to game ticks (2 per redstone tick).
pub fn redstone_repeater_delay_game_ticks(world: &World, position: Pos) -> (r: Result<u64, RedstonePropagationError>)
    requires
        world.wf(),
    ensures
        outcome_is(r, repeater_delay(*world, position)),
{
    let block = get_repeater(world, position, "repeater delay evaluator received a non-repeater target")?;
    let delay = match block.delay {
        Some(d) => d,
        None => match observed_u8_property(block, "delay") {
            Some(d) => d,
            None => {
                if block.observed_name.is_none() {
                    1
                } else {
                    return Err(
                        RedstonePropagationError::UnknownState {
                            position,
                            kind: block.kind,
                            reason: "repeater delay is missing".to_owned(),
                        },
                    );
                }
            },
        },
    };
    if !(1 <= delay && delay <= 4) {
        return Err(RedstonePropagationError::InvalidRepeaterDelay { position, delay });
    }
    Ok(delay as u64 * 2)
}

/// Re-evaluating a repeater's output state on its scheduled tick.
pub open spec fn repeater_reevaluation(w: World, known: Option<Region>, p: Pos, expected: bool) -> Reevaluation {
    match repeater_at(w, p, "repeater delta received a non-repeater target"@) {
        Err(f) => Reevaluation::Fails(f),
        Ok(b) => match repeater_output(w, known, p) {
            Err(f) => Reevaluation::Fails(f),
            Ok(_) => match repeater_powered(w, p) {
                Err(f) => Reevaluation::Fails(f),
                Ok(current) => if current == expected {
                    Reevaluation::Unchanged
                } else {
                    Reevaluation::Changes
                },
            },
        },
    }
}

/// The signal-only transition applied when a repeater's delayed tick is
/// still current.
pub fn redstone_repeater_delta(world: &World, position: Pos, expected_powered: bool, known_region: Option<Region>) -> (r: Result<Option<WorldDelta>, RedstonePropagationError>)
    requires
        world.wf(),
        neighbors_in_range(position),
    ensures
        reevaluation_result(
            r,
            repeater_reevaluation(*world, known_region, position, expected_powered),
            *world,
            position,
            ChangeReason::RepeaterState { repeater: position },
            DeltaCause::RepeaterTick { repeater: position },
        ),
        r matches Ok(Some(d)) ==> with_signal(
            d.changes@[0].after,
            world.block_at(position)->0,
            world.block_at(position)->0.power_level,
            Some(expected_powered),
            "powered"@,
            spec_bool_text(expected_powered),
        ),
{
    let block = get_repeater(world, position, "repeater delta received a non-repeater target")?;
    let _ = redstone_repeater_output_position(world, position, known_region)?;
    let current = redstone_repeater_powered(world, position)?;
    if current == expected_powered {
        return Ok(None);
    }
    let after = set_signal(block, block.power_level, Some(expected_powered), "powered", bool_to_string(expected_powered));
    let before = block.copy();
    proof {
        crate::world::lemma_same_block_sym(before, *block);
    }
    Ok(Some(single_change_delta(world, position, before, after, ChangeReason::RepeaterState { repeater: position }, DeltaCause::RepeaterTick { repeater: position })))
}

// ---------------------------------------------------------------------------
// Explicit inputs and piston power.
// ---------------------------------------------------------------------------

/// Re-evaluating an explicit input edge at `p`: the input source takes the
/// given powered state.
pub open spec fn input_reevaluation(w: World, p: Pos, powered: bool) -> Reevaluation {
    match w.block_at(p) {
        None => Reevaluation::Fails(RedstoneFailure::Unknown(p, BlockKind::Air, "redstone input block is missing"@)),
        Some(b) => if !(b.kind is Lever || b.kind is Button || b.kind is PressurePlate
            || b.kind is RedstoneBlock) {
            Reevaluation::Fails(RedstoneFailure::Unsupported(p, b.kind, "redstone input target is not an external input source"@))
        } else if b.powered == Some(powered) {
            Reevaluation::Unchanged
        } else {
            Reevaluation::Changes
        },
    }
}

/// The transition of an explicit input edge: the input source's powered
/// state becomes `powered`.
pub fn redstone_input_delta(world: &World, position: Pos, powered: bool) -> (r: Result<Option<WorldDelta>, RedstonePropagationError>)
    requires
        world.wf(),
        neighbors_in_range(position),
    ensures
        reevaluation_result(
            r,
            input_reevaluation(*world, position, powered),
            *world,
            position,
            ChangeReason::ExternalInput,
            DeltaCause::External,
        ),
        r matches Ok(Some(d)) ==> with_signal(
            d.changes@[0].after,
            world.block_at(position)->0,
            world.block_at(position)->0.power_level,
            Some(powered),
            "powered"@,
            spec_bool_text(powered),
        ),
{
    let block = match world.get(position) {
        Some(b) => b,
        None => {
            return Err(
                RedstonePropagationError::UnknownState {
                    position,
                    kind: BlockKind::Air,
                    reason: "redstone input block is missing".to_owned(),
                },
            );
        },
    };
    if !block.is_external_input_source() {
        return Err(
            RedstonePropagationError::UnsupportedComponent {
                position,
                kind: block.kind,
                reason: "redstone input target is not an external input source".to_owned(),
            },
        );
    }
    if block.powered == Some(powered) {
        return Ok(None);
    }
    let after = set_signal(block, block.power_level, Some(powered), "powered", bool_to_string(powered));
    let before = block.copy();
    proof {
        crate::world::lemma_same_block_sym(before, *block);
    }
    Ok(Some(single_change_delta(world, position, before, after, ChangeReason::ExternalInput, DeltaCause::External)))
}

/// All six directions in evaluation order.
pub open spec fn facing_at(i: int) -> Facing {
    if i < 4 {
        horizontal_at(i)
    } else if i == 4 {
        Facing::Up
    } else {
        Facing::Down
    }
}

fn facing_index(i: usize) -> (r: Facing)
    requires
        i < 6,
    ensures
        r == facing_at(i as int),
{
    if i < 4 {
        horizontal_facing(i)
    } else if i == 4 {
        Facing::Up
    } else {
        Facing::Down
    }
}

/// The signal the block at `p`'s `i`-th neighbor sends into `p`.
pub open spec fn piston_side_signal(w: World, known: Option<Region>, p: Pos, i: int) -> Result<bool, RedstoneFailure> {
    let f = facing_at(i);
    let sp = neighbor(p, f);
    match known_failure(known, sp, BlockKind::Air) {
        Some(e) => Err(e),
        None => match w.block_at(sp) {
            None => Ok(false),
            Some(src) => {
                let signal = if src.kind is RedstoneWire {
                    match spec_wire_connects(src, sp, facing_opposite(f)) {
                        Err(e) => Err(e),
                        Ok(false) => Ok(0u8),
                        Ok(true) => spec_wire_level(src, sp),
                    }
                } else {
                    spec_source_signal_toward(src, sp, facing_opposite(f))
                };
                match signal {
                    Err(e) => Err(e),
                    Ok(l) => Ok(l > 0),
                }
            },
        },
    }
}

/// Whether any of the first `n` neighbors of `p` powers it; the first
/// failure in evaluation order wins.
pub open spec fn piston_powered_upto(w: World, known: Option<Region>, p: Pos, n: nat) -> Result<bool, RedstoneFailure>
    decreases n,
{
    if n == 0 {
        Ok(false)
    } else {
        match piston_powered_upto(w, known, p, (n - 1) as nat) {
            Err(e) => Err(e),
            Ok(a) => match piston_side_signal(w, known, p, n - 1) {
                Err(e) => Err(e),
                Ok(b) => Ok(a || b),
            },
        }
    }
}

proof fn lemma_powered_stable(w: World, known: Option<Region>, p: Pos, a: nat, b: nat)
    requires
        a <= b,
        piston_powered_upto(w, known, p, a) is Err,
    ensures
        piston_powered_upto(w, known, p, b) == piston_powered_upto(w, known, p, a),
    decreases b - a,
{
    if a < b {
        lemma_powered_stable(w, known, p, a, (b - 1) as nat);
    }
}

/// Whether a piston receives power from any neighbor inside the known
/// region: a wire at its full level, any other source toward the piston.
pub fn piston_input_powered_in_region(world: &World, known_region: Option<Region>, piston: Pos) -> (r: Result<bool, RedstonePropagationError>)
    requires
        world.wf(),
        neighbors_in_range(piston),
    ensures
        outcome_is(r, piston_powered_upto(*world, known_region, piston, 6)),
{
    let mut powered = false;
    let mut i: usize = 0;
    while i < 6
        invariant
            world.wf(),
            neighbors_in_range(piston),
            i <= 6,
            piston_powered_upto(*world, known_region, piston, i as nat) == Ok::<bool, RedstoneFailure>(powered),
        decreases 6 - i,
    {
        let f = facing_index(i);
        let sp = neighbor_of(piston, f);
        let side: Result<bool, RedstonePropagationError> = match ensure_known(known_region, sp, BlockKind::Air) {
            Err(e) => Err(e),
            Ok(()) => match world.get(sp) {
                None => Ok(false),
                Some(src) => {
                    let signal = if src.kind == BlockKind::RedstoneWire {
                        match wire_connects(src, sp, f.opposite()) {
                            Err(e) => Err(e),
                            Ok(false) => Ok(0u8),
                            Ok(true) => wire_level(src, sp),
                        }
                    } else {
                        source_signal_toward(src, sp, f.opposite())
                    };
                    match signal {
                        Err(e) => Err(e),
                        Ok(l) => Ok(l > 0),
                    }
                },
            },
        };
        assert(outcome_is(side, piston_side_signal(*world, known_region, piston, i as int)));
        match side {
            Err(e) => {
                proof {
                    lemma_powered_stable(*world, known_region, piston, (i + 1) as nat, 6);
                }
                return Err(e);
            },
            Ok(b) => {
                powered = powered || b;
            },
        }
        i = i + 1;
    }
    Ok(powered)
}

/// `w` holds a piston at `q`.
pub open spec fn holds_piston(w: World, q: Pos) -> bool {
    match w.block_at(q) {
        Some(b) => b.kind is Piston,
        None => false,
    }
}

/// The pistons directly next to an explicit input, in update order. The
/// input itself must lie inside the known region.
pub fn direct_piston_neighbors(world: &World, known_region: Option<Region>, input: Pos) -> (r: Result<Vec<Pos>, crate::piston::PistonError>)
    requires
        world.wf(),
        neighbors_in_range(input),
    ensures
        r is Ok <==> crate::piston::known_at(known_region, input),
        r matches Err(e) ==> e == (crate::piston::PistonError::UnknownSpace { position: input }),
        r matches Ok(v) ==> sorted_pos(v@) && forall|q: Pos|
            #[trigger] v@.contains(q) <==> (update_target(input, false, q) && holds_piston(*world, q)),
{
    match known_region {
        Some(region) => {
            if !region.contains(input) {
                return Err(crate::piston::PistonError::UnknownSpace { position: input });
            }
        },
        None => {},
    }
    let positions = redstone_update_positions(input, false);
    let mut out: Vec<Pos> = Vec::new();
    let n = positions.len();
    let mut i: usize = 0;
    while i < n
        invariant
            world.wf(),
            n == positions@.len(),
            sorted_pos(positions@),
            i <= n,
            out@.len() <= i,
            forall|a: int| 0 <= a < out@.len() ==> exists|b: int| 0 <= b < i && #[trigger] out@[a] == positions@[b],
            sorted_pos(out@),
            forall|q: Pos|
                out@.contains(q) <==> (exists|b: int| 0 <= b < i && #[trigger] positions@[b] == q
                    && holds_piston(*world, q)),
        decreases n - i,
    {
        let q = positions[i];
        let is_piston = match world.get(q) {
            Some(b) => b.kind == BlockKind::Piston,
            None => false,
        };
        let ghost before = out@;
        if is_piston {
            out.push(q);
            proof {
                assert forall|a: int, b: int| 0 <= a < b < out@.len() implies pos_lt(#[trigger] out@[a], #[trigger] out@[b]) by {
                    if b == out@.len() - 1 {
                        let t = choose|t: int| 0 <= t < i && #[trigger] before[a] == positions@[t];
                        assert(pos_lt(positions@[t], positions@[i as int]));
                    }
                }
            }
        }
        proof {
            assert forall|q2: Pos|
                out@.contains(q2) <==> (exists|b: int| 0 <= b < i + 1 && #[trigger] positions@[b] == q2
                    && holds_piston(*world, q2)) by {
                if out@.contains(q2) {
                    let t = choose|t: int| 0 <= t < out@.len() && #[trigger] out@[t] == q2;
                    if t < before.len() {
                        assert(before[t] == q2);
                        assert(before.contains(q2));
                    } else {
                        assert(positions@[i as int] == q2);
                    }
                }
                if exists|b: int| 0 <= b < i + 1 && #[trigger] positions@[b] == q2
                    && holds_piston(*world, q2) {
                    let b = choose|b: int| 0 <= b < i + 1 && #[trigger] positions@[b] == q2
                        && holds_piston(*world, q2);
                    if b < i {
                        assert(before.contains(q2));
                        let t = choose|t: int| 0 <= t < before.len() && #[trigger] before[t] == q2;
                        assert(out@[t] == q2);
                    } else {
                        assert(out@[out@.len() - 1] == q2);
                    }
                }
            }
            assert forall|a: int| 0 <= a < out@.len() implies exists|b: int| 0 <= b < i + 1 && #[trigger] out@[a] == positions@[b] by {
                if a < before.len() {
                    let t = choose|t: int| 0 <= t < i && #[trigger] before[a] == positions@[t];
                    assert(out@[a] == positions@[t]);
                } else {
                    assert(out@[a] == positions@[i as int]);
                }
            }
        }
        i = i + 1;
    }
    proof {
        assert forall|q: Pos| out@.contains(q) <==> (update_target(input, false, q) && holds_piston(*world, q)) by {
            if update_target(input, false, q) {
                assert(positions@.contains(q));
            }
            if out@.contains(q) {
                let b = choose|b: int| 0 <= b < n && #[trigger] positions@[b] == q
                    && holds_piston(*world, q);
                assert(positions@.contains(q));
            }
        }
    }
    Ok(out)
}

} // verus!
