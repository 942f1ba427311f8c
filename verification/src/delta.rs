//! Immutable-shape and atomic world-delta primitives.
//!
//! A mechanical operation produces a validated `WorldDelta`; applying it
//! yields a new shape identity. The dirty regions let a consumer invalidate a
//! local topology cache.

use vstd::prelude::*;

use crate::text::str_eq;
use crate::world::{
    box_high, box_low, is_fresh_block, lemma_entry_found, lemma_same_block_refl,
    lemma_same_block_sym, lemma_same_block_trans, pos_lt, offset_in_range, opt_view, same_block, spec_offset,
    Block, BlockKind, Facing, ObservationClassification, PistonState, PistonVariant, Pos,
    WireConnection, WireConnections, World,
};

verus! {

/// Content-derived identity for the geometric part of a world. Signal
/// values (`powered`, `power_level` and the signal properties of
/// `is_signal_property`) do not participate in it.
#[derive(Clone, Copy, Debug, Default, PartialEq, Eq, Structural, Hash, PartialOrd, Ord)]
pub struct ShapeId(pub u64);

/// Content-derived identity for a complete observed world state, signal
/// fields included.
#[derive(Clone, Copy, Debug, Default, PartialEq, Eq, Structural, Hash, PartialOrd, Ord)]
pub struct StateId(pub u64);

// ---------------------------------------------------------------------------
// Identity hashing: a world is encoded as a sequence of 64-bit words and the
// words are folded with an FNV-1a style step.
// ---------------------------------------------------------------------------

pub const FNV_OFFSET: u64 = 0xcbf29ce484222325u64;

pub const FNV_PRIME: u64 = 0x100000001b3u64;

/// One hashing step.
pub open spec fn fnv_step(h: u64, w: u64) -> u64 {
    ((h ^ w) as int * FNV_PRIME as int % 0x1_0000_0000_0000_0000int) as u64
}

/// The hash of a word sequence, starting from `h`.
pub open spec fn fnv(h: u64, words: Seq<u64>) -> u64
    decreases words.len(),
{
    if words.len() == 0 {
        h
    } else {
        fnv_step(fnv(h, words.drop_last()), words.last())
    }
}

pub open spec fn kind_code(k: BlockKind) -> u64 {
    match k {
        BlockKind::Air => 0,
        BlockKind::Solid => 1,
        BlockKind::Transparent => 2,
        BlockKind::RedstoneWire => 3,
        BlockKind::RedstoneTorch => 4,
        BlockKind::Repeater => 5,
        BlockKind::Comparator => 6,
        BlockKind::Lever => 7,
        BlockKind::Button => 8,
        BlockKind::PressurePlate => 9,
        BlockKind::RedstoneLamp => 10,
        BlockKind::RedstoneBlock => 11,
        BlockKind::Observer => 12,
        BlockKind::Piston => 13,
        BlockKind::PistonHead => 14,
        BlockKind::MovingPiston => 15,
    }
}

pub open spec fn facing_code(f: Facing) -> u64 {
    match f {
        Facing::North => 0,
        Facing::East => 1,
        Facing::South => 2,
        Facing::West => 3,
        Facing::Up => 4,
        Facing::Down => 5,
    }
}

pub open spec fn class_code(c: ObservationClassification) -> u64 {
    match c {
        ObservationClassification::Synthetic => 0,
        ObservationClassification::Exact => 1,
        ObservationClassification::Coarse => 2,
    }
}

pub open spec fn connection_code(c: WireConnection) -> u64 {
    match c {
        WireConnection::Disconnected => 0,
        WireConnection::Side => 1,
        WireConnection::Up => 2,
    }
}

pub open spec fn variant_code(v: PistonVariant) -> u64 {
    match v {
        PistonVariant::Normal => 0,
        PistonVariant::Sticky => 1,
    }
}

pub open spec fn state_code(s: PistonState) -> u64 {
    match s {
        PistonState::Retracted => 0,
        PistonState::Extending => 1,
        PistonState::Extended => 2,
        PistonState::Retracting => 3,
    }
}

pub open spec fn bool_word(b: bool) -> u64 {
    if b {
        1
    } else {
        0
    }
}

pub open spec fn conn_opt(o: Option<WireConnection>) -> Option<u64> {
    match o {
        Some(x) => Some(connection_code(x)),
        None => None,
    }
}

pub open spec fn facing_opt(o: Option<Facing>) -> Option<u64> {
    match o {
        Some(x) => Some(facing_code(x)),
        None => None,
    }
}

pub open spec fn bool_opt(o: Option<bool>) -> Option<u64> {
    match o {
        Some(x) => Some(bool_word(x)),
        None => None,
    }
}

pub open spec fn u8_opt(o: Option<u8>) -> Option<u64> {
    match o {
        Some(x) => Some(x as u64),
        None => None,
    }
}

pub open spec fn variant_opt(o: Option<PistonVariant>) -> Option<u64> {
    match o {
        Some(x) => Some(variant_code(x)),
        None => None,
    }
}

pub open spec fn state_opt(o: Option<PistonState>) -> Option<u64> {
    match o {
        Some(x) => Some(state_code(x)),
        None => None,
    }
}

/// `0` for an absent value, `v + 1` for a present one.
pub open spec fn opt_code(o: Option<u64>) -> u64 {
    match o {
        Some(v) => (v + 1) as u64,
        None => 0u64,
    }
}

pub open spec fn pos_words(p: Pos) -> Seq<u64> {
    seq![p.x as u64, p.y as u64, p.z as u64]
}

pub open spec fn str_words(s: Seq<char>) -> Seq<u64> {
    seq![s.len() as u64] + s.map_values(|c: char| c as u64)
}

pub open spec fn opt_str_words(o: Option<Seq<char>>) -> Seq<u64> {
    match o {
        Some(s) => seq![1u64] + str_words(s),
        None => seq![0u64],
    }
}

pub open spec fn opt_pos_words(o: Option<Pos>) -> Seq<u64> {
    match o {
        Some(p) => seq![1u64] + pos_words(p),
        None => seq![0u64],
    }
}

pub open spec fn wire_words(c: Option<WireConnections>) -> Seq<u64> {
    match c {
        Some(c) => seq![
            1u64,
            opt_code(conn_opt(c.north)),
            opt_code(conn_opt(c.east)),
            opt_code(conn_opt(c.south)),
            opt_code(conn_opt(c.west)),
            opt_code(conn_opt(c.up)),
            opt_code(conn_opt(c.down)),
        ],
        None => seq![0u64],
    }
}

/// Whether a property of a block of `kind` carries a signal value.
pub open spec fn is_signal_property(kind: BlockKind, key: Seq<char>) -> bool {
    ||| kind is RedstoneWire && key == "power"@
    ||| (kind is RedstoneLamp || kind is RedstoneTorch) && key == "lit"@
    ||| (kind is Repeater || kind is Comparator || kind is Observer || kind is Piston
        || kind is Lever || kind is Button || kind is PressurePlate) && key == "powered"@
}

/// The property entries that describe geometry rather than signal.
pub open spec fn shape_pairs(pairs: Seq<(Seq<char>, Seq<char>)>, kind: BlockKind) -> Seq<
    (Seq<char>, Seq<char>),
>
    decreases pairs.len(),
{
    if pairs.len() == 0 {
        pairs
    } else if is_signal_property(kind, pairs.last().0) {
        shape_pairs(pairs.drop_last(), kind)
    } else {
        shape_pairs(pairs.drop_last(), kind).push(pairs.last())
    }
}

pub open spec fn pair_words(pairs: Seq<(Seq<char>, Seq<char>)>) -> Seq<u64>
    decreases pairs.len(),
{
    if pairs.len() == 0 {
        Seq::empty()
    } else {
        pair_words(pairs.drop_last()) + str_words(pairs.last().0) + str_words(pairs.last().1)
    }
}

pub open spec fn prop_words(b: Block, signal: bool) -> Seq<u64> {
    if signal {
        pair_words(b.observed_properties.pairs())
    } else {
        pair_words(shape_pairs(b.observed_properties.pairs(), b.kind))
    }
}

/// The identity and classification words of a block.
pub open spec fn head_words(b: Block) -> Seq<u64> {
    seq![kind_code(b.kind)] + opt_str_words(opt_view(b.observed_name)) + seq![
        class_code(b.observation_classification),
        opt_code(facing_opt(b.facing)),
    ]
}

/// The signal words of a block; empty when signals are left out.
pub open spec fn signal_words(b: Block, signal: bool) -> Seq<u64> {
    if signal {
        seq![opt_code(bool_opt(b.powered)), opt_code(u8_opt(b.power_level))]
    } else {
        Seq::empty()
    }
}

/// The delay, support, wire and piston-body words of a block.
pub open spec fn body_words(b: Block) -> Seq<u64> {
    seq![opt_code(u8_opt(b.delay))] + opt_pos_words(b.support_offset) + wire_words(
        b.wire_connections,
    ) + seq![opt_code(variant_opt(b.piston_variant)), opt_code(state_opt(b.piston_state))]
}

/// The piston-head words of a block.
pub open spec fn piston_head_words(b: Block) -> Seq<u64> {
    match b.piston_head {
        Some(h) => seq![1u64, facing_code(h.facing), variant_code(h.variant), bool_word(h.short)],
        None => seq![0u64],
    }
}

/// The word encoding of one block; with `signal` false the signal fields are
/// left out.
pub open spec fn block_words(b: Block, signal: bool) -> Seq<u64>
    decreases b,
{
    let entity_part = match b.piston_entity {
        Some(e) => seq![
            1u64,
            facing_code(e.facing),
            bool_word(e.extending),
            bool_word(e.source),
            e.progress as u64,
        ] + block_words(*e.pushed_block, signal),
        None => seq![0u64],
    };
    head_words(b) + signal_words(b, signal) + body_words(b) + piston_head_words(b) + entity_part
        + prop_words(b, signal) + seq![0xffu64]
}

/// The word encoding of a world's entries.
pub open spec fn entry_words(s: Seq<(Pos, Block)>, signal: bool) -> Seq<u64>
    decreases s.len(),
{
    if s.len() == 0 {
        Seq::empty()
    } else {
        entry_words(s.drop_last(), signal) + pos_words(s.last().0) + block_words(
            s.last().1,
            signal,
        )
    }
}

pub open spec fn spec_shape_id(w: World) -> ShapeId {
    ShapeId(fnv(FNV_OFFSET, entry_words(w@, false)))
}

pub open spec fn spec_state_id(w: World) -> StateId {
    StateId(fnv(FNV_OFFSET, entry_words(w@, true)))
}

/// Two blocks agree on everything but their signal fields.
pub open spec fn same_shape_block(a: Block, b: Block) -> bool
    decreases a,
{
    &&& a.kind == b.kind
    &&& opt_view(a.observed_name) == opt_view(b.observed_name)
    &&& shape_pairs(a.observed_properties.pairs(), a.kind) == shape_pairs(
        b.observed_properties.pairs(),
        b.kind,
    )
    &&& a.observation_classification == b.observation_classification
    &&& a.facing == b.facing
    &&& a.delay == b.delay
    &&& a.support_offset == b.support_offset
    &&& a.wire_connections == b.wire_connections
    &&& a.piston_variant == b.piston_variant
    &&& a.piston_state == b.piston_state
    &&& a.piston_head == b.piston_head
    &&& match (a.piston_entity, b.piston_entity) {
        (None, None) => true,
        (Some(x), Some(y)) => {
            &&& x.facing == y.facing
            &&& x.extending == y.extending
            &&& x.source == y.source
            &&& x.progress == y.progress
            &&& same_shape_block(*x.pushed_block, *y.pushed_block)
        },
        _ => false,
    }
}

proof fn lemma_same_shape_words(a: Block, b: Block)
    requires
        same_shape_block(a, b),
    ensures
        block_words(a, false) == block_words(b, false),
    decreases a,
{
    if let (Some(x), Some(y)) = (a.piston_entity, b.piston_entity) {
        lemma_same_shape_words(*x.pushed_block, *y.pushed_block);
    }
}

proof fn lemma_same_shape_entries(s: Seq<(Pos, Block)>, t: Seq<(Pos, Block)>)
    requires
        s.len() == t.len(),
        forall|i: int|
            0 <= i < s.len() ==> (#[trigger] s[i]).0 == t[i].0 && same_shape_block(s[i].1, t[i].1),
    ensures
        entry_words(s, false) == entry_words(t, false),
    decreases s.len(),
{
    if s.len() > 0 {
        lemma_same_shape_entries(s.drop_last(), t.drop_last());
        lemma_same_shape_words(s.last().1, t.last().1);
    }
}

proof fn lemma_same_block_words(a: Block, b: Block)
    requires
        same_block(a, b),
    ensures
        block_words(a, true) == block_words(b, true),
    decreases a,
{
    if let (Some(x), Some(y)) = (a.piston_entity, b.piston_entity) {
        lemma_same_block_words(*x.pushed_block, *y.pushed_block);
    }
}

/// Worlds that hold the same data at the same positions have the same
/// `StateId`.
pub proof fn lemma_same_entries_state_id(a: World, b: World)
    requires
        a@.len() == b@.len(),
        forall|i: int| 0 <= i < a@.len() ==> (#[trigger] a@[i]).0 == b@[i].0 && same_block(a@[i].1, b@[i].1),
    ensures
        spec_state_id(a) == spec_state_id(b),
{
    lemma_same_state_entries(a@, b@);
}

proof fn lemma_same_state_entries(s: Seq<(Pos, Block)>, t: Seq<(Pos, Block)>)
    requires
        s.len() == t.len(),
        forall|i: int| 0 <= i < s.len() ==> (#[trigger] s[i]).0 == t[i].0 && same_block(s[i].1, t[i].1),
    ensures
        entry_words(s, true) == entry_words(t, true),
    decreases s.len(),
{
    if s.len() > 0 {
        lemma_same_state_entries(s.drop_last(), t.drop_last());
        lemma_same_block_words(s.last().1, t.last().1);
    }
}

/// Signal values do not participate in the shape identity: two worlds that
/// hold the same positions, with blocks that differ at most in their signal
/// fields, have the same `ShapeId`.
pub proof fn lemma_signal_changes_keep_shape_id(a: World, b: World)
    requires
        a@.len() == b@.len(),
        forall|i: int|
            0 <= i < a@.len() ==> (#[trigger] a@[i]).0 == b@[i].0 && same_shape_block(
                a@[i].1,
                b@[i].1,
            ),
    ensures
        spec_shape_id(a) == spec_shape_id(b),
{
    lemma_same_shape_entries(a@, b@);
}

fn code(o: Option<u64>) -> (r: u64)
    requires
        o matches Some(v) ==> v < 256,
    ensures
        r == opt_code(o),
{
    match o {
        Some(v) => v + 1,
        None => 0,
    }
}

fn push_pos(out: &mut Vec<u64>, p: Pos)
    ensures
        final(out)@ == old(out)@ + pos_words(p),
{
    out.push(p.x as u64);
    out.push(p.y as u64);
    out.push(p.z as u64);
}

fn push_str(out: &mut Vec<u64>, s: &str)
    ensures
        final(out)@ == old(out)@ + str_words(s@),
{
    let ghost start = out@;
    let n = s.unicode_len();
    out.push(n as u64);
    let mut i: usize = 0;
    while i < n
        invariant
            n == s@.len(),
            i <= n,
            out@ == start + seq![n as u64] + s@.subrange(0, i as int).map_values(
                |c: char| c as u64,
            ),
        decreases n - i,
    {
        let c = s.get_char(i);
        out.push(c as u64);
        proof {
            assert(s@.subrange(0, i + 1) =~= s@.subrange(0, i as int).push(c));
            assert(s@.subrange(0, i + 1).map_values(|c: char| c as u64) =~= s@.subrange(
                0,
                i as int,
            ).map_values(|c: char| c as u64).push(c as u64));
        }
        i = i + 1;
    }
    assert(s@.subrange(0, n as int) =~= s@);
}

fn push_opt_str(out: &mut Vec<u64>, o: &Option<String>)
    ensures
        final(out)@ == old(out)@ + opt_str_words(opt_view(*o)),
{
    match o {
        Some(s) => {
            out.push(1);
            push_str(out, s.as_str());
        },
        None => {
            out.push(0);
        },
    }
}

fn push_opt_pos(out: &mut Vec<u64>, o: Option<Pos>)
    ensures
        final(out)@ == old(out)@ + opt_pos_words(o),
{
    match o {
        Some(p) => {
            out.push(1);
            push_pos(out, p);
        },
        None => {
            out.push(0);
        },
    }
}

fn facing_word(f: Facing) -> (r: u64)
    ensures
        r == facing_code(f),
{
    match f {
        Facing::North => 0,
        Facing::East => 1,
        Facing::South => 2,
        Facing::West => 3,
        Facing::Up => 4,
        Facing::Down => 5,
    }
}

fn kind_word(k: BlockKind) -> (r: u64)
    ensures
        r == kind_code(k),
{
    match k {
        BlockKind::Air => 0,
        BlockKind::Solid => 1,
        BlockKind::Transparent => 2,
        BlockKind::RedstoneWire => 3,
        BlockKind::RedstoneTorch => 4,
        BlockKind::Repeater => 5,
        BlockKind::Comparator => 6,
        BlockKind::Lever => 7,
        BlockKind::Button => 8,
        BlockKind::PressurePlate => 9,
        BlockKind::RedstoneLamp => 10,
        BlockKind::RedstoneBlock => 11,
        BlockKind::Observer => 12,
        BlockKind::Piston => 13,
        BlockKind::PistonHead => 14,
        BlockKind::MovingPiston => 15,
    }
}

fn connection_word(c: Option<WireConnection>) -> (r: Option<u64>)
    ensures
        r == conn_opt(c),
{
    match c {
        Some(WireConnection::Disconnected) => Some(0),
        Some(WireConnection::Side) => Some(1),
        Some(WireConnection::Up) => Some(2),
        None => None,
    }
}

fn push_wires(out: &mut Vec<u64>, c: &Option<WireConnections>)
    ensures
        final(out)@ == old(out)@ + wire_words(*c),
{
    let ghost start = out@;
    match c {
        Some(c) => {
            out.push(1);
            out.push(code(connection_word(c.north)));
            out.push(code(connection_word(c.east)));
            out.push(code(connection_word(c.south)));
            out.push(code(connection_word(c.west)));
            out.push(code(connection_word(c.up)));
            out.push(code(connection_word(c.down)));
        },
        None => {
            out.push(0);
        },
    }
    assert(out@ =~= start + wire_words(*c));
}

/// Whether a property of a block of `kind` carries a signal value.
pub fn signal_property(kind: BlockKind, key: &str) -> (r: bool)
    ensures
        r == is_signal_property(kind, key@),
{
    match kind {
        BlockKind::RedstoneWire => str_eq(key, "power"),
        BlockKind::RedstoneLamp | BlockKind::RedstoneTorch => str_eq(key, "lit"),
        BlockKind::Repeater | BlockKind::Comparator | BlockKind::Observer | BlockKind::Piston
        | BlockKind::Lever | BlockKind::Button | BlockKind::PressurePlate => str_eq(
            key,
            "powered",
        ),
        _ => false,
    }
}

fn push_props(out: &mut Vec<u64>, b: &Block, signal: bool)
    ensures
        final(out)@ == old(out)@ + prop_words(*b, signal),
{
    let ghost start = out@;
    let ghost pairs = b.observed_properties.pairs();
    let n = b.observed_properties.len();
    let mut i: usize = 0;
    while i < n
        invariant
            n == pairs.len(),
            pairs == b.observed_properties.pairs(),
            i <= n,
            out@ == start + (if signal {
                pair_words(pairs.take(i as int))
            } else {
                pair_words(shape_pairs(pairs.take(i as int), b.kind))
            }),
        decreases n - i,
    {
        let (k, v) = b.observed_properties.entry_at(i);
        proof {
            assert(pairs.take(i + 1).drop_last() =~= pairs.take(i as int));
            assert(pairs.take(i + 1).last() == pairs[i as int]);
        }
        if signal || !signal_property(b.kind, k.as_str()) {
            push_str(out, k.as_str());
            push_str(out, v.as_str());
            proof {
                if !signal {
                    let sp = shape_pairs(pairs.take(i as int), b.kind);
                    assert(shape_pairs(pairs.take(i + 1), b.kind) == sp.push(pairs[i as int]));
                    assert(sp.push(pairs[i as int]).drop_last() =~= sp);
                }
            }
        }
        i = i + 1;
    }
    assert(pairs.take(n as int) =~= pairs);
}

fn push_head(out: &mut Vec<u64>, b: &Block)
    ensures
        final(out)@ == old(out)@ + head_words(*b),
{
    let ghost start = out@;
    out.push(kind_word(b.kind));
    push_opt_str(out, &b.observed_name);
    let class: u64 = match b.observation_classification {
        ObservationClassification::Synthetic => 0,
        ObservationClassification::Exact => 1,
        ObservationClassification::Coarse => 2,
    };
    out.push(class);
    out.push(
        code(
            match b.facing {
                Some(f) => Some(facing_word(f)),
                None => None,
            },
        ),
    );
    assert(out@ =~= start + head_words(*b));
}

fn push_signal(out: &mut Vec<u64>, b: &Block, signal: bool)
    ensures
        final(out)@ == old(out)@ + signal_words(*b, signal),
{
    let ghost start = out@;
    if signal {
        out.push(
            code(
                match b.powered {
                    Some(v) => Some(
                        if v {
                            1u64
                        } else {
                            0u64
                        },
                    ),
                    None => None,
                },
            ),
        );
        out.push(
            code(
                match b.power_level {
                    Some(v) => Some(v as u64),
                    None => None,
                },
            ),
        );
    }
    assert(out@ =~= start + signal_words(*b, signal));
}

#[verifier::spinoff_prover]
#[verifier::rlimit(60)]
fn push_body(out: &mut Vec<u64>, b: &Block)
    ensures
        final(out)@ == old(out)@ + body_words(*b),
{
    let ghost start = out@;
    out.push(
        code(
            match b.delay {
                Some(v) => Some(v as u64),
                None => None,
            },
        ),
    );
    let ghost s1 = out@;
    push_opt_pos(out, b.support_offset);
    let ghost s2 = out@;
    push_wires(out, &b.wire_connections);
    let ghost s3 = out@;
    out.push(
        code(
            match b.piston_variant {
                Some(PistonVariant::Normal) => Some(0u64),
                Some(PistonVariant::Sticky) => Some(1u64),
                None => None,
            },
        ),
    );
    out.push(
        code(
            match b.piston_state {
                Some(PistonState::Retracted) => Some(0u64),
                Some(PistonState::Extending) => Some(1u64),
                Some(PistonState::Extended) => Some(2u64),
                Some(PistonState::Retracting) => Some(3u64),
                None => None,
            },
        ),
    );
    assert(out@ =~= start + body_words(*b));
}

fn push_piston_head(out: &mut Vec<u64>, b: &Block)
    ensures
        final(out)@ == old(out)@ + piston_head_words(*b),
{
    let ghost start = out@;
    match b.piston_head {
        Some(h) => {
            out.push(1);
            out.push(facing_word(h.facing));
            out.push(
                match h.variant {
                    PistonVariant::Normal => 0u64,
                    PistonVariant::Sticky => 1u64,
                },
            );
            out.push(
                if h.short {
                    1u64
                } else {
                    0u64
                },
            );
        },
        None => {
            out.push(0);
        },
    }
    assert(out@ =~= start + piston_head_words(*b));
}

/// The entity part of a block's words.
pub open spec fn entity_words(b: Block, signal: bool) -> Seq<u64> {
    match b.piston_entity {
        Some(e) => seq![
            1u64,
            facing_code(e.facing),
            bool_word(e.extending),
            bool_word(e.source),
            e.progress as u64,
        ] + block_words(*e.pushed_block, signal),
        None => seq![0u64],
    }
}

proof fn lemma_block_words_parts(b: Block, signal: bool)
    ensures
        block_words(b, signal) == head_words(b) + signal_words(b, signal) + body_words(b) + piston_head_words(b)
            + entity_words(b, signal) + prop_words(b, signal) + seq![0xffu64],
{
}

#[verifier::spinoff_prover]
#[verifier::rlimit(60)]
fn push_block(out: &mut Vec<u64>, b: &Block, signal: bool)
    ensures
        final(out)@ == old(out)@ + block_words(*b, signal),
    decreases b,
{
    let ghost start = out@;
    push_head(out, b);
    let ghost s1 = out@;
    push_signal(out, b, signal);
    let ghost s2 = out@;
    push_body(out, b);
    let ghost s3 = out@;
    push_piston_head(out, b);
    let ghost before_entity = out@;
    match &b.piston_entity {
        Some(e) => {
            out.push(1);
            out.push(facing_word(e.facing));
            out.push(
                if e.extending {
                    1u64
                } else {
                    0u64
                },
            );
            out.push(
                if e.source {
                    1u64
                } else {
                    0u64
                },
            );
            out.push(e.progress as u64);
            push_block(out, &e.pushed_block, signal);
            assert(out@ =~= before_entity + entity_words(*b, signal));
        },
        None => {
            out.push(0);
            assert(out@ =~= before_entity + entity_words(*b, signal));
        },
    }
    let ghost after_entity = out@;
    push_props(out, b, signal);
    let ghost after_props = out@;
    out.push(0xff);
    proof {
        let h = head_words(*b);
        let sg = signal_words(*b, signal);
        let bd = body_words(*b);
        let ph = piston_head_words(*b);
        let en = entity_words(*b, signal);
        let pr = prop_words(*b, signal);
        let ff = seq![0xffu64];
        lemma_block_words_parts(*b, signal);
        assert(s2 =~= start + (h + sg));
        assert(s3 =~= start + (h + sg + bd));
        assert(before_entity =~= start + (h + sg + bd + ph));
        assert(after_entity =~= start + (h + sg + bd + ph + en));
        assert(after_props =~= start + (h + sg + bd + ph + en + pr));
        assert(out@ =~= start + (h + sg + bd + ph + en + pr + ff));
    }
}

fn entries_hash(w: &World, signal: bool) -> (r: u64)
    requires
        w.wf(),
    ensures
        r == fnv(FNV_OFFSET, entry_words(w@, signal)),
{
    let mut words: Vec<u64> = Vec::new();
    let n = w.len();
    let mut i: usize = 0;
    while i < n
        invariant
            n == w@.len(),
            i <= n,
            words@ == entry_words(w@.take(i as int), signal),
        decreases n - i,
    {
        let (p, b) = w.entry_at(i);
        push_pos(&mut words, p);
        push_block(&mut words, b, signal);
        proof {
            assert(w@.take(i + 1).drop_last() =~= w@.take(i as int));
        }
        i = i + 1;
    }
    assert(w@.take(n as int) =~= w@);
    let mut h: u64 = FNV_OFFSET;
    let m = words.len();
    let mut j: usize = 0;
    while j < m
        invariant
            m == words@.len(),
            j <= m,
            h == fnv(FNV_OFFSET, words@.take(j as int)),
        decreases m - j,
    {
        let x = words[j];
        proof {
            assert(words@.take(j + 1).drop_last() =~= words@.take(j as int));
        }
        let mixed = h ^ x;
        h = mixed.wrapping_mul(FNV_PRIME);
        j = j + 1;
    }
    assert(words@.take(m as int) =~= words@);
    h
}

impl World {
    /// The geometry identity of this world.
    pub fn shape_id(&self) -> (r: ShapeId)
        requires
            self.wf(),
        ensures
            r == spec_shape_id(*self),
    {
        ShapeId(entries_hash(self, false))
    }

    /// The identity of this world's complete observed state.
    pub fn state_id(&self) -> (r: StateId)
        requires
            self.wf(),
        ensures
            r == spec_state_id(*self),
    {
        StateId(entries_hash(self, true))
    }
}

// ---------------------------------------------------------------------------
// Regions.
// ---------------------------------------------------------------------------

/// A closed axis-aligned region used for conservative topology invalidation.
#[derive(Clone, Copy, Debug, PartialEq, Eq, Structural, Hash, PartialOrd, Ord)]
pub struct Region {
    pub min: Pos,
    pub max: Pos,
}

pub open spec fn region_contains(r: Region, p: Pos) -> bool {
    r.min.x <= p.x <= r.max.x && r.min.y <= p.y <= r.max.y && r.min.z <= p.z <= r.max.z
}

pub open spec fn regions_intersect(a: Region, b: Region) -> bool {
    a.min.x <= b.max.x && b.min.x <= a.max.x && a.min.y <= b.max.y && b.min.y <= a.max.y
        && a.min.z <= b.max.z && b.min.z <= a.max.z
}

/// The order of regions: by `min`, then by `max`, each in world order.
pub open spec fn region_lt(a: Region, b: Region) -> bool {
    pos_lt(a.min, b.min) || (a.min == b.min && pos_lt(a.max, b.max))
}

/// The region whose corners are the component-wise bounds of `a` and `b`.
pub open spec fn spanned(a: Pos, b: Pos) -> Region {
    Region { min: box_low(a, b), max: box_high(a, b) }
}

pub open spec fn clamp_radius(radius: i32) -> int {
    if radius < 0 {
        0
    } else {
        radius as int
    }
}

/// Whether `Region::around(position, radius)` stays in the coordinate range.
pub open spec fn around_in_range(position: Pos, radius: i32) -> bool {
    let r = clamp_radius(radius);
    offset_in_range(position, -r, -r, -r) && offset_in_range(position, r, r, r)
}

pub open spec fn spec_around(position: Pos, radius: i32) -> Region {
    let r = clamp_radius(radius);
    spanned(spec_offset(position, -r, -r, -r), spec_offset(position, r, r, r))
}

fn min_of(a: i32, b: i32) -> (r: i32)
    ensures
        r == crate::world::min_i32(a, b),
{
    if a < b {
        a
    } else {
        b
    }
}

fn max_of(a: i32, b: i32) -> (r: i32)
    ensures
        r == crate::world::max_i32(a, b),
{
    if a > b {
        a
    } else {
        b
    }
}

impl Region {
    /// The region spanned by two corners, in either order.
    pub fn new(a: Pos, b: Pos) -> (r: Region)
        ensures
            r == spanned(a, b),
    {
        Region {
            min: Pos::new(min_of(a.x, b.x), min_of(a.y, b.y), min_of(a.z, b.z)),
            max: Pos::new(max_of(a.x, b.x), max_of(a.y, b.y), max_of(a.z, b.z)),
        }
    }

    /// The cube of half-width `radius` (negative radii count as 0) around a
    /// position.
    pub fn around(position: Pos, radius: i32) -> (r: Region)
        requires
            around_in_range(position, radius),
        ensures
            r == spec_around(position, radius),
    {
        let radius = if radius < 0 {
            0
        } else {
            radius
        };
        Region::new(
            position.offset(-radius, -radius, -radius),
            position.offset(radius, radius, radius),
        )
    }

    pub fn contains(&self, position: Pos) -> (r: bool)
        ensures
            r == region_contains(*self, position),
    {
        self.min.x <= position.x && position.x <= self.max.x && self.min.y <= position.y
            && position.y <= self.max.y && self.min.z <= position.z && position.z <= self.max.z
    }

    pub fn intersects(&self, other: &Region) -> (r: bool)
        ensures
            r == regions_intersect(*self, *other),
    {
        self.min.x <= other.max.x && other.min.x <= self.max.x && self.min.y <= other.max.y
            && other.min.y <= self.max.y && self.min.z <= other.max.z && other.min.z
            <= self.max.z
    }

    /// The smallest region covering both regions' corners.
    pub fn union(self, other: Region) -> (r: Region)
        ensures
            r == spanned(box_low(self.min, other.min), box_high(self.max, other.max)),
    {
        Region::new(
            Pos::new(
                min_of(self.min.x, other.min.x),
                min_of(self.min.y, other.min.y),
                min_of(self.min.z, other.min.z),
            ),
            Pos::new(
                max_of(self.max.x, other.max.x),
                max_of(self.max.y, other.max.y),
                max_of(self.max.z, other.max.z),
            ),
        )
    }

    /// Whether `self` sorts before `other`.
    pub fn precedes(&self, other: &Region) -> (r: bool)
        ensures
            r == region_lt(*self, *other),
    {
        self.min.precedes(other.min) || (self.min == other.min && self.max.precedes(other.max))
    }
}

/// A set of dirty regions. `RegionSet::new` sorts and de-duplicates its
/// input but does not merge regions.
#[derive(Debug, PartialEq, Eq)]
pub struct RegionSet {
    pub regions: Vec<Region>,
}

/// Strictly increasing, hence free of duplicates.
pub open spec fn sorted_regions(s: Seq<Region>) -> bool {
    forall|i: int, j: int| 0 <= i < j < s.len() ==> region_lt(#[trigger] s[i], #[trigger] s[j])
}

pub open spec fn any_contains(s: Seq<Region>, p: Pos) -> bool {
    exists|i: int| 0 <= i < s.len() && region_contains(#[trigger] s[i], p)
}

pub open spec fn any_intersects(s: Seq<Region>, r: Region) -> bool {
    exists|i: int| 0 <= i < s.len() && regions_intersect(#[trigger] s[i], r)
}

proof fn lemma_region_lt_trans(a: Region, b: Region, c: Region)
    requires
        region_lt(a, b),
        region_lt(b, c),
    ensures
        region_lt(a, c),
{
}

impl RegionSet {
    /// The given regions, sorted and with duplicates removed.
    pub fn new(regions: Vec<Region>) -> (r: RegionSet)
        ensures
            sorted_regions(r.regions@),
            forall|x: Region| r.regions@.contains(x) <==> regions@.contains(x),
    {
        let mut out: Vec<Region> = Vec::new();
        let n = regions.len();
        let mut i: usize = 0;
        while i < n
            invariant
                n == regions@.len(),
                i <= n,
                sorted_regions(out@),
                forall|x: Region|
                    out@.contains(x) <==> (exists|j: int| 0 <= j < i && #[trigger] regions@[j] == x),
            decreases n - i,
        {
            let x = regions[i];
            let m = out.len();
            let mut k: usize = 0;
            while k < m && out[k].precedes(&x)
                invariant
                    m == out@.len(),
                    k <= m,
                    forall|j: int| 0 <= j < k ==> region_lt(#[trigger] out@[j], x),
                decreases m - k,
            {
                k = k + 1;
            }
            let ghost before = out@;
            if k < m && out[k] == x {
                proof {
                    assert forall|y: Region|
                        out@.contains(y) <==> (exists|j: int| 0 <= j < i + 1 && #[trigger] regions@[j] == y) by {
                        if y == x {
                            assert(out@[k as int] == y);
                            assert(regions@[i as int] == y);
                        }
                        if exists|j: int| 0 <= j < i + 1 && #[trigger] regions@[j] == y {
                            let t = choose|j: int| 0 <= j < i + 1 && #[trigger] regions@[j] == y;
                            if t < i {
                                assert(exists|j: int| 0 <= j < i && #[trigger] regions@[j] == y);
                            }
                        }
                    }
                }
            } else {
                out.insert(k, x);
                proof {
                    assert(out@ =~= before.insert(k as int, x));
                    assert forall|a: int, b: int| 0 <= a < b < out@.len() implies region_lt(
                        #[trigger] out@[a],
                        #[trigger] out@[b],
                    ) by {
                        if b < k {
                        } else if a < k && b == k {
                        } else if a < k {
                            assert(out@[b] == before[b - 1]);
                        } else if a == k {
                            assert(out@[b] == before[b - 1]);
                            assert(!region_lt(before[k as int], x));
                            assert(before[k as int] != x);
                            if b - 1 > k {
                                lemma_region_lt_trans(x, before[k as int], before[b - 1]);
                            }
                        } else {
                            assert(out@[a] == before[a - 1]);
                            assert(out@[b] == before[b - 1]);
                        }
                    }
                    assert forall|y: Region|
                        out@.contains(y) <==> (exists|j: int| 0 <= j < i + 1 && #[trigger] regions@[j] == y) by {
                        if out@.contains(y) {
                            let t = choose|t: int| 0 <= t < out@.len() && #[trigger] out@[t] == y;
                            if t < k {
                                assert(before[t] == y);
                                assert(before.contains(y));
                            } else if t > k {
                                assert(before[t - 1] == y);
                                assert(before.contains(y));
                            } else {
                                assert(regions@[i as int] == y);
                            }
                        }
                        if exists|j: int| 0 <= j < i + 1 && #[trigger] regions@[j] == y {
                            let u = choose|j: int| 0 <= j < i + 1 && #[trigger] regions@[j] == y;
                            if u == i {
                                assert(out@[k as int] == y);
                            } else {
                                assert(exists|j: int| 0 <= j < i && #[trigger] regions@[j] == y);
                                assert(before.contains(y));
                                let t = choose|t: int| 0 <= t < before.len() && #[trigger] before[t] == y;
                                if t < k {
                                    assert(out@[t] == y);
                                } else {
                                    assert(out@[t + 1] == y);
                                }
                            }
                        }
                    }
                }
            }
            i = i + 1;
        }
        proof {
            assert forall|x: Region| out@.contains(x) <==> regions@.contains(x) by {
                if regions@.contains(x) {
                    let t = choose|t: int| 0 <= t < regions@.len() && #[trigger] regions@[t] == x;
                    assert(exists|j: int| 0 <= j < n && #[trigger] regions@[j] == x);
                }
            }
        }
        RegionSet { regions: out }
    }

    /// The regions of half-width `radius` around each position.
    pub fn around_positions(positions: Vec<Pos>, radius: i32) -> (r: RegionSet)
        requires
            forall|i: int| 0 <= i < positions@.len() ==> around_in_range(#[trigger] positions@[i], radius),
        ensures
            sorted_regions(r.regions@),
            forall|x: Region| r.regions@.contains(x) <==> exists|i: int|
                0 <= i < positions@.len() && x == spec_around(#[trigger] positions@[i], radius),
    {
        let mut v: Vec<Region> = Vec::new();
        let n = positions.len();
        let mut i: usize = 0;
        while i < n
            invariant
                n == positions@.len(),
                i <= n,
                v@.len() == i,
                forall|j: int| 0 <= j < n ==> around_in_range(#[trigger] positions@[j], radius),
                forall|j: int| 0 <= j < i ==> v@[j] == spec_around(#[trigger] positions@[j], radius),
            decreases n - i,
        {
            v.push(Region::around(positions[i], radius));
            i = i + 1;
        }
        let ghost vs = v@;
        let r = RegionSet::new(v);
        proof {
            assert forall|x: Region| r.regions@.contains(x) <==> exists|i: int|
                0 <= i < positions@.len() && x == spec_around(#[trigger] positions@[i], radius) by {
                if vs.contains(x) {
                    let t = choose|t: int| 0 <= t < vs.len() && vs[t] == x;
                    assert(x == spec_around(positions@[t], radius));
                }
                if exists|i: int| 0 <= i < positions@.len() && x == spec_around(#[trigger] positions@[i], radius) {
                    let t = choose|i: int| 0 <= i < positions@.len() && x == spec_around(#[trigger] positions@[i], radius);
                    assert(vs[t] == x);
                }
            }
        }
        r
    }

    /// Whether some region contains `position`.
    pub fn contains(&self, position: Pos) -> (r: bool)
        ensures
            r == any_contains(self.regions@, position),
    {
        let n = self.regions.len();
        let mut i: usize = 0;
        while i < n
            invariant
                n == self.regions@.len(),
                i <= n,
                forall|j: int| 0 <= j < i ==> !region_contains(#[trigger] self.regions@[j], position),
            decreases n - i,
        {
            if self.regions[i].contains(position) {
                return true;
            }
            i = i + 1;
        }
        false
    }

    /// Whether some region intersects `region`.
    pub fn intersects(&self, region: &Region) -> (r: bool)
        ensures
            r == any_intersects(self.regions@, *region),
    {
        let n = self.regions.len();
        let mut i: usize = 0;
        while i < n
            invariant
                n == self.regions@.len(),
                i <= n,
                forall|j: int| 0 <= j < i ==> !regions_intersect(#[trigger] self.regions@[j], *region),
            decreases n - i,
        {
            if self.regions[i].intersects(region) {
                return true;
            }
            i = i + 1;
        }
        false
    }

    pub fn is_empty(&self) -> (r: bool)
        ensures
            r == (self.regions@.len() == 0),
    {
        self.regions.len() == 0
    }
}

impl Default for RegionSet {
    fn default() -> (r: RegionSet)
        ensures
            r.regions@.len() == 0,
    {
        RegionSet { regions: Vec::new() }
    }
}

impl Clone for RegionSet {
    fn clone(&self) -> (r: RegionSet)
        ensures
            r.regions@ == self.regions@,
    {
        RegionSet { regions: self.regions.clone() }
    }
}

// ---------------------------------------------------------------------------
// Deltas.
// ---------------------------------------------------------------------------

/// A reason for one coordinate-level mutation in a delta or causal trace.
#[derive(Clone, Copy, Debug, PartialEq, Eq, Structural)]
pub enum ChangeReason {
    Unknown,
    PistonMove { from: Pos, to: Pos },
    PistonState { piston: Pos },
    ExternalInput,
    NeighborUpdate,
    RepeaterState { repeater: Pos },
}

/// Mechanical cause of a shape transition.
#[derive(Clone, Copy, Debug, PartialEq, Eq, Structural)]
pub enum DeltaCause {
    Unknown,
    PistonExtend { piston: Pos },
    PistonRetract { piston: Pos },
    External,
    NeighborUpdate,
    RepeaterTick { repeater: Pos },
}

impl Default for ChangeReason {
    fn default() -> (r: ChangeReason)
        ensures
            r == ChangeReason::Unknown,
    {
        ChangeReason::Unknown
    }
}

impl Default for DeltaCause {
    fn default() -> (r: DeltaCause)
        ensures
            r == DeltaCause::Unknown,
    {
        DeltaCause::Unknown
    }
}

/// One coordinate's expected before/after state. Air is represented by
/// `BlockKind::Air` even though `World` stores it sparsely.
#[derive(Debug, PartialEq, Eq)]
pub struct BlockChange {
    pub position: Pos,
    pub before: Block,
    pub after: Block,
    pub reason: ChangeReason,
}

/// A logical move retained alongside its coordinate-level changes.
#[derive(Debug, PartialEq, Eq)]
pub struct BlockMove {
    pub from: Pos,
    pub to: Pos,
    pub block: Block,
}

/// An atomic, validated change from one geometric shape to another.
#[derive(Clone, Debug, PartialEq, Eq)]
pub struct WorldDelta {
    pub parent_shape: ShapeId,
    pub changes: Vec<BlockChange>,
    pub moves: Vec<BlockMove>,
    pub dirty_region: RegionSet,
    pub cause: DeltaCause,
}

#[allow(inconsistent_fields)]
#[derive(Clone, Debug, PartialEq, Eq)]
pub enum WorldDeltaError {
    ParentShapeMismatch { expected: ShapeId, actual: ShapeId },
    DuplicatePosition { position: Pos },
    BeforeMismatch { position: Pos, expected: Box<Block>, actual: Box<Block> },
    MoveNotRepresented { from: Pos, to: Pos },
}

/// The outcome of checking a delta against a world.
pub enum DeltaCheck {
    Valid,
    ParentShapeMismatch(ShapeId, ShapeId),
    DuplicatePosition(Pos),
    /// The change at this index expects another block than the world holds.
    BeforeMismatch(int),
    MoveNotRepresented(Pos, Pos),
}

/// Whether `before` describes what `w` holds at `p` (Air when nothing is
/// stored).
pub open spec fn before_matches(w: World, p: Pos, before: Block) -> bool {
    match w.block_at(p) {
        Some(b) => same_block(b, before),
        None => is_fresh_block(before, BlockKind::Air),
    }
}

/// The check of the change at index `k`.
pub open spec fn check_change(w: World, cs: Seq<BlockChange>, k: int) -> DeltaCheck {
    if exists|j: int| 0 <= j < k && (#[trigger] cs[j]).position == cs[k].position {
        DeltaCheck::DuplicatePosition(cs[k].position)
    } else if !before_matches(w, cs[k].position, cs[k].before) {
        DeltaCheck::BeforeMismatch(k)
    } else {
        DeltaCheck::Valid
    }
}

/// The first failing check among the first `n` changes.
pub open spec fn check_changes(w: World, cs: Seq<BlockChange>, n: nat) -> DeltaCheck
    decreases n,
{
    if n == 0 {
        DeltaCheck::Valid
    } else {
        match check_changes(w, cs, (n - 1) as nat) {
            DeltaCheck::Valid => check_change(w, cs, n - 1),
            e => e,
        }
    }
}

/// The index of the first change at `p`.
pub open spec fn find_change(cs: Seq<BlockChange>, p: Pos) -> Option<int>
    decreases cs.len(),
{
    if cs.len() == 0 {
        None
    } else {
        match find_change(cs.drop_last(), p) {
            Some(i) => Some(i),
            None => if cs.last().position == p {
                Some(cs.len() - 1)
            } else {
                None
            },
        }
    }
}

/// `actual` is the moved block itself or a moving piston carrying it.
pub open spec fn represents_moved(actual: Block, expected: Block) -> bool {
    same_block(actual, expected) || (actual.kind is MovingPiston && match actual.piston_entity {
        Some(e) => same_block(*e.pushed_block, expected),
        None => false,
    })
}

/// A moving piston carrying a piston head.
pub open spec fn carries_head(b: Block) -> bool {
    b.kind is MovingPiston && match b.piston_entity {
        Some(e) => e.pushed_block.kind is PistonHead,
        None => false,
    }
}

pub open spec fn change_shows(cs: Seq<BlockChange>, p: Pos, block: Block) -> bool {
    match find_change(cs, p) {
        Some(i) => represents_moved(cs[i].before, block) || represents_moved(cs[i].after, block),
        None => false,
    }
}

pub open spec fn change_carries_head(cs: Seq<BlockChange>, p: Pos) -> bool {
    match find_change(cs, p) {
        Some(i) => carries_head(cs[i].before) || carries_head(cs[i].after),
        None => false,
    }
}

/// A move is represented when both ends show the block, or when one end is
/// the moving piston head and the other shows the block.
pub open spec fn move_represented(cs: Seq<BlockChange>, m: BlockMove) -> bool {
    let source = change_shows(cs, m.from, m.block);
    let destination = change_shows(cs, m.to, m.block);
    (source && destination) || (change_carries_head(cs, m.from) && destination) || (source
        && change_carries_head(cs, m.to))
}

/// The first unrepresented move among the first `n` moves.
pub open spec fn check_moves(cs: Seq<BlockChange>, ms: Seq<BlockMove>, n: nat) -> DeltaCheck
    decreases n,
{
    if n == 0 {
        DeltaCheck::Valid
    } else {
        match check_moves(cs, ms, (n - 1) as nat) {
            DeltaCheck::Valid => if move_represented(cs, ms[n - 1]) {
                DeltaCheck::Valid
            } else {
                DeltaCheck::MoveNotRepresented(ms[n - 1].from, ms[n - 1].to)
            },
            e => e,
        }
    }
}

/// The outcome of validating `d` against `w`: the parent shape first, then
/// every change in order, then every move in order.
pub open spec fn delta_check(d: WorldDelta, w: World) -> DeltaCheck {
    if spec_shape_id(w) != d.parent_shape {
        DeltaCheck::ParentShapeMismatch(d.parent_shape, spec_shape_id(w))
    } else {
        match check_changes(w, d.changes@, d.changes@.len()) {
            DeltaCheck::Valid => check_moves(d.changes@, d.moves@, d.moves@.len()),
            e => e,
        }
    }
}

/// `d` can be applied to `w`: the world has the delta's parent shape, the
/// changes are at distinct positions, each change's before-block is what
/// the world holds (Air where nothing is stored), and every move is
/// represented by the changes at its ends.
pub open spec fn delta_applies(d: WorldDelta, w: World) -> bool {
    &&& spec_shape_id(w) == d.parent_shape
    &&& forall|i: int, j: int|
        0 <= i < j < d.changes@.len() ==> (#[trigger] d.changes@[i]).position != (#[trigger] d.changes@[j]).position
    &&& forall|k: int| 0 <= k < d.changes@.len() ==> before_matches(w, (#[trigger] d.changes@[k]).position, d.changes@[k].before)
    &&& forall|k: int| 0 <= k < d.moves@.len() ==> move_represented(d.changes@, #[trigger] d.moves@[k])
}

proof fn lemma_check_changes_valid(w: World, cs: Seq<BlockChange>, n: nat)
    requires
        n <= cs.len(),
    ensures
        check_changes(w, cs, n) is Valid <==> {
            &&& forall|i: int, j: int| 0 <= i < j < n ==> (#[trigger] cs[i]).position != (#[trigger] cs[j]).position
            &&& forall|k: int| 0 <= k < n ==> before_matches(w, (#[trigger] cs[k]).position, cs[k].before)
        },
    decreases n,
{
    if n > 0 {
        lemma_check_changes_valid(w, cs, (n - 1) as nat);
        let m = n - 1;
        if check_changes(w, cs, (n - 1) as nat) is Valid {
            if exists|j: int| 0 <= j < m && (#[trigger] cs[j]).position == cs[m].position {
                let j = choose|j: int| 0 <= j < m && (#[trigger] cs[j]).position == cs[m].position;
                assert(cs[j].position == cs[m].position);
            } else if before_matches(w, cs[m].position, cs[m].before) {
                assert forall|i: int, j: int| 0 <= i < j < n implies (#[trigger] cs[i]).position != (#[trigger] cs[j]).position by {
                    if j == m {
                        assert(!(0 <= i < m && cs[i].position == cs[m].position));
                    }
                }
            }
        }
    }
}

proof fn lemma_check_moves_valid(cs: Seq<BlockChange>, ms: Seq<BlockMove>, n: nat)
    requires
        n <= ms.len(),
    ensures
        check_moves(cs, ms, n) is Valid <==> forall|k: int| 0 <= k < n ==> move_represented(cs, #[trigger] ms[k]),
    decreases n,
{
    if n > 0 {
        lemma_check_moves_valid(cs, ms, (n - 1) as nat);
    }
}

/// A delta validates against a world exactly when the world has the
/// delta's parent shape, the changes are at distinct positions, each
/// change's before-block is what the world holds (Air where nothing is
/// stored), and every move is represented by the changes at its ends.
pub proof fn law_delta_valid_iff(d: WorldDelta, w: World)
    ensures
        delta_check(d, w) is Valid <==> delta_applies(d, w),
{
    lemma_check_changes_valid(w, d.changes@, d.changes@.len());
    lemma_check_moves_valid(d.changes@, d.moves@, d.moves@.len());
}

/// The error `e` reports the failed check `c`.
pub open spec fn reports(e: WorldDeltaError, c: DeltaCheck, d: WorldDelta, w: World) -> bool {
    match (e, c) {
        (
            WorldDeltaError::ParentShapeMismatch { expected, actual },
            DeltaCheck::ParentShapeMismatch(x, y),
        ) => expected == x && actual == y,
        (WorldDeltaError::DuplicatePosition { position }, DeltaCheck::DuplicatePosition(p)) =>
            position == p,
        (
            WorldDeltaError::BeforeMismatch { position, expected, actual },
            DeltaCheck::BeforeMismatch(k),
        ) => {
            &&& 0 <= k < d.changes@.len()
            &&& position == d.changes@[k].position
            &&& same_block(*expected, d.changes@[k].before)
            &&& match w.block_at(position) {
                Some(b) => same_block(*actual, b),
                None => is_fresh_block(*actual, BlockKind::Air),
            }
        },
        (WorldDeltaError::MoveNotRepresented { from, to }, DeltaCheck::MoveNotRepresented(f, t)) =>
            from == f && to == t,
        _ => false,
    }
}

/// What a world holds at `q` after a valid delta is applied: the block of the
/// change at `q` (Air meaning absent), or what it held before.
pub open spec fn applied_at(before: Option<Block>, cs: Seq<BlockChange>, q: Pos, now: Option<Block>) -> bool {
    match find_change(cs, q) {
        Some(i) => if cs[i].after.kind is Air {
            now is None
        } else {
            now matches Some(b) && same_block(b, cs[i].after)
        },
        None => same_opt_block(now, before),
    }
}

/// Both absent, or both present with the same data.
pub open spec fn same_opt_block(a: Option<Block>, b: Option<Block>) -> bool {
    match (a, b) {
        (None, None) => true,
        (Some(x), Some(y)) => same_block(x, y),
        _ => false,
    }
}

pub(crate) proof fn lemma_copy_lookup(w: World, c: World, q: Pos)
    requires
        w.wf(),
        c.wf(),
        c@.len() == w@.len(),
        forall|i: int|
            0 <= i < w@.len() ==> (#[trigger] c@[i]).0 == w@[i].0 && same_block(c@[i].1, w@[i].1),
    ensures
        same_opt_block(c.block_at(q), w.block_at(q)),
{
    w.lemma_wf();
    c.lemma_wf();
    if exists|i: int| 0 <= i < w@.len() && w@[i].0 == q {
        let i = choose|i: int| 0 <= i < w@.len() && w@[i].0 == q;
        lemma_entry_found(w@, i);
        lemma_entry_found(c@, i);
        assert(c@[i].0 == q);
    } else {
        assert forall|j: int| 0 <= j < c@.len() implies c@[j].0 != q by {
            assert(c@[j].0 == w@[j].0);
        }
    }
}

/// `after` is `before` with every change of `cs` applied.
pub open spec fn applied_world(before: World, cs: Seq<BlockChange>, after: World) -> bool {
    forall|q: Pos| applied_at(before.block_at(q), cs, q, #[trigger] after.block_at(q))
}

pub(crate) proof fn lemma_fresh_same(a: Block, b: Block, kind: BlockKind)
    requires
        is_fresh_block(a, kind),
        is_fresh_block(b, kind),
    ensures
        same_block(a, b),
{
    assert(a.observed_properties.pairs() =~= b.observed_properties.pairs());
}

proof fn lemma_check_changes_stable(w: World, cs: Seq<BlockChange>, a: nat, b: nat)
    requires
        a <= b,
        !(check_changes(w, cs, a) is Valid),
    ensures
        check_changes(w, cs, b) == check_changes(w, cs, a),
    decreases b - a,
{
    if a < b {
        lemma_check_changes_stable(w, cs, a, (b - 1) as nat);
    }
}

proof fn lemma_check_moves_stable(cs: Seq<BlockChange>, ms: Seq<BlockMove>, a: nat, b: nat)
    requires
        a <= b,
        !(check_moves(cs, ms, a) is Valid),
    ensures
        check_moves(cs, ms, b) == check_moves(cs, ms, a),
    decreases b - a,
{
    if a < b {
        lemma_check_moves_stable(cs, ms, a, (b - 1) as nat);
    }
}

proof fn lemma_find_change(cs: Seq<BlockChange>, p: Pos)
    ensures
        match find_change(cs, p) {
            Some(i) => 0 <= i < cs.len() && cs[i].position == p && forall|k: int|
                0 <= k < i ==> (#[trigger] cs[k]).position != p,
            None => forall|k: int| 0 <= k < cs.len() ==> (#[trigger] cs[k]).position != p,
        },
    decreases cs.len(),
{
    if cs.len() > 0 {
        lemma_find_change(cs.drop_last(), p);
        assert forall|k: int| 0 <= k < cs.len() - 1 implies cs.drop_last()[k] == cs[k] by {}
    }
}

proof fn lemma_valid_changes_distinct(w: World, cs: Seq<BlockChange>, n: nat)
    requires
        n <= cs.len(),
        check_changes(w, cs, n) is Valid,
    ensures
        forall|a: int, b: int| 0 <= a < b < n ==> (#[trigger] cs[a]).position != (#[trigger] cs[b]).position,
        forall|a: int| 0 <= a < n ==> before_matches(w, (#[trigger] cs[a]).position, cs[a].before),
    decreases n,
{
    if n > 0 {
        lemma_valid_changes_distinct(w, cs, (n - 1) as nat);
        assert(check_change(w, cs, n - 1) is Valid);
    }
}

proof fn lemma_find_change_prefix(cs: Seq<BlockChange>, i: int, p: Pos)
    requires
        0 <= i < cs.len(),
        forall|a: int, b: int| 0 <= a < b < cs.len() ==> (#[trigger] cs[a]).position != (#[trigger] cs[b]).position,
    ensures
        find_change(cs.take(i + 1), p) == (if cs[i].position == p {
            Some(i)
        } else {
            find_change(cs.take(i), p)
        }),
{
    assert(cs.take(i + 1).drop_last() =~= cs.take(i));
    lemma_find_change(cs.take(i), p);
}

impl Clone for BlockChange {
    fn clone(&self) -> (r: BlockChange)
        ensures
            r.position == self.position && same_block(r.before, self.before) && same_block(
                r.after,
                self.after,
            ) && r.reason == self.reason,
    {
        BlockChange {
            position: self.position,
            before: self.before.copy(),
            after: self.after.copy(),
            reason: self.reason,
        }
    }
}

impl Clone for BlockMove {
    fn clone(&self) -> (r: BlockMove)
        ensures
            r.from == self.from && r.to == self.to && same_block(r.block, self.block),
    {
        BlockMove { from: self.from, to: self.to, block: self.block.copy() }
    }
}

fn represents_moved_block(actual: &Block, expected: &Block) -> (r: bool)
    ensures
        r == represents_moved(*actual, *expected),
{
    if actual.same_as(expected) {
        return true;
    }
    if actual.kind == BlockKind::MovingPiston {
        if let Some(e) = &actual.piston_entity {
            return e.pushed_block.same_as(expected);
        }
    }
    false
}

fn is_moving_head(b: &Block) -> (r: bool)
    ensures
        r == carries_head(*b),
{
    if b.kind == BlockKind::MovingPiston {
        if let Some(e) = &b.piston_entity {
            return e.pushed_block.kind == BlockKind::PistonHead;
        }
    }
    false
}

impl WorldDelta {
    /// A delta with no changes.
    pub fn empty(parent_shape: ShapeId, cause: DeltaCause) -> (r: WorldDelta)
        ensures
            r.parent_shape == parent_shape,
            r.changes@.len() == 0,
            r.moves@.len() == 0,
            r.dirty_region.regions@.len() == 0,
            r.cause == cause,
    {
        WorldDelta {
            parent_shape,
            changes: Vec::new(),
            moves: Vec::new(),
            dirty_region: RegionSet { regions: Vec::new() },
            cause,
        }
    }

    /// The position of every change, in order.
    pub fn changed_positions(&self) -> (r: Vec<Pos>)
        ensures
            r@.len() == self.changes@.len(),
            forall|i: int| 0 <= i < r@.len() ==> r@[i] == (#[trigger] self.changes@[i]).position,
    {
        let mut out: Vec<Pos> = Vec::new();
        let n = self.changes.len();
        let mut i: usize = 0;
        while i < n
            invariant
                n == self.changes@.len(),
                i <= n,
                out@.len() == i,
                forall|j: int| 0 <= j < i ==> out@[j] == (#[trigger] self.changes@[j]).position,
            decreases n - i,
        {
            out.push(self.changes[i].position);
            i = i + 1;
        }
        out
    }

    /// The index of the first change at `p`.
    fn change_index(&self, p: Pos) -> (r: Option<usize>)
        ensures
            r matches Some(i) ==> i < self.changes@.len() && find_change(self.changes@, p) == Some(
                i as int,
            ),
            r is None ==> find_change(self.changes@, p) is None,
    {
        let n = self.changes.len();
        let mut i: usize = 0;
        while i < n
            invariant
                n == self.changes@.len(),
                i <= n,
                forall|k: int| 0 <= k < i ==> (#[trigger] self.changes@[k]).position != p,
            decreases n - i,
        {
            if self.changes[i].position == p {
                proof {
                    lemma_find_change(self.changes@, p);
                }
                return Some(i);
            }
            i = i + 1;
        }
        proof {
            lemma_find_change(self.changes@, p);
        }
        None
    }

    fn shows(&self, p: Pos, block: &Block) -> (r: bool)
        ensures
            r == change_shows(self.changes@, p, *block),
    {
        match self.change_index(p) {
            Some(i) => represents_moved_block(&self.changes[i].before, block)
                || represents_moved_block(&self.changes[i].after, block),
            None => false,
        }
    }

    fn carries_head_at(&self, p: Pos) -> (r: bool)
        ensures
            r == change_carries_head(self.changes@, p),
    {
        match self.change_index(p) {
            Some(i) => is_moving_head(&self.changes[i].before) || is_moving_head(
                &self.changes[i].after,
            ),
            None => false,
        }
    }

    /// Checks the parent shape, every expected source state and every move,
    /// and rejects duplicate coordinates, before any mutation can occur.
    pub fn validate(&self, world: &World) -> (r: Result<(), WorldDeltaError>)
        requires
            world.wf(),
        ensures
            r is Ok <==> delta_check(*self, *world) is Valid,
            r is Ok <==> delta_applies(*self, *world),
            r matches Err(e) ==> reports(e, delta_check(*self, *world), *self, *world),
    {
        proof {
            law_delta_valid_iff(*self, *world);
        }
        let actual_shape = world.shape_id();
        if actual_shape != self.parent_shape {
            return Err(
                WorldDeltaError::ParentShapeMismatch {
                    expected: self.parent_shape,
                    actual: actual_shape,
                },
            );
        }
        let n = self.changes.len();
        let mut i: usize = 0;
        while i < n
            invariant
                n == self.changes@.len(),
                i <= n,
                world.wf(),
                spec_shape_id(*world) == self.parent_shape,
                check_changes(*world, self.changes@, i as nat) is Valid,
            decreases n - i,
        {
            let position = self.changes[i].position;
            let mut j: usize = 0;
            while j < i
                invariant
                    n == self.changes@.len(),
                    j <= i < n,
                    world.wf(),
                    spec_shape_id(*world) == self.parent_shape,
                    check_changes(*world, self.changes@, i as nat) is Valid,
                    position == self.changes@[i as int].position,
                    forall|k: int| 0 <= k < j ==> (#[trigger] self.changes@[k]).position != position,
                decreases i - j,
            {
                if self.changes[j].position == position {
                    proof {
                        assert(self.changes@[j as int].position == position);
                        assert(check_changes(*world, self.changes@, (i + 1) as nat)
                            == DeltaCheck::DuplicatePosition(position));
                        lemma_check_changes_stable(*world, self.changes@, (i + 1) as nat, n as nat);
                    }
                    return Err(WorldDeltaError::DuplicatePosition { position });
                }
                j = j + 1;
            }
            let actual = world.block_or_air(position);
            if !actual.same_as(&self.changes[i].before) {
                proof {
                    match world.block_at(position) {
                        Some(b) => {
                            if same_block(b, self.changes@[i as int].before) {
                                crate::world::lemma_same_block_trans(
                                    actual,
                                    b,
                                    self.changes@[i as int].before,
                                );
                            }
                        },
                        None => {
                            if is_fresh_block(self.changes@[i as int].before, BlockKind::Air) {
                                lemma_fresh_same(actual, self.changes@[i as int].before, BlockKind::Air);
                            }
                        },
                    }
                    assert(check_changes(*world, self.changes@, (i + 1) as nat)
                        == DeltaCheck::BeforeMismatch(i as int));
                    lemma_check_changes_stable(*world, self.changes@, (i + 1) as nat, n as nat);
                }
                return Err(
                    WorldDeltaError::BeforeMismatch {
                        position,
                        expected: Box::new(self.changes[i].before.copy()),
                        actual: Box::new(actual),
                    },
                );
            }
            proof {
                match world.block_at(position) {
                    Some(b) => {
                        crate::world::lemma_same_block_sym(actual, b);
                        crate::world::lemma_same_block_trans(
                            b,
                            actual,
                            self.changes@[i as int].before,
                        );
                    },
                    None => {},
                }
            }
            i = i + 1;
        }
        let m = self.moves.len();
        let mut k: usize = 0;
        while k < m
            invariant
                m == self.moves@.len(),
                k <= m,
                spec_shape_id(*world) == self.parent_shape,
                check_changes(*world, self.changes@, self.changes@.len()) is Valid,
                check_moves(self.changes@, self.moves@, k as nat) is Valid,
            decreases m - k,
        {
            let movement = &self.moves[k];
            let source_match = self.shows(movement.from, &movement.block);
            let destination_match = self.shows(movement.to, &movement.block);
            let source_is_moving_head = self.carries_head_at(movement.from);
            let destination_is_moving_head = self.carries_head_at(movement.to);
            let represented = (source_match && destination_match) || (source_is_moving_head
                && destination_match) || (source_match && destination_is_moving_head);
            if !represented {
                proof {
                    lemma_check_moves_stable(self.changes@, self.moves@, (k + 1) as nat, m as nat);
                }
                return Err(WorldDeltaError::MoveNotRepresented { from: movement.from, to: movement.to });
            }
            k = k + 1;
        }
        Ok(())
    }

    /// Writes every change, in order.
    fn write_changes(&self, world: &mut World)
        requires
            old(world).wf(),
            forall|a: int, b: int|
                0 <= a < b < self.changes@.len() ==> (#[trigger] self.changes@[a]).position
                    != (#[trigger] self.changes@[b]).position,
        ensures
            final(world).wf(),
            applied_world(*old(world), self.changes@, *final(world)),
    {
        let ghost w0 = *world;
        let ghost cs = self.changes@;
        proof {
            assert forall|q: Pos| applied_at(w0.block_at(q), cs.take(0), q, #[trigger] w0.block_at(q)) by {
                if let Some(b) = w0.block_at(q) {
                    lemma_same_block_refl(b);
                }
            }
        }
        let n = self.changes.len();
        let mut i: usize = 0;
        while i < n
            invariant
                n == cs.len(),
                cs == self.changes@,
                i <= n,
                world.wf(),
                forall|a: int, b: int|
                    0 <= a < b < cs.len() ==> (#[trigger] cs[a]).position != (#[trigger] cs[b]).position,
                forall|q: Pos| applied_at(w0.block_at(q), cs.take(i as int), q, #[trigger] world.block_at(q)),
            decreases n - i,
        {
            let ghost wi = *world;
            let position = self.changes[i].position;
            let after = self.changes[i].after.copy();
            world.set(position, after);
            proof {
                assert forall|q: Pos| applied_at(w0.block_at(q), cs.take(i + 1), q, #[trigger] world.block_at(q)) by {
                    lemma_find_change_prefix(cs, i as int, q);
                    assert(applied_at(w0.block_at(q), cs.take(i as int), q, wi.block_at(q)));
                    lemma_find_change(cs.take(i as int), q);
                    match find_change(cs.take(i as int), q) {
                        Some(j) => {
                            assert(cs.take(i + 1)[j] == cs.take(i as int)[j]);
                        },
                        None => {},
                    }
                }
            }
            i = i + 1;
        }
        proof {
            assert(cs.take(n as int) =~= cs);
        }
    }

    /// Validates the delta and then writes every change; the world is left
    /// untouched when validation fails.
    pub fn apply(&self, world: &mut World) -> (r: Result<(), WorldDeltaError>)
        requires
            old(world).wf(),
        ensures
            final(world).wf(),
            r is Ok <==> delta_check(*self, *old(world)) is Valid,
            r is Ok <==> delta_applies(*self, *old(world)),
            r is Ok ==> applied_world(*old(world), self.changes@, *final(world)),
            r matches Err(e) ==> reports(e, delta_check(*self, *old(world)), *self, *old(world))
                && *final(world) == *old(world),
    {
        match self.validate(world) {
            Err(e) => return Err(e),
            Ok(()) => {},
        }
        proof {
            lemma_valid_changes_distinct(*world, self.changes@, self.changes@.len());
        }
        self.write_changes(world);
        Ok(())
    }

    /// The shape identity the world would have after this delta.
    pub fn target_shape(&self, world: &World) -> (r: Result<ShapeId, WorldDeltaError>)
        requires
            world.wf(),
        ensures
            r is Ok <==> delta_check(*self, *world) is Valid,
            r matches Ok(id) ==> exists|w: World|
                w.wf() && applied_world(*world, self.changes@, w) && #[trigger] spec_shape_id(w)
                    == id,
            r matches Err(e) ==> reports(e, delta_check(*self, *world), *self, *world),
    {
        match self.validate(world) {
            Err(e) => return Err(e),
            Ok(()) => {},
        }
        proof {
            lemma_valid_changes_distinct(*world, self.changes@, self.changes@.len());
        }
        let mut staged = world.copy();
        let ghost copied = staged;
        self.write_changes(&mut staged);
        proof {
            let cs = self.changes@;
            assert forall|q: Pos| applied_at(world.block_at(q), cs, q, #[trigger] staged.block_at(q)) by {
                lemma_copy_lookup(*world, copied, q);
                assert(applied_at(copied.block_at(q), cs, q, staged.block_at(q)));
                if find_change(cs, q) is None {
                    match (staged.block_at(q), copied.block_at(q), world.block_at(q)) {
                        (Some(a), Some(b), Some(c)) => {
                            lemma_same_block_trans(a, b, c);
                        },
                        _ => {},
                    }
                }
            }
        }
        let id = staged.shape_id();
        Ok(id)
    }
}

impl World {
    /// Applies a delta atomically; see `WorldDelta::apply`.
    pub fn apply_delta(&mut self, delta: &WorldDelta) -> (r: Result<(), WorldDeltaError>)
        requires
            old(self).wf(),
        ensures
            final(self).wf(),
            r is Ok <==> delta_check(*delta, *old(self)) is Valid,
            r is Ok ==> applied_world(*old(self), delta.changes@, *final(self)),
            r matches Err(e) ==> reports(e, delta_check(*delta, *old(self)), *delta, *old(self))
                && *final(self) == *old(self),
    {
        delta.apply(self)
    }
}

/// An immutable world paired with its shape identity.
#[derive(Debug, PartialEq, Eq)]
pub struct Shape {
    world: World,
    id: ShapeId,
}

impl Shape {
    #[verifier::type_invariant]
    closed spec fn inv(&self) -> bool {
        self.world.wf() && self.id == spec_shape_id(self.world)
    }

    /// The world of this shape.
    pub closed spec fn view_world(&self) -> World {
        self.world
    }

    pub fn new(world: World) -> (r: Shape)
        requires
            world.wf(),
        ensures
            r.view_world() == world,
    {
        let id = world.shape_id();
        Shape { world, id }
    }

    pub fn id(&self) -> (r: ShapeId)
        ensures
            r == spec_shape_id(self.view_world()),
    {
        proof {
            use_type_invariant(self);
        }
        self.id
    }

    pub fn world(&self) -> (r: &World)
        ensures
            *r == self.view_world(),
            r.wf(),
    {
        proof {
            use_type_invariant(self);
        }
        &self.world
    }

    pub fn into_world(self) -> (r: World)
        ensures
            r == self.view_world(),
            r.wf(),
    {
        proof {
            use_type_invariant(&self);
        }
        self.world
    }

    /// The next shape after `delta`; this shape is unchanged.
    pub fn apply_delta(&self, delta: &WorldDelta) -> (r: Result<Shape, WorldDeltaError>)
        ensures
            r is Ok <==> delta_check(*delta, self.view_world()) is Valid,
            r matches Ok(s) ==> applied_world(self.view_world(), delta.changes@, s.view_world()),
            r matches Err(e) ==> reports(e, delta_check(*delta, self.view_world()), *delta, self.view_world()),
    {
        proof {
            use_type_invariant(self);
        }
        match delta.validate(&self.world) {
            Err(e) => return Err(e),
            Ok(()) => {},
        }
        proof {
            lemma_valid_changes_distinct(self.world, delta.changes@, delta.changes@.len());
        }
        let mut staged = self.world.copy();
        let ghost copied = staged;
        delta.write_changes(&mut staged);
        proof {
            let cs = delta.changes@;
            assert forall|q: Pos| applied_at(self.world.block_at(q), cs, q, #[trigger] staged.block_at(q)) by {
                lemma_copy_lookup(self.world, copied, q);
                assert(applied_at(copied.block_at(q), cs, q, staged.block_at(q)));
                if find_change(cs, q) is None {
                    match (staged.block_at(q), copied.block_at(q), self.world.block_at(q)) {
                        (Some(a), Some(b), Some(c)) => {
                            lemma_same_block_trans(a, b, c);
                        },
                        _ => {},
                    }
                }
            }
        }
        Ok(Shape::new(staged))
    }
}

/// Two change lists agree position by position, with blocks compared by
/// their data.
pub open spec fn same_changes(a: Seq<BlockChange>, b: Seq<BlockChange>) -> bool {
    &&& a.len() == b.len()
    &&& forall|i: int|
        0 <= i < a.len() ==> {
            &&& (#[trigger] a[i]).position == b[i].position
            &&& same_block(a[i].before, b[i].before)
            &&& same_block(a[i].after, b[i].after)
            &&& a[i].reason == b[i].reason
        }
}

pub open spec fn same_moves(a: Seq<BlockMove>, b: Seq<BlockMove>) -> bool {
    &&& a.len() == b.len()
    &&& forall|i: int|
        0 <= i < a.len() ==> (#[trigger] a[i]).from == b[i].from && a[i].to == b[i].to
            && same_block(a[i].block, b[i].block)
}

/// Two deltas describe the same transition.
pub open spec fn same_delta(a: WorldDelta, b: WorldDelta) -> bool {
    &&& a.parent_shape == b.parent_shape
    &&& same_changes(a.changes@, b.changes@)
    &&& same_moves(a.moves@, b.moves@)
    &&& a.dirty_region.regions@ == b.dirty_region.regions@
    &&& a.cause == b.cause
}

/// A copy of a move list.
pub fn copy_moves(moves: &Vec<BlockMove>) -> (r: Vec<BlockMove>)
    ensures
        same_moves(r@, moves@),
{
    let mut out: Vec<BlockMove> = Vec::new();
    let n = moves.len();
    let mut i: usize = 0;
    while i < n
        invariant
            n == moves@.len(),
            i <= n,
            out@.len() == i,
            forall|j: int|
                0 <= j < i ==> (#[trigger] out@[j]).from == moves@[j].from && out@[j].to
                    == moves@[j].to && same_block(out@[j].block, moves@[j].block),
        decreases n - i,
    {
        out.push(moves[i].clone());
        i = i + 1;
    }
    out
}

impl WorldDelta {
    /// A copy of this delta.
    pub fn copy(&self) -> (r: WorldDelta)
        ensures
            same_delta(r, *self),
    {
        let mut changes: Vec<BlockChange> = Vec::new();
        let n = self.changes.len();
        let mut i: usize = 0;
        while i < n
            invariant
                n == self.changes@.len(),
                i <= n,
                changes@.len() == i,
                forall|j: int|
                    0 <= j < i ==> {
                        &&& (#[trigger] changes@[j]).position == self.changes@[j].position
                        &&& same_block(changes@[j].before, self.changes@[j].before)
                        &&& same_block(changes@[j].after, self.changes@[j].after)
                        &&& changes@[j].reason == self.changes@[j].reason
                    },
            decreases n - i,
        {
            changes.push(self.changes[i].clone());
            i = i + 1;
        }
        WorldDelta {
            parent_shape: self.parent_shape,
            changes,
            moves: copy_moves(&self.moves),
            dirty_region: self.dirty_region.clone(),
            cause: self.cause,
        }
    }
}

} // verus!
