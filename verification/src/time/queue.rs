//! The pending-event queue. Events are stored grouped by game tick, then by
//! phase (in declaration order), then in insertion order; a scheduler
//! profile decides which phase of the earliest tick runs first.

use vstd::prelude::*;

use crate::time::event::{
    phase_index, phase_ordinal, spec_default_phase, EventCause, EventId, PhysicsEvent,
    PhysicsEventKind, PhysicsEventPhase, PhysicsTime,
};
use crate::time::scheduler::{all_phases, spec_phase_rank, SchedulerProfile};
use crate::world::Pos;

verus! {

/// Storage order: by game tick, then phase declaration index.
pub open spec fn store_le(a: PhysicsEvent, b: PhysicsEvent) -> bool {
    a.time.game_tick < b.time.game_tick || (a.time.game_tick == b.time.game_tick && phase_index(
        a.time.phase,
    ) <= phase_index(b.time.phase))
}

pub open spec fn store_lt(a: PhysicsEvent, b: PhysicsEvent) -> bool {
    a.time.game_tick < b.time.game_tick || (a.time.game_tick == b.time.game_tick && phase_index(
        a.time.phase,
    ) < phase_index(b.time.phase))
}

pub open spec fn stored_sorted(s: Seq<PhysicsEvent>) -> bool {
    forall|i: int, j: int| 0 <= i < j < s.len() ==> store_le(#[trigger] s[i], #[trigger] s[j])
}

/// Execution order under a profile: by game tick, then phase rank, then
/// phase declaration index.
pub open spec fn run_before(p: Seq<PhysicsEventPhase>, a: PhysicsEvent, b: PhysicsEvent) -> bool {
    let ra = spec_phase_rank(p, a.time.phase);
    let rb = spec_phase_rank(p, b.time.phase);
    a.time.game_tick < b.time.game_tick || (a.time.game_tick == b.time.game_tick && (ra < rb || (ra
        == rb && phase_index(a.time.phase) < phase_index(b.time.phase))))
}

/// Two events share a tick and a phase.
pub open spec fn same_slot(a: PhysicsEvent, b: PhysicsEvent) -> bool {
    a.time.game_tick == b.time.game_tick && a.time.phase == b.time.phase
}

/// `i` is the index of the next event to run: nothing runs before it, and
/// it is the first of its tick and phase.
pub open spec fn is_next(p: Seq<PhysicsEventPhase>, s: Seq<PhysicsEvent>, i: int) -> bool {
    &&& 0 <= i < s.len()
    &&& forall|j: int| 0 <= j < s.len() ==> !run_before(p, #[trigger] s[j], s[i])
    &&& forall|j: int| 0 <= j < i ==> !same_slot(#[trigger] s[j], s[i])
}

/// The scheduler bookkeeping needed to undo one queue pop.
#[derive(Clone, Copy, Debug, PartialEq, Eq, Structural)]
pub struct QueuePopCheckpoint {
    pub game_tick: u64,
    pub previous_sub_tick_order: Option<u64>,
}

/// The pending events, kept sorted by tick and phase with insertion order
/// inside a slot, and the next insertion counter of each tick.
#[derive(Debug, PartialEq, Eq)]
pub struct PhysicsEventQueue {
    events: Vec<PhysicsEvent>,
    next_event_id: u64,
    // The per-tick counters form an association list sorted by tick
    // (`orders_sorted`) rather than a map: the execution key takes the
    // counters of the current and later ticks as the suffix of this list,
    // checkpoints copy it whole, and the laws on keys compare such suffixes
    // as sequences; `lemma_orders_canonical` shows that the list is fixed by
    // its lookups, so it is a map's canonical form. vstd gives `BTreeMap` no
    // range query from which that suffix could be read.
    next_sub_tick_order: Vec<(u64, u64)>,
}

pub open spec fn orders_sorted(s: Seq<(u64, u64)>) -> bool {
    forall|i: int, j: int| 0 <= i < j < s.len() ==> (#[trigger] s[i]).0 < (#[trigger] s[j]).0
}

/// The counter stored for `tick` in an ordered association list.
pub open spec fn order_lookup(s: Seq<(u64, u64)>, tick: u64) -> Option<u64> {
    if exists|i: int| 0 <= i < s.len() && s[i].0 == tick {
        Some(s[choose|i: int| 0 <= i < s.len() && s[i].0 == tick].1)
    } else {
        None
    }
}

impl PhysicsEventQueue {
    #[verifier::type_invariant]
    closed spec fn inv(&self) -> bool {
        &&& stored_sorted(self.events@)
        &&& forall|i: int| 0 <= i < self.events@.len() ==> (#[trigger] self.events@[i]).time.sub_tick_order == 0
        &&& orders_sorted(self.next_sub_tick_order@)
    }

    /// The pending events in storage order.
    pub closed spec fn pending(&self) -> Seq<PhysicsEvent> {
        self.events@
    }

    /// The next insertion counter of each game tick.
    pub closed spec fn orders(&self) -> Seq<(u64, u64)> {
        self.next_sub_tick_order@
    }

    pub closed spec fn next_id(&self) -> u64 {
        self.next_event_id
    }

    pub fn new() -> (r: PhysicsEventQueue)
        ensures
            r.pending().len() == 0,
            r.orders().len() == 0,
            r.next_id() == 0,
    {
        PhysicsEventQueue { events: Vec::new(), next_event_id: 0, next_sub_tick_order: Vec::new() }
    }

    pub fn is_empty(&self) -> (r: bool)
        ensures
            r == (self.pending().len() == 0),
    {
        self.events.len() == 0
    }

    pub fn len(&self) -> (r: usize)
        ensures
            r == self.pending().len(),
    {
        self.events.len()
    }

    /// The index of the next event under `profile`.
    fn next_index(&self, profile: &SchedulerProfile) -> (r: Option<usize>)
        ensures
            r is None <==> self.pending().len() == 0,
            r matches Some(i) ==> is_next(profile.order(), self.pending(), i as int),
    {
        let n = self.events.len();
        if n == 0 {
            return None;
        }
        let mut best: usize = 0;
        let mut i: usize = 1;
        while i < n
            invariant
                n == self.events@.len(),
                0 < n,
                best < i <= n,
                forall|j: int| 0 <= j < i ==> !run_before(profile.order(), #[trigger] self.events@[j], self.events@[best as int]),
                forall|j: int| 0 <= j < best ==> !same_slot(#[trigger] self.events@[j], self.events@[best as int]),
            decreases n - i,
        {
            let a = &self.events[i];
            let b = &self.events[best];
            let ra = profile.phase_rank(a.time.phase);
            let rb = profile.phase_rank(b.time.phase);
            let before = a.time.game_tick < b.time.game_tick || (a.time.game_tick == b.time.game_tick
                && (ra < rb || (ra == rb && phase_ordinal(a.time.phase) < phase_ordinal(b.time.phase))));
            if before {
                proof {
                    assert forall|j: int| 0 <= j < i implies !same_slot(#[trigger] self.events@[j], self.events@[i as int]) by {
                        if same_slot(self.events@[j], self.events@[i as int]) {
                            assert(run_before(profile.order(), self.events@[j], self.events@[best as int]) || true);
                        }
                    }
                }
                best = i;
            }
            i = i + 1;
        }
        Some(best)
    }

    /// The time of the next event under the default phase order.
    pub fn next_time(&self) -> (r: Option<PhysicsTime>)
        ensures
            r is None <==> self.pending().len() == 0,
            r matches Some(t) ==> exists|i: int| is_next(all_phases(), self.pending(), i) && self.pending()[i].time == t,
    {
        self.next_time_with_profile(&SchedulerProfile::default())
    }

    /// The time of the next event under `profile`.
    pub fn next_time_with_profile(&self, profile: &SchedulerProfile) -> (r: Option<PhysicsTime>)
        ensures
            r is None <==> self.pending().len() == 0,
            r matches Some(t) ==> exists|i: int| is_next(profile.order(), self.pending(), i) && self.pending()[i].time == t,
    {
        match self.next_index(profile) {
            Some(i) => Some(self.events[i].time),
            None => None,
        }
    }

    /// The next pending event under the default phase order.
    pub fn peek(&self) -> (r: Option<&PhysicsEvent>)
        ensures
            r is None <==> self.pending().len() == 0,
            r matches Some(e) ==> exists|i: int| is_next(all_phases(), self.pending(), i) && self.pending()[i] == *e,
    {
        self.peek_with_profile(&SchedulerProfile::default())
    }

    /// The next pending event under `profile`.
    pub fn peek_with_profile(&self, profile: &SchedulerProfile) -> (r: Option<&PhysicsEvent>)
        ensures
            r is None <==> self.pending().len() == 0,
            r matches Some(e) ==> exists|i: int| is_next(profile.order(), self.pending(), i) && self.pending()[i] == *e,
    {
        match self.next_index(profile) {
            Some(i) => Some(&self.events[i]),
            None => None,
        }
    }
}

/// `e` with its execution order reset, as stored in the queue.
pub open spec fn stored(e: PhysicsEvent) -> PhysicsEvent {
    PhysicsEvent {
        id: e.id,
        time: PhysicsTime { game_tick: e.time.game_tick, phase: e.time.phase, sub_tick_order: 0 },
        target: e.target,
        cause: e.cause,
        kind: e.kind,
    }
}

/// A newly scheduled event.
pub open spec fn new_event(
    id: EventId,
    game_tick: u64,
    phase: PhysicsEventPhase,
    target: Pos,
    cause: EventCause,
    kind: PhysicsEventKind,
) -> PhysicsEvent {
    PhysicsEvent {
        id,
        time: PhysicsTime { game_tick, phase, sub_tick_order: 0 },
        target,
        cause,
        kind,
    }
}

/// `k` is where `e` goes in front of its slot.
pub open spec fn front_position(s: Seq<PhysicsEvent>, e: PhysicsEvent, k: int) -> bool {
    &&& 0 <= k <= s.len()
    &&& forall|j: int| 0 <= j < k ==> store_lt(#[trigger] s[j], e)
    &&& forall|j: int| k <= j < s.len() ==> !store_lt(#[trigger] s[j], e)
}

/// `k` is where `e` goes behind its slot.
pub open spec fn back_position(s: Seq<PhysicsEvent>, e: PhysicsEvent, k: int) -> bool {
    &&& 0 <= k <= s.len()
    &&& forall|j: int| 0 <= j < k ==> store_le(#[trigger] s[j], e)
    &&& forall|j: int| k <= j < s.len() ==> store_lt(e, #[trigger] s[j])
}

/// The counter after one increment (saturating at the maximum).
pub open spec fn bump(o: u64) -> u64 {
    if o == u64::MAX {
        o
    } else {
        (o + 1) as u64
    }
}

/// What a pop of the event at `i` does to the queue and hands back.
pub open spec fn popped(
    old_pending: Seq<PhysicsEvent>,
    old_orders: Seq<(u64, u64)>,
    new_pending: Seq<PhysicsEvent>,
    new_orders: Seq<(u64, u64)>,
    i: int,
    e: PhysicsEvent,
    cp: QueuePopCheckpoint,
) -> bool {
    let x = old_pending[i];
    let tick = x.time.game_tick;
    let prev = order_lookup(old_orders, tick);
    let o = match prev {
        Some(v) => v,
        None => 0u64,
    };
    &&& new_pending == old_pending.remove(i)
    &&& e.id == x.id && e.target == x.target && e.cause == x.cause && e.kind == x.kind
    &&& e.time == (PhysicsTime { game_tick: tick, phase: x.time.phase, sub_tick_order: o })
    &&& cp == (QueuePopCheckpoint { game_tick: tick, previous_sub_tick_order: prev })
    &&& order_lookup(new_orders, tick) == Some(bump(o))
    &&& forall|t: u64| t != tick ==> #[trigger] order_lookup(new_orders, t) == order_lookup(old_orders, t)
    &&& front_position(old_pending.remove(i), stored(e), i)
    &&& stored(e) == x
}

/// The index of the event that runs next under phase order `p`.
pub open spec fn next_index_of(p: Seq<PhysicsEventPhase>, s: Seq<PhysicsEvent>) -> int {
    choose|i: int| is_next(p, s, i)
}

/// At most one index is next.
pub proof fn lemma_next_unique(p: Seq<PhysicsEventPhase>, s: Seq<PhysicsEvent>, i: int, j: int)
    requires
        is_next(p, s, i),
        is_next(p, s, j),
    ensures
        i == j,
{
    if i < j {
        assert(!run_before(p, s[i], s[j]));
        assert(!run_before(p, s[j], s[i]));
        assert(same_slot(s[i], s[j]));
    } else if j < i {
        assert(!run_before(p, s[i], s[j]));
        assert(!run_before(p, s[j], s[i]));
        assert(same_slot(s[j], s[i]));
    }
}

proof fn lemma_order_found(s: Seq<(u64, u64)>, i: int)
    requires
        orders_sorted(s),
        0 <= i < s.len(),
    ensures
        order_lookup(s, s[i].0) == Some(s[i].1),
{
    let c = choose|c: int| 0 <= c < s.len() && s[c].0 == s[i].0;
    if c < i {
        assert(s[c].0 < s[i].0);
    } else if c > i {
        assert(s[i].0 < s[c].0);
    }
}

proof fn lemma_order_rest(s: Seq<(u64, u64)>, t: u64)
    requires
        orders_sorted(s),
        s.len() > 0,
    ensures
        order_lookup(s.drop_first(), t) == (if t == s[0].0 { None } else { order_lookup(s, t) }),
{
    let r = s.drop_first();
    assert(orders_sorted(r));
    if exists|i: int| 0 <= i < r.len() && r[i].0 == t {
        let i = choose|i: int| 0 <= i < r.len() && r[i].0 == t;
        assert(s[0].0 < s[i + 1].0);
        lemma_order_found(r, i);
        lemma_order_found(s, i + 1);
    } else {
        if t != s[0].0 && exists|i: int| 0 <= i < s.len() && s[i].0 == t {
            let i = choose|i: int| 0 <= i < s.len() && s[i].0 == t;
            assert(r[i - 1].0 == t);
        }
    }
}

/// Two tick-sorted counter lists that agree at every tick are equal.
pub proof fn lemma_orders_canonical(a: Seq<(u64, u64)>, b: Seq<(u64, u64)>)
    requires
        orders_sorted(a),
        orders_sorted(b),
        forall|t: u64| #[trigger] order_lookup(a, t) == order_lookup(b, t),
    ensures
        a == b,
    decreases a.len() + b.len(),
{
    if a.len() == 0 {
        if b.len() > 0 {
            lemma_order_found(b, 0);
            assert(order_lookup(a, b[0].0) == order_lookup(b, b[0].0));
        }
        assert(a =~= b);
    } else if b.len() == 0 {
        lemma_order_found(a, 0);
        assert(order_lookup(a, a[0].0) == order_lookup(b, a[0].0));
    } else {
        lemma_order_found(a, 0);
        lemma_order_found(b, 0);
        assert(order_lookup(a, a[0].0) == order_lookup(b, a[0].0));
        assert(order_lookup(a, b[0].0) == order_lookup(b, b[0].0));
        let j = choose|j: int| 0 <= j < b.len() && b[j].0 == a[0].0;
        let i = choose|i: int| 0 <= i < a.len() && a[i].0 == b[0].0;
        if i > 0 {
            assert(a[0].0 < a[i].0);
        }
        if j > 0 {
            assert(b[0].0 < b[j].0);
        }
        assert(a[0].0 == b[0].0);
        lemma_order_found(b, j);
        assert(a[0] == b[0]);
        assert forall|t: u64| #[trigger] order_lookup(a.drop_first(), t) == order_lookup(b.drop_first(), t) by {
            lemma_order_rest(a, t);
            lemma_order_rest(b, t);
            assert(order_lookup(a, t) == order_lookup(b, t));
        }
        assert(orders_sorted(a.drop_first()));
        assert(orders_sorted(b.drop_first()));
        lemma_orders_canonical(a.drop_first(), b.drop_first());
        assert(a =~= seq![a[0]] + a.drop_first());
        assert(b =~= seq![b[0]] + b.drop_first());
    }
}

/// The insertion index of a key into a sorted counter list, and whether the
/// key is already present there.
fn order_find(v: &Vec<(u64, u64)>, tick: u64) -> (r: (bool, usize))
    requires
        orders_sorted(v@),
    ensures
        r.1 <= v@.len(),
        r.0 ==> r.1 < v@.len() && v@[r.1 as int].0 == tick,
        forall|j: int| 0 <= j < r.1 ==> (#[trigger] v@[j]).0 < tick,
        !r.0 ==> forall|j: int| r.1 <= j < v@.len() ==> (#[trigger] v@[j]).0 > tick,
{
    let n = v.len();
    let mut i: usize = 0;
    while i < n && v[i].0 < tick
        invariant
            n == v@.len(),
            i <= n,
            forall|j: int| 0 <= j < i ==> (#[trigger] v@[j]).0 < tick,
        decreases n - i,
    {
        i = i + 1;
    }
    if i < n && v[i].0 == tick {
        (true, i)
    } else {
        proof {
            assert forall|j: int| i <= j < n implies (#[trigger] v@[j]).0 > tick by {
                if j > i {
                    assert(v@[i as int].0 < v@[j].0);
                }
            }
        }
        (false, i)
    }
}

impl PhysicsEventQueue {
    fn order_get(&self, tick: u64) -> (r: Option<u64>)
        ensures
            r == order_lookup(self.orders(), tick),
    {
        proof {
            use_type_invariant(self);
        }
        let (found, i) = order_find(&self.next_sub_tick_order, tick);
        if found {
            proof {
                lemma_order_found(self.orders(), i as int);
            }
            Some(self.next_sub_tick_order[i].1)
        } else {
            None
        }
    }

    /// Sets or (with `None`) removes the counter of `tick`.
    #[verifier::spinoff_prover]
    #[verifier::rlimit(40)]
    fn order_put(&mut self, tick: u64, value: Option<u64>)
        ensures
            final(self).pending() == old(self).pending(),
            final(self).next_id() == old(self).next_id(),
            order_lookup(final(self).orders(), tick) == value,
            forall|t: u64| t != tick ==> #[trigger] order_lookup(final(self).orders(), t) == order_lookup(old(self).orders(), t),
    {
        proof {
            use_type_invariant(&*self);
        }
        let mut orders: Vec<(u64, u64)> = Vec::new();
        std::mem::swap(&mut orders, &mut self.next_sub_tick_order);
        let ghost s = orders@;
        let (found, i) = order_find(&orders, tick);
        if found {
            orders.remove(i);
        }
        let ghost t = orders@;
        proof {
            if found {
                assert(t =~= s.remove(i as int));
            } else {
                assert(t =~= s);
            }
            assert forall|a: int, b: int| 0 <= a < b < t.len() implies (#[trigger] t[a]).0 < (#[trigger] t[b]).0 by {
                if found {
                    if a >= i {
                        assert(t[a] == s[a + 1]);
                        assert(t[b] == s[b + 1]);
                    } else if b >= i {
                        assert(t[b] == s[b + 1]);
                    }
                }
            }
            assert forall|j: int| 0 <= j < i implies (#[trigger] t[j]).0 < tick by {}
            assert forall|j: int| i <= j < t.len() implies (#[trigger] t[j]).0 > tick by {
                if found {
                    assert(t[j] == s[j + 1]);
                    assert(s[i as int].0 < s[j + 1].0);
                }
            }
            assert forall|q: u64| q != tick implies #[trigger] order_lookup(t, q) == order_lookup(s, q) by {
                if exists|c: int| 0 <= c < s.len() && s[c].0 == q {
                    let c = choose|c: int| 0 <= c < s.len() && s[c].0 == q;
                    lemma_order_found(s, c);
                    if found && c > i {
                        lemma_order_found(t, c - 1);
                    } else if found && c < i {
                        lemma_order_found(t, c);
                    } else if !found {
                        lemma_order_found(t, c);
                    }
                } else {
                    assert forall|c: int| 0 <= c < t.len() implies t[c].0 != q by {
                        if found && c >= i {
                            assert(t[c] == s[c + 1]);
                        } else {
                            assert(t[c] == s[c]);
                        }
                    }
                }
            }
        }
        match value {
            Some(v) => {
                orders.insert(i, (tick, v));
                proof {
                    let u = orders@;
                    assert(u =~= t.insert(i as int, (tick, v)));
                    assert forall|a: int, b: int| 0 <= a < b < u.len() implies (#[trigger] u[a]).0 < (#[trigger] u[b]).0 by {
                        if b < i {
                        } else if a < i && b == i {
                        } else if a < i {
                            assert(u[b] == t[b - 1]);
                        } else if a == i {
                            assert(u[b] == t[b - 1]);
                        } else {
                            assert(u[a] == t[a - 1]);
                            assert(u[b] == t[b - 1]);
                        }
                    }
                    lemma_order_found(u, i as int);
                    assert forall|q: u64| q != tick implies #[trigger] order_lookup(u, q) == order_lookup(t, q) by {
                        if exists|c: int| 0 <= c < t.len() && t[c].0 == q {
                            let c = choose|c: int| 0 <= c < t.len() && t[c].0 == q;
                            lemma_order_found(t, c);
                            if c < i {
                                lemma_order_found(u, c);
                            } else {
                                assert(u[c + 1] == t[c]);
                                lemma_order_found(u, c + 1);
                            }
                        } else {
                            assert forall|c: int| 0 <= c < u.len() implies u[c].0 != q by {
                                if c < i {
                                    assert(u[c] == t[c]);
                                } else if c > i {
                                    assert(u[c] == t[c - 1]);
                                }
                            }
                        }
                    }
                }
            },
            None => {
                proof {
                    assert forall|c: int| 0 <= c < t.len() implies t[c].0 != tick by {
                        if c < i {
                        } else {
                        }
                    }
                }
            },
        }
        self.next_sub_tick_order = orders;
    }

    /// Inserts an already-stored event at `k`.
    fn insert_at(&mut self, k: usize, e: PhysicsEvent)
        requires
            k <= old(self).pending().len(),
            e.time.sub_tick_order == 0,
            forall|j: int| 0 <= j < k ==> store_le(#[trigger] old(self).pending()[j], e),
            forall|j: int| k <= j < old(self).pending().len() ==> store_le(e, #[trigger] old(self).pending()[j]),
        ensures
            final(self).pending() == old(self).pending().insert(k as int, e),
            final(self).orders() == old(self).orders(),
            final(self).next_id() == old(self).next_id(),
    {
        proof {
            use_type_invariant(&*self);
        }
        let mut events: Vec<PhysicsEvent> = Vec::new();
        std::mem::swap(&mut events, &mut self.events);
        let ghost s = events@;
        events.insert(k, e);
        proof {
            let u = events@;
            assert(u =~= s.insert(k as int, e));
            assert forall|a: int, b: int| 0 <= a < b < u.len() implies store_le(#[trigger] u[a], #[trigger] u[b]) by {
                if b < k {
                } else if a < k && b == k {
                } else if a < k {
                    assert(u[b] == s[b - 1]);
                    assert(store_le(s[a], e));
                } else if a == k {
                    assert(u[b] == s[b - 1]);
                } else {
                    assert(u[a] == s[a - 1]);
                    assert(u[b] == s[b - 1]);
                }
            }
            assert forall|j: int| 0 <= j < u.len() implies (#[trigger] u[j]).time.sub_tick_order == 0 by {
                if j < k {
                    assert(u[j] == s[j]);
                } else if j > k {
                    assert(u[j] == s[j - 1]);
                }
            }
        }
        self.events = events;
    }

    /// Schedules an event in an explicit phase; events of one tick and phase
    /// keep their insertion order.
    pub fn schedule_in_phase(
        &mut self,
        game_tick: u64,
        target: Pos,
        cause: EventCause,
        phase: PhysicsEventPhase,
        kind: PhysicsEventKind,
    ) -> (r: EventId)
        ensures
            r == EventId(old(self).next_id()),
            final(self).next_id() == bump(old(self).next_id()),
            final(self).orders() == old(self).orders(),
            exists|k: int|
                #[trigger] back_position(old(self).pending(), new_event(r, game_tick, phase, target, cause, kind), k)
                    && final(self).pending() == old(self).pending().insert(
                    k,
                    new_event(r, game_tick, phase, target, cause, kind),
                ),
    {
        proof {
            use_type_invariant(&*self);
        }
        let id = EventId(self.next_event_id);
        let time = PhysicsTime { game_tick, phase, sub_tick_order: 0 };
        let e = PhysicsEvent { id, time, target, cause, kind };
        let n = self.events.len();
        let mut k: usize = n;
        while k > 0 && (game_tick < self.events[k - 1].time.game_tick || (game_tick == self.events[k - 1].time.game_tick && phase_ordinal(phase) < phase_ordinal(self.events[k - 1].time.phase)))
            invariant
                n == self.events@.len(),
                k <= n,
                stored_sorted(self.events@),
                e.time == time,
                time.game_tick == game_tick,
                time.phase == phase,
                forall|j: int| k <= j < n ==> store_lt(e, #[trigger] self.events@[j]),
            decreases k,
        {
            k = k - 1;
        }
        proof {
            if k > 0 {
                assert(store_le(self.events@[k - 1], e));
            }
            assert forall|j: int| 0 <= j < k implies store_le(#[trigger] self.events@[j], e) by {
                if j < k - 1 {
                    assert(store_le(self.events@[j], self.events@[k - 1]));
                }
            }
        }
        let ghost before = self.pending();
        self.insert_at(k, e);
        self.next_event_id = self.next_event_id.saturating_add(1);
        assert(back_position(before, new_event(id, game_tick, phase, target, cause, kind), k as int));
        id
    }

    /// Schedules an event in the phase implied by its kind.
    pub fn schedule(&mut self, game_tick: u64, target: Pos, cause: EventCause, kind: PhysicsEventKind) -> (r: EventId)
        ensures
            r == EventId(old(self).next_id()),
            final(self).next_id() == bump(old(self).next_id()),
            final(self).orders() == old(self).orders(),
            exists|k: int|
                #[trigger] back_position(
                    old(self).pending(),
                    new_event(r, game_tick, spec_default_phase(kind), target, cause, kind),
                    k,
                ) && final(self).pending() == old(self).pending().insert(
                    k,
                    new_event(r, game_tick, spec_default_phase(kind), target, cause, kind),
                ),
    {
        let phase = kind.default_phase();
        self.schedule_in_phase(game_tick, target, cause, phase, kind)
    }

    /// Puts an event back in front of its tick and phase without allocating
    /// a new id.
    pub fn push_front(&mut self, event: PhysicsEvent)
        ensures
            final(self).orders() == old(self).orders(),
            final(self).next_id() == old(self).next_id(),
            exists|k: int|
                #[trigger] front_position(old(self).pending(), stored(event), k) && final(self).pending()
                    == old(self).pending().insert(k, stored(event)),
    {
        proof {
            use_type_invariant(&*self);
        }
        let PhysicsEvent { id, time, target, cause, kind } = event;
        let e = PhysicsEvent {
            id,
            time: PhysicsTime { game_tick: time.game_tick, phase: time.phase, sub_tick_order: 0 },
            target,
            cause,
            kind,
        };
        let n = self.events.len();
        let mut k: usize = 0;
        while k < n && (self.events[k].time.game_tick < e.time.game_tick || (self.events[k].time.game_tick == e.time.game_tick && phase_ordinal(self.events[k].time.phase) < phase_ordinal(e.time.phase)))
            invariant
                n == self.events@.len(),
                k <= n,
                forall|j: int| 0 <= j < k ==> store_lt(#[trigger] self.events@[j], e),
            decreases n - k,
        {
            k = k + 1;
        }
        proof {
            assert forall|j: int| k <= j < n implies !store_lt(#[trigger] self.events@[j], e) by {
                if j > k {
                    assert(store_le(self.events@[k as int], self.events@[j]));
                }
            }
            assert forall|j: int| k <= j < n implies store_le(e, #[trigger] self.events@[j]) by {
                if j > k {
                    assert(store_le(self.events@[k as int], self.events@[j]));
                }
            }
        }
        let ghost before = self.pending();
        self.insert_at(k, e);
        assert(front_position(before, stored(event), k as int));
    }

    /// Pops the next event under `profile`, assigning its execution order
    /// within its game tick, and returns the bookkeeping to undo the pop.
    pub fn pop_with_checkpoint_in_profile(&mut self, profile: &SchedulerProfile) -> (r: Option<(PhysicsEvent, QueuePopCheckpoint)>)
        ensures
            r is None <==> old(self).pending().len() == 0,
            r is None ==> final(self).pending() == old(self).pending() && final(self).orders() == old(self).orders(),
            final(self).next_id() == old(self).next_id(),
            r matches Some((e, cp)) ==> exists|i: int|
                is_next(profile.order(), old(self).pending(), i) && popped(
                    old(self).pending(),
                    old(self).orders(),
                    final(self).pending(),
                    final(self).orders(),
                    i,
                    e,
                    cp,
                ),
    {
        proof {
            use_type_invariant(&*self);
        }
        let i = match self.next_index(profile) {
            Some(i) => i,
            None => {
                return None;
            },
        };
        let ghost s = self.pending();
        let ghost o = self.orders();
        let mut events: Vec<PhysicsEvent> = Vec::new();
        std::mem::swap(&mut events, &mut self.events);
        let x = events.remove(i);
        proof {
            let t = events@;
            assert(t =~= s.remove(i as int));
            assert forall|a: int, b: int| 0 <= a < b < t.len() implies store_le(#[trigger] t[a], #[trigger] t[b]) by {
                if a >= i {
                    assert(t[a] == s[a + 1]);
                    assert(t[b] == s[b + 1]);
                } else if b >= i {
                    assert(t[b] == s[b + 1]);
                }
            }
            assert forall|j: int| 0 <= j < t.len() implies (#[trigger] t[j]).time.sub_tick_order == 0 by {
                if j >= i {
                    assert(t[j] == s[j + 1]);
                }
            }
        }
        self.events = events;
        let game_tick = x.time.game_tick;
        let phase = x.time.phase;
        let previous = self.order_get(game_tick);
        let order = match previous {
            Some(v) => v,
            None => 0,
        };
        self.order_put(game_tick, Some(order.saturating_add(1)));
        let PhysicsEvent { id, time: _, target, cause, kind } = x;
        let event = PhysicsEvent {
            id,
            time: PhysicsTime { game_tick, phase, sub_tick_order: order },
            target,
            cause,
            kind,
        };
        proof {
            let t = s.remove(i as int);
            assert(stored(event) == s[i as int]);
            assert forall|j: int| 0 <= j < i implies store_lt(#[trigger] t[j], stored(event)) by {
                assert(t[j] == s[j]);
                assert(store_le(s[j], s[i as int]));
                assert(!same_slot(s[j], s[i as int]));
            }
            assert forall|j: int| i <= j < t.len() implies !store_lt(#[trigger] t[j], stored(event)) by {
                assert(t[j] == s[j + 1]);
                assert(store_le(s[i as int], s[j + 1]));
            }
        }
        Some((event, QueuePopCheckpoint { game_tick, previous_sub_tick_order: previous }))
    }

    /// Pops the next event under `profile`.
    pub fn pop_with_profile(&mut self, profile: &SchedulerProfile) -> (r: Option<PhysicsEvent>)
        ensures
            r is None <==> old(self).pending().len() == 0,
            final(self).next_id() == old(self).next_id(),
            r matches Some(e) ==> exists|i: int, cp: QueuePopCheckpoint|
                is_next(profile.order(), old(self).pending(), i) && popped(
                    old(self).pending(),
                    old(self).orders(),
                    final(self).pending(),
                    final(self).orders(),
                    i,
                    e,
                    cp,
                ),
    {
        match self.pop_with_checkpoint_in_profile(profile) {
            Some((e, _)) => Some(e),
            None => None,
        }
    }

    /// Pops the next event under the default phase order.
    pub fn pop(&mut self) -> (r: Option<PhysicsEvent>)
        ensures
            r is None <==> old(self).pending().len() == 0,
            final(self).next_id() == old(self).next_id(),
            r matches Some(e) ==> exists|i: int, cp: QueuePopCheckpoint|
                is_next(all_phases(), old(self).pending(), i) && popped(
                    old(self).pending(),
                    old(self).orders(),
                    final(self).pending(),
                    final(self).orders(),
                    i,
                    e,
                    cp,
                ),
    {
        let profile = SchedulerProfile::default();
        self.pop_with_profile(&profile)
    }

    /// Reverses a pop: the event returns to the front of its tick and phase
    /// and the tick's counter gets its previous value.
    pub fn rollback_pop(&mut self, event: PhysicsEvent, checkpoint: QueuePopCheckpoint)
        ensures
            final(self).next_id() == old(self).next_id(),
            exists|k: int|
                #[trigger] front_position(old(self).pending(), stored(event), k) && final(self).pending()
                    == old(self).pending().insert(k, stored(event)),
            order_lookup(final(self).orders(), checkpoint.game_tick) == checkpoint.previous_sub_tick_order,
            forall|t: u64| t != checkpoint.game_tick ==> #[trigger] order_lookup(final(self).orders(), t) == order_lookup(old(self).orders(), t),
    {
        self.push_front(event);
        self.order_put(checkpoint.game_tick, checkpoint.previous_sub_tick_order);
    }
}

/// Undoing a pop restores the pending events exactly.
pub proof fn lemma_pop_rollback(s: Seq<PhysicsEvent>, i: int, e: PhysicsEvent, k: int)
    requires
        0 <= i < s.len(),
        stored(e) == s[i],
        front_position(s.remove(i), stored(e), i),
        front_position(s.remove(i), stored(e), k),
    ensures
        s.remove(i).insert(k, stored(e)) == s,
{
    if k < i {
        assert(store_lt(s.remove(i)[k], stored(e)));
        assert(!store_lt(s.remove(i)[k], stored(e)));
    } else if k > i {
        assert(store_lt(s.remove(i)[i], stored(e)));
        assert(!store_lt(s.remove(i)[i], stored(e)));
    }
    assert(s.remove(i).insert(i, stored(e)) =~= s);
}

/// The listing order under a profile: by game tick, then phase rank.
pub open spec fn key_le(p: Seq<PhysicsEventPhase>, a: PhysicsEvent, b: PhysicsEvent) -> bool {
    a.time.game_tick < b.time.game_tick || (a.time.game_tick == b.time.game_tick && spec_phase_rank(
        p,
        a.time.phase,
    ) <= spec_phase_rank(p, b.time.phase))
}

/// Where event `e` is inserted into a listing `r` (indices into `s`): after
/// every event that does not list after it.
pub open spec fn insertion_point(p: Seq<PhysicsEventPhase>, s: Seq<PhysicsEvent>, r: Seq<int>, e: PhysicsEvent) -> int
    decreases r.len(),
{
    if r.len() == 0 {
        0
    } else if key_le(p, s[r.last()], e) {
        r.len() as int
    } else {
        insertion_point(p, s, r.drop_last(), e)
    }
}

/// The stable listing of the first `n` stored events (as indices into `s`):
/// each event in storage order is inserted after everything that does not
/// list after it.
pub open spec fn listing(p: Seq<PhysicsEventPhase>, s: Seq<PhysicsEvent>, n: nat) -> Seq<int>
    decreases n,
{
    if n == 0 {
        Seq::empty()
    } else {
        let r = listing(p, s, (n - 1) as nat);
        r.insert(insertion_point(p, s, r, s[n - 1]), n - 1)
    }
}

proof fn lemma_insertion_times(p: Seq<PhysicsEventPhase>, s: Seq<PhysicsEvent>, t: Seq<PhysicsEvent>, r: Seq<int>, e: PhysicsEvent, f: PhysicsEvent)
    requires
        s.len() == t.len(),
        forall|i: int| 0 <= i < s.len() ==> (#[trigger] s[i]).time == t[i].time,
        forall|k: int| 0 <= k < r.len() ==> 0 <= #[trigger] r[k] < s.len(),
        e.time == f.time,
    ensures
        insertion_point(p, s, r, e) == insertion_point(p, t, r, f),
    decreases r.len(),
{
    if r.len() > 0 {
        assert(s[r.last()].time == t[r.last()].time);
        lemma_insertion_times(p, s, t, r.drop_last(), e, f);
    }
}

/// The listing order depends on the events' times alone.
pub proof fn lemma_listing_times(p: Seq<PhysicsEventPhase>, s: Seq<PhysicsEvent>, t: Seq<PhysicsEvent>, n: nat)
    requires
        n <= s.len(),
        s.len() == t.len(),
        forall|i: int| 0 <= i < s.len() ==> (#[trigger] s[i]).time == t[i].time,
    ensures
        listing(p, s, n) == listing(p, t, n),
    decreases n,
{
    if n > 0 {
        lemma_listing_times(p, s, t, (n - 1) as nat);
        lemma_listing_bounds(p, s, (n - 1) as nat);
        let r = listing(p, s, (n - 1) as nat);
        assert(s[n - 1].time == t[n - 1].time);
        lemma_insertion_times(p, s, t, r, s[n - 1], t[n - 1]);
    }
}

pub proof fn lemma_listing_bounds(p: Seq<PhysicsEventPhase>, s: Seq<PhysicsEvent>, n: nat)
    ensures
        listing(p, s, n).len() == n,
        forall|k: int| 0 <= k < n ==> 0 <= #[trigger] listing(p, s, n)[k] < n,
    decreases n,
{
    if n > 0 {
        lemma_listing_bounds(p, s, (n - 1) as nat);
        let r = listing(p, s, (n - 1) as nat);
        let at = insertion_point(p, s, r, s[n - 1]);
        lemma_insertion_point_bounds(p, s, r, s[n - 1]);
        assert forall|k: int| 0 <= k < n implies 0 <= #[trigger] listing(p, s, n)[k] < n by {
            if k < at {
                assert(listing(p, s, n)[k] == r[k]);
            } else if k > at {
                assert(listing(p, s, n)[k] == r[k - 1]);
            }
        }
    }
}

proof fn lemma_rank_all(ph: PhysicsEventPhase)
    ensures
        spec_phase_rank(all_phases(), ph) as int == phase_index(ph),
{
    let all = all_phases();
    let k = phase_index(ph);
    assert(all[k] == ph);
    let c = choose|c: int| 0 <= c < all.len() && all[c] == ph && forall|j: int| 0 <= j < c ==> all[j] != ph;
    assert(phase_index(all[c]) == c);
}

proof fn lemma_listing_identity(s: Seq<PhysicsEvent>, n: nat)
    requires
        stored_sorted(s),
        n <= s.len(),
    ensures
        listing(all_phases(), s, n) == Seq::new(n, |k: int| k),
    decreases n,
{
    if n > 0 {
        lemma_listing_identity(s, (n - 1) as nat);
        let r = listing(all_phases(), s, (n - 1) as nat);
        if n > 1 {
            lemma_rank_all(s[n - 2].time.phase);
            lemma_rank_all(s[n - 1].time.phase);
            assert(store_le(s[n - 2], s[n - 1]));
            assert(r.last() == n - 2);
            assert(key_le(all_phases(), s[r.last()], s[n - 1]));
        }
        assert(insertion_point(all_phases(), s, r, s[n - 1]) == n - 1);
        assert(listing(all_phases(), s, n) =~= Seq::new(n, |k: int| k));
    }
}

/// The event that runs next from storage in tick and phase order is the
/// first stored one.
proof fn lemma_next_is_first(s: Seq<PhysicsEvent>, i: int)
    requires
        stored_sorted(s),
        is_next(all_phases(), s, i),
    ensures
        i == 0,
{
    if i > 0 {
        assert(store_le(s[0], s[i]));
        lemma_rank_all(s[0].time.phase);
        lemma_rank_all(s[i].time.phase);
        assert(!run_before(all_phases(), s[0], s[i]));
        assert(!same_slot(s[0], s[i]));
        assert(s[0].time.phase == s[i].time.phase) by {
            match (s[0].time.phase, s[i].time.phase) {
                (PhysicsEventPhase::External, PhysicsEventPhase::External) => {},
                (PhysicsEventPhase::NeighborUpdate, PhysicsEventPhase::NeighborUpdate) => {},
                (PhysicsEventPhase::ScheduledTick, PhysicsEventPhase::ScheduledTick) => {},
                (PhysicsEventPhase::BlockEvent, PhysicsEventPhase::BlockEvent) => {},
                (PhysicsEventPhase::BlockEntity, PhysicsEventPhase::BlockEntity) => {},
                (PhysicsEventPhase::Observation, PhysicsEventPhase::Observation) => {},
                _ => {},
            }
        }
    }
}

/// Pops return the events in the order `iter` lists them: the event that
/// runs next is the first listed, and once it is removed the others are
/// listed as before.
pub proof fn law_pop_takes_first_listed(s: Seq<PhysicsEvent>, i: int)
    requires
        stored_sorted(s),
        is_next(all_phases(), s, i),
    ensures
        listing(all_phases(), s, s.len())[0] == i,
        forall|k: int|
            0 <= k < s.len() - 1 ==> #[trigger] s.remove(i)[listing(all_phases(), s.remove(i), (s.len() - 1) as nat)[k]]
                == s[listing(all_phases(), s, s.len())[k + 1]],
{
    lemma_next_is_first(s, i);
    lemma_listing_identity(s, s.len());
    let t = s.remove(i);
    assert(stored_sorted(t)) by {
        assert forall|a: int, b: int| 0 <= a < b < t.len() implies store_le(#[trigger] t[a], #[trigger] t[b]) by {
            assert(t[a] == s[a + 1] && t[b] == s[b + 1]);
        }
    }
    lemma_listing_identity(t, t.len());
    assert forall|k: int| 0 <= k < s.len() - 1 implies #[trigger] t[listing(all_phases(), t, (s.len() - 1) as nat)[k]]
        == s[listing(all_phases(), s, s.len())[k + 1]] by {
        assert(listing(all_phases(), t, t.len())[k] == k);
        assert(listing(all_phases(), s, s.len())[k + 1] == k + 1);
    }
}

proof fn lemma_insertion_point_bounds(p: Seq<PhysicsEventPhase>, s: Seq<PhysicsEvent>, r: Seq<int>, e: PhysicsEvent)
    ensures
        0 <= insertion_point(p, s, r, e) <= r.len(),
    decreases r.len(),
{
    if r.len() > 0 {
        lemma_insertion_point_bounds(p, s, r.drop_last(), e);
    }
}

fn key_before_or_equal(profile: &SchedulerProfile, a: &PhysicsEvent, b: &PhysicsEvent) -> (r: bool)
    ensures
        r == key_le(profile.order(), *a, *b),
{
    a.time.game_tick < b.time.game_tick || (a.time.game_tick == b.time.game_tick
        && profile.phase_rank(a.time.phase) <= profile.phase_rank(b.time.phase))
}

impl PhysicsEventQueue {
    /// The storage indices of the pending events in listing order.
    fn ordered_indices(&self, profile: &SchedulerProfile) -> (r: Vec<usize>)
        ensures
            r@.len() == self.pending().len(),
            forall|k: int| 0 <= k < r@.len() ==> r@[k] as int == listing(profile.order(), self.pending(), self.pending().len())[k],
            forall|k: int| 0 <= k < r@.len() ==> (#[trigger] r@[k]) < self.pending().len(),
    {
        let ghost p = profile.order();
        let ghost s = self.pending();
        let n = self.events.len();
        let mut r: Vec<usize> = Vec::new();
        let mut i: usize = 0;
        while i < n
            invariant
                n == s.len(),
                s == self.events@,
                p == profile.order(),
                i <= n,
                r@.len() == i,
                forall|k: int| 0 <= k < i ==> r@[k] as int == #[trigger] listing(p, s, i as nat)[k],
            decreases n - i,
        {
            proof {
                lemma_listing_bounds(p, s, i as nat);
            }
            let ghost ri = r@.map_values(|x: usize| x as int);
            assert(ri =~= listing(p, s, i as nat));
            assert(ri.take(i as int) =~= ri);
            let mut k: usize = i;
            while k > 0 && !key_before_or_equal(profile, &self.events[r[k - 1]], &self.events[i])
                invariant
                    n == s.len(),
                    s == self.events@,
                    p == profile.order(),
                    i < n,
                    r@.len() == i,
                    k <= i,
                    ri == r@.map_values(|x: usize| x as int),
                    ri == listing(p, s, i as nat),
                    forall|t: int| 0 <= t < i ==> 0 <= #[trigger] ri[t] < i,
                    insertion_point(p, s, ri.take(k as int), s[i as int]) == insertion_point(p, s, ri, s[i as int]),
                decreases k,
            {
                proof {
                    assert(ri.take(k as int).drop_last() =~= ri.take(k - 1));
                }
                k = k - 1;
            }
            proof {
                if k > 0 {
                    assert(ri.take(k as int).last() == ri[k - 1]);
                }
                assert(insertion_point(p, s, ri, s[i as int]) == k);
            }
            r.insert(k, i);
            proof {
                assert(r@.map_values(|x: usize| x as int) =~= listing(p, s, (i + 1) as nat));
            }
            i = i + 1;
        }
        proof {
            lemma_listing_bounds(p, s, n as nat);
            assert forall|k: int| 0 <= k < r@.len() implies (#[trigger] r@[k]) < s.len() by {
                assert(r@[k] as int == listing(p, s, n as nat)[k]);
            }
        }
        r
    }

    /// Copies of the pending events in the order selected by `profile`: by
    /// game tick, then phase rank, ties in storage order.
    pub fn ordered_events(&self, profile: &SchedulerProfile) -> (r: Vec<PhysicsEvent>)
        ensures
            r@.len() == self.pending().len(),
            forall|k: int|
                0 <= k < r@.len() ==> crate::time::event::same_event(
                    #[trigger] r@[k],
                    self.pending()[listing(profile.order(), self.pending(), self.pending().len())[k]],
                ),
    {
        let idx = self.ordered_indices(profile);
        let mut out: Vec<PhysicsEvent> = Vec::new();
        let n = idx.len();
        let mut k: usize = 0;
        while k < n
            invariant
                n == idx@.len(),
                n == self.pending().len(),
                forall|t: int| 0 <= t < n ==> (#[trigger] idx@[t]) < self.pending().len(),
                forall|t: int| 0 <= t < n ==> idx@[t] as int == listing(profile.order(), self.pending(), self.pending().len())[t],
                k <= n,
                out@.len() == k,
                forall|t: int|
                    0 <= t < k ==> crate::time::event::same_event(
                        #[trigger] out@[t],
                        self.pending()[listing(profile.order(), self.pending(), self.pending().len())[t]],
                    ),
            decreases n - k,
        {
            out.push(self.events[idx[k]].copy());
            k = k + 1;
        }
        out
    }

    /// Copies of the pending events in the default execution order.
    pub fn iter(&self) -> (r: Vec<PhysicsEvent>)
        ensures
            stored_sorted(self.pending()),
            r@.len() == self.pending().len(),
            forall|k: int|
                0 <= k < r@.len() ==> crate::time::event::same_event(
                    #[trigger] r@[k],
                    self.pending()[listing(all_phases(), self.pending(), self.pending().len())[k]],
                ),
    {
        proof {
            use_type_invariant(self);
        }
        let profile = SchedulerProfile::default();
        self.ordered_events(&profile)
    }

    /// The insertion counters of game ticks from `minimum_game_tick` on, in
    /// tick order.
    pub fn next_sub_tick_orders_from(&self, minimum_game_tick: u64) -> (r: Vec<(u64, u64)>)
        ensures
            orders_sorted(self.orders()),
            exists|k: int|
                0 <= k <= self.orders().len() && r@ == self.orders().subrange(k, self.orders().len() as int)
                    && (forall|j: int| 0 <= j < k ==> (#[trigger] self.orders()[j]).0 < minimum_game_tick)
                    && (forall|j: int| k <= j < self.orders().len() ==> (#[trigger] self.orders()[j]).0 >= minimum_game_tick),
    {
        proof {
            use_type_invariant(self);
        }
        let n = self.next_sub_tick_order.len();
        let mut k: usize = 0;
        while k < n && self.next_sub_tick_order[k].0 < minimum_game_tick
            invariant
                n == self.orders().len(),
                k <= n,
                forall|j: int| 0 <= j < k ==> (#[trigger] self.orders()[j]).0 < minimum_game_tick,
            decreases n - k,
        {
            k = k + 1;
        }
        let mut out: Vec<(u64, u64)> = Vec::new();
        let mut j: usize = k;
        while j < n
            invariant
                n == self.orders().len(),
                k <= j <= n,
                out@ == self.orders().subrange(k as int, j as int),
            decreases n - j,
        {
            out.push(self.next_sub_tick_order[j]);
            proof {
                assert(self.orders().subrange(k as int, j + 1) =~= self.orders().subrange(k as int, j as int).push(self.orders()[j as int]));
            }
            j = j + 1;
        }
        proof {
            assert forall|j: int| k <= j < n implies (#[trigger] self.orders()[j]).0 >= minimum_game_tick by {
                if j > k {
                    assert(self.orders()[k as int].0 < self.orders()[j].0);
                }
            }
        }
        out
    }

    /// A copy of this queue.
    pub fn copy(&self) -> (r: PhysicsEventQueue)
        ensures
            r.pending().len() == self.pending().len(),
            forall|k: int| 0 <= k < r.pending().len() ==> crate::time::event::same_event(#[trigger] r.pending()[k], self.pending()[k]),
            r.orders() == self.orders(),
            r.next_id() == self.next_id(),
    {
        proof {
            use_type_invariant(self);
        }
        let mut events: Vec<PhysicsEvent> = Vec::new();
        let n = self.events.len();
        let mut i: usize = 0;
        while i < n
            invariant
                n == self.events@.len(),
                i <= n,
                events@.len() == i,
                stored_sorted(self.events@),
                forall|j: int| 0 <= j < n ==> (#[trigger] self.events@[j]).time.sub_tick_order == 0,
                forall|k: int| 0 <= k < i ==> crate::time::event::same_event(#[trigger] events@[k], self.events@[k]),
            decreases n - i,
        {
            events.push(self.events[i].copy());
            i = i + 1;
        }
        let mut orders: Vec<(u64, u64)> = Vec::new();
        let m = self.next_sub_tick_order.len();
        let mut j: usize = 0;
        while j < m
            invariant
                m == self.next_sub_tick_order@.len(),
                j <= m,
                orders@ == self.next_sub_tick_order@.take(j as int),
            decreases m - j,
        {
            orders.push(self.next_sub_tick_order[j]);
            proof {
                assert(self.next_sub_tick_order@.take(j + 1) =~= self.next_sub_tick_order@.take(j as int).push(self.next_sub_tick_order@[j as int]));
            }
            j = j + 1;
        }
        proof {
            assert(orders@ =~= self.next_sub_tick_order@);
            assert forall|a: int, b: int| 0 <= a < b < events@.len() implies store_le(#[trigger] events@[a], #[trigger] events@[b]) by {
                assert(store_le(self.events@[a], self.events@[b]));
            }
            assert forall|j: int| 0 <= j < events@.len() implies (#[trigger] events@[j]).time.sub_tick_order == 0 by {
                assert(crate::time::event::same_event(events@[j], self.events@[j]));
            }
        }
        PhysicsEventQueue { events, next_event_id: self.next_event_id, next_sub_tick_order: orders }
    }
}

impl Default for PhysicsEventQueue {
    fn default() -> (r: PhysicsEventQueue)
        ensures
            r.pending().len() == 0,
            r.orders().len() == 0,
            r.next_id() == 0,
    {
        PhysicsEventQueue::new()
    }
}

} // verus!
