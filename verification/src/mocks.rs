//! In-memory implementations of the engine's ports: a deterministic RNG, a
//! controllable clock, an event log, a world store and a simple hasher.
//!
//! These are the reference semantics the engine itself runs on: the event
//! log assigns monotonic, contiguous event ids, and the store keeps
//! metadata and snapshots keyed by world id.  The file-backed ports mirror
//! these contracts onto disk.

use vstd::prelude::*;
use vstd::string::StringExecFns;

use crate::clock::ISimClock;
use crate::events::{SimEvent, SimEventView};
use crate::hasher::{IStateHasher, StateHash};
use crate::types::{EventId, MetaView, RngSeed, SimError, SimTime, Tick, WorldMeta};

verus! {

// ============================================================================
// MockRng
// ============================================================================

/// The multiplier of the mock generator's linear congruence.
pub const MOCK_RNG_MULTIPLIER: u64 = 6364136223846793005;

/// The state transition of the mock generator.
pub open spec fn mock_next_state(s: u64) -> u64 {
    vstd::wrapping::u64_specs::wrapping_add(
        vstd::wrapping::u64_specs::wrapping_mul(s, MOCK_RNG_MULTIPLIER),
        1,
    )
}

/// The output of one mock draw: the top half of the new state.
pub open spec fn mock_output(s: u64) -> u32 {
    (mock_next_state(s) >> 32) as u32
}

/// A deterministic RNG for tests: a plain linear congruential generator.
#[derive(Debug)]
pub struct MockRng {
    /// The seed this generator was created from.
    pub seed: RngSeed,
    /// Current internal state.
    pub state: u64,
}

impl MockRng {
    /// Create a mock generator whose state starts at the raw seed.
    pub fn new(seed: RngSeed) -> (r: MockRng)
        ensures
            r.seed == seed,
            r.state == seed.0,
    {
        MockRng { seed, state: seed.0 }
    }

    /// The seed this generator was created from.
    pub fn seed(&self) -> (r: RngSeed)
        ensures
            r == self.seed,
    {
        self.seed
    }

    /// The current internal state, for checkpointing.
    pub fn state(&self) -> (r: u64)
        ensures
            r == self.state,
    {
        self.state
    }

    /// Restore a previously captured state.
    pub fn restore(&mut self, state: u64)
        ensures
            final(self).state == state,
            final(self).seed == old(self).seed,
    {
        self.state = state;
    }

    /// Draw 32 random bits and advance the state.
    pub fn next_u32(&mut self) -> (r: u32)
        ensures
            r == mock_output(old(self).state),
            final(self).state == mock_next_state(old(self).state),
            final(self).seed == old(self).seed,
    {
        self.state = self.state.wrapping_mul(MOCK_RNG_MULTIPLIER).wrapping_add(1);
        (self.state >> 32u64) as u32
    }

    /// Draw 64 random bits: the first draw forms the high half, the second
    /// the low half.
    pub fn next_u64(&mut self) -> (r: u64)
        ensures
            ({
                let s1 = mock_next_state(old(self).state);
                let hi = mock_output(old(self).state) as u64;
                let lo = mock_output(s1) as u64;
                &&& r == (hi << 32) | lo
                &&& final(self).state == mock_next_state(s1)
            }),
            final(self).seed == old(self).seed,
    {
        let hi = self.next_u32() as u64;
        let lo = self.next_u32() as u64;
        (hi << 32u64) | lo
    }
}

// ============================================================================
// MockClock
// ============================================================================

/// A controllable clock for tests; never rate-limits.
#[derive(Debug)]
pub struct MockClock {
    /// The current tick.
    pub current_tick: Tick,
}

impl MockClock {
    /// Create a clock standing at the genesis tick.
    pub fn new() -> (r: MockClock)
        ensures
            r.current_tick.0 == 0,
    {
        MockClock { current_tick: Tick(0) }
    }
}

impl Default for MockClock {
    fn default() -> (r: MockClock)
        ensures
            r.current_tick.0 == 0,
    {
        MockClock { current_tick: Tick(0) }
    }
}

impl ISimClock for MockClock {
    open spec fn tick_spec(&self) -> Tick {
        self.current_tick
    }

    fn current_tick(&self) -> (t: Tick) {
        self.current_tick
    }

    fn sim_time(&self) -> (t: SimTime) {
        SimTime::from_ticks(self.current_tick)
    }

    fn advance(&mut self) -> (t: Tick) {
        self.current_tick = self.current_tick.next();
        self.current_tick
    }

    fn set_tick(&mut self, tick: Tick) {
        self.current_tick = tick;
    }

    fn should_tick(&self) -> (b: bool)
        ensures
            b,
    {
        true
    }
}

// ============================================================================
// MockEventLog
// ============================================================================

/// Events with ids assigned sequentially from a starting id.
pub open spec fn assign_ids(next: u64, evs: Seq<SimEventView>) -> Seq<SimEventView> {
    Seq::new(
        evs.len(),
        |i: int| SimEventView { event_id: EventId((next + i) as u64), ..evs[i] },
    )
}

/// The predicate "has an event id above this one".
pub open spec fn ev_after(from: EventId) -> spec_fn(SimEventView) -> bool {
    |e: SimEventView| e.event_id.0 > from.0
}

/// An in-memory event log.  Events receive monotonic, contiguous ids
/// starting at 1; recovery may seed the log with an already-numbered
/// prefix.
#[derive(Debug)]
pub struct MockEventLog {
    /// The recorded events, in append order.
    pub events: Vec<SimEvent>,
    /// The id the next appended event receives.
    pub next_event_id: u64,
}

impl MockEventLog {
    /// The recorded events as mathematical values.
    pub open spec fn events_view(&self) -> Seq<SimEventView> {
        self.events@.map_values(|e: SimEvent| e@)
    }

    /// The log's invariant: the `i`-th recorded event carries id `i + 1`,
    /// and the next id continues the sequence.  Event ids are therefore
    /// strictly increasing and contiguous across the log's lifetime.
    pub open spec fn wf(&self) -> bool {
        &&& self.next_event_id == self.events@.len() + 1
        &&& forall|i: int|
            0 <= i < self.events@.len() ==> (#[trigger] self.events@[i]).event_id.0 == i + 1
    }

    /// Create an empty log; the first event will receive id 1.
    pub fn new() -> (r: MockEventLog)
        ensures
            r.wf(),
            r.events_view() == Seq::<SimEventView>::empty(),
            r.next_event_id == 1,
    {
        let r = MockEventLog { events: Vec::new(), next_event_id: 1 };
        proof {
            assert(r.events_view() =~= Seq::<SimEventView>::empty());
        }
        r
    }

    /// Create a log seeded with already-numbered events, as recovery hands
    /// them back; their ids must be contiguous from 1.
    pub fn from_recovered(events: Vec<SimEvent>) -> (r: MockEventLog)
        requires
            events@.len() + 1 <= u64::MAX,
            forall|i: int| 0 <= i < events@.len() ==> (#[trigger] events@[i]).event_id.0 == i + 1,
        ensures
            r.wf(),
            r.events_view() == events@.map_values(|e: SimEvent| e@),
            r.next_event_id == events@.len() + 1,
    {
        let next = (events.len() as u64) + 1;
        MockEventLog { events, next_event_id: next }
    }

    /// Append one event: it receives the next id and becomes the last
    /// recorded event; the stamped event is returned.
    pub fn append(&mut self, event: SimEvent) -> (r: Result<SimEvent, SimError>)
        requires
            old(self).wf(),
        ensures
            final(self).wf(),
            match r {
                Ok(ev) => {
                    &&& old(self).events@.len() + 1 < u64::MAX
                    &&& ev@ == (SimEventView { event_id: EventId(old(self).next_event_id), ..event@ })
                    &&& final(self).events_view() == old(self).events_view().push(ev@)
                    &&& final(self).next_event_id == old(self).next_event_id + 1
                },
                Err(_) => {
                    &&& old(self).events@.len() + 1 >= u64::MAX
                    &&& *final(self) == *old(self)
                },
            },
    {
        if self.next_event_id == u64::MAX {
            return Err(SimError::InvalidOperation(String::from_str("event id space exhausted")));
        }
        let mut stamped = event;
        stamped.event_id = EventId(self.next_event_id);
        let out = stamped.clone();
        self.events.push(stamped);
        self.next_event_id = self.next_event_id + 1;
        proof {
            assert(self.events_view() =~= old(self).events_view().push(out@));
        }
        Ok(out)
    }

    /// Append a batch in order: the events receive consecutive ids and are
    /// returned stamped.
    pub fn append_batch(&mut self, events: Vec<SimEvent>) -> (r: Result<Vec<SimEvent>, SimError>)
        requires
            old(self).wf(),
        ensures
            final(self).wf(),
            match r {
                Ok(out) => {
                    &&& old(self).next_event_id + events@.len() < u64::MAX
                    &&& out@.map_values(|e: SimEvent| e@) == assign_ids(
                        old(self).next_event_id,
                        events@.map_values(|e: SimEvent| e@),
                    )
                    &&& final(self).events_view() == old(self).events_view() + out@.map_values(
                        |e: SimEvent| e@,
                    )
                    &&& final(self).next_event_id == old(self).next_event_id + events@.len()
                },
                Err(_) => old(self).next_event_id + events@.len() >= u64::MAX && *final(self)
                    == *old(self),
            },
    {
        if events.len() as u64 >= u64::MAX - self.next_event_id {
            return Err(SimError::InvalidOperation(String::from_str("event id space exhausted")));
        }
        let ghost evs = events@.map_values(|e: SimEvent| e@);
        let ghost start = self.next_event_id;
        let mut out: Vec<SimEvent> = Vec::new();
        let mut i: usize = 0;
        while i < events.len()
            invariant
                0 <= i <= events.len(),
                evs == events@.map_values(|e: SimEvent| e@),
                self.wf(),
                self.next_event_id == start + i,
                start + events@.len() < u64::MAX,
                out@.len() == i,
                out@.map_values(|e: SimEvent| e@) =~= assign_ids(start, evs.take(i as int)),
                self.events_view() =~= old(self).events_view() + out@.map_values(
                    |e: SimEvent| e@,
                ),
            decreases events.len() - i,
        {
            let ev = events[i].clone();
            let r = self.append(ev);
            match r {
                Ok(stamped) => {
                    let ghost before = out@;
                    let ghost stamped_v = stamped@;
                    out.push(stamped);
                    proof {
                        assert(out@.map_values(|e: SimEvent| e@) =~= before.map_values(
                            |e: SimEvent| e@,
                        ).push(stamped_v));
                        assert(evs.take(i + 1) =~= evs.take(i as int).push(evs[i as int]));
                        assert(out@.map_values(|e: SimEvent| e@) =~= assign_ids(
                            start,
                            evs.take(i + 1),
                        ));
                    }
                },
                Err(_) => {
                    proof {
                        assert(false);
                    }
                },
            }
            i = i + 1;
        }
        proof {
            assert(evs.take(evs.len() as int) =~= evs);
            assert(out@.map_values(|e: SimEvent| e@) =~= assign_ids(start, evs));
        }
        Ok(out)
    }

    /// All recorded events with ids above the cursor, in order.
    pub fn read_from_event_id(&self, from_id: EventId) -> (r: Result<Vec<SimEvent>, SimError>)
        ensures
            match r {
                Ok(out) => out@.map_values(|e: SimEvent| e@) == self.events_view().filter(
                    ev_after(from_id),
                ),
                Err(_) => false,
            },
    {
        let mut out: Vec<SimEvent> = Vec::new();
        let mut i: usize = 0;
        while i < self.events.len()
            invariant
                0 <= i <= self.events.len(),
                out@.map_values(|e: SimEvent| e@) =~= self.events_view().take(i as int).filter(
                    ev_after(from_id),
                ),
            decreases self.events.len() - i,
        {
            proof {
                assert(self.events_view().take(i + 1).drop_last() =~= self.events_view().take(
                    i as int,
                ));
                assert(self.events_view().take(i + 1).last() == self.events_view()[i as int]);
                reveal(Seq::filter);
            }
            if self.events[i].event_id.0 > from_id.0 {
                let ghost before = out@;
                out.push(self.events[i].clone());
                proof {
                    assert(out@.map_values(|e: SimEvent| e@) =~= before.map_values(
                        |e: SimEvent| e@,
                    ).push(self.events_view()[i as int]));
                }
            }
            i = i + 1;
        }
        proof {
            assert(self.events_view().take(self.events@.len() as int) =~= self.events_view());
        }
        Ok(out)
    }

    /// All recorded events, in order.
    pub fn read_all_valid(&self) -> (r: Result<Vec<SimEvent>, SimError>)
        ensures
            match r {
                Ok(out) => out@.map_values(|e: SimEvent| e@) == self.events_view(),
                Err(_) => false,
            },
    {
        let mut out: Vec<SimEvent> = Vec::new();
        let mut i: usize = 0;
        while i < self.events.len()
            invariant
                0 <= i <= self.events.len(),
                out@.map_values(|e: SimEvent| e@) =~= self.events_view().take(i as int),
            decreases self.events.len() - i,
        {
            let ghost before = out@;
            out.push(self.events[i].clone());
            proof {
                assert(out@.map_values(|e: SimEvent| e@) =~= before.map_values(
                    |e: SimEvent| e@,
                ).push(self.events_view()[i as int]));
                assert(self.events_view().take(i + 1) =~= self.events_view().take(i as int).push(
                    self.events_view()[i as int],
                ));
            }
            i = i + 1;
        }
        proof {
            assert(self.events_view().take(self.events@.len() as int) =~= self.events_view());
        }
        Ok(out)
    }

    /// The id of the last recorded event, or zero if there is none.
    pub fn last_event_id(&self) -> (r: EventId)
        ensures
            r.0 == if self.next_event_id > 1 {
                self.next_event_id - 1
            } else {
                0int
            },
    {
        if self.next_event_id > 1 {
            EventId(self.next_event_id - 1)
        } else {
            EventId(0)
        }
    }

    /// The tick of the last recorded event, if any.
    pub fn last_tick(&self) -> (r: Option<Tick>)
        ensures
            match r {
                Some(t) => self.events@.len() > 0 && t == self.events_view().last().tick,
                None => self.events@.len() == 0,
            },
    {
        if self.events.len() > 0 {
            Some(self.events[self.events.len() - 1].tick)
        } else {
            None
        }
    }

    /// Drop every event with an id above the cutoff; under the invariant
    /// the kept events are exactly the leading prefix.
    pub fn truncate_after(&mut self, event_id: EventId) -> (r: Result<(), SimError>)
        requires
            old(self).wf(),
        ensures
            r is Ok,
            final(self).wf(),
            final(self).events_view() == old(self).events_view().take(
                if event_id.0 < old(self).events@.len() {
                    event_id.0 as int
                } else {
                    old(self).events@.len() as int
                },
            ),
    {
        if event_id.0 < self.events.len() as u64 {
            self.events.truncate(event_id.0 as usize);
            self.next_event_id = event_id.0 + 1;
            proof {
                assert(self.events_view() =~= old(self).events_view().take(event_id.0 as int));
            }
        } else {
            proof {
                assert(self.events_view() =~= old(self).events_view().take(
                    old(self).events@.len() as int,
                ));
            }
        }
        Ok(())
    }

    /// Flush any buffered state; nothing is buffered in memory.
    pub fn sync(&mut self) -> (r: Result<(), SimError>)
        ensures
            r is Ok,
            *final(self) == *old(self),
    {
        Ok(())
    }

    /// How many events the log holds.
    pub fn len(&self) -> (n: usize)
        ensures
            n == self.events@.len(),
    {
        self.events.len()
    }

    /// Whether the log holds no events.
    pub fn is_empty(&self) -> (b: bool)
        ensures
            b == (self.events@.len() == 0),
    {
        self.events.len() == 0
    }
}

/// Across any sequence of successful appends, event ids are strictly
/// increasing and contiguous within one log lifetime: the `i`-th recorded
/// event carries id `i + 1`.
pub proof fn lemma_event_ids_monotonic(log: &MockEventLog)
    requires
        log.wf(),
    ensures
        forall|i: int, j: int|
            0 <= i < j < log.events_view().len() ==> (#[trigger] log.events_view()[i]).event_id.0
                < (#[trigger] log.events_view()[j]).event_id.0,
        forall|i: int|
            0 <= i < log.events_view().len() ==> (#[trigger] log.events_view()[i]).event_id.0 == i
                + 1,
{
}

// ============================================================================
// MockWorldStore
// ============================================================================

/// The first stored metadata under this world id, if any.
pub open spec fn find_meta(s: Seq<MetaView>, id: Seq<char>) -> Option<MetaView>
    decreases s.len(),
{
    if s.len() == 0 {
        None
    } else if s[0].world_id == id {
        Some(s[0])
    } else {
        find_meta(s.drop_first(), id)
    }
}

/// Metadata stored under its own world id: the first entry with that id is
/// replaced, or the entry is appended.
pub open spec fn store_meta_model(s: Seq<MetaView>, m: MetaView) -> Seq<MetaView>
    decreases s.len(),
{
    if s.len() == 0 {
        seq![m]
    } else if s[0].world_id == m.world_id {
        seq![m] + s.drop_first()
    } else {
        seq![s[0]] + store_meta_model(s.drop_first(), m)
    }
}

/// The first stored snapshot under this world id, if any.
pub open spec fn find_snap(s: Seq<(Seq<char>, Seq<u8>)>, id: Seq<char>) -> Option<Seq<u8>>
    decreases s.len(),
{
    if s.len() == 0 {
        None
    } else if s[0].0 == id {
        Some(s[0].1)
    } else {
        find_snap(s.drop_first(), id)
    }
}

/// A snapshot stored under a world id: the first entry with that id is
/// replaced, or the entry is appended.
pub open spec fn store_snap_model(s: Seq<(Seq<char>, Seq<u8>)>, id: Seq<char>, data: Seq<u8>)
    -> Seq<(Seq<char>, Seq<u8>)>
    decreases s.len(),
{
    if s.len() == 0 {
        seq![(id, data)]
    } else if s[0].0 == id {
        seq![(id, data)] + s.drop_first()
    } else {
        seq![s[0]] + store_snap_model(s.drop_first(), id, data)
    }
}

/// The entries that do not carry this world id, in order.
pub open spec fn meta_ne(id: Seq<char>) -> spec_fn(MetaView) -> bool {
    |m: MetaView| m.world_id != id
}

/// The entries that do not carry this world id, in order.
pub open spec fn snap_ne(id: Seq<char>) -> spec_fn((Seq<char>, Seq<u8>)) -> bool {
    |p: (Seq<char>, Seq<u8>)| p.0 != id
}

/// An in-memory world store: metadata and snapshot bytes keyed by world
/// id.
#[derive(Debug)]
pub struct MockWorldStore {
    /// Stored metadata, one entry per world.
    pub metas: Vec<WorldMeta>,
    /// Stored snapshots, one entry per world.
    pub snapshots: Vec<(String, Vec<u8>)>,
}

impl MockWorldStore {
    /// The stored metadata as mathematical values.
    pub open spec fn metas_view(&self) -> Seq<MetaView> {
        self.metas@.map_values(|m: WorldMeta| m@)
    }

    /// The stored snapshots as mathematical values.
    pub open spec fn snaps_view(&self) -> Seq<(Seq<char>, Seq<u8>)> {
        self.snapshots@.map_values(|p: (String, Vec<u8>)| (p.0@, p.1@))
    }

    /// Create an empty store.
    pub fn new() -> (r: MockWorldStore)
        ensures
            r.metas_view() == Seq::<MetaView>::empty(),
            r.snaps_view() == Seq::<(Seq<char>, Seq<u8>)>::empty(),
    {
        let r = MockWorldStore { metas: Vec::new(), snapshots: Vec::new() };
        proof {
            assert(r.metas_view() =~= Seq::<MetaView>::empty());
            assert(r.snaps_view() =~= Seq::<(Seq<char>, Seq<u8>)>::empty());
        }
        r
    }

    /// The index of the first metadata entry under this id, if any.
    fn meta_pos(&self, world_id: &str) -> (r: Option<usize>)
        ensures
            match r {
                Some(i) => i < self.metas@.len() && self.metas_view()[i as int].world_id
                    == world_id@ && (forall|j: int|
                    0 <= j < i ==> self.metas_view()[j].world_id != world_id@) && find_meta(
                    self.metas_view(),
                    world_id@,
                ) == Some(self.metas_view()[i as int]),
                None => find_meta(self.metas_view(), world_id@) is None && forall|j: int|
                    0 <= j < self.metas@.len() ==> self.metas_view()[j].world_id != world_id@,
            },
    {
        let key: String = world_id.to_owned();
        let mut i: usize = 0;
        while i < self.metas.len()
            invariant
                0 <= i <= self.metas.len(),
                key@ == world_id@,
                forall|j: int| 0 <= j < i ==> self.metas_view()[j].world_id != world_id@,
            decreases self.metas.len() - i,
        {
            if self.metas[i].world_id == key {
                proof {
                    lemma_find_meta_at(self.metas_view(), world_id@, i as int);
                }
                return Some(i);
            }
            i = i + 1;
        }
        proof {
            lemma_find_meta_none(self.metas_view(), world_id@);
        }
        None
    }

    /// The index of the first snapshot entry under this id, if any.
    fn snap_pos(&self, world_id: &str) -> (r: Option<usize>)
        ensures
            match r {
                Some(i) => i < self.snapshots@.len() && self.snaps_view()[i as int].0 == world_id@
                    && (forall|j: int| 0 <= j < i ==> self.snaps_view()[j].0 != world_id@)
                    && find_snap(self.snaps_view(), world_id@) == Some(
                    self.snaps_view()[i as int].1,
                ),
                None => find_snap(self.snaps_view(), world_id@) is None && forall|j: int|
                    0 <= j < self.snapshots@.len() ==> self.snaps_view()[j].0 != world_id@,
            },
    {
        let key: String = world_id.to_owned();
        let mut i: usize = 0;
        while i < self.snapshots.len()
            invariant
                0 <= i <= self.snapshots.len(),
                key@ == world_id@,
                forall|j: int| 0 <= j < i ==> self.snaps_view()[j].0 != world_id@,
            decreases self.snapshots.len() - i,
        {
            if self.snapshots[i].0 == key {
                proof {
                    lemma_find_snap_at(self.snaps_view(), world_id@, i as int);
                }
                return Some(i);
            }
            i = i + 1;
        }
        proof {
            lemma_find_snap_none(self.snaps_view(), world_id@);
        }
        None
    }

    /// Whether a world with this id exists (has stored metadata).
    pub fn has_world(&self, world_id: &str) -> (b: bool)
        ensures
            b == (find_meta(self.metas_view(), world_id@) is Some),
    {
        match self.meta_pos(world_id) {
            Some(_) => true,
            None => false,
        }
    }

    /// The ids of all stored worlds, in storage order.
    pub fn list_worlds(&self) -> (r: Result<Vec<String>, SimError>)
        ensures
            match r {
                Ok(out) => out@.len() == self.metas@.len() && forall|i: int|
                    0 <= i < out@.len() ==> out@[i]@ == self.metas_view()[i].world_id,
                Err(_) => false,
            },
    {
        let mut out: Vec<String> = Vec::new();
        let mut i: usize = 0;
        while i < self.metas.len()
            invariant
                0 <= i <= self.metas.len(),
                out@.len() == i,
                forall|j: int| 0 <= j < i ==> out@[j]@ == self.metas_view()[j].world_id,
            decreases self.metas.len() - i,
        {
            out.push(self.metas[i].world_id.clone());
            i = i + 1;
        }
        Ok(out)
    }

    /// Load the metadata stored under this id.
    pub fn load_meta(&self, world_id: &str) -> (r: Result<WorldMeta, SimError>)
        ensures
            match r {
                Ok(m) => find_meta(self.metas_view(), world_id@) == Some(m@),
                Err(_) => find_meta(self.metas_view(), world_id@) is None,
            },
    {
        match self.meta_pos(world_id) {
            Some(i) => Ok(self.metas[i].clone()),
            None => Err(
                SimError::PersistenceError(String::from_str("world metadata not found")),
            ),
        }
    }

    /// Store metadata under its own world id, replacing any previous
    /// entry.
    pub fn save_meta(&mut self, meta: &WorldMeta) -> (r: Result<(), SimError>)
        ensures
            r is Ok,
            final(self).metas_view() == store_meta_model(old(self).metas_view(), meta@),
            final(self).snaps_view() == old(self).snaps_view(),
    {
        match self.meta_pos(meta.world_id.as_str()) {
            Some(i) => {
                proof {
                    lemma_store_meta_at(self.metas_view(), meta@, i as int);
                }
                self.metas[i] = meta.clone();
            },
            None => {
                proof {
                    lemma_store_meta_append(self.metas_view(), meta@);
                }
                self.metas.push(meta.clone());
                proof {
                    assert(self.metas_view() =~= old(self).metas_view().push(meta@));
                }
            },
        }
        Ok(())
    }

    /// Load the snapshot bytes stored under this id.
    pub fn load_snapshot(&self, world_id: &str) -> (r: Result<Vec<u8>, SimError>)
        ensures
            match r {
                Ok(data) => find_snap(self.snaps_view(), world_id@) == Some(data@),
                Err(_) => find_snap(self.snaps_view(), world_id@) is None,
            },
    {
        match self.snap_pos(world_id) {
            Some(i) => Ok(self.snapshots[i].1.clone()),
            None => Err(SimError::PersistenceError(String::from_str("snapshot not found"))),
        }
    }

    /// Store snapshot bytes under a world id, replacing any previous
    /// entry.
    pub fn save_snapshot(&mut self, world_id: &str, snapshot: &Vec<u8>) -> (r: Result<
        (),
        SimError,
    >)
        ensures
            r is Ok,
            final(self).snaps_view() == store_snap_model(
                old(self).snaps_view(),
                world_id@,
                snapshot@,
            ),
            final(self).metas_view() == old(self).metas_view(),
    {
        match self.snap_pos(world_id) {
            Some(i) => {
                proof {
                    lemma_store_snap_at(self.snaps_view(), world_id@, snapshot@, i as int);
                }
                self.snapshots[i] = (world_id.to_owned(), snapshot.clone());
            },
            None => {
                proof {
                    lemma_store_snap_append(self.snaps_view(), world_id@, snapshot@);
                }
                self.snapshots.push((world_id.to_owned(), snapshot.clone()));
                proof {
                    assert(self.snaps_view() =~= old(self).snaps_view().push(
                        (world_id@, snapshot@),
                    ));
                }
            },
        }
        Ok(())
    }

    /// Remove the world stored under this id, metadata and snapshot both.
    pub fn delete_world(&mut self, world_id: &str) -> (r: Result<(), SimError>)
        ensures
            r is Ok,
            final(self).metas_view() == old(self).metas_view().filter(meta_ne(world_id@)),
            final(self).snaps_view() == old(self).snaps_view().filter(snap_ne(world_id@)),
    {
        let key: String = world_id.to_owned();
        let mut kept_metas: Vec<WorldMeta> = Vec::new();
        let mut i: usize = 0;
        while i < self.metas.len()
            invariant
                0 <= i <= self.metas.len(),
                key@ == world_id@,
                kept_metas@.map_values(|m: WorldMeta| m@) =~= self.metas_view().take(
                    i as int,
                ).filter(meta_ne(world_id@)),
            decreases self.metas.len() - i,
        {
            proof {
                assert(self.metas_view().take(i + 1).drop_last() =~= self.metas_view().take(
                    i as int,
                ));
                assert(self.metas_view().take(i + 1).last() == self.metas_view()[i as int]);
                reveal(Seq::filter);
            }
            if !(self.metas[i].world_id == key) {
                let ghost before = kept_metas@;
                kept_metas.push(self.metas[i].clone());
                proof {
                    assert(kept_metas@.map_values(|m: WorldMeta| m@) =~= before.map_values(
                        |m: WorldMeta| m@,
                    ).push(self.metas_view()[i as int]));
                }
            }
            i = i + 1;
        }
        proof {
            assert(self.metas_view().take(self.metas@.len() as int) =~= self.metas_view());
        }
        self.metas = kept_metas;

        let mut kept_snaps: Vec<(String, Vec<u8>)> = Vec::new();
        let mut j: usize = 0;
        while j < self.snapshots.len()
            invariant
                0 <= j <= self.snapshots.len(),
                key@ == world_id@,
                kept_snaps@.map_values(|p: (String, Vec<u8>)| (p.0@, p.1@)) =~= old(
                    self,
                ).snaps_view().take(j as int).filter(snap_ne(world_id@)),
                self.snapshots@ == old(self).snapshots@,
            decreases self.snapshots.len() - j,
        {
            proof {
                assert(old(self).snaps_view().take(j + 1).drop_last() =~= old(
                    self,
                ).snaps_view().take(j as int));
                assert(old(self).snaps_view().take(j + 1).last() == old(
                    self,
                ).snaps_view()[j as int]);
                reveal(Seq::filter);
            }
            if !(self.snapshots[j].0 == key) {
                let ghost before = kept_snaps@;
                let entry = (self.snapshots[j].0.clone(), self.snapshots[j].1.clone());
                kept_snaps.push(entry);
                proof {
                    assert(kept_snaps@.map_values(|p: (String, Vec<u8>)| (p.0@, p.1@))
                        =~= before.map_values(|p: (String, Vec<u8>)| (p.0@, p.1@)).push(
                        old(self).snaps_view()[j as int],
                    ));
                }
            }
            j = j + 1;
        }
        proof {
            assert(old(self).snaps_view().take(old(self).snapshots@.len() as int) =~= old(
                self,
            ).snaps_view());
        }
        self.snapshots = kept_snaps;
        Ok(())
    }

    /// A descriptive location for a world's data.
    pub fn world_path(&self, world_id: &str) -> (r: String)
        ensures
            r@ == "mock://"@ + world_id@,
    {
        let mut s = String::from_str("mock://");
        s.append(world_id);
        s
    }
}

/// A match at the first matching index is what `find_meta` returns.
proof fn lemma_find_meta_at(s: Seq<MetaView>, id: Seq<char>, i: int)
    requires
        0 <= i < s.len(),
        s[i].world_id == id,
        forall|j: int| 0 <= j < i ==> s[j].world_id != id,
    ensures
        find_meta(s, id) == Some(s[i]),
    decreases s.len(),
{
    if i > 0 {
        lemma_find_meta_at(s.drop_first(), id, i - 1);
    }
}

/// Without a match anywhere, `find_meta` returns nothing.
proof fn lemma_find_meta_none(s: Seq<MetaView>, id: Seq<char>)
    requires
        forall|j: int| 0 <= j < s.len() ==> s[j].world_id != id,
    ensures
        find_meta(s, id) is None,
    decreases s.len(),
{
    if s.len() > 0 {
        lemma_find_meta_none(s.drop_first(), id);
    }
}

/// Replacing at the first matching index is what `store_meta_model` does.
proof fn lemma_store_meta_at(s: Seq<MetaView>, m: MetaView, i: int)
    requires
        0 <= i < s.len(),
        s[i].world_id == m.world_id,
        forall|j: int| 0 <= j < i ==> s[j].world_id != m.world_id,
    ensures
        store_meta_model(s, m) =~= s.update(i, m),
    decreases s.len(),
{
    if i > 0 {
        lemma_store_meta_at(s.drop_first(), m, i - 1);
    }
}

/// Without a match anywhere, storing appends.
proof fn lemma_store_meta_append(s: Seq<MetaView>, m: MetaView)
    requires
        forall|j: int| 0 <= j < s.len() ==> s[j].world_id != m.world_id,
    ensures
        store_meta_model(s, m) =~= s.push(m),
    decreases s.len(),
{
    if s.len() > 0 {
        lemma_store_meta_append(s.drop_first(), m);
    }
}

/// A match at the first matching index is what `find_snap` returns.
proof fn lemma_find_snap_at(s: Seq<(Seq<char>, Seq<u8>)>, id: Seq<char>, i: int)
    requires
        0 <= i < s.len(),
        s[i].0 == id,
        forall|j: int| 0 <= j < i ==> s[j].0 != id,
    ensures
        find_snap(s, id) == Some(s[i].1),
    decreases s.len(),
{
    if i > 0 {
        lemma_find_snap_at(s.drop_first(), id, i - 1);
    }
}

/// Without a match anywhere, `find_snap` returns nothing.
proof fn lemma_find_snap_none(s: Seq<(Seq<char>, Seq<u8>)>, id: Seq<char>)
    requires
        forall|j: int| 0 <= j < s.len() ==> s[j].0 != id,
    ensures
        find_snap(s, id) is None,
    decreases s.len(),
{
    if s.len() > 0 {
        lemma_find_snap_none(s.drop_first(), id);
    }
}

/// Replacing at the first matching index is what `store_snap_model` does.
proof fn lemma_store_snap_at(s: Seq<(Seq<char>, Seq<u8>)>, id: Seq<char>, d: Seq<u8>, i: int)
    requires
        0 <= i < s.len(),
        s[i].0 == id,
        forall|j: int| 0 <= j < i ==> s[j].0 != id,
    ensures
        store_snap_model(s, id, d) =~= s.update(i, (id, d)),
    decreases s.len(),
{
    if i > 0 {
        lemma_store_snap_at(s.drop_first(), id, d, i - 1);
    }
}

/// Without a match anywhere, storing appends.
proof fn lemma_store_snap_append(s: Seq<(Seq<char>, Seq<u8>)>, id: Seq<char>, d: Seq<u8>)
    requires
        forall|j: int| 0 <= j < s.len() ==> s[j].0 != id,
    ensures
        store_snap_model(s, id, d) =~= s.push((id, d)),
    decreases s.len(),
{
    if s.len() > 0 {
        lemma_store_snap_append(s.drop_first(), id, d);
    }
}

// ============================================================================
// MockHasher
// ============================================================================

/// The running digest of the mock hasher: a multiply-and-add fold over the
/// bytes.
pub open spec fn fnv_fold(b: Seq<u8>) -> u64
    decreases b.len(),
{
    if b.len() == 0 {
        0
    } else {
        vstd::wrapping::u64_specs::wrapping_add(
            vstd::wrapping::u64_specs::wrapping_mul(fnv_fold(b.drop_last()), 1099511628211),
            b.last() as u64,
        )
    }
}

/// A simple hasher for tests: a multiply-and-add fold.
#[derive(Debug)]
pub struct MockHasher {
    /// The bytes fed since the last reset.
    pub buf: Vec<u8>,
}

impl MockHasher {
    /// Create a hasher with nothing fed yet.
    pub fn new() -> (r: MockHasher)
        ensures
            r.buffered() == Seq::<u8>::empty(),
    {
        let r = MockHasher { buf: Vec::new() };
        proof {
            assert(r.buffered() =~= Seq::<u8>::empty());
        }
        r
    }
}

impl Default for MockHasher {
    fn default() -> (r: MockHasher)
        ensures
            r.buffered() == Seq::<u8>::empty(),
    {
        MockHasher::new()
    }
}

impl IStateHasher for MockHasher {
    open spec fn buffered(&self) -> Seq<u8> {
        self.buf@
    }

    open spec fn digest_spec(b: Seq<u8>) -> u64 {
        fnv_fold(b)
    }

    fn reset(&mut self) {
        self.buf.clear();
        proof {
            assert(self.buf@ =~= Seq::<u8>::empty());
        }
    }

    fn update(&mut self, data: &[u8]) {
        self.buf.extend_from_slice(data);
    }

    fn finalize(&self) -> (h: StateHash) {
        let mut acc: u64 = 0;
        let mut i: usize = 0;
        while i < self.buf.len()
            invariant
                0 <= i <= self.buf.len(),
                acc == fnv_fold(self.buf@.take(i as int)),
            decreases self.buf.len() - i,
        {
            proof {
                assert(self.buf@.take(i + 1).drop_last() =~= self.buf@.take(i as int));
                assert(self.buf@.take(i + 1).last() == self.buf@[i as int]);
            }
            acc = acc.wrapping_mul(1099511628211).wrapping_add(self.buf[i] as u64);
            i = i + 1;
        }
        proof {
            assert(self.buf@.take(self.buf@.len() as int) =~= self.buf@);
        }
        StateHash(acc)
    }
}

} // verus!
