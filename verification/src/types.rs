//! Stable primitive types used across the whole simulation core.
//!
//! Every type here is a plain value: deterministic, with no hidden state.

use vstd::prelude::*;

verus! {

/// The reserved entity id; never assigned to a live entity.
pub const INVALID_ENTITY_ID: u64 = 0;

/// The id of the origin zone, present in every new world.
pub const ORIGIN_ZONE_ID: u32 = 0;

/// The current on-disk format version of world metadata.
pub const CURRENT_FORMAT_VERSION: u32 = 2;

/// A simulation tick - the fundamental unit of time in the simulation.
/// The simulation advances tick by tick, deterministically.
#[derive(Debug, Clone, Copy, PartialEq, Eq, Structural, PartialOrd, Ord, Hash, Default)]
pub struct Tick(pub u64);

impl Tick {
    /// The genesis tick.
    pub fn zero() -> (t: Tick)
        ensures
            t.0 == 0,
    {
        Tick(0)
    }

    /// The following tick; saturates at the largest representable tick.
    pub fn next(self) -> (t: Tick)
        ensures
            t.0 == if self.0 == u64::MAX { u64::MAX as int } else { self.0 + 1 },
    {
        Tick(self.0.saturating_add(1))
    }

    pub fn as_u64(self) -> (n: u64)
        ensures
            n == self.0,
    {
        self.0
    }
}

/// Simulated time in the world (abstract units, not real-world seconds).
/// Derived from ticks; one tick is one time unit.
#[derive(Debug, Clone, Copy, PartialEq, Eq, Structural, PartialOrd, Ord, Hash, Default)]
pub struct SimTime {
    /// Total simulated time units elapsed.
    pub units: u64,
}

impl SimTime {
    pub fn zero() -> (t: SimTime)
        ensures
            t.units == 0,
    {
        SimTime { units: 0 }
    }

    /// The simulated time reached after a given tick.
    pub fn from_ticks(tick: Tick) -> (t: SimTime)
        ensures
            t.units == tick.0,
    {
        SimTime { units: tick.0 }
    }

    /// Advance by a number of units; saturates at the maximum.
    pub fn advance(&mut self, delta: u64)
        ensures
            final(self).units == if old(self).units + delta > u64::MAX {
                u64::MAX
            } else {
                (old(self).units + delta) as u64
            },
    {
        self.units = self.units.saturating_add(delta);
    }
}

/// Unique identifier for an entity in the simulation.
/// Stable across restarts; `0` is reserved as invalid.
#[derive(Debug, Clone, Copy, PartialEq, Eq, Structural, PartialOrd, Ord, Hash)]
pub struct EntityId(pub u64);

impl EntityId {
    pub fn new(id: u64) -> (r: EntityId)
        ensures
            r.0 == id,
    {
        EntityId(id)
    }

    pub fn as_u64(self) -> (n: u64)
        ensures
            n == self.0,
    {
        self.0
    }

    pub fn is_valid(self) -> (b: bool)
        ensures
            b == (self.0 != INVALID_ENTITY_ID),
    {
        self.0 != INVALID_ENTITY_ID
    }
}

/// Unique identifier for a zone/region in the world; `0` is the origin zone.
#[derive(Debug, Clone, Copy, PartialEq, Eq, Structural, PartialOrd, Ord, Hash)]
pub struct ZoneId(pub u32);

impl ZoneId {
    pub fn new(id: u32) -> (r: ZoneId)
        ensures
            r.0 == id,
    {
        ZoneId(id)
    }

    /// The origin zone id.
    pub fn origin() -> (r: ZoneId)
        ensures
            r.0 == ORIGIN_ZONE_ID,
    {
        ZoneId(ORIGIN_ZONE_ID)
    }

    pub fn as_u32(self) -> (n: u32)
        ensures
            n == self.0,
    {
        self.0
    }
}

/// Seed for the deterministic RNG. Must be explicitly provided.
#[derive(Debug, Clone, Copy, PartialEq, Eq, Structural, Hash)]
pub struct RngSeed(pub u64);

impl RngSeed {
    pub fn new(seed: u64) -> (r: RngSeed)
        ensures
            r.0 == seed,
    {
        RngSeed(seed)
    }

    pub fn as_u64(self) -> (n: u64)
        ensures
            n == self.0,
    {
        self.0
    }
}

/// Unique identifier for an event in the WAL.
/// Monotonically increasing within a world; `0` means "no events yet".
#[derive(Debug, Clone, Copy, PartialEq, Eq, Structural, PartialOrd, Ord, Hash, Default)]
pub struct EventId(pub u64);

impl EventId {
    pub fn zero() -> (r: EventId)
        ensures
            r.0 == 0,
    {
        EventId(0)
    }

    pub fn new(id: u64) -> (r: EventId)
        ensures
            r.0 == id,
    {
        EventId(id)
    }

    /// The following event id; saturates at the largest representable id.
    pub fn next(self) -> (r: EventId)
        ensures
            r.0 == if self.0 == u64::MAX { u64::MAX as int } else { self.0 + 1 },
    {
        EventId(self.0.saturating_add(1))
    }

    pub fn as_u64(self) -> (n: u64)
        ensures
            n == self.0,
    {
        self.0
    }
}

/// A position within a zone (local coordinates); signed to allow
/// coordinates on every side of the zone origin.
#[derive(Debug, Clone, Copy, PartialEq, Eq, Structural, Hash, Default)]
pub struct Position {
    pub x: i32,
    pub y: i32,
    pub z: i32,
}

impl Position {
    pub fn new(x: i32, y: i32, z: i32) -> (p: Position)
        ensures
            p == (Position { x, y, z }),
    {
        Position { x, y, z }
    }

    /// Manhattan distance to another position.
    pub fn manhattan_distance(&self, other: &Position) -> (d: u32)
        requires
            -0x4000_0000 < self.x - other.x < 0x4000_0000,
            -0x4000_0000 < self.y - other.y < 0x4000_0000,
            -0x4000_0000 < self.z - other.z < 0x4000_0000,
        ensures
            d == abs_diff(self.x as int, other.x as int) + abs_diff(self.y as int, other.y as int)
                + abs_diff(self.z as int, other.z as int),
    {
        let dx: u32 = diff_magnitude(self.x, other.x);
        let dy: u32 = diff_magnitude(self.y, other.y);
        let dz: u32 = diff_magnitude(self.z, other.z);
        dx + dy + dz
    }
}

/// The distance between two integers on the number line.
pub open spec fn abs_diff(a: int, b: int) -> int {
    if a >= b {
        a - b
    } else {
        b - a
    }
}

/// The magnitude of the difference of two machine integers.
fn diff_magnitude(a: i32, b: i32) -> (d: u32)
    requires
        -0x4000_0000 < a - b < 0x4000_0000,
    ensures
        d == abs_diff(a as int, b as int),
{
    if a >= b {
        (a - b) as u32
    } else {
        (b - a) as u32
    }
}

/// World coordinates: zone plus local position.
#[derive(Debug, Clone, Copy, PartialEq, Eq, Structural, Hash)]
pub struct WorldPos {
    pub zone: ZoneId,
    pub pos: Position,
}

impl WorldPos {
    pub fn new(zone: ZoneId, pos: Position) -> (p: WorldPos)
        ensures
            p == (WorldPos { zone, pos }),
    {
        WorldPos { zone, pos }
    }

    /// The origin of the origin zone.
    pub fn origin() -> (p: WorldPos)
        ensures
            p.zone.0 == ORIGIN_ZONE_ID,
            p.pos == (Position { x: 0, y: 0, z: 0 }),
    {
        WorldPos { zone: ZoneId(ORIGIN_ZONE_ID), pos: Position { x: 0, y: 0, z: 0 } }
    }
}

/// The kind of an entity; extensible in later phases.
#[derive(Debug, Clone, Copy, PartialEq, Eq, Structural, Hash)]
#[non_exhaustive]
pub enum EntityKind {
    /// A resource node (a tree, a rock, an ore vein).
    Resource,
    /// A creature.
    Creature,
    /// An item on the ground.
    Item,
    /// A structure (a building).
    Structure,
}

/// Lifecycle state of an entity.
#[derive(Debug, Clone, Copy, PartialEq, Eq, Structural, Hash)]
pub enum EntityState {
    /// The entity is active and processed every tick.
    Active,
    /// The entity is dormant: it persists but is not processed.
    Dormant,
    /// The entity is marked for removal.
    Dead,
}

impl Default for EntityState {
    fn default() -> (r: EntityState)
        ensures
            r == EntityState::Active,
    {
        EntityState::Active
    }
}

/// Metadata about a persisted world.
///
/// All time references are in simulated ticks, never real-world time.
/// `last_event_id` is the WAL cursor: on recovery the snapshot is loaded and
/// every surviving event with a greater id is replayed onto it.
#[derive(Debug)]
pub struct WorldMeta {
    /// Unique world identifier (derived from the seed).
    pub world_id: String,
    /// Human-readable name.
    pub name: String,
    /// RNG seed used for this world.
    pub seed: RngSeed,
    /// Current tick.
    pub current_tick: Tick,
    /// Current simulated time.
    pub sim_time: SimTime,
    /// Tick at which the world was created.
    pub created_tick: Tick,
    /// Tick at which the snapshot was taken.
    pub snapshot_tick: Tick,
    /// Last event id included in this snapshot (WAL cursor for recovery).
    pub last_event_id: EventId,
    /// Version of the format (for migrations).
    pub format_version: u32,
}

/// The mathematical value of a [`WorldMeta`]: the same fields with the
/// strings abstracted to character sequences.
#[verifier::ext_equal]
pub ghost struct MetaView {
    pub world_id: Seq<char>,
    pub name: Seq<char>,
    pub seed: RngSeed,
    pub current_tick: Tick,
    pub sim_time: SimTime,
    pub created_tick: Tick,
    pub snapshot_tick: Tick,
    pub last_event_id: EventId,
    pub format_version: u32,
}

impl View for WorldMeta {
    type V = MetaView;

    open spec fn view(&self) -> MetaView {
        MetaView {
            world_id: self.world_id@,
            name: self.name@,
            seed: self.seed,
            current_tick: self.current_tick,
            sim_time: self.sim_time,
            created_tick: self.created_tick,
            snapshot_tick: self.snapshot_tick,
            last_event_id: self.last_event_id,
            format_version: self.format_version,
        }
    }
}

impl Clone for WorldMeta {
    fn clone(&self) -> (r: WorldMeta)
        ensures
            r == *self,
    {
        WorldMeta {
            world_id: self.world_id.clone(),
            name: self.name.clone(),
            seed: self.seed,
            current_tick: self.current_tick,
            sim_time: self.sim_time,
            created_tick: self.created_tick,
            snapshot_tick: self.snapshot_tick,
            last_event_id: self.last_event_id,
            format_version: self.format_version,
        }
    }
}

/// Errors that can occur deep in the simulation or its persistence.
#[derive(Debug)]
pub enum SimError {
    /// Entity not found.
    EntityNotFound(EntityId),
    /// Zone not found.
    ZoneNotFound(ZoneId),
    /// Invalid operation.
    InvalidOperation(String),
    /// Persistence error.
    PersistenceError(String),
    /// World state is corrupted.
    CorruptedState(String),
}

} // verus!
