//! The in-memory world: the complete simulation state.
//!
//! The world is pure data: metadata, time, entities and zones, with no I/O
//! and no side effects.  Entities and zones are kept in vectors ordered by
//! ascending id, so that every traversal - the tick systems and the
//! canonical hash in particular - sees them in a deterministic order.

use vstd::prelude::*;

use crate::commands::EntityProperties;
use crate::commands::PropsView;
use crate::text::{world_id_seq, world_id_string};
use crate::types::{EntityId, EntityKind, EntityState, EventId, MetaView, RngSeed, SimTime, Tick,
    WorldMeta, WorldPos, ZoneId, CURRENT_FORMAT_VERSION, ORIGIN_ZONE_ID};
use vstd::string::StringExecFns;

verus! {

/// A complete entity in the simulation.
#[derive(Debug)]
pub struct Entity {
    /// Unique identifier.
    pub id: EntityId,
    /// Entity type.
    pub kind: EntityKind,
    /// Lifecycle state.
    pub state: EntityState,
    /// World position.
    pub position: WorldPos,
    /// Tick when created.
    pub created_at: Tick,
    /// Properties.
    pub properties: EntityProperties,
}

/// The mathematical value of an [`Entity`].
#[verifier::ext_equal]
pub ghost struct EntityView {
    pub id: EntityId,
    pub kind: EntityKind,
    pub state: EntityState,
    pub position: WorldPos,
    pub created_at: Tick,
    pub properties: PropsView,
}

impl View for Entity {
    type V = EntityView;

    open spec fn view(&self) -> EntityView {
        EntityView {
            id: self.id,
            kind: self.kind,
            state: self.state,
            position: self.position,
            created_at: self.created_at,
            properties: self.properties@,
        }
    }
}

impl EntityView {
    /// Whether the entity is processed by the tick systems.
    pub open spec fn is_active(self) -> bool {
        self.state == EntityState::Active
    }

    /// Whether the entity is marked for removal.
    pub open spec fn is_dead(self) -> bool {
        self.state == EntityState::Dead
    }
}

impl Entity {
    /// Create a new entity in the active state.
    pub fn new(
        id: EntityId,
        kind: EntityKind,
        position: WorldPos,
        created_at: Tick,
        properties: EntityProperties,
    ) -> (r: Entity)
        ensures
            r@ == (EntityView {
                id,
                kind,
                state: EntityState::Active,
                position,
                created_at,
                properties: properties@,
            }),
    {
        Entity { id, kind, state: EntityState::Active, position, created_at, properties }
    }

    /// Whether the entity is processed by the tick systems.
    pub fn is_active(&self) -> (b: bool)
        ensures
            b == self@.is_active(),
    {
        self.state == EntityState::Active
    }

    /// Whether the entity is marked for removal.
    pub fn is_dead(&self) -> (b: bool)
        ensures
            b == self@.is_dead(),
    {
        self.state == EntityState::Dead
    }
}

impl Clone for Entity {
    fn clone(&self) -> (r: Entity)
        ensures
            r == *self,
    {
        Entity {
            id: self.id,
            kind: self.kind,
            state: self.state,
            position: self.position,
            created_at: self.created_at,
            properties: self.properties.clone(),
        }
    }
}

/// A zone/region of the world: the unit of spatial partitioning.
#[derive(Debug)]
pub struct Zone {
    /// Zone identifier.
    pub id: ZoneId,
    /// Optional name.
    pub name: Option<String>,
    /// Whether this zone is currently loaded/active.
    pub loaded: bool,
    /// Ids of the entities positioned in this zone, in insertion order,
    /// without duplicates.
    pub entities: Vec<EntityId>,
}

/// The mathematical value of a [`Zone`].
#[verifier::ext_equal]
pub ghost struct ZoneView {
    pub id: ZoneId,
    pub name: Option<Seq<char>>,
    pub loaded: bool,
    pub entities: Seq<EntityId>,
}

impl View for Zone {
    type V = ZoneView;

    open spec fn view(&self) -> ZoneView {
        ZoneView {
            id: self.id,
            name: match self.name {
                Some(ref s) => Some(s@),
                None => None,
            },
            loaded: self.loaded,
            entities: self.entities@,
        }
    }
}

/// The predicate "is not this id", used to filter member lists.
pub open spec fn ne_entity(id: EntityId) -> spec_fn(EntityId) -> bool {
    |e: EntityId| e != id
}

impl ZoneView {
    /// The zone's member list with one id removed (order otherwise kept).
    pub open spec fn remove_member(self, id: EntityId) -> ZoneView {
        ZoneView { entities: self.entities.filter(ne_entity(id)), ..self }
    }

    /// The zone's member list with an id appended if it is not yet a member.
    pub open spec fn add_member(self, id: EntityId) -> ZoneView {
        if self.entities.contains(id) {
            self
        } else {
            ZoneView { entities: self.entities.push(id), ..self }
        }
    }
}

impl Zone {
    /// Create a new, loaded, empty zone.
    pub fn new(id: ZoneId, name: Option<String>) -> (r: Zone)
        ensures
            r@ == (ZoneView {
                id,
                name: match name {
                    Some(s) => Some(s@),
                    None => None,
                },
                loaded: true,
                entities: Seq::empty(),
            }),
    {
        let r = Zone { id, name, loaded: true, entities: Vec::new() };
        assert(r@.entities =~= Seq::<EntityId>::empty());
        r
    }

    /// Whether an entity id is a member of this zone.
    pub fn contains_entity(&self, id: EntityId) -> (b: bool)
        ensures
            b == self@.entities.contains(id),
    {
        let mut i: usize = 0;
        while i < self.entities.len()
            invariant
                0 <= i <= self.entities.len(),
                forall|j: int| 0 <= j < i ==> self.entities@[j] != id,
            decreases self.entities.len() - i,
        {
            if self.entities[i] == id {
                assert(self.entities@.contains(id));
                return true;
            }
            i = i + 1;
        }
        assert(!self.entities@.contains(id));
        false
    }

    /// Add an entity id to the zone's member list; a no-op if it is already
    /// a member.
    pub fn add_entity(&mut self, id: EntityId)
        ensures
            final(self)@ == old(self)@.add_member(id),
    {
        if !self.contains_entity(id) {
            self.entities.push(id);
        }
    }

    /// Remove an entity id from the zone's member list.
    pub fn remove_entity(&mut self, id: EntityId)
        ensures
            final(self)@ == old(self)@.remove_member(id),
    {
        let mut kept: Vec<EntityId> = Vec::new();
        let mut i: usize = 0;
        while i < self.entities.len()
            invariant
                0 <= i <= self.entities.len(),
                kept@ =~= self.entities@.take(i as int).filter(ne_entity(id)),
            decreases self.entities.len() - i,
        {
            let e = self.entities[i];
            proof {
                assert(self.entities@.take(i + 1).drop_last() =~= self.entities@.take(i as int));
                assert(self.entities@.take(i + 1).last() == e);
                reveal(Seq::filter);
            }
            if e != id {
                kept.push(e);
            }
            i = i + 1;
        }
        proof {
            assert(self.entities@.take(self.entities@.len() as int) =~= self.entities@);
        }
        self.entities = kept;
    }
}

impl Clone for Zone {
    fn clone(&self) -> (r: Zone)
        ensures
            r@ == self@,
    {
        Zone {
            id: self.id,
            name: match self.name {
                Some(ref s) => Some(s.clone()),
                None => None,
            },
            loaded: self.loaded,
            entities: self.entities.clone(),
        }
    }
}

// ============================================================================
// Sorted-sequence helpers
// ============================================================================

/// Entities are kept in strictly ascending id order.
pub open spec fn entities_sorted(s: Seq<EntityView>) -> bool {
    forall|i: int, j: int| 0 <= i < j < s.len() ==> s[i].id.0 < s[j].id.0
}

/// Zones are kept in strictly ascending id order.
pub open spec fn zones_sorted(s: Seq<ZoneView>) -> bool {
    forall|i: int, j: int| 0 <= i < j < s.len() ==> s[i].id.0 < s[j].id.0
}

/// The first entity with this id, if any.
pub open spec fn find_entity(s: Seq<EntityView>, id: u64) -> Option<EntityView>
    decreases s.len(),
{
    if s.len() == 0 {
        None
    } else if s[0].id.0 == id {
        Some(s[0])
    } else {
        find_entity(s.drop_first(), id)
    }
}

/// Whether an entity with this id exists.
pub open spec fn has_entity(s: Seq<EntityView>, id: u64) -> bool {
    find_entity(s, id) is Some
}

/// The sequence with an entity inserted in id order; an entity that carries
/// an id already present replaces the old one.
pub open spec fn insert_entity(s: Seq<EntityView>, e: EntityView) -> Seq<EntityView>
    decreases s.len(),
{
    if s.len() == 0 {
        seq![e]
    } else if s[0].id.0 < e.id.0 {
        seq![s[0]] + insert_entity(s.drop_first(), e)
    } else if s[0].id.0 == e.id.0 {
        seq![e] + s.drop_first()
    } else {
        seq![e] + s
    }
}

/// The sequence with the first entity of this id removed.
pub open spec fn remove_entity_seq(s: Seq<EntityView>, id: u64) -> Seq<EntityView>
    decreases s.len(),
{
    if s.len() == 0 {
        s
    } else if s[0].id.0 == id {
        s.drop_first()
    } else {
        seq![s[0]] + remove_entity_seq(s.drop_first(), id)
    }
}

/// The sequence with the first entity of this id replaced.
pub open spec fn update_entity(s: Seq<EntityView>, id: u64, e: EntityView) -> Seq<EntityView>
    decreases s.len(),
{
    if s.len() == 0 {
        s
    } else if s[0].id.0 == id {
        seq![e] + s.drop_first()
    } else {
        seq![s[0]] + update_entity(s.drop_first(), id, e)
    }
}

/// The first zone with this id, if any.
pub open spec fn find_zone(s: Seq<ZoneView>, id: u32) -> Option<ZoneView>
    decreases s.len(),
{
    if s.len() == 0 {
        None
    } else if s[0].id.0 == id {
        Some(s[0])
    } else {
        find_zone(s.drop_first(), id)
    }
}

/// Whether a zone with this id exists.
pub open spec fn has_zone(s: Seq<ZoneView>, id: u32) -> bool {
    find_zone(s, id) is Some
}

/// The sequence with a zone inserted in id order; a zone that carries an id
/// already present replaces the old one.
pub open spec fn insert_zone(s: Seq<ZoneView>, z: ZoneView) -> Seq<ZoneView>
    decreases s.len(),
{
    if s.len() == 0 {
        seq![z]
    } else if s[0].id.0 < z.id.0 {
        seq![s[0]] + insert_zone(s.drop_first(), z)
    } else if s[0].id.0 == z.id.0 {
        seq![z] + s.drop_first()
    } else {
        seq![z] + s
    }
}

/// The sequence with the first zone of this id replaced.
pub open spec fn update_zone(s: Seq<ZoneView>, id: u32, z: ZoneView) -> Seq<ZoneView>
    decreases s.len(),
{
    if s.len() == 0 {
        s
    } else if s[0].id.0 == id {
        seq![z] + s.drop_first()
    } else {
        seq![s[0]] + update_zone(s.drop_first(), id, z)
    }
}

/// The ids of the active entities, in the order in which they stand.
pub open spec fn active_ids(s: Seq<EntityView>) -> Seq<EntityId>
    decreases s.len(),
{
    if s.len() == 0 {
        Seq::empty()
    } else {
        active_ids(s.drop_last()) + if s.last().is_active() {
            seq![s.last().id]
        } else {
            Seq::empty()
        }
    }
}

/// The ids of the dead entities, in the order in which they stand.
pub open spec fn dead_ids(s: Seq<EntityView>) -> Seq<EntityId>
    decreases s.len(),
{
    if s.len() == 0 {
        Seq::empty()
    } else {
        dead_ids(s.drop_last()) + if s.last().is_dead() {
            seq![s.last().id]
        } else {
            Seq::empty()
        }
    }
}

// ============================================================================
// Characterization lemmas
// ============================================================================

/// A match at the first matching index is what `find_entity` returns.
pub proof fn lemma_find_entity_at(s: Seq<EntityView>, id: u64, i: int)
    requires
        0 <= i < s.len(),
        s[i].id.0 == id,
        forall|j: int| 0 <= j < i ==> s[j].id.0 != id,
    ensures
        find_entity(s, id) == Some(s[i]),
    decreases s.len(),
{
    if i > 0 {
        lemma_find_entity_at(s.drop_first(), id, i - 1);
    }
}

/// Without a match anywhere, `find_entity` returns nothing.
pub proof fn lemma_find_entity_none(s: Seq<EntityView>, id: u64)
    requires
        forall|j: int| 0 <= j < s.len() ==> s[j].id.0 != id,
    ensures
        find_entity(s, id) is None,
    decreases s.len(),
{
    if s.len() > 0 {
        lemma_find_entity_none(s.drop_first(), id);
    }
}

/// Inserting at the first position whose id is not below the new id is what
/// `insert_entity` does.
pub proof fn lemma_insert_entity_at(s: Seq<EntityView>, e: EntityView, i: int)
    requires
        0 <= i <= s.len(),
        forall|j: int| 0 <= j < i ==> s[j].id.0 < e.id.0,
        i < s.len() ==> s[i].id.0 >= e.id.0,
    ensures
        i < s.len() && s[i].id.0 == e.id.0 ==> insert_entity(s, e) =~= s.update(i, e),
        !(i < s.len() && s[i].id.0 == e.id.0) ==> insert_entity(s, e) =~= s.insert(i, e),
    decreases s.len(),
{
    if s.len() > 0 && i > 0 {
        lemma_insert_entity_at(s.drop_first(), e, i - 1);
    }
}

/// Removing at the first matching index is what `remove_entity_seq` does.
pub proof fn lemma_remove_entity_at(s: Seq<EntityView>, id: u64, i: int)
    requires
        0 <= i < s.len(),
        s[i].id.0 == id,
        forall|j: int| 0 <= j < i ==> s[j].id.0 != id,
    ensures
        remove_entity_seq(s, id) =~= s.remove(i),
    decreases s.len(),
{
    if i > 0 {
        lemma_remove_entity_at(s.drop_first(), id, i - 1);
    }
}

/// Without a match anywhere, removal changes nothing.
pub proof fn lemma_remove_entity_none(s: Seq<EntityView>, id: u64)
    requires
        forall|j: int| 0 <= j < s.len() ==> s[j].id.0 != id,
    ensures
        remove_entity_seq(s, id) =~= s,
    decreases s.len(),
{
    if s.len() > 0 {
        lemma_remove_entity_none(s.drop_first(), id);
    }
}

/// Replacing at the first matching index is what `update_entity` does.
pub proof fn lemma_update_entity_at(s: Seq<EntityView>, id: u64, e: EntityView, i: int)
    requires
        0 <= i < s.len(),
        s[i].id.0 == id,
        forall|j: int| 0 <= j < i ==> s[j].id.0 != id,
    ensures
        update_entity(s, id, e) =~= s.update(i, e),
    decreases s.len(),
{
    if i > 0 {
        lemma_update_entity_at(s.drop_first(), id, e, i - 1);
    }
}

/// A match at the first matching index is what `find_zone` returns.
pub proof fn lemma_find_zone_at(s: Seq<ZoneView>, id: u32, i: int)
    requires
        0 <= i < s.len(),
        s[i].id.0 == id,
        forall|j: int| 0 <= j < i ==> s[j].id.0 != id,
    ensures
        find_zone(s, id) == Some(s[i]),
    decreases s.len(),
{
    if i > 0 {
        lemma_find_zone_at(s.drop_first(), id, i - 1);
    }
}

/// Without a match anywhere, `find_zone` returns nothing.
pub proof fn lemma_find_zone_none(s: Seq<ZoneView>, id: u32)
    requires
        forall|j: int| 0 <= j < s.len() ==> s[j].id.0 != id,
    ensures
        find_zone(s, id) is None,
    decreases s.len(),
{
    if s.len() > 0 {
        lemma_find_zone_none(s.drop_first(), id);
    }
}

/// Inserting at the first position whose id is not below the new id is what
/// `insert_zone` does.
pub proof fn lemma_insert_zone_at(s: Seq<ZoneView>, z: ZoneView, i: int)
    requires
        0 <= i <= s.len(),
        forall|j: int| 0 <= j < i ==> s[j].id.0 < z.id.0,
        i < s.len() ==> s[i].id.0 >= z.id.0,
    ensures
        i < s.len() && s[i].id.0 == z.id.0 ==> insert_zone(s, z) =~= s.update(i, z),
        !(i < s.len() && s[i].id.0 == z.id.0) ==> insert_zone(s, z) =~= s.insert(i, z),
    decreases s.len(),
{
    if s.len() > 0 && i > 0 {
        lemma_insert_zone_at(s.drop_first(), z, i - 1);
    }
}

/// Replacing at the first matching index is what `update_zone` does.
pub proof fn lemma_update_zone_at(s: Seq<ZoneView>, id: u32, z: ZoneView, i: int)
    requires
        0 <= i < s.len(),
        s[i].id.0 == id,
        forall|j: int| 0 <= j < i ==> s[j].id.0 != id,
    ensures
        update_zone(s, id, z) =~= s.update(i, z),
    decreases s.len(),
{
    if i > 0 {
        lemma_update_zone_at(s.drop_first(), id, z, i - 1);
    }
}

// ============================================================================
// World
// ============================================================================

/// The complete world state: the root of all simulation data.
#[derive(Debug)]
pub struct World {
    /// World metadata.
    pub meta: WorldMeta,
    /// Current simulation tick.
    pub current_tick: Tick,
    /// Current simulated time.
    pub sim_time: SimTime,
    /// RNG state captured at the last save (for determinism).
    pub rng_state: u64,
    /// Next entity id to assign.
    pub next_entity_id: u64,
    /// All entities, in strictly ascending id order.
    pub entities: Vec<Entity>,
    /// All zones, in strictly ascending id order.
    pub zones: Vec<Zone>,
}

/// The mathematical value of a [`World`].
#[verifier::ext_equal]
pub ghost struct WorldView {
    pub meta: MetaView,
    pub current_tick: Tick,
    pub sim_time: SimTime,
    pub rng_state: u64,
    pub next_entity_id: u64,
    pub entities: Seq<EntityView>,
    pub zones: Seq<ZoneView>,
}

impl View for World {
    type V = WorldView;

    open spec fn view(&self) -> WorldView {
        WorldView {
            meta: self.meta@,
            current_tick: self.current_tick,
            sim_time: self.sim_time,
            rng_state: self.rng_state,
            next_entity_id: self.next_entity_id,
            entities: self.entities@.map_values(|e: Entity| e@),
            zones: self.zones@.map_values(|z: Zone| z@),
        }
    }
}

/// The freshly created world for a name and a seed: empty but for the
/// origin zone, at tick zero, with the RNG state holding the raw seed.
pub open spec fn world_new_model(name: Seq<char>, seed: RngSeed) -> WorldView {
    WorldView {
        meta: MetaView {
            world_id: world_id_seq(seed.0),
            name: name,
            seed: seed,
            current_tick: Tick(0),
            sim_time: SimTime { units: 0 },
            created_tick: Tick(0),
            snapshot_tick: Tick(0),
            last_event_id: EventId(0),
            format_version: CURRENT_FORMAT_VERSION,
        },
        current_tick: Tick(0),
        sim_time: SimTime { units: 0 },
        rng_state: seed.0,
        next_entity_id: 1,
        entities: Seq::empty(),
        zones: seq![
            ZoneView {
                id: ZoneId(ORIGIN_ZONE_ID),
                name: Some("Origin"@),
                loaded: true,
                entities: Seq::empty(),
            },
        ],
    }
}

impl WorldView {
    /// Well-formedness: the invariants that hold of every world the engine
    /// exposes at a command boundary.
    ///
    /// - entities and zones are strictly sorted by id (so ids are unique);
    /// - the time mirrors in `meta` agree with the world;
    /// - simulated time is derived from the tick;
    /// - entity ids are valid and below the allocator cursor;
    /// - the origin zone exists;
    /// - every entity is listed in the member list of its declared zone;
    /// - every member id of every zone names an entity declared in that
    ///   zone, and no member list repeats an id.
    pub open spec fn wf(self) -> bool {
        &&& entities_sorted(self.entities)
        &&& zones_sorted(self.zones)
        &&& self.meta.current_tick == self.current_tick
        &&& self.meta.sim_time == self.sim_time
        &&& self.sim_time.units == self.current_tick.0
        &&& self.next_entity_id >= 1
        &&& forall|i: int|
            0 <= i < self.entities.len() ==> 1 <= (#[trigger] self.entities[i]).id.0
                < self.next_entity_id
        &&& has_zone(self.zones, ORIGIN_ZONE_ID)
        &&& forall|i: int|
            0 <= i < self.entities.len() ==> {
                let e = #[trigger] self.entities[i];
                match find_zone(self.zones, e.position.zone.0) {
                    Some(z) => z.entities.contains(e.id),
                    None => false,
                }
            }
        &&& forall|zi: int, k: int|
            0 <= zi < self.zones.len() && 0 <= k < self.zones[zi].entities.len() ==> {
                let m = #[trigger] self.zones[zi].entities[k];
                match find_entity(self.entities, m.0) {
                    Some(e) => e.position.zone == self.zones[zi].id,
                    None => false,
                }
            }
        &&& forall|zi: int, k1: int, k2: int|
            #![trigger self.zones[zi].entities[k1], self.zones[zi].entities[k2]]
            0 <= zi < self.zones.len() && 0 <= k1 < k2 < self.zones[zi].entities.len()
                ==> self.zones[zi].entities[k1] != self.zones[zi].entities[k2]
    }

    /// The world with an entity added: inserted into the entity sequence in
    /// id order, and listed in its declared zone if that zone exists.
    pub open spec fn add_entity_model(self, e: EntityView) -> WorldView {
        let zs = match find_zone(self.zones, e.position.zone.0) {
            Some(z) => update_zone(self.zones, e.position.zone.0, z.add_member(e.id)),
            None => self.zones,
        };
        WorldView { entities: insert_entity(self.entities, e), zones: zs, ..self }
    }

    /// The world with the entity of this id removed, both from the entity
    /// sequence and from its declared zone's member list.
    pub open spec fn remove_entity_model(self, id: EntityId) -> WorldView {
        match find_entity(self.entities, id.0) {
            Some(e) => {
                let zs = match find_zone(self.zones, e.position.zone.0) {
                    Some(z) => update_zone(self.zones, e.position.zone.0, z.remove_member(id)),
                    None => self.zones,
                };
                WorldView { entities: remove_entity_seq(self.entities, id.0), zones: zs, ..self }
            },
            None => self,
        }
    }

    /// The world with a zone added in id order.
    pub open spec fn add_zone_model(self, z: ZoneView) -> WorldView {
        WorldView { zones: insert_zone(self.zones, z), ..self }
    }

    /// The world advanced by one tick, with the metadata mirrors updated.
    pub open spec fn advance_tick_model(self) -> WorldView {
        let t = if self.current_tick.0 == u64::MAX {
            Tick(u64::MAX)
        } else {
            Tick((self.current_tick.0 + 1) as u64)
        };
        WorldView {
            current_tick: t,
            sim_time: SimTime { units: t.0 },
            meta: MetaView { current_tick: t, sim_time: SimTime { units: t.0 }, ..self.meta },
            ..self
        }
    }

    /// The world fast-forwarded to a tick, with the metadata mirrors
    /// updated; never rewinds.
    pub open spec fn fast_forward_model(self, t: Tick) -> WorldView {
        if t.0 > self.current_tick.0 {
            WorldView {
                current_tick: t,
                sim_time: SimTime { units: t.0 },
                meta: MetaView { current_tick: t, sim_time: SimTime { units: t.0 }, ..self.meta },
                ..self
            }
        } else {
            self
        }
    }
}

impl World {
    /// Create a new empty world at tick zero holding only the origin zone.
    pub fn new(name: String, seed: RngSeed) -> (r: World)
        ensures
            r@ == world_new_model(name@, seed),
    {
        let world_id = world_id_string(seed.0);

        let meta = WorldMeta {
            world_id,
            name,
            seed,
            current_tick: Tick(0),
            sim_time: SimTime { units: 0 },
            created_tick: Tick(0),
            snapshot_tick: Tick(0),
            last_event_id: EventId(0),
            format_version: CURRENT_FORMAT_VERSION,
        };

        let mut zones: Vec<Zone> = Vec::new();
        zones.push(Zone::new(ZoneId(ORIGIN_ZONE_ID), Some(String::from_str("Origin"))));

        let r = World {
            meta,
            current_tick: Tick(0),
            sim_time: SimTime { units: 0 },
            rng_state: seed.0,
            next_entity_id: 1,
            entities: Vec::new(),
            zones,
        };
        proof {
            assert(r@.entities =~= world_new_model(name@, seed).entities);
            assert(r@.zones =~= world_new_model(name@, seed).zones);
            assert(r@ =~= world_new_model(name@, seed));
        }
        r
    }

    /// The world id.
    pub fn id(&self) -> (r: &str)
        ensures
            r@ == self@.meta.world_id,
    {
        self.meta.world_id.as_str()
    }

    /// The world name.
    pub fn name(&self) -> (r: &str)
        ensures
            r@ == self@.meta.name,
    {
        self.meta.name.as_str()
    }

    /// The RNG seed.
    pub fn seed(&self) -> (r: RngSeed)
        ensures
            r == self@.meta.seed,
    {
        self.meta.seed
    }

    /// Allocate a fresh entity id and advance the allocator cursor.
    pub fn allocate_entity_id(&mut self) -> (r: EntityId)
        requires
            old(self).next_entity_id < u64::MAX,
        ensures
            r.0 == old(self).next_entity_id,
            final(self)@ == (WorldView {
                next_entity_id: (old(self).next_entity_id + 1) as u64,
                ..old(self)@
            }),
    {
        let id = EntityId(self.next_entity_id);
        self.next_entity_id = self.next_entity_id + 1;
        id
    }

    /// The index of the first entity with this id, if any.
    fn entity_pos(&self, id: EntityId) -> (r: Option<usize>)
        ensures
            match r {
                Some(i) => i < self@.entities.len() && self@.entities[i as int].id == id
                    && (forall|j: int| 0 <= j < i ==> self@.entities[j].id != id)
                    && find_entity(self@.entities, id.0) == Some(self@.entities[i as int]),
                None => find_entity(self@.entities, id.0) is None,
            },
    {
        let mut i: usize = 0;
        while i < self.entities.len()
            invariant
                0 <= i <= self.entities.len(),
                forall|j: int| 0 <= j < i ==> self@.entities[j].id != id,
            decreases self.entities.len() - i,
        {
            if self.entities[i].id == id {
                proof {
                    lemma_find_entity_at(self@.entities, id.0, i as int);
                }
                return Some(i);
            }
            proof {
                assert(self@.entities[i as int].id != id);
            }
            i = i + 1;
        }
        proof {
            lemma_find_entity_none(self@.entities, id.0);
        }
        None
    }

    /// The index of the first zone with this id, if any.
    fn zone_pos(&self, id: ZoneId) -> (r: Option<usize>)
        ensures
            match r {
                Some(i) => i < self@.zones.len() && self@.zones[i as int].id == id
                    && (forall|j: int| 0 <= j < i ==> self@.zones[j].id != id)
                    && find_zone(self@.zones, id.0) == Some(self@.zones[i as int]),
                None => find_zone(self@.zones, id.0) is None,
            },
    {
        let mut i: usize = 0;
        while i < self.zones.len()
            invariant
                0 <= i <= self.zones.len(),
                forall|j: int| 0 <= j < i ==> self@.zones[j].id != id,
            decreases self.zones.len() - i,
        {
            if self.zones[i].id == id {
                proof {
                    lemma_find_zone_at(self@.zones, id.0, i as int);
                }
                return Some(i);
            }
            proof {
                assert(self@.zones[i as int].id != id);
            }
            i = i + 1;
        }
        proof {
            lemma_find_zone_none(self@.zones, id.0);
        }
        None
    }

    /// Add an entity to the world: insert it in id order and list it in its
    /// declared zone, if that zone exists.
    pub fn add_entity(&mut self, entity: Entity)
        ensures
            final(self)@ == old(self)@.add_entity_model(entity@),
    {
        let zone_id = entity.position.zone;
        let entity_id = entity.id;
        let ghost e_view = entity@;

        // Insert into the entity sequence at the sorted position.
        let mut i: usize = 0;
        while i < self.entities.len() && self.entities[i].id.0 < entity.id.0
            invariant
                0 <= i <= self.entities.len(),
                forall|j: int| 0 <= j < i ==> self@.entities[j].id.0 < e_view.id.0,
                entity@ == e_view,
            decreases self.entities.len() - i,
        {
            i = i + 1;
        }
        proof {
            lemma_insert_entity_at(self@.entities, e_view, i as int);
        }
        if i < self.entities.len() && self.entities[i].id.0 == entity.id.0 {
            self.entities[i] = entity;
        } else {
            self.entities.insert(i, entity);
        }

        // List the id in the declared zone, if it exists.
        match self.zone_pos(zone_id) {
            Some(zi) => {
                proof {
                    lemma_update_zone_at(
                        self@.zones,
                        zone_id.0,
                        self@.zones[zi as int].add_member(entity_id),
                        zi as int,
                    );
                }
                let z = &mut self.zones[zi];
                z.add_entity(entity_id);
            },
            None => {},
        }
    }

    /// Remove an entity from the world and return it; remove its id from
    /// its declared zone's member list.
    pub fn remove_entity(&mut self, id: EntityId) -> (r: Option<Entity>)
        ensures
            final(self)@ == old(self)@.remove_entity_model(id),
            match r {
                Some(e) => find_entity(old(self)@.entities, id.0) == Some(e@),
                None => find_entity(old(self)@.entities, id.0) is None,
            },
    {
        match self.entity_pos(id) {
            Some(i) => {
                proof {
                    lemma_remove_entity_at(self@.entities, id.0, i as int);
                }
                let entity = self.entities.remove(i);
                match self.zone_pos(entity.position.zone) {
                    Some(zi) => {
                        proof {
                            lemma_update_zone_at(
                                self@.zones,
                                entity.position.zone.0,
                                self@.zones[zi as int].remove_member(id),
                                zi as int,
                            );
                        }
                        let z = &mut self.zones[zi];
                        z.remove_entity(id);
                    },
                    None => {},
                }
                Some(entity)
            },
            None => None,
        }
    }

    /// The entity with this id, if any.
    pub fn get_entity(&self, id: EntityId) -> (r: Option<&Entity>)
        ensures
            match r {
                Some(e) => find_entity(self@.entities, id.0) == Some(e@),
                None => find_entity(self@.entities, id.0) is None,
            },
    {
        match self.entity_pos(id) {
            Some(i) => Some(&self.entities[i]),
            None => None,
        }
    }


    /// The entity with this id, mutably, if any.  What the caller writes
    /// through the reference lands in place; the targeted mutators below
    /// state those updates exactly.
    pub fn get_entity_mut(&mut self, id: EntityId) -> (r: Option<&mut Entity>)
        ensures
            match r {
                Some(e) => find_entity(old(self)@.entities, id.0) == Some((*e)@),
                None => find_entity(old(self)@.entities, id.0) is None && *final(self) == *old(
                    self,
                ),
            },
    {
        match self.entity_pos(id) {
            Some(i) => Some(&mut self.entities[i]),
            None => None,
        }
    }

    /// The zone with this id, mutably, if any.  What the caller writes
    /// through the reference lands in place; the targeted mutators below
    /// state those updates exactly.
    pub fn get_zone_mut(&mut self, id: ZoneId) -> (r: Option<&mut Zone>)
        ensures
            match r {
                Some(z) => find_zone(old(self)@.zones, id.0) == Some((*z)@),
                None => find_zone(old(self)@.zones, id.0) is None && *final(self) == *old(self),
            },
    {
        match self.zone_pos(id) {
            Some(i) => {
                proof {
                    lemma_update_zone_at(self@.zones, id.0, self@.zones[i as int], i as int);
                }
                Some(&mut self.zones[i])
            },
            None => None,
        }
    }

    /// The ids of all active entities, in ascending id order.
    pub fn active_entities(&self) -> (r: Vec<EntityId>)
        ensures
            r@ == active_ids(self@.entities),
    {
        let mut out: Vec<EntityId> = Vec::new();
        let mut i: usize = 0;
        while i < self.entities.len()
            invariant
                0 <= i <= self.entities.len(),
                out@ =~= active_ids(self@.entities.take(i as int)),
            decreases self.entities.len() - i,
        {
            proof {
                assert(self@.entities.take(i + 1).drop_last() =~= self@.entities.take(i as int));
                assert(self@.entities.take(i + 1).last() == self@.entities[i as int]);
            }
            if self.entities[i].is_active() {
                out.push(self.entities[i].id);
            }
            i = i + 1;
        }
        proof {
            assert(self@.entities.take(self@.entities.len() as int) =~= self@.entities);
        }
        out
    }

    /// The ids of all dead entities, in ascending id order.
    pub fn dead_entities(&self) -> (r: Vec<EntityId>)
        ensures
            r@ == dead_ids(self@.entities),
    {
        let mut out: Vec<EntityId> = Vec::new();
        let mut i: usize = 0;
        while i < self.entities.len()
            invariant
                0 <= i <= self.entities.len(),
                out@ =~= dead_ids(self@.entities.take(i as int)),
            decreases self.entities.len() - i,
        {
            proof {
                assert(self@.entities.take(i + 1).drop_last() =~= self@.entities.take(i as int));
                assert(self@.entities.take(i + 1).last() == self@.entities[i as int]);
            }
            if self.entities[i].is_dead() {
                out.push(self.entities[i].id);
            }
            i = i + 1;
        }
        proof {
            assert(self@.entities.take(self@.entities.len() as int) =~= self@.entities);
        }
        out
    }

    /// How many entities the world holds.
    pub fn entity_count(&self) -> (n: usize)
        ensures
            n == self@.entities.len(),
    {
        self.entities.len()
    }

    /// How many active entities the world holds.
    pub fn active_entity_count(&self) -> (n: usize)
        ensures
            n == active_ids(self@.entities).len(),
    {
        let ids = self.active_entities();
        ids.len()
    }

    /// Add a zone in id order; a zone with an id already present replaces
    /// the old one.
    pub fn add_zone(&mut self, zone: Zone)
        ensures
            final(self)@ == old(self)@.add_zone_model(zone@),
    {
        let ghost z_view = zone@;
        let mut i: usize = 0;
        while i < self.zones.len() && self.zones[i].id.0 < zone.id.0
            invariant
                0 <= i <= self.zones.len(),
                forall|j: int| 0 <= j < i ==> self@.zones[j].id.0 < z_view.id.0,
                zone@ == z_view,
            decreases self.zones.len() - i,
        {
            i = i + 1;
        }
        proof {
            lemma_insert_zone_at(self@.zones, z_view, i as int);
        }
        if i < self.zones.len() && self.zones[i].id.0 == zone.id.0 {
            self.zones[i] = zone;
        } else {
            self.zones.insert(i, zone);
        }
    }

    /// The zone with this id, if any.
    pub fn get_zone(&self, id: ZoneId) -> (r: Option<&Zone>)
        ensures
            match r {
                Some(z) => find_zone(self@.zones, id.0) == Some(z@),
                None => find_zone(self@.zones, id.0) is None,
            },
    {
        match self.zone_pos(id) {
            Some(i) => Some(&self.zones[i]),
            None => None,
        }
    }

    /// Whether a zone with this id exists.
    pub fn has_zone(&self, id: ZoneId) -> (b: bool)
        ensures
            b == has_zone(self@.zones, id.0),
    {
        match self.zone_pos(id) {
            Some(_) => true,
            None => false,
        }
    }

    /// The ids of all zones, in ascending id order.
    pub fn zone_ids(&self) -> (r: Vec<ZoneId>)
        ensures
            r@.len() == self@.zones.len(),
            forall|i: int| 0 <= i < r@.len() ==> r@[i] == self@.zones[i].id,
    {
        let mut out: Vec<ZoneId> = Vec::new();
        let mut i: usize = 0;
        while i < self.zones.len()
            invariant
                0 <= i <= self.zones.len(),
                out@.len() == i,
                forall|j: int| 0 <= j < i ==> out@[j] == self@.zones[j].id,
            decreases self.zones.len() - i,
        {
            out.push(self.zones[i].id);
            i = i + 1;
        }
        out
    }

    /// How many zones the world holds.
    pub fn zone_count(&self) -> (n: usize)
        ensures
            n == self@.zones.len(),
    {
        self.zones.len()
    }

    /// Advance to the next tick, recompute the simulated time, and mirror
    /// both into the metadata.
    pub fn advance_tick(&mut self)
        ensures
            final(self)@ == old(self)@.advance_tick_model(),
    {
        self.current_tick = self.current_tick.next();
        self.sim_time = SimTime::from_ticks(self.current_tick);
        self.meta.current_tick = self.current_tick;
        self.meta.sim_time = self.sim_time;
    }

    /// Fast-forward to a tick (never rewinding), recompute the simulated
    /// time, and mirror both into the metadata.
    pub fn fast_forward(&mut self, t: Tick)
        ensures
            final(self)@ == old(self)@.fast_forward_model(t),
    {
        if t.0 > self.current_tick.0 {
            self.current_tick = t;
            self.sim_time = SimTime::from_ticks(t);
            self.meta.current_tick = t;
            self.meta.sim_time = self.sim_time;
        }
    }
}

// ============================================================================
// Targeted mutation: one entity or one zone changed in place
// ============================================================================

/// The transformer that sets an entity's lifecycle state.
pub open spec fn set_state_fn(st: EntityState) -> spec_fn(EntityView) -> EntityView {
    |e: EntityView| EntityView { state: st, ..e }
}

/// The transformer that sets an entity's position fields (the zone member
/// lists are handled separately).
pub open spec fn set_position_fn(p: WorldPos) -> spec_fn(EntityView) -> EntityView {
    |e: EntityView| EntityView { position: p, ..e }
}

/// The transformer that sets an entity's name property.
pub open spec fn set_name_fn(n: Seq<char>) -> spec_fn(EntityView) -> EntityView {
    |e: EntityView|
        EntityView { properties: PropsView { name: Some(n), ..e.properties }, ..e }
}

/// The transformer that sets an entity's amount property.
pub open spec fn set_amount_fn(a: u32) -> spec_fn(EntityView) -> EntityView {
    |e: EntityView|
        EntityView { properties: PropsView { amount: Some(a), ..e.properties }, ..e }
}

/// The transformer that sets an entity's health property.
pub open spec fn set_health_fn(h: u32) -> spec_fn(EntityView) -> EntityView {
    |e: EntityView|
        EntityView { properties: PropsView { health: Some(h), ..e.properties }, ..e }
}

/// The transformer applied by a resource depletion: the amount becomes the
/// remainder, and a remainder of zero kills the entity.
pub open spec fn deplete_fn(remaining: u32) -> spec_fn(EntityView) -> EntityView {
    |e: EntityView|
        EntityView {
            properties: PropsView { amount: Some(remaining), ..e.properties },
            state: if remaining == 0 {
                EntityState::Dead
            } else {
                e.state
            },
            ..e
        }
}

/// The transformer applied by degradation: the health becomes the new
/// value, and a value of zero kills the entity.
pub open spec fn degrade_fn(new_health: u32) -> spec_fn(EntityView) -> EntityView {
    |e: EntityView|
        EntityView {
            properties: PropsView { health: Some(new_health), ..e.properties },
            state: if new_health == 0 {
                EntityState::Dead
            } else {
                e.state
            },
            ..e
        }
}

impl WorldView {
    /// The world with the entity of this id transformed in place; a missing
    /// id changes nothing.
    pub open spec fn with_entity(self, id: EntityId, f: spec_fn(EntityView) -> EntityView)
        -> WorldView {
        match find_entity(self.entities, id.0) {
            Some(e) => WorldView { entities: update_entity(self.entities, id.0, f(e)), ..self },
            None => self,
        }
    }

    /// The world with one zone's `loaded` flag set; a missing id changes
    /// nothing.
    pub open spec fn set_zone_loaded_model(self, id: ZoneId, loaded: bool) -> WorldView {
        match find_zone(self.zones, id.0) {
            Some(z) => WorldView {
                zones: update_zone(self.zones, id.0, ZoneView { loaded, ..z }),
                ..self
            },
            None => self,
        }
    }

    /// The world with an entity moved: if the zones differ, its id migrates
    /// between the member lists (where those zones exist), and its position
    /// is set to the target.
    pub open spec fn move_entity_model(self, id: EntityId, from: WorldPos, to: WorldPos)
        -> WorldView {
        match find_entity(self.entities, id.0) {
            Some(e) => {
                let w1 = if from.zone != to.zone {
                    let wa = match find_zone(self.zones, from.zone.0) {
                        Some(z) => WorldView {
                            zones: update_zone(self.zones, from.zone.0, z.remove_member(id)),
                            ..self
                        },
                        None => self,
                    };
                    match find_zone(wa.zones, to.zone.0) {
                        Some(z) => WorldView {
                            zones: update_zone(wa.zones, to.zone.0, z.add_member(id)),
                            ..wa
                        },
                        None => wa,
                    }
                } else {
                    self
                };
                WorldView {
                    entities: update_entity(w1.entities, id.0, set_position_fn(to)(e)),
                    ..w1
                }
            },
            None => self,
        }
    }
}

impl World {
    /// Set the lifecycle state of the entity with this id, if present.
    pub fn set_entity_state(&mut self, id: EntityId, st: EntityState)
        ensures
            final(self)@ == old(self)@.with_entity(id, set_state_fn(st)),
    {
        match self.entity_pos(id) {
            Some(i) => {
                proof {
                    let e = self@.entities[i as int];
                    lemma_update_entity_at(self@.entities, id.0, set_state_fn(st)(e), i as int);
                }
                let e = &mut self.entities[i];
                e.state = st;
            },
            None => {},
        }
    }

    /// Set the name property of the entity with this id, if present.
    pub fn set_entity_name(&mut self, id: EntityId, name: String)
        ensures
            final(self)@ == old(self)@.with_entity(id, set_name_fn(name@)),
    {
        match self.entity_pos(id) {
            Some(i) => {
                proof {
                    let e = self@.entities[i as int];
                    lemma_update_entity_at(self@.entities, id.0, set_name_fn(name@)(e), i as int);
                }
                let e = &mut self.entities[i];
                e.properties.name = Some(name);
            },
            None => {},
        }
    }

    /// Set the amount property of the entity with this id, if present.
    pub fn set_entity_amount(&mut self, id: EntityId, amount: u32)
        ensures
            final(self)@ == old(self)@.with_entity(id, set_amount_fn(amount)),
    {
        match self.entity_pos(id) {
            Some(i) => {
                proof {
                    let e = self@.entities[i as int];
                    lemma_update_entity_at(self@.entities, id.0, set_amount_fn(amount)(e), i as int);
                }
                let e = &mut self.entities[i];
                e.properties.amount = Some(amount);
            },
            None => {},
        }
    }

    /// Set the health property of the entity with this id, if present.
    pub fn set_entity_health(&mut self, id: EntityId, health: u32)
        ensures
            final(self)@ == old(self)@.with_entity(id, set_health_fn(health)),
    {
        match self.entity_pos(id) {
            Some(i) => {
                proof {
                    let e = self@.entities[i as int];
                    lemma_update_entity_at(self@.entities, id.0, set_health_fn(health)(e), i as int);
                }
                let e = &mut self.entities[i];
                e.properties.health = Some(health);
            },
            None => {},
        }
    }

    /// Record a depletion on the entity with this id, if present: the
    /// amount becomes the remainder, and a remainder of zero kills it.
    pub fn deplete_entity(&mut self, id: EntityId, remaining: u32)
        ensures
            final(self)@ == old(self)@.with_entity(id, deplete_fn(remaining)),
    {
        match self.entity_pos(id) {
            Some(i) => {
                proof {
                    let e = self@.entities[i as int];
                    lemma_update_entity_at(self@.entities, id.0, deplete_fn(remaining)(e), i as int);
                }
                let e = &mut self.entities[i];
                e.properties.amount = Some(remaining);
                if remaining == 0 {
                    e.state = EntityState::Dead;
                }
            },
            None => {},
        }
    }

    /// Record degradation on the entity with this id, if present: the
    /// health becomes the new value, and a value of zero kills it.
    pub fn degrade_entity(&mut self, id: EntityId, new_health: u32)
        ensures
            final(self)@ == old(self)@.with_entity(id, degrade_fn(new_health)),
    {
        match self.entity_pos(id) {
            Some(i) => {
                proof {
                    let e = self@.entities[i as int];
                    lemma_update_entity_at(self@.entities, id.0, degrade_fn(new_health)(e), i as int);
                }
                let e = &mut self.entities[i];
                e.properties.health = Some(new_health);
                if new_health == 0 {
                    e.state = EntityState::Dead;
                }
            },
            None => {},
        }
    }

    /// Set the `loaded` flag of the zone with this id, if present.
    pub fn set_zone_loaded(&mut self, id: ZoneId, loaded: bool)
        ensures
            final(self)@ == old(self)@.set_zone_loaded_model(id, loaded),
    {
        match self.zone_pos(id) {
            Some(i) => {
                proof {
                    let z = self@.zones[i as int];
                    lemma_update_zone_at(self@.zones, id.0, ZoneView { loaded, ..z }, i as int);
                }
                let z = &mut self.zones[i];
                z.loaded = loaded;
            },
            None => {},
        }
    }

    /// Move the entity with this id, if present: migrate its id between
    /// the member lists of the two zones where they differ, and set its
    /// position to the target.
    pub fn move_entity(&mut self, id: EntityId, from: WorldPos, to: WorldPos)
        ensures
            final(self)@ == old(self)@.move_entity_model(id, from, to),
    {
        match self.entity_pos(id) {
            Some(_) => {
                let ghost e0 = find_entity(self@.entities, id.0).unwrap();
                let ghost w0 = self@;
                if from.zone != to.zone {
                    match self.zone_pos(from.zone) {
                        Some(zi) => {
                            proof {
                                lemma_update_zone_at(
                                    self@.zones,
                                    from.zone.0,
                                    self@.zones[zi as int].remove_member(id),
                                    zi as int,
                                );
                            }
                            let z = &mut self.zones[zi];
                            z.remove_entity(id);
                        },
                        None => {},
                    }
                    proof {
                        let wa = match find_zone(w0.zones, from.zone.0) {
                            Some(z) => WorldView {
                                zones: update_zone(w0.zones, from.zone.0, z.remove_member(id)),
                                ..w0
                            },
                            None => w0,
                        };
                        assert(self@ =~= wa);
                    }
                    match self.zone_pos(to.zone) {
                        Some(zj) => {
                            proof {
                                lemma_update_zone_at(
                                    self@.zones,
                                    to.zone.0,
                                    self@.zones[zj as int].add_member(id),
                                    zj as int,
                                );
                            }
                            let z = &mut self.zones[zj];
                            z.add_entity(id);
                        },
                        None => {},
                    }
                }
                proof {
                    let w1 = if from.zone != to.zone {
                        let wa = match find_zone(w0.zones, from.zone.0) {
                            Some(z) => WorldView {
                                zones: update_zone(w0.zones, from.zone.0, z.remove_member(id)),
                                ..w0
                            },
                            None => w0,
                        };
                        match find_zone(wa.zones, to.zone.0) {
                            Some(z) => WorldView {
                                zones: update_zone(wa.zones, to.zone.0, z.add_member(id)),
                                ..wa
                            },
                            None => wa,
                        }
                    } else {
                        w0
                    };
                    assert(self@ =~= w1);
                }
                match self.entity_pos(id) {
                    Some(i) => {
                        proof {
                            lemma_update_entity_at(
                                self@.entities,
                                id.0,
                                set_position_fn(to)(self@.entities[i as int]),
                                i as int,
                            );
                        }
                        let e = &mut self.entities[i];
                        e.position = to;
                        proof {
                            assert(self@ =~= w0.move_entity_model(id, from, to));
                        }
                    },
                    None => {},
                }
            },
            None => {},
        }
    }
}

// ============================================================================
// Facts about lookups after updates, inserts and removals
// ============================================================================

/// Sorted order survives an insertion.
pub proof fn lemma_insert_entity_sorted(s: Seq<EntityView>, e: EntityView)
    requires
        entities_sorted(s),
    ensures
        entities_sorted(insert_entity(s, e)),
    decreases s.len(),
{
    if s.len() == 0 {
    } else if s[0].id.0 < e.id.0 {
        assert(entities_sorted(s.drop_first()));
        lemma_insert_entity_sorted(s.drop_first(), e);
        let r = seq![s[0]] + insert_entity(s.drop_first(), e);
        lemma_insert_entity_members(s.drop_first(), e);
        assert forall|i: int, j: int| 0 <= i < j < r.len() implies r[i].id.0 < r[j].id.0 by {
            if i == 0 {
                let t = insert_entity(s.drop_first(), e);
                assert(t[j - 1] == e || s.drop_first().contains(t[j - 1]));
            }
        }
    } else {
    }
}

/// Every member of an insertion result is the new element or an old one.
pub proof fn lemma_insert_entity_members(s: Seq<EntityView>, e: EntityView)
    ensures
        forall|k: int|
            0 <= k < insert_entity(s, e).len() ==> #[trigger] insert_entity(s, e)[k] == e
                || s.contains(insert_entity(s, e)[k]),
    decreases s.len(),
{
    if s.len() == 0 {
    } else {
        lemma_insert_entity_members(s.drop_first(), e);
        let r = insert_entity(s, e);
        if s[0].id.0 < e.id.0 {
            assert forall|k: int| 0 <= k < r.len() implies r[k] == e || s.contains(r[k]) by {
                if k > 0 {
                    let t = insert_entity(s.drop_first(), e);
                    assert(r[k] == t[k - 1]);
                    if t[k - 1] != e {
                        assert(s.drop_first().contains(t[k - 1]));
                        let m = choose|m: int|
                            0 <= m < s.drop_first().len() && s.drop_first()[m] == t[k - 1];
                        assert(s[m + 1] == t[k - 1]);
                    }
                } else {
                    assert(s.contains(s[0]));
                }
            }
        } else {
            assert forall|k: int| 0 <= k < r.len() implies r[k] == e || s.contains(r[k]) by {
                if s[0].id.0 == e.id.0 {
                    if k > 0 {
                        assert(r[k] == s[k]);
                        assert(s.contains(s[k]));
                    }
                } else {
                    if k > 0 {
                        assert(r[k] == s[k - 1]);
                        assert(s.contains(s[k - 1]));
                    }
                }
            }
        }
    }
}

/// After an insertion, looking up the inserted id finds the new element.
pub proof fn lemma_find_insert_entity(s: Seq<EntityView>, e: EntityView)
    ensures
        find_entity(insert_entity(s, e), e.id.0) == Some(e),
    decreases s.len(),
{
    if s.len() == 0 {
    } else if s[0].id.0 < e.id.0 {
        lemma_find_insert_entity(s.drop_first(), e);
        let r = seq![s[0]] + insert_entity(s.drop_first(), e);
        assert(r.drop_first() =~= insert_entity(s.drop_first(), e));
    } else {
    }
}

/// In a sorted sequence, removing an id removes it for good.
pub proof fn lemma_find_remove_entity(s: Seq<EntityView>, id: u64)
    requires
        entities_sorted(s),
    ensures
        find_entity(remove_entity_seq(s, id), id) is None,
    decreases s.len(),
{
    if s.len() == 0 {
    } else if s[0].id.0 == id {
        assert forall|j: int| 0 <= j < s.drop_first().len() implies s.drop_first()[j].id.0 != id
            by {
            assert(s[j + 1].id.0 > s[0].id.0);
        }
        lemma_find_entity_none(s.drop_first(), id);
    } else {
        assert(entities_sorted(s.drop_first()));
        lemma_find_remove_entity(s.drop_first(), id);
        let r = seq![s[0]] + remove_entity_seq(s.drop_first(), id);
        assert(r.drop_first() =~= remove_entity_seq(s.drop_first(), id));
    }
}

/// After a replacement, looking up the id finds the replacement exactly
/// where something was found before.
pub proof fn lemma_find_update_entity(s: Seq<EntityView>, id: u64, e2: EntityView)
    requires
        e2.id.0 == id,
    ensures
        find_entity(update_entity(s, id, e2), id) == match find_entity(s, id) {
            Some(_) => Some(e2),
            None => None::<EntityView>,
        },
    decreases s.len(),
{
    if s.len() == 0 {
    } else if s[0].id.0 == id {
        let r = seq![e2] + s.drop_first();
        assert(r[0] == e2);
    } else {
        lemma_find_update_entity(s.drop_first(), id, e2);
        let r = seq![s[0]] + update_entity(s.drop_first(), id, e2);
        assert(r.drop_first() =~= update_entity(s.drop_first(), id, e2));
    }
}

/// Replacing a found element with itself changes nothing.
pub proof fn lemma_update_entity_same(s: Seq<EntityView>, id: u64, z: EntityView)
    requires
        find_entity(s, id) == Some(z),
    ensures
        update_entity(s, id, z) =~= s,
    decreases s.len(),
{
    if s.len() == 0 {
    } else if s[0].id.0 == id {
        assert(seq![z] + s.drop_first() =~= s);
    } else {
        lemma_update_entity_same(s.drop_first(), id, z);
        assert(seq![s[0]] + update_entity(s.drop_first(), id, z) =~= s);
    }
}

/// After an insertion, looking up the inserted zone id finds the new zone.
pub proof fn lemma_find_insert_zone(s: Seq<ZoneView>, z: ZoneView)
    ensures
        find_zone(insert_zone(s, z), z.id.0) == Some(z),
    decreases s.len(),
{
    if s.len() == 0 {
    } else if s[0].id.0 < z.id.0 {
        lemma_find_insert_zone(s.drop_first(), z);
        let r = seq![s[0]] + insert_zone(s.drop_first(), z);
        assert(r.drop_first() =~= insert_zone(s.drop_first(), z));
    } else {
    }
}

/// After a replacement, looking up the id finds the replacement exactly
/// where something was found before.
pub proof fn lemma_find_update_zone(s: Seq<ZoneView>, id: u32, z2: ZoneView)
    requires
        z2.id.0 == id,
    ensures
        find_zone(update_zone(s, id, z2), id) == match find_zone(s, id) {
            Some(_) => Some(z2),
            None => None::<ZoneView>,
        },
    decreases s.len(),
{
    if s.len() == 0 {
    } else if s[0].id.0 == id {
        let r = seq![z2] + s.drop_first();
        assert(r[0] == z2);
    } else {
        lemma_find_update_zone(s.drop_first(), id, z2);
        let r = seq![s[0]] + update_zone(s.drop_first(), id, z2);
        assert(r.drop_first() =~= update_zone(s.drop_first(), id, z2));
    }
}

/// Replacing one zone leaves lookups of every other id unchanged.
pub proof fn lemma_find_update_zone_other(s: Seq<ZoneView>, id: u32, z2: ZoneView, other: u32)
    requires
        other != id,
        z2.id.0 == id,
    ensures
        find_zone(update_zone(s, id, z2), other) == find_zone(s, other),
    decreases s.len(),
{
    if s.len() == 0 {
    } else if s[0].id.0 == id {
        let r = seq![z2] + s.drop_first();
        assert(r.drop_first() =~= s.drop_first());
    } else {
        lemma_find_update_zone_other(s.drop_first(), id, z2, other);
        let r = seq![s[0]] + update_zone(s.drop_first(), id, z2);
        assert(r.drop_first() =~= update_zone(s.drop_first(), id, z2));
    }
}

/// Replacing a found zone with itself changes nothing.
pub proof fn lemma_update_zone_same(s: Seq<ZoneView>, id: u32, z: ZoneView)
    requires
        find_zone(s, id) == Some(z),
    ensures
        update_zone(s, id, z) =~= s,
    decreases s.len(),
{
    if s.len() == 0 {
    } else if s[0].id.0 == id {
        assert(seq![z] + s.drop_first() =~= s);
    } else {
        lemma_update_zone_same(s.drop_first(), id, z);
        assert(seq![s[0]] + update_zone(s.drop_first(), id, z) =~= s);
    }
}

/// What `find_entity` returns carries the id it was asked for.
pub proof fn lemma_find_entity_id(s: Seq<EntityView>, id: u64)
    ensures
        match find_entity(s, id) {
            Some(e) => e.id.0 == id,
            None => true,
        },
    decreases s.len(),
{
    if s.len() > 0 && s[0].id.0 != id {
        lemma_find_entity_id(s.drop_first(), id);
    }
}

/// What `find_zone` returns carries the id it was asked for.
pub proof fn lemma_find_zone_id(s: Seq<ZoneView>, id: u32)
    ensures
        match find_zone(s, id) {
            Some(z) => z.id.0 == id,
            None => true,
        },
    decreases s.len(),
{
    if s.len() > 0 && s[0].id.0 != id {
        lemma_find_zone_id(s.drop_first(), id);
    }
}

/// Looking up any other id is unaffected by an insertion.
pub proof fn lemma_find_insert_entity_other(s: Seq<EntityView>, e: EntityView, x: u64)
    requires
        x != e.id.0,
    ensures
        find_entity(insert_entity(s, e), x) == find_entity(s, x),
    decreases s.len(),
{
    reveal_with_fuel(find_entity, 3);
    if s.len() == 0 {
        assert(seq![e].drop_first() =~= Seq::<EntityView>::empty());
        assert(insert_entity(s, e).drop_first() =~= Seq::<EntityView>::empty());
    } else if s[0].id.0 < e.id.0 {
        lemma_find_insert_entity_other(s.drop_first(), e, x);
        let r = seq![s[0]] + insert_entity(s.drop_first(), e);
        assert(r.drop_first() =~= insert_entity(s.drop_first(), e));
    } else if s[0].id.0 == e.id.0 {
        let r = seq![e] + s.drop_first();
        assert(r.drop_first() =~= s.drop_first());
    } else {
        let r = seq![e] + s;
        assert(r.drop_first() =~= s);
    }
}

/// Looking up any other id is unaffected by a removal, in sorted order.
pub proof fn lemma_find_remove_entity_other(s: Seq<EntityView>, id: u64, x: u64)
    requires
        x != id,
    ensures
        find_entity(remove_entity_seq(s, id), x) == find_entity(s, x),
    decreases s.len(),
{
    if s.len() == 0 {
    } else if s[0].id.0 == id {
    } else {
        lemma_find_remove_entity_other(s.drop_first(), id, x);
        let r = seq![s[0]] + remove_entity_seq(s.drop_first(), id);
        assert(r.drop_first() =~= remove_entity_seq(s.drop_first(), id));
    }
}

/// Looking up any other id is unaffected by a replacement.
pub proof fn lemma_find_update_entity_other(s: Seq<EntityView>, id: u64, e2: EntityView, x: u64)
    requires
        x != id,
        e2.id.0 == id,
    ensures
        find_entity(update_entity(s, id, e2), x) == find_entity(s, x),
    decreases s.len(),
{
    if s.len() == 0 {
    } else if s[0].id.0 == id {
        let r = seq![e2] + s.drop_first();
        assert(r.drop_first() =~= s.drop_first());
    } else {
        lemma_find_update_entity_other(s.drop_first(), id, e2, x);
        let r = seq![s[0]] + update_entity(s.drop_first(), id, e2);
        assert(r.drop_first() =~= update_entity(s.drop_first(), id, e2));
    }
}

/// A removal keeps a subset of the members, none carrying the removed id
/// when the order is sorted.
pub proof fn lemma_remove_entity_members(s: Seq<EntityView>, id: u64)
    requires
        entities_sorted(s),
    ensures
        entities_sorted(remove_entity_seq(s, id)),
        forall|k: int|
            0 <= k < remove_entity_seq(s, id).len() ==> s.contains(
                #[trigger] remove_entity_seq(s, id)[k],
            ) && remove_entity_seq(s, id)[k].id.0 != id,
    decreases s.len(),
{
    if s.len() == 0 {
    } else if s[0].id.0 == id {
        assert(entities_sorted(s.drop_first()));
        assert forall|k: int| 0 <= k < s.drop_first().len() implies s.contains(
            #[trigger] s.drop_first()[k],
        ) && s.drop_first()[k].id.0 != id by {
            assert(s.drop_first()[k] == s[k + 1]);
            assert(s[k + 1].id.0 > s[0].id.0);
        }
    } else {
        assert(entities_sorted(s.drop_first()));
        lemma_remove_entity_members(s.drop_first(), id);
        let t = remove_entity_seq(s.drop_first(), id);
        let r = seq![s[0]] + t;
        assert forall|k: int| 0 <= k < r.len() implies s.contains(#[trigger] r[k]) && r[k].id.0
            != id by {
            if k == 0 {
                assert(s.contains(s[0]));
                if s[0].id.0 == id {
                    assert(false);
                }
            } else {
                assert(r[k] == t[k - 1]);
                assert(s.drop_first().contains(t[k - 1]));
                let m = choose|m: int|
                    0 <= m < s.drop_first().len() && s.drop_first()[m] == t[k - 1];
                assert(s[m + 1] == t[k - 1]);
                assert(s.contains(s[m + 1]));
            }
        }
        assert forall|i: int, j: int| 0 <= i < j < r.len() implies r[i].id.0 < r[j].id.0 by {
            if i == 0 {
                assert(r[j] == t[j - 1]);
                assert(s.drop_first().contains(t[j - 1]));
                let m = choose|m: int|
                    0 <= m < s.drop_first().len() && s.drop_first()[m] == t[j - 1];
                assert(s[m + 1] == t[j - 1]);
            }
        }
    }
}

/// A replacement that keeps the id keeps the order and replaces exactly
/// the first match.
pub proof fn lemma_update_entity_members(s: Seq<EntityView>, id: u64, e2: EntityView)
    requires
        e2.id.0 == id,
    ensures
        update_entity(s, id, e2).len() == s.len(),
        forall|k: int|
            0 <= k < s.len() ==> (#[trigger] update_entity(s, id, e2)[k]).id == s[k].id
                && (update_entity(s, id, e2)[k] == s[k] || update_entity(s, id, e2)[k] == e2),
    decreases s.len(),
{
    if s.len() == 0 {
    } else if s[0].id.0 == id {
        let r = seq![e2] + s.drop_first();
        assert forall|k: int| 0 <= k < s.len() implies (#[trigger] r[k]).id == s[k].id && (r[k]
            == s[k] || r[k] == e2) by {
            if k > 0 {
                assert(r[k] == s[k]);
            }
        }
    } else {
        lemma_update_entity_members(s.drop_first(), id, e2);
        let t = update_entity(s.drop_first(), id, e2);
        let r = seq![s[0]] + t;
        assert forall|k: int| 0 <= k < s.len() implies (#[trigger] r[k]).id == s[k].id && (r[k]
            == s[k] || r[k] == e2) by {
            if k > 0 {
                assert(r[k] == t[k - 1]);
                assert(t[k - 1].id == s.drop_first()[k - 1].id);
                assert(s.drop_first()[k - 1] == s[k]);
            }
        }
    }
}

/// A replacement that keeps the id keeps sorted order.
pub proof fn lemma_update_entity_sorted(s: Seq<EntityView>, id: u64, e2: EntityView)
    requires
        entities_sorted(s),
        e2.id.0 == id,
    ensures
        entities_sorted(update_entity(s, id, e2)),
{
    lemma_update_entity_members(s, id, e2);
    let r = update_entity(s, id, e2);
    assert forall|i: int, j: int| 0 <= i < j < r.len() implies r[i].id.0 < r[j].id.0 by {
        assert(r[i].id == s[i].id);
        assert(r[j].id == s[j].id);
    }
}

/// Sorted order survives a zone insertion.
pub proof fn lemma_insert_zone_sorted(s: Seq<ZoneView>, z: ZoneView)
    requires
        zones_sorted(s),
    ensures
        zones_sorted(insert_zone(s, z)),
    decreases s.len(),
{
    if s.len() == 0 {
    } else if s[0].id.0 < z.id.0 {
        assert(zones_sorted(s.drop_first()));
        lemma_insert_zone_sorted(s.drop_first(), z);
        let r = seq![s[0]] + insert_zone(s.drop_first(), z);
        lemma_insert_zone_members(s.drop_first(), z);
        assert forall|i: int, j: int| 0 <= i < j < r.len() implies r[i].id.0 < r[j].id.0 by {
            if i == 0 {
                let t = insert_zone(s.drop_first(), z);
                assert(t[j - 1] == z || s.drop_first().contains(t[j - 1]));
            }
        }
    } else {
    }
}

/// Every member of a zone insertion result is the new zone or an old one.
pub proof fn lemma_insert_zone_members(s: Seq<ZoneView>, z: ZoneView)
    ensures
        forall|k: int|
            0 <= k < insert_zone(s, z).len() ==> #[trigger] insert_zone(s, z)[k] == z
                || s.contains(insert_zone(s, z)[k]),
    decreases s.len(),
{
    if s.len() == 0 {
    } else {
        lemma_insert_zone_members(s.drop_first(), z);
        let r = insert_zone(s, z);
        if s[0].id.0 < z.id.0 {
            assert forall|k: int| 0 <= k < r.len() implies r[k] == z || s.contains(r[k]) by {
                if k > 0 {
                    let t = insert_zone(s.drop_first(), z);
                    assert(r[k] == t[k - 1]);
                    if t[k - 1] != z {
                        assert(s.drop_first().contains(t[k - 1]));
                        let m = choose|m: int|
                            0 <= m < s.drop_first().len() && s.drop_first()[m] == t[k - 1];
                        assert(s[m + 1] == t[k - 1]);
                    }
                } else {
                    assert(s.contains(s[0]));
                }
            }
        } else {
            assert forall|k: int| 0 <= k < r.len() implies r[k] == z || s.contains(r[k]) by {
                if s[0].id.0 == z.id.0 {
                    if k > 0 {
                        assert(r[k] == s[k]);
                        assert(s.contains(s[k]));
                    }
                } else {
                    if k > 0 {
                        assert(r[k] == s[k - 1]);
                        assert(s.contains(s[k - 1]));
                    }
                }
            }
        }
    }
}

/// Looking up any other zone id is unaffected by an insertion.
pub proof fn lemma_find_insert_zone_other(s: Seq<ZoneView>, z: ZoneView, x: u32)
    requires
        x != z.id.0,
    ensures
        find_zone(insert_zone(s, z), x) == find_zone(s, x),
    decreases s.len(),
{
    reveal_with_fuel(find_zone, 3);
    if s.len() == 0 {
        assert(seq![z].drop_first() =~= Seq::<ZoneView>::empty());
        assert(insert_zone(s, z).drop_first() =~= Seq::<ZoneView>::empty());
    } else if s[0].id.0 < z.id.0 {
        lemma_find_insert_zone_other(s.drop_first(), z, x);
        let r = seq![s[0]] + insert_zone(s.drop_first(), z);
        assert(r.drop_first() =~= insert_zone(s.drop_first(), z));
    } else if s[0].id.0 == z.id.0 {
        let r = seq![z] + s.drop_first();
        assert(r.drop_first() =~= s.drop_first());
    } else {
        let r = seq![z] + s;
        assert(r.drop_first() =~= s);
    }
}

/// A zone replacement that keeps the id keeps the order and replaces
/// exactly the first match.
pub proof fn lemma_update_zone_members(s: Seq<ZoneView>, id: u32, z2: ZoneView)
    requires
        z2.id.0 == id,
    ensures
        update_zone(s, id, z2).len() == s.len(),
        forall|k: int|
            0 <= k < s.len() ==> (#[trigger] update_zone(s, id, z2)[k]).id == s[k].id
                && (update_zone(s, id, z2)[k] == s[k] || update_zone(s, id, z2)[k] == z2),
    decreases s.len(),
{
    if s.len() == 0 {
    } else if s[0].id.0 == id {
        let r = seq![z2] + s.drop_first();
        assert forall|k: int| 0 <= k < s.len() implies (#[trigger] r[k]).id == s[k].id && (r[k]
            == s[k] || r[k] == z2) by {
            if k > 0 {
                assert(r[k] == s[k]);
            }
        }
    } else {
        lemma_update_zone_members(s.drop_first(), id, z2);
        let t = update_zone(s.drop_first(), id, z2);
        let r = seq![s[0]] + t;
        assert forall|k: int| 0 <= k < s.len() implies (#[trigger] r[k]).id == s[k].id && (r[k]
            == s[k] || r[k] == z2) by {
            if k > 0 {
                assert(r[k] == t[k - 1]);
                assert(t[k - 1].id == s.drop_first()[k - 1].id);
                assert(s.drop_first()[k - 1] == s[k]);
            }
        }
    }
}

/// A zone replacement that keeps the id keeps sorted order.
pub proof fn lemma_update_zone_sorted(s: Seq<ZoneView>, id: u32, z2: ZoneView)
    requires
        zones_sorted(s),
        z2.id.0 == id,
    ensures
        zones_sorted(update_zone(s, id, z2)),
{
    lemma_update_zone_members(s, id, z2);
    let r = update_zone(s, id, z2);
    assert forall|i: int, j: int| 0 <= i < j < r.len() implies r[i].id.0 < r[j].id.0 by {
        assert(r[i].id == s[i].id);
        assert(r[j].id == s[j].id);
    }
}

/// What `find_entity` finds stands in the sequence; under sorted order it
/// stands exactly at the index that carries the id.
pub proof fn lemma_find_entity_index(s: Seq<EntityView>, id: u64)
    requires
        entities_sorted(s),
    ensures
        match find_entity(s, id) {
            Some(e) => forall|i: int| 0 <= i < s.len() && s[i].id.0 == id ==> s[i] == e,
            None => forall|i: int| 0 <= i < s.len() ==> (#[trigger] s[i]).id.0 != id,
        },
    decreases s.len(),
{
    if s.len() > 0 {
        assert(entities_sorted(s.drop_first()));
        if s[0].id.0 == id {
            assert forall|i: int| 0 <= i < s.len() && s[i].id.0 == id implies s[i] == s[0] by {
                if i > 0 {
                    assert(s[0].id.0 < s[i].id.0);
                }
            }
        } else {
            lemma_find_entity_index(s.drop_first(), id);
            match find_entity(s, id) {
                Some(e) => {
                    assert forall|i: int| 0 <= i < s.len() && s[i].id.0 == id implies s[i]
                        == e by {
                        assert(i > 0);
                        assert(s.drop_first()[i - 1] == s[i]);
                    }
                },
                None => {
                    assert forall|i: int| 0 <= i < s.len() implies (#[trigger] s[i]).id.0
                        != id by {
                        if i > 0 {
                            assert(s.drop_first()[i - 1] == s[i]);
                        }
                    }
                },
            }
        }
    }
}

/// What `find_zone` finds stands in the sequence; under sorted order it
/// stands exactly at the index that carries the id.
pub proof fn lemma_find_zone_index(s: Seq<ZoneView>, id: u32)
    requires
        zones_sorted(s),
    ensures
        match find_zone(s, id) {
            Some(z) => forall|i: int| 0 <= i < s.len() && s[i].id.0 == id ==> s[i] == z,
            None => forall|i: int| 0 <= i < s.len() ==> (#[trigger] s[i]).id.0 != id,
        },
    decreases s.len(),
{
    if s.len() > 0 {
        assert(zones_sorted(s.drop_first()));
        if s[0].id.0 == id {
            assert forall|i: int| 0 <= i < s.len() && s[i].id.0 == id implies s[i] == s[0] by {
                if i > 0 {
                    assert(s[0].id.0 < s[i].id.0);
                }
            }
        } else {
            lemma_find_zone_index(s.drop_first(), id);
            match find_zone(s, id) {
                Some(z) => {
                    assert forall|i: int| 0 <= i < s.len() && s[i].id.0 == id implies s[i]
                        == z by {
                        assert(i > 0);
                        assert(s.drop_first()[i - 1] == s[i]);
                    }
                },
                None => {
                    assert forall|i: int| 0 <= i < s.len() implies (#[trigger] s[i]).id.0
                        != id by {
                        if i > 0 {
                            assert(s.drop_first()[i - 1] == s[i]);
                        }
                    }
                },
            }
        }
    }
}

/// What `find_zone` finds stands in the sequence.
pub proof fn lemma_find_zone_contains(s: Seq<ZoneView>, id: u32)
    ensures
        match find_zone(s, id) {
            Some(z) => s.contains(z),
            None => true,
        },
    decreases s.len(),
{
    if s.len() > 0 && s[0].id.0 != id {
        lemma_find_zone_contains(s.drop_first(), id);
        match find_zone(s.drop_first(), id) {
            Some(z) => {
                let m = choose|m: int|
                    0 <= m < s.drop_first().len() && s.drop_first()[m] == z;
                assert(s[m + 1] == z);
            },
            None => {},
        }
    } else if s.len() > 0 {
        assert(s.contains(s[0]));
    }
}

/// Adding a fresh, valid entity into an existing zone preserves the
/// world's invariants; in particular, the new id lands exactly once in
/// its declared zone's member list.
#[verifier::spinoff_prover]
#[verifier::rlimit(100)]
pub proof fn lemma_add_entity_wf(w: WorldView, e: EntityView)
    requires
        w.wf(),
        !has_entity(w.entities, e.id.0),
        1 <= e.id.0 < w.next_entity_id,
        has_zone(w.zones, e.position.zone.0),
    ensures
        w.add_entity_model(e).wf(),
{
    let zid = e.position.zone.0;
    let z = find_zone(w.zones, zid).unwrap();
    lemma_find_zone_id(w.zones, zid);
    lemma_find_zone_index(w.zones, zid);
    lemma_find_entity_index(w.entities, e.id.0);
    let z2 = z.add_member(e.id);
    let w2 = w.add_entity_model(e);
    lemma_insert_entity_sorted(w.entities, e);
    lemma_update_zone_sorted(w.zones, zid, z2);
    lemma_insert_entity_members(w.entities, e);
    lemma_update_zone_members(w.zones, zid, z2);
    lemma_find_insert_entity(w.entities, e);
    lemma_find_update_zone(w.zones, zid, z2);

    // The new id is in no member list yet: a listed id is a found id.
    assert forall|zi: int, k: int|
        0 <= zi < w.zones.len() && 0 <= k < w.zones[zi].entities.len() implies (
        #[trigger] w.zones[zi].entities[k]).0 != e.id.0 by {}
    lemma_find_zone_contains(w.zones, zid);
    assert(!z.entities.contains(e.id)) by {
        if z.entities.contains(e.id) {
            let zi = choose|zi: int| 0 <= zi < w.zones.len() && w.zones[zi] == z;
            let k = choose|k: int| 0 <= k < z.entities.len() && z.entities[k] == e.id;
            assert(w.zones[zi].entities[k] == e.id);
        }
    }
    assert(z2.entities =~= z.entities.push(e.id));

    // ids in range
    assert forall|i: int| 0 <= i < w2.entities.len() implies 1 <= (
    #[trigger] w2.entities[i]).id.0 < w2.next_entity_id by {
        if w2.entities[i] != e {
            assert(w.entities.contains(w2.entities[i]));
            let m = choose|m: int| 0 <= m < w.entities.len() && w.entities[m] == w2.entities[i];
        }
    }

    // the origin zone is still there
    if zid == 0 {
    } else {
        lemma_find_update_zone_other(w.zones, zid, z2, 0);
    }

    // every entity is listed in its declared zone
    assert forall|i: int| 0 <= i < w2.entities.len() implies {
        let eo = #[trigger] w2.entities[i];
        match find_zone(w2.zones, eo.position.zone.0) {
            Some(zz) => zz.entities.contains(eo.id),
            None => false,
        }
    } by {
        let eo = w2.entities[i];
        if eo == e {
            assert(z2.entities[z.entities.len() as int] == e.id);
            assert(z2.entities.contains(e.id));
        } else {
            assert(w.entities.contains(eo));
            let m = choose|m: int| 0 <= m < w.entities.len() && w.entities[m] == eo;
            if eo.position.zone.0 == zid {
                let zo = find_zone(w.zones, zid).unwrap();
                assert(zo.entities.contains(eo.id));
                let k = choose|k: int| 0 <= k < z.entities.len() && z.entities[k] == eo.id;
                assert(z2.entities[k] == eo.id);
                assert(z2.entities.contains(eo.id));
            } else {
                lemma_find_update_zone_other(w.zones, zid, z2, eo.position.zone.0);
            }
        }
    }

    // every listed id names an entity declared in that zone
    assert forall|zi: int, k: int|
        0 <= zi < w2.zones.len() && 0 <= k < w2.zones[zi].entities.len() implies {
        let m = #[trigger] w2.zones[zi].entities[k];
        match find_entity(w2.entities, m.0) {
            Some(em) => em.position.zone == w2.zones[zi].id,
            None => false,
        }
    } by {
        let m = w2.zones[zi].entities[k];
        if w2.zones[zi] == w.zones[zi] {
            assert(m == w.zones[zi].entities[k]);
            assert(m.0 != e.id.0);
            lemma_find_insert_entity_other(w.entities, e, m.0);
        } else {
            assert(w2.zones[zi] == z2);
            assert(w.zones[zi].id == z2.id);
            assert(w.zones[zi] == z);
            if k < z.entities.len() {
                assert(m == z.entities[k]);
                assert(m.0 != e.id.0);
                lemma_find_insert_entity_other(w.entities, e, m.0);
                assert(find_entity(w.entities, m.0) is Some);
            } else {
                assert(m == e.id);
            }
        }
    }

    // no member list repeats an id
    assert forall|zi: int, k1: int, k2: int|
        #![trigger w2.zones[zi].entities[k1], w2.zones[zi].entities[k2]]
        0 <= zi < w2.zones.len() && 0 <= k1 < k2 < w2.zones[zi].entities.len() implies
        w2.zones[zi].entities[k1] != w2.zones[zi].entities[k2] by {
        if w2.zones[zi] == z2 && w.zones[zi] != z2 {
            assert(w.zones[zi] == z);
            if k2 == z.entities.len() {
                assert(w2.zones[zi].entities[k1] == z.entities[k1]);
                assert(w2.zones[zi].entities[k2] == e.id);
                assert(z.entities[k1].0 != e.id.0);
            } else {
                assert(w2.zones[zi].entities[k1] == z.entities[k1]);
                assert(w2.zones[zi].entities[k2] == z.entities[k2]);
                assert(w.zones[zi].entities[k1] != w.zones[zi].entities[k2]);
            }
        }
    }
}

/// Filtering keeps a duplicate-free id list duplicate-free.
pub proof fn lemma_filter_no_dup(s: Seq<EntityId>, p: spec_fn(EntityId) -> bool)
    requires
        forall|i: int, j: int| 0 <= i < j < s.len() ==> s[i] != s[j],
    ensures
        forall|i: int, j: int|
            0 <= i < j < s.filter(p).len() ==> #[trigger] s.filter(p)[i] != #[trigger] s.filter(
                p,
            )[j],
    decreases s.len(),
{
    reveal(Seq::filter);
    if s.len() > 0 {
        assert forall|i: int, j: int| 0 <= i < j < s.drop_last().len() implies s.drop_last()[i]
            != s.drop_last()[j] by {
            assert(s.drop_last()[i] == s[i]);
            assert(s.drop_last()[j] == s[j]);
        }
        lemma_filter_no_dup(s.drop_last(), p);
        let t = s.drop_last().filter(p);
        if p(s.last()) {
            assert(!t.contains(s.last())) by {
                if t.contains(s.last()) {
                    let k = choose|k: int| 0 <= k < t.len() && t[k] == s.last();
                    s.drop_last().lemma_filter_contains_rev(p, s.last());
                    let m = choose|m: int|
                        0 <= m < s.drop_last().len() && s.drop_last()[m] == s.last();
                    assert(s[m] == s.last());
                    assert(s[m] != s[s.len() - 1]);
                }
            }
            assert forall|i: int, j: int| 0 <= i < j < s.filter(p).len() implies #[trigger] s.filter(
                p,
            )[i] != #[trigger] s.filter(p)[j] by {
                assert(s.filter(p) == t.push(s.last()));
                if j == s.filter(p).len() - 1 {
                    assert(s.filter(p)[i] == t[i]);
                    assert(t.contains(t[i]));
                }
            }
        }
    }
}

/// Removing an entity preserves the world's invariants: it leaves both
/// the entity sequence and its declared zone's member list.
#[verifier::spinoff_prover]
#[verifier::rlimit(100)]
pub proof fn lemma_remove_entity_wf(w: WorldView, id: EntityId)
    requires
        w.wf(),
    ensures
        w.remove_entity_model(id).wf(),
{
    match find_entity(w.entities, id.0) {
        None => {},
        Some(e) => {
            lemma_find_entity_id(w.entities, id.0);
            lemma_find_entity_index(w.entities, id.0);
            let zid = e.position.zone.0;
            lemma_find_entity_contains(w.entities, id.0);
            let ei = choose|ei: int| 0 <= ei < w.entities.len() && w.entities[ei] == e;
            let z = find_zone(w.zones, zid).unwrap();
            lemma_find_zone_id(w.zones, zid);
            lemma_find_zone_index(w.zones, zid);
            lemma_find_zone_contains(w.zones, zid);
            let z2 = z.remove_member(id);
            let w2 = w.remove_entity_model(id);
            lemma_remove_entity_members(w.entities, id.0);
            lemma_update_zone_sorted(w.zones, zid, z2);
            lemma_update_zone_members(w.zones, zid, z2);
            lemma_find_update_zone(w.zones, zid, z2);

            // entity ids stay in range
            assert forall|i: int| 0 <= i < w2.entities.len() implies 1 <= (
            #[trigger] w2.entities[i]).id.0 < w2.next_entity_id by {
                assert(w.entities.contains(w2.entities[i]));
                let m = choose|m: int|
                    0 <= m < w.entities.len() && w.entities[m] == w2.entities[i];
            }

            // the origin zone is still there
            if zid != 0 {
                lemma_find_update_zone_other(w.zones, zid, z2, 0);
            }

            // every remaining entity is listed in its declared zone
            assert forall|i: int| 0 <= i < w2.entities.len() implies {
                let eo = #[trigger] w2.entities[i];
                match find_zone(w2.zones, eo.position.zone.0) {
                    Some(zz) => zz.entities.contains(eo.id),
                    None => false,
                }
            } by {
                let eo = w2.entities[i];
                assert(w.entities.contains(eo));
                let m = choose|m: int| 0 <= m < w.entities.len() && w.entities[m] == eo;
                assert(eo.id.0 != id.0);
                if eo.position.zone.0 == zid {
                    assert(z.entities.contains(eo.id));
                    let k = choose|k: int| 0 <= k < z.entities.len() && z.entities[k] == eo.id;
                    assert(ne_entity(id)(z.entities[k]));
                    z.entities.lemma_filter_contains(ne_entity(id), k);
                } else {
                    lemma_find_update_zone_other(w.zones, zid, z2, eo.position.zone.0);
                }
            }

            // every listed id names an entity declared in that zone
            assert forall|zi: int, k: int|
                0 <= zi < w2.zones.len() && 0 <= k < w2.zones[zi].entities.len() implies {
                let m = #[trigger] w2.zones[zi].entities[k];
                match find_entity(w2.entities, m.0) {
                    Some(em) => em.position.zone == w2.zones[zi].id,
                    None => false,
                }
            } by {
                let m = w2.zones[zi].entities[k];
                if w2.zones[zi] == z2 && w.zones[zi] != z2 {
                    assert(w.zones[zi] == z);
                    z.entities.lemma_filter_pred(ne_entity(id), k);
                    assert(m != id);
                    z.entities.lemma_filter_contains_rev(ne_entity(id), m);
                    let ko = choose|ko: int|
                        0 <= ko < z.entities.len() && z.entities[ko] == m;
                    assert(w.zones[zi].entities[ko] == m);
                    assert(m.0 != id.0);
                    lemma_find_remove_entity_other(w.entities, id.0, m.0);
                } else {
                    assert(w2.zones[zi] == w.zones[zi]);
                    assert(m == w.zones[zi].entities[k]);
                    if m.0 == id.0 {
                        // the removed entity's id is listed only in its
                        // declared zone, which is the updated one
                        assert(find_entity(w.entities, m.0) == Some(e));
                        assert(e.position.zone == w.zones[zi].id);
                        assert(w.zones[zi].id.0 == zid);
                        assert(w.zones[zi] == z);
                        assert(z.entities.contains(e.id)) by {
                            assert(w.entities[ei] == e);
                        }
                        assert(!z2.entities.contains(id)) by {
                            if z2.entities.contains(id) {
                                z.entities.lemma_filter_contains_rev(ne_entity(id), id);
                                let kk = choose|kk: int|
                                    0 <= kk < z2.entities.len() && z2.entities[kk] == id;
                                z.entities.lemma_filter_pred(ne_entity(id), kk);
                            }
                        }
                        assert(z != z2);
                        assert forall|j: int| 0 <= j < zi implies w.zones[j].id.0 != zid by {
                            assert(w.zones[j].id.0 < w.zones[zi].id.0);
                        }
                        lemma_update_zone_at(w.zones, zid, z2, zi);
                        assert(w2.zones[zi] == z2);
                        assert(false);
                    }
                    lemma_find_remove_entity_other(w.entities, id.0, m.0);
                }
            }

            // no member list repeats an id
            assert forall|zi: int, k1: int, k2: int|
                #![trigger w2.zones[zi].entities[k1], w2.zones[zi].entities[k2]]
                0 <= zi < w2.zones.len() && 0 <= k1 < k2 < w2.zones[zi].entities.len() implies
                w2.zones[zi].entities[k1] != w2.zones[zi].entities[k2] by {
                if w2.zones[zi] == z2 && w.zones[zi] != z2 {
                    assert(w.zones[zi] == z);
                    assert forall|i: int, j: int|
                        0 <= i < j < z.entities.len() implies z.entities[i] != z.entities[j] by {
                        assert(w.zones[zi].entities[i] != w.zones[zi].entities[j]);
                    }
                    lemma_filter_no_dup(z.entities, ne_entity(id));
                }
            }
        },
    }
}

/// What `find_entity` finds stands in the sequence.
pub proof fn lemma_find_entity_contains(s: Seq<EntityView>, id: u64)
    ensures
        match find_entity(s, id) {
            Some(e) => s.contains(e),
            None => true,
        },
    decreases s.len(),
{
    if s.len() > 0 && s[0].id.0 != id {
        lemma_find_entity_contains(s.drop_first(), id);
        match find_entity(s.drop_first(), id) {
            Some(e) => {
                let m = choose|m: int|
                    0 <= m < s.drop_first().len() && s.drop_first()[m] == e;
                assert(s[m + 1] == e);
            },
            None => {},
        }
    } else if s.len() > 0 {
        assert(s.contains(s[0]));
    }
}

/// Transforming one entity in place, without touching its id or its
/// position, preserves the world's invariants.
#[verifier::spinoff_prover]
#[verifier::rlimit(100)]
pub proof fn lemma_with_entity_wf(w: WorldView, id: EntityId, f: spec_fn(EntityView) -> EntityView)
    requires
        w.wf(),
        forall|e: EntityView| (#[trigger] f(e)).id == e.id,
        forall|e: EntityView| (#[trigger] f(e)).position == e.position,
    ensures
        w.with_entity(id, f).wf(),
{
    match find_entity(w.entities, id.0) {
        None => {},
        Some(e) => {
            lemma_find_entity_id(w.entities, id.0);
            lemma_find_entity_index(w.entities, id.0);
            let e2 = f(e);
            let w2 = w.with_entity(id, f);
            lemma_update_entity_sorted(w.entities, id.0, e2);
            lemma_update_entity_members(w.entities, id.0, e2);
            lemma_find_update_entity(w.entities, id.0, e2);

            assert forall|i: int| 0 <= i < w2.entities.len() implies 1 <= (
            #[trigger] w2.entities[i]).id.0 < w2.next_entity_id by {
                assert(w2.entities[i].id == w.entities[i].id);
            }

            assert forall|i: int| 0 <= i < w2.entities.len() implies {
                let eo = #[trigger] w2.entities[i];
                match find_zone(w2.zones, eo.position.zone.0) {
                    Some(zz) => zz.entities.contains(eo.id),
                    None => false,
                }
            } by {
                let eo = w2.entities[i];
                assert(eo == w.entities[i] || eo == e2);
                if eo == e2 {
                    assert(w.entities[i].id == e2.id);
                    assert(w.entities[i].id.0 == id.0);
                    assert(w.entities[i] == e);
                    assert(eo.position == e.position);
                }
                assert(eo.position == w.entities[i].position);
                assert(eo.id == w.entities[i].id);
            }

            assert forall|zi: int, k: int|
                0 <= zi < w2.zones.len() && 0 <= k < w2.zones[zi].entities.len() implies {
                let m = #[trigger] w2.zones[zi].entities[k];
                match find_entity(w2.entities, m.0) {
                    Some(em) => em.position.zone == w2.zones[zi].id,
                    None => false,
                }
            } by {
                let m = w2.zones[zi].entities[k];
                if m.0 == id.0 {
                    assert(find_entity(w2.entities, m.0) == Some(e2));
                    assert(find_entity(w.entities, m.0) == Some(e));
                    assert(e2.position == e.position);
                } else {
                    lemma_find_update_entity_other(w.entities, id.0, e2, m.0);
                }
            }
        },
    }
}

/// Adding a fresh, empty zone preserves the world's invariants.
#[verifier::spinoff_prover]
#[verifier::rlimit(100)]
pub proof fn lemma_add_zone_wf(w: WorldView, z: ZoneView)
    requires
        w.wf(),
        !has_zone(w.zones, z.id.0),
        z.entities == Seq::<EntityId>::empty(),
    ensures
        w.add_zone_model(z).wf(),
{
    let w2 = w.add_zone_model(z);
    lemma_insert_zone_sorted(w.zones, z);
    lemma_insert_zone_members(w.zones, z);
    lemma_find_insert_zone(w.zones, z);
    lemma_find_zone_index(w.zones, 0);

    assert(z.id.0 != 0) by {
        if z.id.0 == 0 {
            assert(has_zone(w.zones, 0));
        }
    }
    lemma_find_insert_zone_other(w.zones, z, 0);

    assert forall|i: int| 0 <= i < w2.entities.len() implies {
        let eo = #[trigger] w2.entities[i];
        match find_zone(w2.zones, eo.position.zone.0) {
            Some(zz) => zz.entities.contains(eo.id),
            None => false,
        }
    } by {
        let eo = w2.entities[i];
        assert(eo == w.entities[i]);
        assert(find_zone(w.zones, eo.position.zone.0) is Some);
        assert(eo.position.zone.0 != z.id.0);
        lemma_find_insert_zone_other(w.zones, z, eo.position.zone.0);
    }

    assert forall|zi: int, k: int|
        0 <= zi < w2.zones.len() && 0 <= k < w2.zones[zi].entities.len() implies {
        let m = #[trigger] w2.zones[zi].entities[k];
        match find_entity(w2.entities, m.0) {
            Some(em) => em.position.zone == w2.zones[zi].id,
            None => false,
        }
    } by {
        assert(w2.zones[zi] == z || w.zones.contains(w2.zones[zi]));
        if w2.zones[zi] != z {
            let m = choose|m: int| 0 <= m < w.zones.len() && w.zones[m] == w2.zones[zi];
        }
    }

    assert forall|zi: int, k1: int, k2: int|
        #![trigger w2.zones[zi].entities[k1], w2.zones[zi].entities[k2]]
        0 <= zi < w2.zones.len() && 0 <= k1 < k2 < w2.zones[zi].entities.len() implies
        w2.zones[zi].entities[k1] != w2.zones[zi].entities[k2] by {
        assert(w2.zones[zi] == z || w.zones.contains(w2.zones[zi]));
        if w2.zones[zi] != z {
            let m = choose|m: int| 0 <= m < w.zones.len() && w.zones[m] == w2.zones[zi];
        }
    }
}

/// Two in-place replacements of the same id collapse into the second.
pub proof fn lemma_update_entity_collapse(s: Seq<EntityView>, id: u64, a: EntityView, b: EntityView)
    requires
        a.id.0 == id,
    ensures
        update_entity(update_entity(s, id, a), id, b) =~= update_entity(s, id, b),
    decreases s.len(),
{
    if s.len() == 0 {
    } else if s[0].id.0 == id {
        let r1 = seq![a] + s.drop_first();
        assert(r1[0] == a);
        assert(r1.drop_first() =~= s.drop_first());
        assert(update_entity(r1, id, b) =~= seq![b] + s.drop_first());
    } else {
        lemma_update_entity_collapse(s.drop_first(), id, a, b);
        let r1 = seq![s[0]] + update_entity(s.drop_first(), id, a);
        assert(r1[0] == s[0]);
        assert(r1.drop_first() =~= update_entity(s.drop_first(), id, a));
        assert(update_entity(r1, id, b) =~= seq![s[0]] + update_entity(
            update_entity(s.drop_first(), id, a),
            id,
            b,
        ));
        assert(update_entity(s, id, b) =~= seq![s[0]] + update_entity(s.drop_first(), id, b));
    }
}

} // verus!
