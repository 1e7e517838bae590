//! Events: immutable facts recording state changes.
//!
//! Events are the source of truth for every state change.  Each one is
//! timestamped with the tick at which it occurred and, once persisted, is
//! identified by a monotonic event id assigned by the write-ahead log.

use vstd::prelude::*;

use crate::commands::{EntityProperties, PropsView};
use crate::types::{EntityId, EntityKind, EntityState, EventId, RngSeed, SimTime, Tick, WorldPos,
    ZoneId};

verus! {

/// An event that occurred in the simulation.
///
/// `event_id` is assigned by the WAL when the event is persisted.  On
/// recovery, events with `event_id` greater than the snapshot cursor are
/// replayed.
#[derive(Debug)]
pub struct SimEvent {
    /// Unique monotonic id (assigned by the WAL on persist).
    pub event_id: EventId,
    /// Tick at which this event occurred.
    pub tick: Tick,
    /// The actual event data.
    pub data: EventData,
}

impl SimEvent {
    /// Create a new event; the WAL assigns the real id on persist.
    pub fn new(tick: Tick, data: EventData) -> (r: SimEvent)
        ensures
            r.event_id.0 == 0,
            r.tick == tick,
            r.data == data,
    {
        SimEvent { event_id: EventId(0), tick, data }
    }

    /// Create an event with a specific event id (for replay).
    pub fn with_id(event_id: EventId, tick: Tick, data: EventData) -> (r: SimEvent)
        ensures
            r.event_id == event_id,
            r.tick == tick,
            r.data == data,
    {
        SimEvent { event_id, tick, data }
    }
}

/// Event data variants.
#[derive(Debug)]
pub enum EventData {
    /// A world was created.
    WorldCreated { world_id: String, name: String, seed: RngSeed },
    /// A world was loaded from storage.
    WorldLoaded { world_id: String, tick: Tick },
    /// The world was saved.
    WorldSaved { tick: Tick },
    /// A tick was processed.
    TickProcessed { tick: Tick, sim_time: SimTime, entities_processed: u32 },
    /// A zone was created.
    ZoneCreated { zone_id: ZoneId, name: Option<String> },
    /// A zone was loaded into the active simulation.
    ZoneLoaded { zone_id: ZoneId },
    /// A zone was unloaded from the active simulation.
    ZoneUnloaded { zone_id: ZoneId },
    /// An entity was spawned.
    EntitySpawned {
        entity_id: EntityId,
        kind: EntityKind,
        position: WorldPos,
        properties: EntityProperties,
    },
    /// An entity was despawned (removed).
    EntityDespawned { entity_id: EntityId, reason: DespawnReason },
    /// An entity moved.
    EntityMoved { entity_id: EntityId, from: WorldPos, to: WorldPos },
    /// An entity's lifecycle state changed.
    EntityStateChanged { entity_id: EntityId, old_state: EntityState, new_state: EntityState },
    /// An entity property changed.
    EntityPropertyChanged {
        entity_id: EntityId,
        property: String,
        old_value: PropertyValue,
        new_value: PropertyValue,
    },
    /// A resource was consumed/depleted.
    ResourceDepleted { entity_id: EntityId, amount: u32, remaining: u32 },
    /// An entity degraded over time.
    EntityDegraded { entity_id: EntityId, old_health: u32, new_health: u32 },
}

/// Reason for an entity despawn.
#[derive(Debug, Clone, Copy, PartialEq, Eq, Structural)]
pub enum DespawnReason {
    /// Removed by a command.
    Command,
    /// Died or was destroyed.
    Death,
    /// Resource fully depleted.
    Depleted,
    /// Expired (time-based).
    Expired,
}

/// A property value carried by a property-change event.
#[derive(Debug)]
pub enum PropertyValue {
    Null,
    Int(i64),
    UInt(u64),
    Bool(bool),
    String(String),
}

impl Default for PropertyValue {
    fn default() -> (r: PropertyValue)
        ensures
            r is Null,
    {
        PropertyValue::Null
    }
}

impl Clone for PropertyValue {
    fn clone(&self) -> (r: PropertyValue)
        ensures
            r == *self,
    {
        match self {
            PropertyValue::Null => PropertyValue::Null,
            PropertyValue::Int(v) => PropertyValue::Int(*v),
            PropertyValue::UInt(v) => PropertyValue::UInt(*v),
            PropertyValue::Bool(v) => PropertyValue::Bool(*v),
            PropertyValue::String(s) => PropertyValue::String(s.clone()),
        }
    }
}

impl Clone for EventData {
    fn clone(&self) -> (r: EventData)
        ensures
            r == *self,
    {
        match self {
            EventData::WorldCreated { world_id, name, seed } => EventData::WorldCreated {
                world_id: world_id.clone(),
                name: name.clone(),
                seed: *seed,
            },
            EventData::WorldLoaded { world_id, tick } => EventData::WorldLoaded {
                world_id: world_id.clone(),
                tick: *tick,
            },
            EventData::WorldSaved { tick } => EventData::WorldSaved { tick: *tick },
            EventData::TickProcessed { tick, sim_time, entities_processed } =>
                EventData::TickProcessed {
                    tick: *tick,
                    sim_time: *sim_time,
                    entities_processed: *entities_processed,
                },
            EventData::ZoneCreated { zone_id, name } => EventData::ZoneCreated {
                zone_id: *zone_id,
                name: match name {
                    Some(s) => Some(s.clone()),
                    None => None,
                },
            },
            EventData::ZoneLoaded { zone_id } => EventData::ZoneLoaded { zone_id: *zone_id },
            EventData::ZoneUnloaded { zone_id } => EventData::ZoneUnloaded { zone_id: *zone_id },
            EventData::EntitySpawned { entity_id, kind, position, properties } =>
                EventData::EntitySpawned {
                    entity_id: *entity_id,
                    kind: *kind,
                    position: *position,
                    properties: properties.clone(),
                },
            EventData::EntityDespawned { entity_id, reason } => EventData::EntityDespawned {
                entity_id: *entity_id,
                reason: *reason,
            },
            EventData::EntityMoved { entity_id, from, to } => EventData::EntityMoved {
                entity_id: *entity_id,
                from: *from,
                to: *to,
            },
            EventData::EntityStateChanged { entity_id, old_state, new_state } =>
                EventData::EntityStateChanged {
                    entity_id: *entity_id,
                    old_state: *old_state,
                    new_state: *new_state,
                },
            EventData::EntityPropertyChanged { entity_id, property, old_value, new_value } =>
                EventData::EntityPropertyChanged {
                    entity_id: *entity_id,
                    property: property.clone(),
                    old_value: old_value.clone(),
                    new_value: new_value.clone(),
                },
            EventData::ResourceDepleted { entity_id, amount, remaining } =>
                EventData::ResourceDepleted {
                    entity_id: *entity_id,
                    amount: *amount,
                    remaining: *remaining,
                },
            EventData::EntityDegraded { entity_id, old_health, new_health } =>
                EventData::EntityDegraded {
                    entity_id: *entity_id,
                    old_health: *old_health,
                    new_health: *new_health,
                },
        }
    }
}

impl Clone for SimEvent {
    fn clone(&self) -> (r: SimEvent)
        ensures
            r == *self,
    {
        SimEvent { event_id: self.event_id, tick: self.tick, data: self.data.clone() }
    }
}

/// The mathematical value of a [`PropertyValue`].
#[verifier::ext_equal]
pub ghost enum PropertyValueView {
    Null,
    Int(i64),
    UInt(u64),
    Bool(bool),
    String(Seq<char>),
}

impl View for PropertyValue {
    type V = PropertyValueView;

    open spec fn view(&self) -> PropertyValueView {
        match self {
            PropertyValue::Null => PropertyValueView::Null,
            PropertyValue::Int(v) => PropertyValueView::Int(*v),
            PropertyValue::UInt(v) => PropertyValueView::UInt(*v),
            PropertyValue::Bool(v) => PropertyValueView::Bool(*v),
            PropertyValue::String(s) => PropertyValueView::String(s@),
        }
    }
}

/// The mathematical value of an [`EventData`].
#[verifier::ext_equal]
pub ghost enum EventDataView {
    WorldCreated { world_id: Seq<char>, name: Seq<char>, seed: RngSeed },
    WorldLoaded { world_id: Seq<char>, tick: Tick },
    WorldSaved { tick: Tick },
    TickProcessed { tick: Tick, sim_time: SimTime, entities_processed: u32 },
    ZoneCreated { zone_id: ZoneId, name: Option<Seq<char>> },
    ZoneLoaded { zone_id: ZoneId },
    ZoneUnloaded { zone_id: ZoneId },
    EntitySpawned { entity_id: EntityId, kind: EntityKind, position: WorldPos, properties: PropsView },
    EntityDespawned { entity_id: EntityId, reason: DespawnReason },
    EntityMoved { entity_id: EntityId, from: WorldPos, to: WorldPos },
    EntityStateChanged { entity_id: EntityId, old_state: EntityState, new_state: EntityState },
    EntityPropertyChanged {
        entity_id: EntityId,
        property: Seq<char>,
        old_value: PropertyValueView,
        new_value: PropertyValueView,
    },
    ResourceDepleted { entity_id: EntityId, amount: u32, remaining: u32 },
    EntityDegraded { entity_id: EntityId, old_health: u32, new_health: u32 },
}

impl View for EventData {
    type V = EventDataView;

    open spec fn view(&self) -> EventDataView {
        match self {
            EventData::WorldCreated { world_id, name, seed } => EventDataView::WorldCreated {
                world_id: world_id@,
                name: name@,
                seed: *seed,
            },
            EventData::WorldLoaded { world_id, tick } => EventDataView::WorldLoaded {
                world_id: world_id@,
                tick: *tick,
            },
            EventData::WorldSaved { tick } => EventDataView::WorldSaved { tick: *tick },
            EventData::TickProcessed { tick, sim_time, entities_processed } =>
                EventDataView::TickProcessed {
                    tick: *tick,
                    sim_time: *sim_time,
                    entities_processed: *entities_processed,
                },
            EventData::ZoneCreated { zone_id, name } => EventDataView::ZoneCreated {
                zone_id: *zone_id,
                name: match name {
                    Some(s) => Some(s@),
                    None => None,
                },
            },
            EventData::ZoneLoaded { zone_id } => EventDataView::ZoneLoaded { zone_id: *zone_id },
            EventData::ZoneUnloaded { zone_id } => EventDataView::ZoneUnloaded {
                zone_id: *zone_id,
            },
            EventData::EntitySpawned { entity_id, kind, position, properties } =>
                EventDataView::EntitySpawned {
                    entity_id: *entity_id,
                    kind: *kind,
                    position: *position,
                    properties: properties@,
                },
            EventData::EntityDespawned { entity_id, reason } => EventDataView::EntityDespawned {
                entity_id: *entity_id,
                reason: *reason,
            },
            EventData::EntityMoved { entity_id, from, to } => EventDataView::EntityMoved {
                entity_id: *entity_id,
                from: *from,
                to: *to,
            },
            EventData::EntityStateChanged { entity_id, old_state, new_state } =>
                EventDataView::EntityStateChanged {
                    entity_id: *entity_id,
                    old_state: *old_state,
                    new_state: *new_state,
                },
            EventData::EntityPropertyChanged { entity_id, property, old_value, new_value } =>
                EventDataView::EntityPropertyChanged {
                    entity_id: *entity_id,
                    property: property@,
                    old_value: old_value@,
                    new_value: new_value@,
                },
            EventData::ResourceDepleted { entity_id, amount, remaining } =>
                EventDataView::ResourceDepleted {
                    entity_id: *entity_id,
                    amount: *amount,
                    remaining: *remaining,
                },
            EventData::EntityDegraded { entity_id, old_health, new_health } =>
                EventDataView::EntityDegraded {
                    entity_id: *entity_id,
                    old_health: *old_health,
                    new_health: *new_health,
                },
        }
    }
}

/// The mathematical value of a [`SimEvent`].
#[verifier::ext_equal]
pub ghost struct SimEventView {
    pub event_id: EventId,
    pub tick: Tick,
    pub data: EventDataView,
}

impl View for SimEvent {
    type V = SimEventView;

    open spec fn view(&self) -> SimEventView {
        SimEventView { event_id: self.event_id, tick: self.tick, data: self.data@ }
    }
}

} // verus!
