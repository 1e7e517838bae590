//! Commands: intentions/requests handed to the simulation engine.
//!
//! Commands represent what the caller wants the simulation to do.  They are
//! validated before any state changes, and every accepted command produces a
//! sequence of events that records what actually happened.

use vstd::prelude::*;

use crate::types::{EntityId, EntityKind, RngSeed, WorldPos, ZoneId};

verus! {

/// Commands that can be issued to the simulation.
#[derive(Debug)]
pub enum Command {
    /// Create a new world with the given seed.
    CreateWorld(CreateWorldCmd),
    /// Load an existing world from storage.
    LoadWorld(LoadWorldCmd),
    /// Save the current world state.
    SaveWorld,
    /// Advance the simulation by one tick.
    Tick,
    /// Advance the simulation by N ticks.
    TickN(u32),
    /// Spawn an entity in the world.
    SpawnEntity(SpawnEntityCmd),
    /// Remove an entity from the world.
    DespawnEntity(EntityId),
    /// Create a new zone.
    CreateZone(CreateZoneCmd),
    /// Shut the engine down gracefully, saving any loaded world.
    Shutdown,
}

/// Command to create a new world.
#[derive(Debug)]
pub struct CreateWorldCmd {
    /// Human-readable name.
    pub name: String,
    /// RNG seed for deterministic generation.
    pub seed: RngSeed,
}

/// Command to load an existing world.
#[derive(Debug)]
pub struct LoadWorldCmd {
    /// World identifier.
    pub world_id: String,
}

/// Command to spawn an entity.
#[derive(Debug)]
pub struct SpawnEntityCmd {
    /// Where to spawn.
    pub position: WorldPos,
    /// What kind of entity.
    pub kind: EntityKind,
    /// Initial properties.
    pub properties: EntityProperties,
}

/// Entity properties: a small fixed set of optional named values.
#[derive(Debug)]
pub struct EntityProperties {
    /// Display name (optional).
    pub name: Option<String>,
    /// Amount/quantity (for resources).
    pub amount: Option<u32>,
    /// Health/durability (for creatures and structures).
    pub health: Option<u32>,
}

/// Command to create a new zone.
#[derive(Debug)]
pub struct CreateZoneCmd {
    /// Zone identifier.
    pub zone_id: ZoneId,
    /// Optional name.
    pub name: Option<String>,
}

/// The mathematical value of [`EntityProperties`], with the optional name
/// abstracted to a character sequence.
#[verifier::ext_equal]
pub ghost struct PropsView {
    pub name: Option<Seq<char>>,
    pub amount: Option<u32>,
    pub health: Option<u32>,
}

impl View for EntityProperties {
    type V = PropsView;

    open spec fn view(&self) -> PropsView {
        PropsView {
            name: match self.name {
                Some(ref s) => Some(s@),
                None => None,
            },
            amount: self.amount,
            health: self.health,
        }
    }
}

impl EntityProperties {
    /// Properties with every slot empty.
    pub fn empty() -> (r: EntityProperties)
        ensures
            r@ == (PropsView { name: None, amount: None, health: None }),
    {
        EntityProperties { name: None, amount: None, health: None }
    }
}

impl Default for EntityProperties {
    fn default() -> (r: EntityProperties)
        ensures
            r@ == (PropsView { name: None, amount: None, health: None }),
    {
        EntityProperties { name: None, amount: None, health: None }
    }
}

impl Clone for EntityProperties {
    fn clone(&self) -> (r: EntityProperties)
        ensures
            r == *self,
    {
        EntityProperties {
            name: match self.name {
                Some(ref s) => Some(s.clone()),
                None => None,
            },
            amount: self.amount,
            health: self.health,
        }
    }
}

impl Clone for CreateWorldCmd {
    fn clone(&self) -> (r: CreateWorldCmd)
        ensures
            r == *self,
    {
        CreateWorldCmd { name: self.name.clone(), seed: self.seed }
    }
}

impl Clone for LoadWorldCmd {
    fn clone(&self) -> (r: LoadWorldCmd)
        ensures
            r == *self,
    {
        LoadWorldCmd { world_id: self.world_id.clone() }
    }
}

impl Clone for SpawnEntityCmd {
    fn clone(&self) -> (r: SpawnEntityCmd)
        ensures
            r == *self,
    {
        SpawnEntityCmd {
            position: self.position,
            kind: self.kind,
            properties: self.properties.clone(),
        }
    }
}

impl Clone for CreateZoneCmd {
    fn clone(&self) -> (r: CreateZoneCmd)
        ensures
            r == *self,
    {
        CreateZoneCmd {
            zone_id: self.zone_id,
            name: match self.name {
                Some(ref s) => Some(s.clone()),
                None => None,
            },
        }
    }
}

/// The mathematical value of a [`Command`].
#[verifier::ext_equal]
pub ghost enum CommandView {
    CreateWorld { name: Seq<char>, seed: RngSeed },
    LoadWorld { world_id: Seq<char> },
    SaveWorld,
    Tick,
    TickN(u32),
    SpawnEntity { position: WorldPos, kind: EntityKind, properties: PropsView },
    DespawnEntity(EntityId),
    CreateZone { zone_id: ZoneId, name: Option<Seq<char>> },
    Shutdown,
}

impl View for Command {
    type V = CommandView;

    open spec fn view(&self) -> CommandView {
        match self {
            Command::CreateWorld(c) => CommandView::CreateWorld { name: c.name@, seed: c.seed },
            Command::LoadWorld(c) => CommandView::LoadWorld { world_id: c.world_id@ },
            Command::SaveWorld => CommandView::SaveWorld,
            Command::Tick => CommandView::Tick,
            Command::TickN(n) => CommandView::TickN(*n),
            Command::SpawnEntity(c) => CommandView::SpawnEntity {
                position: c.position,
                kind: c.kind,
                properties: c.properties@,
            },
            Command::DespawnEntity(id) => CommandView::DespawnEntity(*id),
            Command::CreateZone(c) => CommandView::CreateZone {
                zone_id: c.zone_id,
                name: match c.name {
                    Some(ref s) => Some(s@),
                    None => None,
                },
            },
            Command::Shutdown => CommandView::Shutdown,
        }
    }
}

impl Clone for Command {
    fn clone(&self) -> (r: Command)
        ensures
            r == *self,
    {
        match self {
            Command::CreateWorld(c) => Command::CreateWorld(c.clone()),
            Command::LoadWorld(c) => Command::LoadWorld(c.clone()),
            Command::SaveWorld => Command::SaveWorld,
            Command::Tick => Command::Tick,
            Command::TickN(n) => Command::TickN(*n),
            Command::SpawnEntity(c) => Command::SpawnEntity(c.clone()),
            Command::DespawnEntity(id) => Command::DespawnEntity(*id),
            Command::CreateZone(c) => Command::CreateZone(c.clone()),
            Command::Shutdown => Command::Shutdown,
        }
    }
}

} // verus!
