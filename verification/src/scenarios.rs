//! World builders for test cases: scripted scenarios around the engine.

use vstd::prelude::*;
use vstd::string::StringExecFns;

use crate::clock::UnlimitedClock;
use crate::commands::{Command, CreateWorldCmd, EntityProperties, SpawnEntityCmd};
use crate::mocks::{MockEventLog, MockWorldStore};
use crate::rng::Pcg32Rng;
use crate::sim::Simulation;
use crate::types::{EntityKind, Position, RngSeed, WorldPos, ZoneId};

verus! {

/// Builder for test scenarios: a seed, a world name, and entities to
/// spawn into the fresh world.
#[derive(Debug)]
pub struct TestScenario {
    pub seed: RngSeed,
    pub world_name: String,
    pub entities_to_spawn: Vec<SpawnEntityCmd>,
}

impl TestScenario {
    /// A scenario with an empty world under this seed.
    pub fn empty_world(seed: u64) -> (r: TestScenario)
        ensures
            r.seed.0 == seed,
            r.world_name@ == "Test World"@,
            r.entities_to_spawn@.len() == 0,
    {
        TestScenario {
            seed: RngSeed(seed),
            world_name: String::from_str("Test World"),
            entities_to_spawn: Vec::new(),
        }
    }

    /// Set the world name.
    pub fn with_name(self, name: &str) -> (r: TestScenario)
        ensures
            r.seed == self.seed,
            r.world_name@ == name@,
            r.entities_to_spawn@ == self.entities_to_spawn@,
    {
        TestScenario { world_name: name.to_owned(), ..self }
    }

    /// Add a resource entity at a position with an amount.
    pub fn with_resource(self, x: i32, y: i32, amount: u32) -> (r: TestScenario)
        ensures
            r.seed == self.seed,
            r.world_name@ == self.world_name@,
            r.entities_to_spawn@.len() == self.entities_to_spawn@.len() + 1,
            ({
                let c = r.entities_to_spawn@.last();
                &&& c.position == (WorldPos { zone: ZoneId(0), pos: Position { x, y, z: 0 } })
                &&& c.kind == EntityKind::Resource
                &&& c.properties@.name == Some("Resource"@)
                &&& c.properties@.amount == Some(amount)
                &&& c.properties@.health is None
            }),
    {
        let mut s = self;
        s.entities_to_spawn.push(
            SpawnEntityCmd {
                position: WorldPos { zone: ZoneId(0), pos: Position { x, y, z: 0 } },
                kind: EntityKind::Resource,
                properties: EntityProperties {
                    name: Some(String::from_str("Resource")),
                    amount: Some(amount),
                    health: None,
                },
            },
        );
        s
    }

    /// Add a creature entity at a position with a health value.
    pub fn with_creature(self, x: i32, y: i32, health: u32) -> (r: TestScenario)
        ensures
            r.seed == self.seed,
            r.world_name@ == self.world_name@,
            r.entities_to_spawn@.len() == self.entities_to_spawn@.len() + 1,
            ({
                let c = r.entities_to_spawn@.last();
                &&& c.position == (WorldPos { zone: ZoneId(0), pos: Position { x, y, z: 0 } })
                &&& c.kind == EntityKind::Creature
                &&& c.properties@.name == Some("Creature"@)
                &&& c.properties@.amount is None
                &&& c.properties@.health == Some(health)
            }),
    {
        let mut s = self;
        s.entities_to_spawn.push(
            SpawnEntityCmd {
                position: WorldPos { zone: ZoneId(0), pos: Position { x, y, z: 0 } },
                kind: EntityKind::Creature,
                properties: EntityProperties {
                    name: Some(String::from_str("Creature")),
                    amount: None,
                    health: Some(health),
                },
            },
        );
        s
    }

    /// Build the simulation: create the world under the scenario's seed
    /// and spawn the scripted entities.
    pub fn build(self) -> (r: Simulation)
        ensures
            r.event_log.wf(),
    {
        let rng = Pcg32Rng::new(self.seed);
        let clock = UnlimitedClock::new();
        let event_log = MockEventLog::new();
        let store = MockWorldStore::new();

        let mut sim = Simulation::new(rng, clock, event_log, store);

        let _created = sim.process_command(
            Command::CreateWorld(CreateWorldCmd { name: self.world_name, seed: self.seed }),
        );

        let mut i: usize = 0;
        while i < self.entities_to_spawn.len()
            invariant
                0 <= i <= self.entities_to_spawn@.len(),
                sim.event_log.wf(),
            decreases self.entities_to_spawn@.len() - i,
        {
            let _spawned = sim.process_command(
                Command::SpawnEntity(self.entities_to_spawn[i].clone()),
            );
            i = i + 1;
        }

        sim
    }
}

} // verus!
