use seeyuj::clock::UnlimitedClock;
use seeyuj::commands::{Command, CreateWorldCmd, CreateZoneCmd, EntityProperties, LoadWorldCmd, SpawnEntityCmd};
use seeyuj::determinism::compute_canonical_hash;
use seeyuj::errors::ApiError;
use seeyuj::events::EventData;
use seeyuj::hasher::XxHasher;
use seeyuj::mocks::{MockEventLog, MockWorldStore};
use seeyuj::rng::Pcg32Rng;
use seeyuj::sim::Simulation;
use seeyuj::types::{EntityId, EntityKind, RngSeed, Tick, WorldPos, ZoneId};

fn fresh_sim(seed: u64) -> Simulation {
    Simulation::new(
        Pcg32Rng::new(RngSeed::new(seed)),
        UnlimitedClock::new(),
        MockEventLog::new(),
        MockWorldStore::new(),
    )
}

#[test]
fn genesis_emits_creation_events() {
    let mut sim = fresh_sim(42);
    let events = sim
        .process_command(Command::CreateWorld(CreateWorldCmd {
            name: "T".to_string(),
            seed: RngSeed::new(42),
        }))
        .unwrap();

    assert_eq!(events.len(), 3);
    match &events[0].data {
        EventData::WorldCreated { world_id, name, seed } => {
            assert_eq!(world_id, "world_42");
            assert_eq!(name, "T");
            assert_eq!(seed.as_u64(), 42);
        }
        _ => panic!("first event must record the world creation"),
    }
    match &events[1].data {
        EventData::ZoneCreated { zone_id, name } => {
            assert_eq!(*zone_id, ZoneId::origin());
            assert_eq!(name.as_deref(), Some("Origin"));
        }
        _ => panic!("second event must record the origin zone"),
    }
    assert!(matches!(
        events[2].data,
        EventData::WorldSaved { tick: Tick(0) }
    ));
    assert_eq!(events[0].event_id.as_u64(), 1);
    assert_eq!(events[2].event_id.as_u64(), 3);

    let listed = sim.store.list_worlds().unwrap();
    assert_eq!(listed, vec!["world_42".to_string()]);
}

#[test]
fn validation_rejection_emits_nothing() {
    let mut sim = fresh_sim(1);
    sim.process_command(Command::CreateWorld(CreateWorldCmd {
        name: "V".to_string(),
        seed: RngSeed::new(1),
    }))
    .unwrap();
    let before = sim.event_log.last_event_id();

    let result = sim.process_command(Command::TickN(0));
    match result {
        Err(ApiError::ValidationFailed(errors)) => {
            assert_eq!(errors.len(), 1);
            assert_eq!(errors[0].field, "n");
            assert_eq!(errors[0].message, "Tick count must be > 0");
        }
        _ => panic!("TickN(0) must fail validation"),
    }
    assert_eq!(sim.event_log.last_event_id(), before);
}

#[test]
fn command_errors_are_reported() {
    let mut sim = fresh_sim(3);
    assert!(matches!(
        sim.process_command(Command::SaveWorld),
        Err(ApiError::NoWorldLoaded)
    ));
    assert!(matches!(
        sim.process_command(Command::Tick),
        Err(ApiError::NoWorldLoaded)
    ));
    assert!(matches!(
        sim.process_command(Command::LoadWorld(LoadWorldCmd {
            world_id: "world_404".to_string()
        })),
        Err(ApiError::WorldNotFound(_))
    ));

    sim.process_command(Command::CreateWorld(CreateWorldCmd {
        name: "E".to_string(),
        seed: RngSeed::new(3),
    }))
    .unwrap();

    assert!(matches!(
        sim.process_command(Command::CreateWorld(CreateWorldCmd {
            name: "E2".to_string(),
            seed: RngSeed::new(3),
        })),
        Err(ApiError::WorldAlreadyExists(_))
    ));
    assert!(matches!(
        sim.process_command(Command::SpawnEntity(SpawnEntityCmd {
            position: WorldPos::new(ZoneId::new(99), seeyuj::types::Position::new(0, 0, 0)),
            kind: EntityKind::Item,
            properties: EntityProperties::default(),
        })),
        Err(ApiError::ZoneNotFound(ZoneId(99)))
    ));
    assert!(matches!(
        sim.process_command(Command::DespawnEntity(EntityId::new(5))),
        Err(ApiError::EntityNotFound(EntityId(5)))
    ));
    sim.process_command(Command::CreateZone(CreateZoneCmd {
        zone_id: ZoneId::new(1),
        name: Some("East".to_string()),
    }))
    .unwrap();
    assert!(matches!(
        sim.process_command(Command::CreateZone(CreateZoneCmd {
            zone_id: ZoneId::new(1),
            name: None,
        })),
        Err(ApiError::ZoneAlreadyExists(ZoneId(1)))
    ));
}

#[test]
fn spawn_tick_despawn_flow() {
    let mut sim = fresh_sim(7);
    sim.process_command(Command::CreateWorld(CreateWorldCmd {
        name: "Flow".to_string(),
        seed: RngSeed::new(7),
    }))
    .unwrap();

    let events = sim
        .process_command(Command::SpawnEntity(SpawnEntityCmd {
            position: WorldPos::origin(),
            kind: EntityKind::Resource,
            properties: EntityProperties {
                name: Some("Ore".to_string()),
                amount: Some(5),
                health: None,
            },
        }))
        .unwrap();
    assert_eq!(events.len(), 1);
    let spawned_id = match &events[0].data {
        EventData::EntitySpawned { entity_id, .. } => *entity_id,
        _ => panic!("spawn must record an EntitySpawned event"),
    };
    assert_eq!(spawned_id, EntityId::new(1));

    let tick_events = sim.process_command(Command::TickN(3)).unwrap();
    assert_eq!(
        tick_events
            .iter()
            .filter(|e| matches!(e.data, EventData::TickProcessed { .. }))
            .count(),
        3
    );
    assert_eq!(sim.current_tick(), Tick(3));

    let despawn = sim
        .process_command(Command::DespawnEntity(spawned_id))
        .unwrap();
    assert!(matches!(
        despawn[0].data,
        EventData::EntityDespawned { .. }
    ));
    assert_eq!(sim.world().unwrap().entity_count(), 0);
}

#[test]
fn zone_membership_after_commands() {
    // After any command, each entity's id appears exactly once in the
    // member list of its declared zone.
    let mut sim = fresh_sim(11);
    sim.process_command(Command::CreateWorld(CreateWorldCmd {
        name: "Zones".to_string(),
        seed: RngSeed::new(11),
    }))
    .unwrap();
    for _ in 0..3 {
        sim.process_command(Command::SpawnEntity(SpawnEntityCmd {
            position: WorldPos::origin(),
            kind: EntityKind::Creature,
            properties: EntityProperties {
                name: None,
                amount: None,
                health: Some(2),
            },
        }))
        .unwrap();
    }
    sim.process_command(Command::TickN(10)).unwrap();

    let world = sim.world().unwrap();
    for e in &world.entities {
        let zone = world.get_zone(e.position.zone).unwrap();
        let occurrences = zone.entities.iter().filter(|m| **m == e.id).count();
        assert_eq!(occurrences, 1);
    }
    for z in &world.zones {
        for m in &z.entities {
            assert!(world.get_entity(*m).is_some());
        }
    }
}

#[test]
fn crash_recovery_restores_state() {
    // Create, run fifty ticks, save, run fifty more, "crash", reload:
    // the recovered world stands at tick 100 and hashes identically to a
    // never-crashed twin run.
    let run = |crash: bool| -> (Tick, u64) {
        let mut sim = fresh_sim(21);
        sim.process_command(Command::CreateWorld(CreateWorldCmd {
            name: "Crashy".to_string(),
            seed: RngSeed::new(21),
        }))
        .unwrap();
        sim.process_command(Command::TickN(50)).unwrap();
        sim.process_command(Command::SaveWorld).unwrap();
        sim.process_command(Command::TickN(50)).unwrap();

        if crash {
            // Simulated crash: only the durable store and log survive.
            let Simulation {
                event_log, store, ..
            } = sim;
            let mut revived = Simulation::new(
                Pcg32Rng::new(RngSeed::new(99)),
                UnlimitedClock::new(),
                event_log,
                store,
            );
            revived
                .process_command(Command::LoadWorld(LoadWorldCmd {
                    world_id: "world_21".to_string(),
                }))
                .unwrap();
            let world = revived.world().unwrap();
            let hash = compute_canonical_hash(world, &mut XxHasher::new());
            (world.current_tick, hash.as_u64())
        } else {
            let world = sim.world().unwrap();
            let hash = compute_canonical_hash(world, &mut XxHasher::new());
            (world.current_tick, hash.as_u64())
        }
    };

    let (crashed_tick, crashed_hash) = run(true);
    let (clean_tick, clean_hash) = run(false);
    assert_eq!(crashed_tick, Tick(100));
    assert_eq!(clean_tick, Tick(100));
    assert_eq!(crashed_hash, clean_hash);
}

#[test]
fn shutdown_saves_loaded_world() {
    let mut sim = fresh_sim(33);
    sim.process_command(Command::CreateWorld(CreateWorldCmd {
        name: "Bye".to_string(),
        seed: RngSeed::new(33),
    }))
    .unwrap();
    sim.process_command(Command::TickN(4)).unwrap();
    let events = sim.process_command(Command::Shutdown).unwrap();
    assert!(matches!(
        events[0].data,
        EventData::WorldSaved { tick: Tick(4) }
    ));

    // Without a world, shutdown is a quiet no-op.
    let mut empty = fresh_sim(34);
    let none = empty.process_command(Command::Shutdown).unwrap();
    assert!(none.is_empty());
}

#[test]
fn resource_depletes_deterministically() {
    // With one resource of amount 1 and a hundred ticks, both of two
    // identical runs see the same depletion outcome, byte for byte.
    let run = || -> Vec<u64> {
        let mut sim = fresh_sim(1);
        sim.process_command(Command::CreateWorld(CreateWorldCmd {
            name: "R".to_string(),
            seed: RngSeed::new(1),
        }))
        .unwrap();
        sim.process_command(Command::SpawnEntity(SpawnEntityCmd {
            position: WorldPos::origin(),
            kind: EntityKind::Resource,
            properties: EntityProperties {
                name: None,
                amount: Some(1),
                health: None,
            },
        }))
        .unwrap();
        let mut hashes = Vec::new();
        for t in 1..=100u64 {
            sim.process_command(Command::Tick).unwrap();
            if t == 10 || t == 50 || t == 100 {
                let world = sim.world().unwrap();
                hashes.push(compute_canonical_hash(world, &mut XxHasher::new()).as_u64());
            }
        }
        hashes
    };
    assert_eq!(run(), run());
}
