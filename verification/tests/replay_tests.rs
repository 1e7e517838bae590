use seeyuj::commands::EntityProperties;
use seeyuj::events::{EventData, SimEvent};
use seeyuj::replay::{apply_event, replay_events};
use seeyuj::types::{EntityId, EntityKind, EventId, RngSeed, SimTime, Tick, WorldPos};
use seeyuj::world::World;

#[test]
fn replay_entity_spawn() {
    let mut world = World::new("Test".to_string(), RngSeed::new(1));

    let event = SimEvent::with_id(
        EventId::new(1),
        Tick(1),
        EventData::EntitySpawned {
            entity_id: EntityId::new(1),
            kind: EntityKind::Resource,
            position: WorldPos::origin(),
            properties: EntityProperties::default(),
        },
    );

    apply_event(&mut world, &event).unwrap();
    assert_eq!(world.entity_count(), 1);
    assert!(world.get_entity(EntityId::new(1)).is_some());
}

#[test]
fn replay_is_idempotent() {
    let mut world = World::new("Test".to_string(), RngSeed::new(1));

    let event = SimEvent::with_id(
        EventId::new(1),
        Tick(1),
        EventData::EntitySpawned {
            entity_id: EntityId::new(1),
            kind: EntityKind::Resource,
            position: WorldPos::origin(),
            properties: EntityProperties::default(),
        },
    );

    apply_event(&mut world, &event).unwrap();
    apply_event(&mut world, &event).unwrap();

    assert_eq!(world.entity_count(), 1);
}

#[test]
fn replay_updates_tick() {
    let mut world = World::new("Test".to_string(), RngSeed::new(1));
    assert_eq!(world.current_tick, Tick(0));

    let event = SimEvent::with_id(
        EventId::new(1),
        Tick(100),
        EventData::TickProcessed {
            tick: Tick(100),
            sim_time: SimTime { units: 100 },
            entities_processed: 0,
        },
    );

    apply_event(&mut world, &event).unwrap();
    assert_eq!(world.current_tick, Tick(100));
}

#[test]
fn replay_counts_all_events() {
    let mut world = World::new("Test".to_string(), RngSeed::new(1));
    let events = vec![
        SimEvent::with_id(
            EventId::new(1),
            Tick(1),
            EventData::EntitySpawned {
                entity_id: EntityId::new(1),
                kind: EntityKind::Creature,
                position: WorldPos::origin(),
                properties: EntityProperties {
                    name: None,
                    amount: None,
                    health: Some(5),
                },
            },
        ),
        SimEvent::with_id(
            EventId::new(2),
            Tick(2),
            EventData::EntityDegraded {
                entity_id: EntityId::new(1),
                old_health: 5,
                new_health: 4,
            },
        ),
    ];
    let applied = replay_events(&mut world, &events);
    assert_eq!(applied, 2);
    let e = world.get_entity(EntityId::new(1)).unwrap();
    assert_eq!(e.properties.health, Some(4));
    assert_eq!(world.current_tick, Tick(2));
}

#[test]
fn replay_degrade_to_zero_kills() {
    let mut world = World::new("Test".to_string(), RngSeed::new(1));
    let spawn = SimEvent::with_id(
        EventId::new(1),
        Tick(1),
        EventData::EntitySpawned {
            entity_id: EntityId::new(1),
            kind: EntityKind::Resource,
            position: WorldPos::origin(),
            properties: EntityProperties {
                name: None,
                amount: Some(1),
                health: None,
            },
        },
    );
    apply_event(&mut world, &spawn).unwrap();
    let deplete = SimEvent::with_id(
        EventId::new(2),
        Tick(2),
        EventData::ResourceDepleted {
            entity_id: EntityId::new(1),
            amount: 1,
            remaining: 0,
        },
    );
    apply_event(&mut world, &deplete).unwrap();
    let e = world.get_entity(EntityId::new(1)).unwrap();
    assert_eq!(e.properties.amount, Some(0));
    assert!(e.is_dead());
}
