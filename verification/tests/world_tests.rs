use seeyuj::commands::EntityProperties;
use seeyuj::types::{EntityKind, RngSeed, Tick, WorldPos, ZoneId};
use seeyuj::world::{Entity, World};

#[test]
fn create_world() {
    let world = World::new("Test World".to_string(), RngSeed::new(42));
    assert_eq!(world.name(), "Test World");
    assert_eq!(world.current_tick, Tick(0));
    assert!(world.has_zone(ZoneId::origin()));
}

#[test]
fn add_remove_entity() {
    let mut world = World::new("Test".to_string(), RngSeed::new(1));
    let id = world.allocate_entity_id();
    let entity = Entity::new(
        id,
        EntityKind::Resource,
        WorldPos::origin(),
        Tick(0),
        EntityProperties::default(),
    );

    world.add_entity(entity);
    assert_eq!(world.entity_count(), 1);
    assert!(world.get_entity(id).is_some());

    world.remove_entity(id);
    assert_eq!(world.entity_count(), 0);
}

#[test]
fn world_serialization() {
    let world = World::new("Serialize Test".to_string(), RngSeed::new(123));
    let bytes = world.to_bytes().unwrap();
    let restored = World::from_bytes(&bytes).unwrap();
    assert_eq!(restored.name(), world.name());
    assert_eq!(restored.seed().as_u64(), world.seed().as_u64());
}

#[test]
fn world_serialization_with_entities() {
    let mut world = World::new("Round Trip".to_string(), RngSeed::new(9));
    let id = world.allocate_entity_id();
    world.add_entity(Entity::new(
        id,
        EntityKind::Creature,
        WorldPos::origin(),
        Tick(0),
        EntityProperties {
            name: Some("Wolf".to_string()),
            amount: None,
            health: Some(30),
        },
    ));
    world.advance_tick();

    let bytes = world.to_bytes().unwrap();
    let restored = World::from_bytes(&bytes).unwrap();
    assert_eq!(restored.entity_count(), 1);
    assert_eq!(restored.current_tick, Tick(1));
    let e = restored.get_entity(id).unwrap();
    assert_eq!(e.properties.name.as_deref(), Some("Wolf"));
    assert_eq!(e.properties.health, Some(30));
    assert_eq!(e.kind, EntityKind::Creature);
}

#[test]
fn world_from_bytes_rejects_garbage() {
    assert!(World::from_bytes(&[1, 2, 3]).is_err());
    let world = World::new("T".to_string(), RngSeed::new(5));
    let mut bytes = world.to_bytes().unwrap();
    bytes.push(0);
    assert!(World::from_bytes(&bytes).is_err());
}

#[test]
fn world_id_derived_from_seed() {
    let world = World::new("Anything".to_string(), RngSeed::new(42));
    assert_eq!(world.id(), "world_42");
    let world2 = World::new("Other".to_string(), RngSeed::new(0));
    assert_eq!(world2.id(), "world_0");
}

#[test]
fn zone_membership_tracks_entities() {
    let mut world = World::new("Zones".to_string(), RngSeed::new(2));
    let id = world.allocate_entity_id();
    world.add_entity(Entity::new(
        id,
        EntityKind::Item,
        WorldPos::origin(),
        Tick(0),
        EntityProperties::default(),
    ));
    let zone = world.get_zone(ZoneId::origin()).unwrap();
    assert_eq!(zone.entities.len(), 1);
    assert_eq!(zone.entities[0], id);

    world.remove_entity(id);
    let zone = world.get_zone(ZoneId::origin()).unwrap();
    assert!(zone.entities.is_empty());
}
