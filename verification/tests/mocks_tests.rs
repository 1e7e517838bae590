use seeyuj::clock::ISimClock;
use seeyuj::filesystem::FilesystemStore;
use seeyuj::events::{EventData, SimEvent};
use seeyuj::mocks::{MockClock, MockEventLog, MockRng, MockWorldStore};
use seeyuj::types::{EventId, RngSeed, SimTime, Tick, WorldMeta};

#[test]
fn mock_rng_deterministic() {
    let mut rng1 = MockRng::new(RngSeed::new(42));
    let mut rng2 = MockRng::new(RngSeed::new(42));

    for _ in 0..10 {
        assert_eq!(rng1.next_u32(), rng2.next_u32());
    }
}

#[test]
fn mock_clock_advances() {
    let mut clock = MockClock::new();
    assert_eq!(clock.current_tick(), Tick(0));
    clock.advance();
    assert_eq!(clock.current_tick(), Tick(1));
}

#[test]
fn mock_event_log() {
    let mut log = MockEventLog::new();
    let event = SimEvent::new(
        Tick(1),
        EventData::TickProcessed {
            tick: Tick(1),
            sim_time: SimTime::zero(),
            entities_processed: 0,
        },
    );

    let persisted = log.append(event).unwrap();
    assert_eq!(persisted.event_id, EventId::new(1));
    assert_eq!(log.len(), 1);
    assert_eq!(log.last_event_id(), EventId::new(1));
}

#[test]
fn mock_event_log_read_from_event_id() {
    let mut log = MockEventLog::new();

    for i in 1..=5 {
        let event = SimEvent::new(
            Tick(i),
            EventData::TickProcessed {
                tick: Tick(i),
                sim_time: SimTime { units: i },
                entities_processed: 0,
            },
        );
        log.append(event).unwrap();
    }

    let events = log.read_from_event_id(EventId::new(3)).unwrap();
    assert_eq!(events.len(), 2);
    assert_eq!(events[0].event_id, EventId::new(4));
}

#[test]
fn mock_store_meta_and_snapshot() {
    let mut store = MockWorldStore::new();
    assert!(!store.has_world("world_1"));

    let meta = WorldMeta {
        world_id: "world_1".to_string(),
        name: "One".to_string(),
        seed: RngSeed::new(1),
        current_tick: Tick(3),
        sim_time: SimTime { units: 3 },
        created_tick: Tick(0),
        snapshot_tick: Tick(3),
        last_event_id: EventId::new(7),
        format_version: 2,
    };
    store.save_meta(&meta).unwrap();
    assert!(store.has_world("world_1"));

    let loaded = store.load_meta("world_1").unwrap();
    assert_eq!(loaded.name, "One");
    assert_eq!(loaded.last_event_id, EventId::new(7));

    store.save_snapshot("world_1", &vec![1, 2, 3]).unwrap();
    assert_eq!(store.load_snapshot("world_1").unwrap(), vec![1, 2, 3]);

    let listed = store.list_worlds().unwrap();
    assert_eq!(listed, vec!["world_1".to_string()]);

    store.delete_world("world_1").unwrap();
    assert!(!store.has_world("world_1"));
    assert!(store.load_snapshot("world_1").is_err());
}

#[test]
fn mock_event_log_truncate() {
    let mut log = MockEventLog::new();
    for i in 1..=5 {
        log.append(SimEvent::new(
            Tick(i),
            EventData::WorldSaved { tick: Tick(i) },
        ))
        .unwrap();
    }
    log.truncate_after(EventId::new(3)).unwrap();
    assert_eq!(log.len(), 3);
    assert_eq!(log.last_event_id(), EventId::new(3));
    let next = log
        .append(SimEvent::new(Tick(9), EventData::WorldSaved { tick: Tick(9) }))
        .unwrap();
    assert_eq!(next.event_id, EventId::new(4));
}

#[test]
fn filesystem_layout_paths() {
    let store = FilesystemStore::at("./data".to_string());
    assert_eq!(store.base_path(), "./data");
    assert_eq!(store.worlds_dir(), "./data/worlds");
    assert_eq!(store.world_dir("world_42"), "./data/worlds/world_42");
    assert_eq!(store.meta_path("world_42"), "./data/worlds/world_42/meta.txt");
    assert_eq!(
        store.snapshot_path("world_42"),
        "./data/worlds/world_42/snapshot.bin"
    );
    assert_eq!(store.events_dir("world_42"), "./data/worlds/world_42/events");
}
