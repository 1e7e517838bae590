use seeyuj::commands::EntityProperties;
use seeyuj::events::{EventData, SimEvent};
use seeyuj::mocks::MockEventLog;
use seeyuj::types::{EntityId, EntityKind, EventId, RngSeed, SimTime, Tick, WorldPos};
use seeyuj::wal::{decode_record_at, encode_event_data, encode_record, recover_scan};

fn tick_event(i: u64) -> SimEvent {
    SimEvent::new(
        Tick(i),
        EventData::TickProcessed {
            tick: Tick(i),
            sim_time: SimTime { units: i },
            entities_processed: 0,
        },
    )
}

#[test]
fn append_and_read() {
    let mut log = MockEventLog::new();

    let event = SimEvent::new(
        Tick(1),
        EventData::WorldCreated {
            world_id: "test".to_string(),
            name: "Test".to_string(),
            seed: RngSeed::new(42),
        },
    );

    let persisted = log.append(event).unwrap();
    assert_eq!(persisted.event_id, EventId::new(1));
    assert_eq!(log.len(), 1);
    assert_eq!(log.last_event_id(), EventId::new(1));

    let events = log.read_all_valid().unwrap();
    assert_eq!(events.len(), 1);
    assert_eq!(events[0].event_id, EventId::new(1));
}

#[test]
fn event_id_is_monotonic() {
    let mut log = MockEventLog::new();

    for i in 1..=10 {
        let persisted = log.append(tick_event(i)).unwrap();
        assert_eq!(persisted.event_id.as_u64(), i);
    }

    assert_eq!(log.last_event_id(), EventId::new(10));
}

#[test]
fn read_from_event_id() {
    let mut log = MockEventLog::new();

    for i in 1..=10 {
        log.append(tick_event(i)).unwrap();
    }

    let events = log.read_from_event_id(EventId::new(5)).unwrap();
    assert_eq!(events.len(), 5);
    assert_eq!(events[0].event_id, EventId::new(6));
}

fn record_for(i: u64) -> Vec<u8> {
    let payload = encode_event_data(&tick_event(i).data);
    encode_record(i, i, &payload)
}

#[test]
fn record_roundtrip() {
    let bytes = record_for(1);
    let (ev, end) = decode_record_at(&bytes, 0).unwrap();
    assert_eq!(end, bytes.len());
    assert_eq!(ev.event_id, EventId::new(1));
    assert_eq!(ev.tick, Tick(1));
    assert!(matches!(
        ev.data,
        EventData::TickProcessed { tick: Tick(1), .. }
    ));
}

#[test]
fn scan_reads_all_records() {
    let mut buf: Vec<u8> = Vec::new();
    for i in 1..=5 {
        buf.extend_from_slice(&record_for(i));
    }
    let (events, end) = recover_scan(&buf);
    assert_eq!(events.len(), 5);
    assert_eq!(end, buf.len());
    for (k, ev) in events.iter().enumerate() {
        assert_eq!(ev.event_id.as_u64(), (k as u64) + 1);
    }
}

#[test]
fn torn_tail_recovery() {
    // Append five records, then tear off three trailing bytes: recovery
    // must yield exactly four events and stop at the fourth record's end.
    let mut buf: Vec<u8> = Vec::new();
    let mut offsets: Vec<usize> = Vec::new();
    for i in 1..=5 {
        buf.extend_from_slice(&record_for(i));
        offsets.push(buf.len());
    }
    buf.truncate(buf.len() - 3);
    let (events, end) = recover_scan(&buf);
    assert_eq!(events.len(), 4);
    assert_eq!(end, offsets[3]);
}

#[test]
fn torn_tail_every_cut() {
    // Tear any 1..record_size-1 trailing bytes off a two-record log: the
    // scan always yields exactly the first record.
    let first = record_for(1);
    let second = record_for(2);
    for cut in 1..second.len() {
        let mut buf = first.clone();
        buf.extend_from_slice(&second[..second.len() - cut]);
        let (events, end) = recover_scan(&buf);
        assert_eq!(events.len(), 1);
        assert_eq!(end, first.len());
    }
}

#[test]
fn crc_detects_payload_corruption() {
    // Flip a byte in the second record's payload: the scan stops after
    // the first record.
    let first = record_for(1);
    let second = record_for(2);
    let mut buf = first.clone();
    let corrupt_at = first.len() + 26 + 2;
    buf.extend_from_slice(&second);
    buf[corrupt_at] ^= 0xff;
    let (events, end) = recover_scan(&buf);
    assert_eq!(events.len(), 1);
    assert_eq!(end, first.len());
}

#[test]
fn bad_magic_rejected() {
    let mut bytes = record_for(1);
    bytes[0] ^= 0xff;
    assert!(decode_record_at(&bytes, 0).is_none());
}

#[test]
fn event_codec_roundtrip_spawn() {
    let data = EventData::EntitySpawned {
        entity_id: EntityId::new(9),
        kind: EntityKind::Structure,
        position: WorldPos::origin(),
        properties: EntityProperties {
            name: Some("Tower".to_string()),
            amount: Some(3),
            health: Some(100),
        },
    };
    let payload = encode_event_data(&data);
    let record = encode_record(9, 4, &payload);
    let (ev, _end) = decode_record_at(&record, 0).unwrap();
    match ev.data {
        EventData::EntitySpawned {
            entity_id,
            kind,
            properties,
            ..
        } => {
            assert_eq!(entity_id, EntityId::new(9));
            assert_eq!(kind, EntityKind::Structure);
            assert_eq!(properties.name.as_deref(), Some("Tower"));
            assert_eq!(properties.amount, Some(3));
            assert_eq!(properties.health, Some(100));
        }
        _ => panic!("wrong event kind decoded"),
    }
}
