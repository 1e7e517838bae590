use seeyuj::migrations::{migrate_meta, needs_migration};
use seeyuj::types::{EventId, RngSeed, SimTime, Tick, WorldMeta, CURRENT_FORMAT_VERSION};

fn meta_with_version(v: u32) -> WorldMeta {
    WorldMeta {
        world_id: "world_1".to_string(),
        name: "M".to_string(),
        seed: RngSeed::new(1),
        current_tick: Tick(0),
        sim_time: SimTime { units: 0 },
        created_tick: Tick(0),
        snapshot_tick: Tick(0),
        last_event_id: EventId::new(0),
        format_version: v,
    }
}

#[test]
fn migration_bumps_old_versions() {
    let mut old = meta_with_version(1);
    assert!(needs_migration(&old));
    assert!(migrate_meta(&mut old));
    assert_eq!(old.format_version, CURRENT_FORMAT_VERSION);
}

#[test]
fn migration_leaves_current_alone() {
    let mut cur = meta_with_version(CURRENT_FORMAT_VERSION);
    assert!(!needs_migration(&cur));
    assert!(!migrate_meta(&mut cur));
    assert_eq!(cur.format_version, CURRENT_FORMAT_VERSION);
}
