//! The write-ahead log's binary formats: the event payload codec, the
//! CRC-validated record framing, and the recovery scan.
//!
//! A record is `MAGIC (u32) | VERSION (u16) | LENGTH (u32) | EVENT_ID (u64)
//! | TICK (u64) | PAYLOAD | CRC32 (u32)`, all little endian, with the CRC
//! computed over everything before it.  Recovery walks records from the
//! start of the log and stops at the first record that fails any check;
//! a torn tail is thereby discarded.
//!
//! Everything here works on byte sequences; the file I/O around it hands
//! in the log's bytes and writes encoded records back out.

use vstd::prelude::*;

use vstd::utf8::encode_utf8;

use crate::codec::{dec_kind, dec_props, dec_property_value, dec_reason, dec_state, dec_str,
    dec_u16, dec_u32, dec_u64, dec_world_pos, enc_kind, enc_opt_str, enc_props,
    enc_property_value, enc_reason, enc_state, enc_str, enc_u16, enc_u32, enc_u64, enc_u8,
    enc_world_pos, lemma_enc_lens, lemma_sdec_enc_kind, lemma_sdec_enc_props,
    lemma_sdec_enc_property_value, lemma_sdec_enc_reason, lemma_sdec_enc_state,
    lemma_sdec_enc_str, lemma_sdec_enc_u16, lemma_sdec_enc_u32, lemma_sdec_enc_u64,
    lemma_sdec_enc_u8, lemma_sdec_enc_world_pos, opt_str_ok, property_value_ok, put_kind,
    put_props, put_property_value, put_reason, put_state, put_str, put_u16, put_u32, put_u64,
    put_u8, put_world_pos, sdec_u8, dec_u8, sdec_kind, sdec_props, sdec_property_value, sdec_reason, sdec_state,
    sdec_str, sdec_u16, sdec_u32, sdec_u64, sdec_world_pos, lemma_sdec_enc_opt_str, sdec_opt_str,
    put_opt_str, dec_opt_str};
use crate::events::{EventData, EventDataView, SimEvent, SimEventView};
use crate::types::{EventId, Tick};

verus! {

/// The magic number that opens every WAL record.
pub const WAL_MAGIC: u32 = 0x57414C31;

/// The current WAL record format version.
pub const WAL_VERSION: u16 = 1;

/// The size of a record's fixed header: magic, version, length, event id
/// and tick.
pub const RECORD_HEADER_SIZE: usize = 26;

/// The size of a record's CRC trailer.
pub const CRC_SIZE: usize = 4;

// ============================================================================
// Event payload codec
// ============================================================================

/// The payload encoding of one event: a tag byte, then the fields of the
/// variant.
pub open spec fn enc_event_data(d: EventDataView) -> Seq<u8> {
    match d {
        EventDataView::WorldCreated { world_id, name, seed } => enc_u8(0) + enc_str(world_id)
            + enc_str(name) + enc_u64(seed.0),
        EventDataView::WorldLoaded { world_id, tick } => enc_u8(1) + enc_str(world_id) + enc_u64(
            tick.0,
        ),
        EventDataView::WorldSaved { tick } => enc_u8(2) + enc_u64(tick.0),
        EventDataView::TickProcessed { tick, sim_time, entities_processed } => enc_u8(3)
            + enc_u64(tick.0) + enc_u64(sim_time.units) + enc_u32(entities_processed),
        EventDataView::ZoneCreated { zone_id, name } => enc_u8(4) + enc_u32(zone_id.0)
            + enc_opt_str(name),
        EventDataView::ZoneLoaded { zone_id } => enc_u8(5) + enc_u32(zone_id.0),
        EventDataView::ZoneUnloaded { zone_id } => enc_u8(6) + enc_u32(zone_id.0),
        EventDataView::EntitySpawned { entity_id, kind, position, properties } => enc_u8(7)
            + enc_u64(entity_id.0) + enc_kind(kind) + enc_world_pos(position) + enc_props(
            properties,
        ),
        EventDataView::EntityDespawned { entity_id, reason } => enc_u8(8) + enc_u64(entity_id.0)
            + enc_reason(reason),
        EventDataView::EntityMoved { entity_id, from, to } => enc_u8(9) + enc_u64(entity_id.0)
            + enc_world_pos(from) + enc_world_pos(to),
        EventDataView::EntityStateChanged { entity_id, old_state, new_state } => enc_u8(10)
            + enc_u64(entity_id.0) + enc_state(old_state) + enc_state(new_state),
        EventDataView::EntityPropertyChanged { entity_id, property, old_value, new_value } =>
            enc_u8(11) + enc_u64(entity_id.0) + enc_str(property) + enc_property_value(old_value)
            + enc_property_value(new_value),
        EventDataView::ResourceDepleted { entity_id, amount, remaining } => enc_u8(12) + enc_u64(
            entity_id.0,
        ) + enc_u32(amount) + enc_u32(remaining),
        EventDataView::EntityDegraded { entity_id, old_health, new_health } => enc_u8(13)
            + enc_u64(entity_id.0) + enc_u32(old_health) + enc_u32(new_health),
    }
}

/// Whether every string carried by the event fits its length prefix; every
/// string held in memory does.
pub open spec fn event_data_ok(d: EventDataView) -> bool {
    match d {
        EventDataView::WorldCreated { world_id, name, .. } => encode_utf8(world_id).len()
            <= u64::MAX && encode_utf8(name).len() <= u64::MAX,
        EventDataView::WorldLoaded { world_id, .. } => encode_utf8(world_id).len() <= u64::MAX,
        EventDataView::ZoneCreated { name, .. } => opt_str_ok(name),
        EventDataView::EntitySpawned { properties, .. } => opt_str_ok(properties.name),
        EventDataView::EntityPropertyChanged { property, old_value, new_value, .. } => encode_utf8(
            property,
        ).len() <= u64::MAX && property_value_ok(old_value) && property_value_ok(new_value),
        _ => true,
    }
}

/// Decode one event payload.
pub open spec fn sdec_event_data(b: Seq<u8>, off: int) -> Option<(EventDataView, int)> {
    match sdec_u8(b, off) {
        Some((tag, o1)) => {
            if tag == 0 {
                match sdec_str(b, o1) {
                    Some((world_id, o2)) => match sdec_str(b, o2) {
                        Some((name, o3)) => match sdec_u64(b, o3) {
                            Some((seed, o4)) => Some(
                                (
                                    EventDataView::WorldCreated {
                                        world_id,
                                        name,
                                        seed: crate::types::RngSeed(seed),
                                    },
                                    o4,
                                ),
                            ),
                            None => None,
                        },
                        None => None,
                    },
                    None => None,
                }
            } else if tag == 1 {
                match sdec_str(b, o1) {
                    Some((world_id, o2)) => match sdec_u64(b, o2) {
                        Some((t, o3)) => Some(
                            (EventDataView::WorldLoaded { world_id, tick: Tick(t) }, o3),
                        ),
                        None => None,
                    },
                    None => None,
                }
            } else if tag == 2 {
                match sdec_u64(b, o1) {
                    Some((t, o2)) => Some((EventDataView::WorldSaved { tick: Tick(t) }, o2)),
                    None => None,
                }
            } else if tag == 3 {
                match sdec_u64(b, o1) {
                    Some((t, o2)) => match sdec_u64(b, o2) {
                        Some((st, o3)) => match sdec_u32(b, o3) {
                            Some((n, o4)) => Some(
                                (
                                    EventDataView::TickProcessed {
                                        tick: Tick(t),
                                        sim_time: crate::types::SimTime { units: st },
                                        entities_processed: n,
                                    },
                                    o4,
                                ),
                            ),
                            None => None,
                        },
                        None => None,
                    },
                    None => None,
                }
            } else if tag == 4 {
                match sdec_u32(b, o1) {
                    Some((z, o2)) => match sdec_opt_str(b, o2) {
                        Some((name, o3)) => Some(
                            (
                                EventDataView::ZoneCreated {
                                    zone_id: crate::types::ZoneId(z),
                                    name,
                                },
                                o3,
                            ),
                        ),
                        None => None,
                    },
                    None => None,
                }
            } else if tag == 5 {
                match sdec_u32(b, o1) {
                    Some((z, o2)) => Some(
                        (EventDataView::ZoneLoaded { zone_id: crate::types::ZoneId(z) }, o2),
                    ),
                    None => None,
                }
            } else if tag == 6 {
                match sdec_u32(b, o1) {
                    Some((z, o2)) => Some(
                        (EventDataView::ZoneUnloaded { zone_id: crate::types::ZoneId(z) }, o2),
                    ),
                    None => None,
                }
            } else if tag == 7 {
                match sdec_u64(b, o1) {
                    Some((id, o2)) => match sdec_kind(b, o2) {
                        Some((kind, o3)) => match sdec_world_pos(b, o3) {
                            Some((position, o4)) => match sdec_props(b, o4) {
                                Some((properties, o5)) => Some(
                                    (
                                        EventDataView::EntitySpawned {
                                            entity_id: crate::types::EntityId(id),
                                            kind,
                                            position,
                                            properties,
                                        },
                                        o5,
                                    ),
                                ),
                                None => None,
                            },
                            None => None,
                        },
                        None => None,
                    },
                    None => None,
                }
            } else if tag == 8 {
                match sdec_u64(b, o1) {
                    Some((id, o2)) => match sdec_reason(b, o2) {
                        Some((reason, o3)) => Some(
                            (
                                EventDataView::EntityDespawned {
                                    entity_id: crate::types::EntityId(id),
                                    reason,
                                },
                                o3,
                            ),
                        ),
                        None => None,
                    },
                    None => None,
                }
            } else if tag == 9 {
                match sdec_u64(b, o1) {
                    Some((id, o2)) => match sdec_world_pos(b, o2) {
                        Some((from, o3)) => match sdec_world_pos(b, o3) {
                            Some((to, o4)) => Some(
                                (
                                    EventDataView::EntityMoved {
                                        entity_id: crate::types::EntityId(id),
                                        from,
                                        to,
                                    },
                                    o4,
                                ),
                            ),
                            None => None,
                        },
                        None => None,
                    },
                    None => None,
                }
            } else if tag == 10 {
                match sdec_u64(b, o1) {
                    Some((id, o2)) => match sdec_state(b, o2) {
                        Some((old_state, o3)) => match sdec_state(b, o3) {
                            Some((new_state, o4)) => Some(
                                (
                                    EventDataView::EntityStateChanged {
                                        entity_id: crate::types::EntityId(id),
                                        old_state,
                                        new_state,
                                    },
                                    o4,
                                ),
                            ),
                            None => None,
                        },
                        None => None,
                    },
                    None => None,
                }
            } else if tag == 11 {
                match sdec_u64(b, o1) {
                    Some((id, o2)) => match sdec_str(b, o2) {
                        Some((property, o3)) => match sdec_property_value(b, o3) {
                            Some((old_value, o4)) => match sdec_property_value(b, o4) {
                                Some((new_value, o5)) => Some(
                                    (
                                        EventDataView::EntityPropertyChanged {
                                            entity_id: crate::types::EntityId(id),
                                            property,
                                            old_value,
                                            new_value,
                                        },
                                        o5,
                                    ),
                                ),
                                None => None,
                            },
                            None => None,
                        },
                        None => None,
                    },
                    None => None,
                }
            } else if tag == 12 {
                match sdec_u64(b, o1) {
                    Some((id, o2)) => match sdec_u32(b, o2) {
                        Some((amount, o3)) => match sdec_u32(b, o3) {
                            Some((remaining, o4)) => Some(
                                (
                                    EventDataView::ResourceDepleted {
                                        entity_id: crate::types::EntityId(id),
                                        amount,
                                        remaining,
                                    },
                                    o4,
                                ),
                            ),
                            None => None,
                        },
                        None => None,
                    },
                    None => None,
                }
            } else if tag == 13 {
                match sdec_u64(b, o1) {
                    Some((id, o2)) => match sdec_u32(b, o2) {
                        Some((old_health, o3)) => match sdec_u32(b, o3) {
                            Some((new_health, o4)) => Some(
                                (
                                    EventDataView::EntityDegraded {
                                        entity_id: crate::types::EntityId(id),
                                        old_health,
                                        new_health,
                                    },
                                    o4,
                                ),
                            ),
                            None => None,
                        },
                        None => None,
                    },
                    None => None,
                }
            } else {
                None
            }
        },
        None => None,
    }
}

#[verifier::spinoff_prover]
proof fn lemma_sdec_ev_world_created(b: Seq<u8>, off: int, d: EventDataView)
    requires
        0 <= off,
        event_data_ok(d),
        off + enc_event_data(d).len() <= b.len(),
        b.subrange(off, off + enc_event_data(d).len() as int) == enc_event_data(d),
        d matches EventDataView::WorldCreated { .. },
    ensures
        sdec_event_data(b, off) == Some((d, off + enc_event_data(d).len())),
{
    lemma_enc_lens();
    let e = enc_event_data(d);
    assert(b.subrange(off, off + 1) =~= e.subrange(0, 1));
    match d {
        EventDataView::WorldCreated { world_id, name, seed } => {
            let n1 = enc_str(world_id).len() as int;
            let n2 = enc_str(name).len() as int;
            assert(e.subrange(0, 1) =~= enc_u8(0));
            lemma_sdec_enc_u8(b, off, 0);
            assert(b.subrange(off + 1, off + 1 + n1) =~= e.subrange(1, 1 + n1));
            assert(e.subrange(1, 1 + n1) =~= enc_str(world_id));
            lemma_sdec_enc_str(b, off + 1, world_id);
            assert(b.subrange(off + 1 + n1, off + 1 + n1 + n2) =~= e.subrange(1 + n1, 1 + n1 + n2));
            assert(e.subrange(1 + n1, 1 + n1 + n2) =~= enc_str(name));
            lemma_sdec_enc_str(b, off + 1 + n1, name);
            assert(b.subrange(off + 1 + n1 + n2, off + 1 + n1 + n2 + 8) =~= e.subrange(
                1 + n1 + n2,
                1 + n1 + n2 + 8,
            ));
            assert(e.subrange(1 + n1 + n2, 1 + n1 + n2 + 8) =~= enc_u64(seed.0));
            lemma_sdec_enc_u64(b, off + 1 + n1 + n2, seed.0);
        },
        _ => {},
    }
}

#[verifier::spinoff_prover]
proof fn lemma_sdec_ev_world_loaded(b: Seq<u8>, off: int, d: EventDataView)
    requires
        0 <= off,
        event_data_ok(d),
        off + enc_event_data(d).len() <= b.len(),
        b.subrange(off, off + enc_event_data(d).len() as int) == enc_event_data(d),
        d matches EventDataView::WorldLoaded { .. },
    ensures
        sdec_event_data(b, off) == Some((d, off + enc_event_data(d).len())),
{
    lemma_enc_lens();
    let e = enc_event_data(d);
    assert(b.subrange(off, off + 1) =~= e.subrange(0, 1));
    match d {
        EventDataView::WorldLoaded { world_id, tick } => {
            let n1 = enc_str(world_id).len() as int;
            assert(e.subrange(0, 1) =~= enc_u8(1));
            lemma_sdec_enc_u8(b, off, 1);
            assert(b.subrange(off + 1, off + 1 + n1) =~= e.subrange(1, 1 + n1));
            assert(e.subrange(1, 1 + n1) =~= enc_str(world_id));
            lemma_sdec_enc_str(b, off + 1, world_id);
            assert(b.subrange(off + 1 + n1, off + 1 + n1 + 8) =~= e.subrange(1 + n1, 1 + n1 + 8));
            assert(e.subrange(1 + n1, 1 + n1 + 8) =~= enc_u64(tick.0));
            lemma_sdec_enc_u64(b, off + 1 + n1, tick.0);
        },
        _ => {},
    }
}

#[verifier::spinoff_prover]
proof fn lemma_sdec_ev_world_saved(b: Seq<u8>, off: int, d: EventDataView)
    requires
        0 <= off,
        event_data_ok(d),
        off + enc_event_data(d).len() <= b.len(),
        b.subrange(off, off + enc_event_data(d).len() as int) == enc_event_data(d),
        d matches EventDataView::WorldSaved { .. },
    ensures
        sdec_event_data(b, off) == Some((d, off + enc_event_data(d).len())),
{
    lemma_enc_lens();
    let e = enc_event_data(d);
    assert(b.subrange(off, off + 1) =~= e.subrange(0, 1));
    match d {
        EventDataView::WorldSaved { tick } => {
            assert(e.subrange(0, 1) =~= enc_u8(2));
            lemma_sdec_enc_u8(b, off, 2);
            assert(b.subrange(off + 1, off + 9) =~= e.subrange(1, 9));
            assert(e.subrange(1, 9) =~= enc_u64(tick.0));
            lemma_sdec_enc_u64(b, off + 1, tick.0);
        },
        _ => {},
    }
}

#[verifier::spinoff_prover]
proof fn lemma_sdec_ev_tick_processed(b: Seq<u8>, off: int, d: EventDataView)
    requires
        0 <= off,
        event_data_ok(d),
        off + enc_event_data(d).len() <= b.len(),
        b.subrange(off, off + enc_event_data(d).len() as int) == enc_event_data(d),
        d matches EventDataView::TickProcessed { .. },
    ensures
        sdec_event_data(b, off) == Some((d, off + enc_event_data(d).len())),
{
    lemma_enc_lens();
    let e = enc_event_data(d);
    assert(b.subrange(off, off + 1) =~= e.subrange(0, 1));
    match d {
        EventDataView::TickProcessed { tick, sim_time, entities_processed } => {
            assert(e.subrange(0, 1) =~= enc_u8(3));
            lemma_sdec_enc_u8(b, off, 3);
            assert(b.subrange(off + 1, off + 9) =~= e.subrange(1, 9));
            assert(e.subrange(1, 9) =~= enc_u64(tick.0));
            lemma_sdec_enc_u64(b, off + 1, tick.0);
            assert(b.subrange(off + 9, off + 17) =~= e.subrange(9, 17));
            assert(e.subrange(9, 17) =~= enc_u64(sim_time.units));
            lemma_sdec_enc_u64(b, off + 9, sim_time.units);
            assert(b.subrange(off + 17, off + 21) =~= e.subrange(17, 21));
            assert(e.subrange(17, 21) =~= enc_u32(entities_processed));
            lemma_sdec_enc_u32(b, off + 17, entities_processed);
        },
        _ => {},
    }
}

#[verifier::spinoff_prover]
proof fn lemma_sdec_ev_zone_created(b: Seq<u8>, off: int, d: EventDataView)
    requires
        0 <= off,
        event_data_ok(d),
        off + enc_event_data(d).len() <= b.len(),
        b.subrange(off, off + enc_event_data(d).len() as int) == enc_event_data(d),
        d matches EventDataView::ZoneCreated { .. },
    ensures
        sdec_event_data(b, off) == Some((d, off + enc_event_data(d).len())),
{
    lemma_enc_lens();
    let e = enc_event_data(d);
    assert(b.subrange(off, off + 1) =~= e.subrange(0, 1));
    match d {
        EventDataView::ZoneCreated { zone_id, name } => {
            let n1 = enc_opt_str(name).len() as int;
            assert(e.subrange(0, 1) =~= enc_u8(4));
            lemma_sdec_enc_u8(b, off, 4);
            assert(b.subrange(off + 1, off + 5) =~= e.subrange(1, 5));
            assert(e.subrange(1, 5) =~= enc_u32(zone_id.0));
            lemma_sdec_enc_u32(b, off + 1, zone_id.0);
            assert(b.subrange(off + 5, off + 5 + n1) =~= e.subrange(5, 5 + n1));
            assert(e.subrange(5, 5 + n1) =~= enc_opt_str(name));
            lemma_sdec_enc_opt_str(b, off + 5, name);
        },
        _ => {},
    }
}

#[verifier::spinoff_prover]
proof fn lemma_sdec_ev_zone_loaded(b: Seq<u8>, off: int, d: EventDataView)
    requires
        0 <= off,
        event_data_ok(d),
        off + enc_event_data(d).len() <= b.len(),
        b.subrange(off, off + enc_event_data(d).len() as int) == enc_event_data(d),
        d matches EventDataView::ZoneLoaded { .. },
    ensures
        sdec_event_data(b, off) == Some((d, off + enc_event_data(d).len())),
{
    lemma_enc_lens();
    let e = enc_event_data(d);
    assert(b.subrange(off, off + 1) =~= e.subrange(0, 1));
    match d {
        EventDataView::ZoneLoaded { zone_id } => {
            assert(e.subrange(0, 1) =~= enc_u8(5));
            lemma_sdec_enc_u8(b, off, 5);
            assert(b.subrange(off + 1, off + 5) =~= e.subrange(1, 5));
            assert(e.subrange(1, 5) =~= enc_u32(zone_id.0));
            lemma_sdec_enc_u32(b, off + 1, zone_id.0);
        },
        _ => {},
    }
}

#[verifier::spinoff_prover]
proof fn lemma_sdec_ev_zone_unloaded(b: Seq<u8>, off: int, d: EventDataView)
    requires
        0 <= off,
        event_data_ok(d),
        off + enc_event_data(d).len() <= b.len(),
        b.subrange(off, off + enc_event_data(d).len() as int) == enc_event_data(d),
        d matches EventDataView::ZoneUnloaded { .. },
    ensures
        sdec_event_data(b, off) == Some((d, off + enc_event_data(d).len())),
{
    lemma_enc_lens();
    let e = enc_event_data(d);
    assert(b.subrange(off, off + 1) =~= e.subrange(0, 1));
    match d {
        EventDataView::ZoneUnloaded { zone_id } => {
            assert(e.subrange(0, 1) =~= enc_u8(6));
            lemma_sdec_enc_u8(b, off, 6);
            assert(b.subrange(off + 1, off + 5) =~= e.subrange(1, 5));
            assert(e.subrange(1, 5) =~= enc_u32(zone_id.0));
            lemma_sdec_enc_u32(b, off + 1, zone_id.0);
        },
        _ => {},
    }
}

#[verifier::spinoff_prover]
proof fn lemma_sdec_ev_entity_spawned(b: Seq<u8>, off: int, d: EventDataView)
    requires
        0 <= off,
        event_data_ok(d),
        off + enc_event_data(d).len() <= b.len(),
        b.subrange(off, off + enc_event_data(d).len() as int) == enc_event_data(d),
        d matches EventDataView::EntitySpawned { .. },
    ensures
        sdec_event_data(b, off) == Some((d, off + enc_event_data(d).len())),
{
    lemma_enc_lens();
    let e = enc_event_data(d);
    assert(b.subrange(off, off + 1) =~= e.subrange(0, 1));
    match d {
        EventDataView::EntitySpawned { entity_id, kind, position, properties } => {
            let n1 = enc_props(properties).len() as int;
            assert(e.subrange(0, 1) =~= enc_u8(7));
            lemma_sdec_enc_u8(b, off, 7);
            assert(b.subrange(off + 1, off + 9) =~= e.subrange(1, 9));
            assert(e.subrange(1, 9) =~= enc_u64(entity_id.0));
            lemma_sdec_enc_u64(b, off + 1, entity_id.0);
            assert(b.subrange(off + 9, off + 10) =~= e.subrange(9, 10));
            assert(e.subrange(9, 10) =~= enc_kind(kind));
            lemma_sdec_enc_kind(b, off + 9, kind);
            assert(b.subrange(off + 10, off + 26) =~= e.subrange(10, 26));
            assert(e.subrange(10, 26) =~= enc_world_pos(position));
            lemma_sdec_enc_world_pos(b, off + 10, position);
            assert(b.subrange(off + 26, off + 26 + n1) =~= e.subrange(26, 26 + n1));
            assert(e.subrange(26, 26 + n1) =~= enc_props(properties));
            lemma_sdec_enc_props(b, off + 26, properties);
        },
        _ => {},
    }
}

#[verifier::spinoff_prover]
proof fn lemma_sdec_ev_entity_despawned(b: Seq<u8>, off: int, d: EventDataView)
    requires
        0 <= off,
        event_data_ok(d),
        off + enc_event_data(d).len() <= b.len(),
        b.subrange(off, off + enc_event_data(d).len() as int) == enc_event_data(d),
        d matches EventDataView::EntityDespawned { .. },
    ensures
        sdec_event_data(b, off) == Some((d, off + enc_event_data(d).len())),
{
    lemma_enc_lens();
    let e = enc_event_data(d);
    assert(b.subrange(off, off + 1) =~= e.subrange(0, 1));
    match d {
        EventDataView::EntityDespawned { entity_id, reason } => {
            assert(e.subrange(0, 1) =~= enc_u8(8));
            lemma_sdec_enc_u8(b, off, 8);
            assert(b.subrange(off + 1, off + 9) =~= e.subrange(1, 9));
            assert(e.subrange(1, 9) =~= enc_u64(entity_id.0));
            lemma_sdec_enc_u64(b, off + 1, entity_id.0);
            assert(b.subrange(off + 9, off + 10) =~= e.subrange(9, 10));
            assert(e.subrange(9, 10) =~= enc_reason(reason));
            lemma_sdec_enc_reason(b, off + 9, reason);
        },
        _ => {},
    }
}

#[verifier::spinoff_prover]
proof fn lemma_sdec_ev_entity_moved(b: Seq<u8>, off: int, d: EventDataView)
    requires
        0 <= off,
        event_data_ok(d),
        off + enc_event_data(d).len() <= b.len(),
        b.subrange(off, off + enc_event_data(d).len() as int) == enc_event_data(d),
        d matches EventDataView::EntityMoved { .. },
    ensures
        sdec_event_data(b, off) == Some((d, off + enc_event_data(d).len())),
{
    lemma_enc_lens();
    let e = enc_event_data(d);
    assert(b.subrange(off, off + 1) =~= e.subrange(0, 1));
    match d {
        EventDataView::EntityMoved { entity_id, from, to } => {
            assert(e.subrange(0, 1) =~= enc_u8(9));
            lemma_sdec_enc_u8(b, off, 9);
            assert(b.subrange(off + 1, off + 9) =~= e.subrange(1, 9));
            assert(e.subrange(1, 9) =~= enc_u64(entity_id.0));
            lemma_sdec_enc_u64(b, off + 1, entity_id.0);
            assert(b.subrange(off + 9, off + 25) =~= e.subrange(9, 25));
            assert(e.subrange(9, 25) =~= enc_world_pos(from));
            lemma_sdec_enc_world_pos(b, off + 9, from);
            assert(b.subrange(off + 25, off + 41) =~= e.subrange(25, 41));
            assert(e.subrange(25, 41) =~= enc_world_pos(to));
            lemma_sdec_enc_world_pos(b, off + 25, to);
        },
        _ => {},
    }
}

#[verifier::spinoff_prover]
proof fn lemma_sdec_ev_entity_state_changed(b: Seq<u8>, off: int, d: EventDataView)
    requires
        0 <= off,
        event_data_ok(d),
        off + enc_event_data(d).len() <= b.len(),
        b.subrange(off, off + enc_event_data(d).len() as int) == enc_event_data(d),
        d matches EventDataView::EntityStateChanged { .. },
    ensures
        sdec_event_data(b, off) == Some((d, off + enc_event_data(d).len())),
{
    lemma_enc_lens();
    let e = enc_event_data(d);
    assert(b.subrange(off, off + 1) =~= e.subrange(0, 1));
    match d {
        EventDataView::EntityStateChanged { entity_id, old_state, new_state } => {
            assert(e.subrange(0, 1) =~= enc_u8(10));
            lemma_sdec_enc_u8(b, off, 10);
            assert(b.subrange(off + 1, off + 9) =~= e.subrange(1, 9));
            assert(e.subrange(1, 9) =~= enc_u64(entity_id.0));
            lemma_sdec_enc_u64(b, off + 1, entity_id.0);
            assert(b.subrange(off + 9, off + 10) =~= e.subrange(9, 10));
            assert(e.subrange(9, 10) =~= enc_state(old_state));
            lemma_sdec_enc_state(b, off + 9, old_state);
            assert(b.subrange(off + 10, off + 11) =~= e.subrange(10, 11));
            assert(e.subrange(10, 11) =~= enc_state(new_state));
            lemma_sdec_enc_state(b, off + 10, new_state);
        },
        _ => {},
    }
}

#[verifier::spinoff_prover]
proof fn lemma_sdec_ev_entity_property_changed(b: Seq<u8>, off: int, d: EventDataView)
    requires
        0 <= off,
        event_data_ok(d),
        off + enc_event_data(d).len() <= b.len(),
        b.subrange(off, off + enc_event_data(d).len() as int) == enc_event_data(d),
        d matches EventDataView::EntityPropertyChanged { .. },
    ensures
        sdec_event_data(b, off) == Some((d, off + enc_event_data(d).len())),
{
    lemma_enc_lens();
    let e = enc_event_data(d);
    assert(b.subrange(off, off + 1) =~= e.subrange(0, 1));
    match d {
        EventDataView::EntityPropertyChanged { entity_id, property, old_value, new_value } => {
            let n1 = enc_str(property).len() as int;
            let n2 = enc_property_value(old_value).len() as int;
            let n3 = enc_property_value(new_value).len() as int;
            assert(e.subrange(0, 1) =~= enc_u8(11));
            lemma_sdec_enc_u8(b, off, 11);
            assert(b.subrange(off + 1, off + 9) =~= e.subrange(1, 9));
            assert(e.subrange(1, 9) =~= enc_u64(entity_id.0));
            lemma_sdec_enc_u64(b, off + 1, entity_id.0);
            assert(b.subrange(off + 9, off + 9 + n1) =~= e.subrange(9, 9 + n1));
            assert(e.subrange(9, 9 + n1) =~= enc_str(property));
            lemma_sdec_enc_str(b, off + 9, property);
            assert(b.subrange(off + 9 + n1, off + 9 + n1 + n2) =~= e.subrange(9 + n1, 9 + n1 + n2));
            assert(e.subrange(9 + n1, 9 + n1 + n2) =~= enc_property_value(old_value));
            lemma_sdec_enc_property_value(b, off + 9 + n1, old_value);
            assert(b.subrange(off + 9 + n1 + n2, off + 9 + n1 + n2 + n3) =~= e.subrange(
                9 + n1 + n2,
                9 + n1 + n2 + n3,
            ));
            assert(e.subrange(9 + n1 + n2, 9 + n1 + n2 + n3) =~= enc_property_value(new_value));
            lemma_sdec_enc_property_value(b, off + 9 + n1 + n2, new_value);
        },
        _ => {},
    }
}

#[verifier::spinoff_prover]
proof fn lemma_sdec_ev_resource_depleted(b: Seq<u8>, off: int, d: EventDataView)
    requires
        0 <= off,
        event_data_ok(d),
        off + enc_event_data(d).len() <= b.len(),
        b.subrange(off, off + enc_event_data(d).len() as int) == enc_event_data(d),
        d matches EventDataView::ResourceDepleted { .. },
    ensures
        sdec_event_data(b, off) == Some((d, off + enc_event_data(d).len())),
{
    lemma_enc_lens();
    let e = enc_event_data(d);
    assert(b.subrange(off, off + 1) =~= e.subrange(0, 1));
    match d {
        EventDataView::ResourceDepleted { entity_id, amount, remaining } => {
            assert(e.subrange(0, 1) =~= enc_u8(12));
            lemma_sdec_enc_u8(b, off, 12);
            assert(b.subrange(off + 1, off + 9) =~= e.subrange(1, 9));
            assert(e.subrange(1, 9) =~= enc_u64(entity_id.0));
            lemma_sdec_enc_u64(b, off + 1, entity_id.0);
            assert(b.subrange(off + 9, off + 13) =~= e.subrange(9, 13));
            assert(e.subrange(9, 13) =~= enc_u32(amount));
            lemma_sdec_enc_u32(b, off + 9, amount);
            assert(b.subrange(off + 13, off + 17) =~= e.subrange(13, 17));
            assert(e.subrange(13, 17) =~= enc_u32(remaining));
            lemma_sdec_enc_u32(b, off + 13, remaining);
        },
        _ => {},
    }
}

#[verifier::spinoff_prover]
proof fn lemma_sdec_ev_entity_degraded(b: Seq<u8>, off: int, d: EventDataView)
    requires
        0 <= off,
        event_data_ok(d),
        off + enc_event_data(d).len() <= b.len(),
        b.subrange(off, off + enc_event_data(d).len() as int) == enc_event_data(d),
        d matches EventDataView::EntityDegraded { .. },
    ensures
        sdec_event_data(b, off) == Some((d, off + enc_event_data(d).len())),
{
    lemma_enc_lens();
    let e = enc_event_data(d);
    assert(b.subrange(off, off + 1) =~= e.subrange(0, 1));
    match d {
        EventDataView::EntityDegraded { entity_id, old_health, new_health } => {
            assert(e.subrange(0, 1) =~= enc_u8(13));
            lemma_sdec_enc_u8(b, off, 13);
            assert(b.subrange(off + 1, off + 9) =~= e.subrange(1, 9));
            assert(e.subrange(1, 9) =~= enc_u64(entity_id.0));
            lemma_sdec_enc_u64(b, off + 1, entity_id.0);
            assert(b.subrange(off + 9, off + 13) =~= e.subrange(9, 13));
            assert(e.subrange(9, 13) =~= enc_u32(old_health));
            lemma_sdec_enc_u32(b, off + 9, old_health);
            assert(b.subrange(off + 13, off + 17) =~= e.subrange(13, 17));
            assert(e.subrange(13, 17) =~= enc_u32(new_health));
            lemma_sdec_enc_u32(b, off + 13, new_health);
        },
        _ => {},
    }
}

/// Decoding at an offset where an event payload lies yields the event.
pub proof fn lemma_sdec_enc_event_data(b: Seq<u8>, off: int, d: EventDataView)
    requires
        0 <= off,
        event_data_ok(d),
        off + enc_event_data(d).len() <= b.len(),
        b.subrange(off, off + enc_event_data(d).len() as int) == enc_event_data(d),
    ensures
        sdec_event_data(b, off) == Some((d, off + enc_event_data(d).len())),
{
    match d {
        EventDataView::WorldCreated { .. } => lemma_sdec_ev_world_created(b, off, d),
        EventDataView::WorldLoaded { .. } => lemma_sdec_ev_world_loaded(b, off, d),
        EventDataView::WorldSaved { .. } => lemma_sdec_ev_world_saved(b, off, d),
        EventDataView::TickProcessed { .. } => lemma_sdec_ev_tick_processed(b, off, d),
        EventDataView::ZoneCreated { .. } => lemma_sdec_ev_zone_created(b, off, d),
        EventDataView::ZoneLoaded { .. } => lemma_sdec_ev_zone_loaded(b, off, d),
        EventDataView::ZoneUnloaded { .. } => lemma_sdec_ev_zone_unloaded(b, off, d),
        EventDataView::EntitySpawned { .. } => lemma_sdec_ev_entity_spawned(b, off, d),
        EventDataView::EntityDespawned { .. } => lemma_sdec_ev_entity_despawned(b, off, d),
        EventDataView::EntityMoved { .. } => lemma_sdec_ev_entity_moved(b, off, d),
        EventDataView::EntityStateChanged { .. } => lemma_sdec_ev_entity_state_changed(b, off, d),
        EventDataView::EntityPropertyChanged { .. } => lemma_sdec_ev_entity_property_changed(b, off, d),
        EventDataView::ResourceDepleted { .. } => lemma_sdec_ev_resource_depleted(b, off, d),
        EventDataView::EntityDegraded { .. } => lemma_sdec_ev_entity_degraded(b, off, d),
    }
}

/// Encode one event payload.
pub fn encode_event_data(d: &EventData) -> (out: Vec<u8>)
    ensures
        out@ == enc_event_data(d@),
{
    let mut out: Vec<u8> = Vec::new();
    match d {
        EventData::WorldCreated { world_id, name, seed } => {
            put_u8(&mut out, 0);
            put_str(&mut out, world_id.as_str());
            put_str(&mut out, name.as_str());
            put_u64(&mut out, seed.0);
        },
        EventData::WorldLoaded { world_id, tick } => {
            put_u8(&mut out, 1);
            put_str(&mut out, world_id.as_str());
            put_u64(&mut out, tick.0);
        },
        EventData::WorldSaved { tick } => {
            put_u8(&mut out, 2);
            put_u64(&mut out, tick.0);
        },
        EventData::TickProcessed { tick, sim_time, entities_processed } => {
            put_u8(&mut out, 3);
            put_u64(&mut out, tick.0);
            put_u64(&mut out, sim_time.units);
            put_u32(&mut out, *entities_processed);
        },
        EventData::ZoneCreated { zone_id, name } => {
            put_u8(&mut out, 4);
            put_u32(&mut out, zone_id.0);
            put_opt_str(&mut out, name);
        },
        EventData::ZoneLoaded { zone_id } => {
            put_u8(&mut out, 5);
            put_u32(&mut out, zone_id.0);
        },
        EventData::ZoneUnloaded { zone_id } => {
            put_u8(&mut out, 6);
            put_u32(&mut out, zone_id.0);
        },
        EventData::EntitySpawned { entity_id, kind, position, properties } => {
            put_u8(&mut out, 7);
            put_u64(&mut out, entity_id.0);
            put_kind(&mut out, *kind);
            put_world_pos(&mut out, position);
            put_props(&mut out, properties);
        },
        EventData::EntityDespawned { entity_id, reason } => {
            put_u8(&mut out, 8);
            put_u64(&mut out, entity_id.0);
            put_reason(&mut out, *reason);
        },
        EventData::EntityMoved { entity_id, from, to } => {
            put_u8(&mut out, 9);
            put_u64(&mut out, entity_id.0);
            put_world_pos(&mut out, from);
            put_world_pos(&mut out, to);
        },
        EventData::EntityStateChanged { entity_id, old_state, new_state } => {
            put_u8(&mut out, 10);
            put_u64(&mut out, entity_id.0);
            put_state(&mut out, *old_state);
            put_state(&mut out, *new_state);
        },
        EventData::EntityPropertyChanged { entity_id, property, old_value, new_value } => {
            put_u8(&mut out, 11);
            put_u64(&mut out, entity_id.0);
            put_str(&mut out, property.as_str());
            put_property_value(&mut out, old_value);
            put_property_value(&mut out, new_value);
        },
        EventData::ResourceDepleted { entity_id, amount, remaining } => {
            put_u8(&mut out, 12);
            put_u64(&mut out, entity_id.0);
            put_u32(&mut out, *amount);
            put_u32(&mut out, *remaining);
        },
        EventData::EntityDegraded { entity_id, old_health, new_health } => {
            put_u8(&mut out, 13);
            put_u64(&mut out, entity_id.0);
            put_u32(&mut out, *old_health);
            put_u32(&mut out, *new_health);
        },
    }
    proof {
        assert(out@ =~= enc_event_data(d@));
    }
    out
}

/// Decode one event payload.
pub fn decode_event_data(buf: &[u8], off: usize) -> (r: Option<(EventData, usize)>)
    ensures
        match r {
            Some((d, o2)) => sdec_event_data(buf@, off as int) == Some((d@, o2 as int)),
            None => sdec_event_data(buf@, off as int) is None,
        },
{
    match dec_u8(buf, off) {
        Some((tag, o1)) => {
            if tag == 0 {
                match dec_str(buf, o1) {
                    Some((world_id, o2)) => match dec_str(buf, o2) {
                        Some((name, o3)) => match dec_u64(buf, o3) {
                            Some((seed, o4)) => Some(
                                (
                                    EventData::WorldCreated {
                                        world_id,
                                        name,
                                        seed: crate::types::RngSeed(seed),
                                    },
                                    o4,
                                ),
                            ),
                            None => None,
                        },
                        None => None,
                    },
                    None => None,
                }
            } else if tag == 1 {
                match dec_str(buf, o1) {
                    Some((world_id, o2)) => match dec_u64(buf, o2) {
                        Some((t, o3)) => Some(
                            (EventData::WorldLoaded { world_id, tick: Tick(t) }, o3),
                        ),
                        None => None,
                    },
                    None => None,
                }
            } else if tag == 2 {
                match dec_u64(buf, o1) {
                    Some((t, o2)) => Some((EventData::WorldSaved { tick: Tick(t) }, o2)),
                    None => None,
                }
            } else if tag == 3 {
                match dec_u64(buf, o1) {
                    Some((t, o2)) => match dec_u64(buf, o2) {
                        Some((st, o3)) => match dec_u32(buf, o3) {
                            Some((n, o4)) => Some(
                                (
                                    EventData::TickProcessed {
                                        tick: Tick(t),
                                        sim_time: crate::types::SimTime { units: st },
                                        entities_processed: n,
                                    },
                                    o4,
                                ),
                            ),
                            None => None,
                        },
                        None => None,
                    },
                    None => None,
                }
            } else if tag == 4 {
                match dec_u32(buf, o1) {
                    Some((z, o2)) => match dec_opt_str(buf, o2) {
                        Some((name, o3)) => Some(
                            (
                                EventData::ZoneCreated { zone_id: crate::types::ZoneId(z), name },
                                o3,
                            ),
                        ),
                        None => None,
                    },
                    None => None,
                }
            } else if tag == 5 {
                match dec_u32(buf, o1) {
                    Some((z, o2)) => Some(
                        (EventData::ZoneLoaded { zone_id: crate::types::ZoneId(z) }, o2),
                    ),
                    None => None,
                }
            } else if tag == 6 {
                match dec_u32(buf, o1) {
                    Some((z, o2)) => Some(
                        (EventData::ZoneUnloaded { zone_id: crate::types::ZoneId(z) }, o2),
                    ),
                    None => None,
                }
            } else if tag == 7 {
                match dec_u64(buf, o1) {
                    Some((id, o2)) => match dec_kind(buf, o2) {
                        Some((kind, o3)) => match dec_world_pos(buf, o3) {
                            Some((position, o4)) => match dec_props(buf, o4) {
                                Some((properties, o5)) => Some(
                                    (
                                        EventData::EntitySpawned {
                                            entity_id: crate::types::EntityId(id),
                                            kind,
                                            position,
                                            properties,
                                        },
                                        o5,
                                    ),
                                ),
                                None => None,
                            },
                            None => None,
                        },
                        None => None,
                    },
                    None => None,
                }
            } else if tag == 8 {
                match dec_u64(buf, o1) {
                    Some((id, o2)) => match dec_reason(buf, o2) {
                        Some((reason, o3)) => Some(
                            (
                                EventData::EntityDespawned {
                                    entity_id: crate::types::EntityId(id),
                                    reason,
                                },
                                o3,
                            ),
                        ),
                        None => None,
                    },
                    None => None,
                }
            } else if tag == 9 {
                match dec_u64(buf, o1) {
                    Some((id, o2)) => match dec_world_pos(buf, o2) {
                        Some((from, o3)) => match dec_world_pos(buf, o3) {
                            Some((to, o4)) => Some(
                                (
                                    EventData::EntityMoved {
                                        entity_id: crate::types::EntityId(id),
                                        from,
                                        to,
                                    },
                                    o4,
                                ),
                            ),
                            None => None,
                        },
                        None => None,
                    },
                    None => None,
                }
            } else if tag == 10 {
                match dec_u64(buf, o1) {
                    Some((id, o2)) => match dec_state(buf, o2) {
                        Some((old_state, o3)) => match dec_state(buf, o3) {
                            Some((new_state, o4)) => Some(
                                (
                                    EventData::EntityStateChanged {
                                        entity_id: crate::types::EntityId(id),
                                        old_state,
                                        new_state,
                                    },
                                    o4,
                                ),
                            ),
                            None => None,
                        },
                        None => None,
                    },
                    None => None,
                }
            } else if tag == 11 {
                match dec_u64(buf, o1) {
                    Some((id, o2)) => match dec_str(buf, o2) {
                        Some((property, o3)) => match dec_property_value(buf, o3) {
                            Some((old_value, o4)) => match dec_property_value(buf, o4) {
                                Some((new_value, o5)) => Some(
                                    (
                                        EventData::EntityPropertyChanged {
                                            entity_id: crate::types::EntityId(id),
                                            property,
                                            old_value,
                                            new_value,
                                        },
                                        o5,
                                    ),
                                ),
                                None => None,
                            },
                            None => None,
                        },
                        None => None,
                    },
                    None => None,
                }
            } else if tag == 12 {
                match dec_u64(buf, o1) {
                    Some((id, o2)) => match dec_u32(buf, o2) {
                        Some((amount, o3)) => match dec_u32(buf, o3) {
                            Some((remaining, o4)) => Some(
                                (
                                    EventData::ResourceDepleted {
                                        entity_id: crate::types::EntityId(id),
                                        amount,
                                        remaining,
                                    },
                                    o4,
                                ),
                            ),
                            None => None,
                        },
                        None => None,
                    },
                    None => None,
                }
            } else if tag == 13 {
                match dec_u64(buf, o1) {
                    Some((id, o2)) => match dec_u32(buf, o2) {
                        Some((old_health, o3)) => match dec_u32(buf, o3) {
                            Some((new_health, o4)) => Some(
                                (
                                    EventData::EntityDegraded {
                                        entity_id: crate::types::EntityId(id),
                                        old_health,
                                        new_health,
                                    },
                                    o4,
                                ),
                            ),
                            None => None,
                        },
                        None => None,
                    },
                    None => None,
                }
            } else {
                None
            }
        },
        None => None,
    }
}

// ============================================================================
// CRC32
// ============================================================================

/// The IEEE CRC-32 checksum of a byte sequence, as the `crc32fast` crate
/// computes it: a function of the bytes alone.
pub uninterp spec fn crc32_of(b: Seq<u8>) -> u32;

/// Relies on `crc32fast::hash`: the IEEE CRC-32 of the bytes, depending on
/// the bytes alone.
#[verifier::external_body]
fn crc32(bytes: &[u8]) -> (r: u32)
    ensures
        r == crc32_of(bytes@),
{
    crc32fast::hash(bytes)
}

// ============================================================================
// Record framing
// ============================================================================

/// The bytes of one WAL record around a given payload: header, payload,
/// and the CRC over both.
pub open spec fn record_bytes_raw(event_id: u64, tick: u64, payload: Seq<u8>) -> Seq<u8> {
    let head = enc_u32(WAL_MAGIC) + enc_u16(WAL_VERSION) + enc_u32(payload.len() as u32)
        + enc_u64(event_id) + enc_u64(tick);
    head + payload + enc_u32(crc32_of(head + payload))
}

/// The bytes of one WAL record carrying an event.
pub open spec fn record_bytes(ev: SimEventView) -> Seq<u8> {
    record_bytes_raw(ev.event_id.0, ev.tick.0, enc_event_data(ev.data))
}

/// The length of the record around a given payload.
pub open spec fn record_len_of(payload_len: nat) -> nat {
    (RECORD_HEADER_SIZE + payload_len + CRC_SIZE) as nat
}

/// Whether an event can be framed: its strings fit their length prefixes
/// and its payload length fits the record's length field.
pub open spec fn event_ok(ev: SimEventView) -> bool {
    &&& event_data_ok(ev.data)
    &&& enc_event_data(ev.data).len() <= u32::MAX
}

/// Decode one record: validate the magic, the version and the checksum,
/// then the payload, which must fill the record's length field exactly.
pub open spec fn sdec_record(b: Seq<u8>, off: int) -> Option<(SimEventView, int)> {
    match sdec_u32(b, off) {
        Some((magic, o1)) => {
            if magic != WAL_MAGIC {
                None
            } else {
                match sdec_u16(b, o1) {
                    Some((version, o2)) => {
                        if version != WAL_VERSION {
                            None
                        } else {
                            match sdec_u32(b, o2) {
                                Some((len, o3)) => match sdec_u64(b, o3) {
                                    Some((event_id, o4)) => match sdec_u64(b, o4) {
                                        Some((tick, o5)) => {
                                            let pay_end = o5 + len;
                                            match sdec_u32(b, pay_end) {
                                                Some((stored_crc, o6)) => {
                                                    if stored_crc != crc32_of(
                                                        b.subrange(off, pay_end),
                                                    ) {
                                                        None
                                                    } else {
                                                        match sdec_event_data(b, o5) {
                                                            Some((d, o_ev)) => {
                                                                if o_ev == pay_end {
                                                                    Some(
                                                                        (
                                                                            SimEventView {
                                                                                event_id: EventId(
                                                                                    event_id,
                                                                                ),
                                                                                tick: Tick(tick),
                                                                                data: d,
                                                                            },
                                                                            o6,
                                                                        ),
                                                                    )
                                                                } else {
                                                                    None
                                                                }
                                                            },
                                                            None => None,
                                                        }
                                                    }
                                                },
                                                None => None,
                                            }
                                        },
                                        None => None,
                                    },
                                    None => None,
                                },
                                None => None,
                            }
                        }
                    },
                    None => None,
                }
            }
        },
        None => None,
    }
}

/// Decoding at an offset where a record lies yields its event and steps
/// past the record.
pub proof fn lemma_sdec_record(b: Seq<u8>, off: int, ev: SimEventView)
    requires
        0 <= off,
        event_ok(ev),
        off + record_bytes(ev).len() <= b.len(),
        b.subrange(off, off + record_bytes(ev).len() as int) == record_bytes(ev),
    ensures
        record_bytes(ev).len() == record_len_of(enc_event_data(ev.data).len()),
        sdec_record(b, off) == Some((ev, off + record_bytes(ev).len())),
{
    lemma_enc_lens();
    let payload = enc_event_data(ev.data);
    let n = payload.len() as int;
    let head = enc_u32(WAL_MAGIC) + enc_u16(WAL_VERSION) + enc_u32(payload.len() as u32)
        + enc_u64(ev.event_id.0) + enc_u64(ev.tick.0);
    let e = record_bytes(ev);
    assert(e =~= head + payload + enc_u32(crc32_of(head + payload)));
    assert(b.subrange(off, off + 4) =~= e.subrange(0, 4));
    assert(e.subrange(0, 4) =~= enc_u32(WAL_MAGIC));
    lemma_sdec_enc_u32(b, off, WAL_MAGIC);
    assert(b.subrange(off + 4, off + 6) =~= e.subrange(4, 6));
    assert(e.subrange(4, 6) =~= enc_u16(WAL_VERSION));
    lemma_sdec_enc_u16(b, off + 4, WAL_VERSION);
    assert(b.subrange(off + 6, off + 10) =~= e.subrange(6, 10));
    assert(e.subrange(6, 10) =~= enc_u32(payload.len() as u32));
    lemma_sdec_enc_u32(b, off + 6, payload.len() as u32);
    assert(b.subrange(off + 10, off + 18) =~= e.subrange(10, 18));
    assert(e.subrange(10, 18) =~= enc_u64(ev.event_id.0));
    lemma_sdec_enc_u64(b, off + 10, ev.event_id.0);
    assert(b.subrange(off + 18, off + 26) =~= e.subrange(18, 26));
    assert(e.subrange(18, 26) =~= enc_u64(ev.tick.0));
    lemma_sdec_enc_u64(b, off + 18, ev.tick.0);
    assert(payload.len() as u32 as int == n);
    let pay_end = off + 26 + n;
    assert(b.subrange(off + 26, pay_end) =~= e.subrange(26, 26 + n));
    assert(e.subrange(26, 26 + n) =~= payload);
    assert(b.subrange(pay_end, pay_end + 4) =~= e.subrange(26 + n, 26 + n + 4));
    assert(e.subrange(26 + n, 26 + n + 4) =~= enc_u32(crc32_of(head + payload)));
    lemma_sdec_enc_u32(b, pay_end, crc32_of(head + payload));
    assert(b.subrange(off, pay_end) =~= head + payload);
    lemma_sdec_enc_event_data(b, off + 26, ev.data);
}

/// Encode one record around an already-encoded payload.
pub fn encode_record(event_id: u64, tick: u64, payload: &[u8]) -> (out: Vec<u8>)
    requires
        payload@.len() <= u32::MAX,
    ensures
        out@ == record_bytes_raw(event_id, tick, payload@),
{
    let mut head: Vec<u8> = Vec::new();
    put_u32(&mut head, WAL_MAGIC);
    put_u16(&mut head, WAL_VERSION);
    put_u32(&mut head, payload.len() as u32);
    put_u64(&mut head, event_id);
    put_u64(&mut head, tick);

    let mut out: Vec<u8> = Vec::new();
    out.extend_from_slice(head.as_slice());
    out.extend_from_slice(payload);
    let crc = crc32(out.as_slice());
    proof {
        let headv = enc_u32(WAL_MAGIC) + enc_u16(WAL_VERSION) + enc_u32(payload@.len() as u32)
            + enc_u64(event_id) + enc_u64(tick);
        assert(head@ =~= headv);
        assert(out@ =~= headv + payload@);
    }
    put_u32(&mut out, crc);
    proof {
        assert(out@ =~= record_bytes_raw(event_id, tick, payload@));
    }
    out
}

/// Decode one record at an offset.
pub fn decode_record_at(buf: &[u8], off: usize) -> (r: Option<(SimEvent, usize)>)
    ensures
        match r {
            Some((ev, o2)) => sdec_record(buf@, off as int) == Some((ev@, o2 as int)),
            None => sdec_record(buf@, off as int) is None,
        },
{
    match dec_u32(buf, off) {
        Some((magic, o1)) => {
            if magic != WAL_MAGIC {
                return None;
            }
            match dec_u16(buf, o1) {
                Some((version, o2)) => {
                    if version != WAL_VERSION {
                        return None;
                    }
                    match dec_u32(buf, o2) {
                        Some((len, o3)) => match dec_u64(buf, o3) {
                            Some((event_id, o4)) => match dec_u64(buf, o4) {
                                Some((tick, o5)) => {
                                    if (len as usize) > buf.len() - o5 {
                                        proof {
                                            assert(sdec_u32(buf@, o5 + len) is None);
                                        }
                                        return None;
                                    }
                                    let pay_end = o5 + (len as usize);
                                    match dec_u32(buf, pay_end) {
                                        Some((stored_crc, o6)) => {
                                            let computed = crc32(
                                                vstd::slice::slice_subrange(buf, off, pay_end),
                                            );
                                            if stored_crc != computed {
                                                return None;
                                            }
                                            match decode_event_data(buf, o5) {
                                                Some((d, o_ev)) => {
                                                    if o_ev == pay_end {
                                                        Some(
                                                            (
                                                                SimEvent {
                                                                    event_id: EventId(event_id),
                                                                    tick: Tick(tick),
                                                                    data: d,
                                                                },
                                                                o6,
                                                            ),
                                                        )
                                                    } else {
                                                        None
                                                    }
                                                },
                                                None => None,
                                            }
                                        },
                                        None => None,
                                    }
                                },
                                None => None,
                            },
                            None => None,
                        },
                        None => None,
                    }
                },
                None => None,
            }
        },
        None => None,
    }
}

// ============================================================================
// Recovery scan
// ============================================================================

/// Walk the log from an offset: the events of every valid record up to the
/// first failure, and the offset where the valid prefix ends.
pub open spec fn wal_scan(b: Seq<u8>, off: int) -> (Seq<SimEventView>, int)
    decreases b.len() - off
        when 0 <= off <= b.len()
{
    match sdec_record(b, off) {
        Some((ev, o2)) => {
            if off < o2 <= b.len() {
                let (rest, end) = wal_scan(b, o2);
                (seq![ev] + rest, end)
            } else {
                (Seq::empty(), off)
            }
        },
        None => (Seq::empty(), off),
    }
}

/// A successful record decode always lands strictly past where it started
/// and within the buffer.
pub proof fn lemma_sdec_record_advances(b: Seq<u8>, off: int)
    requires
        0 <= off,
        sdec_record(b, off) is Some,
    ensures
        off + 30 <= sdec_record(b, off).unwrap().1 <= b.len(),
{
}

/// Scan the log bytes: collect the events of every valid record and stop
/// at the first record that fails any check.  Returns the events and the
/// offset where the valid prefix ends; bytes past that offset are a torn
/// or corrupt tail.
pub fn recover_scan(buf: &[u8]) -> (r: (Vec<SimEvent>, usize))
    ensures
        r.0@.map_values(|e: SimEvent| e@) == wal_scan(buf@, 0).0,
        r.1 as int == wal_scan(buf@, 0).1,
        r.1 <= buf@.len(),
{
    let mut events: Vec<SimEvent> = Vec::new();
    let mut off: usize = 0;
    loop
        invariant
            0 <= off <= buf@.len(),
            wal_scan(buf@, 0).0 =~= events@.map_values(|e: SimEvent| e@) + wal_scan(
                buf@,
                off as int,
            ).0,
            wal_scan(buf@, 0).1 == wal_scan(buf@, off as int).1,
        decreases buf@.len() - off,
    {
        match decode_record_at(buf, off) {
            Some((ev, o2)) => {
                proof {
                    lemma_sdec_record_advances(buf@, off as int);
                    assert((events@ + seq![ev]).map_values(|e: SimEvent| e@) =~= events@.map_values(
                        |e: SimEvent| e@,
                    ) + seq![ev@]);
                }
                events.push(ev);
                off = o2;
            },
            None => {
                proof {
                    assert(wal_scan(buf@, off as int).0 =~= Seq::<SimEventView>::empty());
                    assert(events@.map_values(|e: SimEvent| e@) + Seq::<SimEventView>::empty()
                        =~= events@.map_values(|e: SimEvent| e@));
                }
                return (events, off);
            },
        }
    }
}

// ============================================================================
// Torn tails and corrupt records: what recovery makes of them
// ============================================================================

/// The log bytes of a sequence of events: their records, one after the
/// other.
pub open spec fn records_concat(evs: Seq<SimEventView>) -> Seq<u8>
    decreases evs.len(),
{
    if evs.len() == 0 {
        Seq::empty()
    } else {
        record_bytes(evs[0]) + records_concat(evs.drop_first())
    }
}

/// Every event of the sequence can be framed.
pub open spec fn events_ok(evs: Seq<SimEventView>) -> bool {
    forall|i: int| 0 <= i < evs.len() ==> event_ok(#[trigger] evs[i])
}

/// Appending one event appends its record.
pub proof fn lemma_records_concat_push(evs: Seq<SimEventView>, ev: SimEventView)
    ensures
        records_concat(evs.push(ev)) == records_concat(evs) + record_bytes(ev),
    decreases evs.len(),
{
    reveal_with_fuel(records_concat, 3);
    if evs.len() == 0 {
        assert(evs.push(ev)[0] == ev);
        assert(evs.push(ev).drop_first() =~= Seq::<SimEventView>::empty());
        assert(records_concat(evs.push(ev)) =~= records_concat(evs) + record_bytes(ev));
    } else {
        assert(evs.push(ev)[0] == evs[0]);
        assert(evs.push(ev).drop_first() =~= evs.drop_first().push(ev));
        lemma_records_concat_push(evs.drop_first(), ev);
        assert(records_concat(evs.push(ev)) =~= records_concat(evs) + record_bytes(ev));
    }
}

/// A strict prefix of a record never parses: either a fixed field runs
/// past the end of the buffer, or the checksum does.
#[verifier::spinoff_prover]
#[verifier::rlimit(60)]
pub proof fn lemma_sdec_record_torn(b: Seq<u8>, off: int, ev: SimEventView)
    requires
        0 <= off <= b.len(),
        event_ok(ev),
        b.len() < off + record_bytes(ev).len(),
        b.subrange(off, b.len() as int) == record_bytes(ev).take(b.len() - off),
    ensures
        sdec_record(b, off) is None,
{
    lemma_enc_lens();
    let rec = record_bytes(ev);
    let payload = enc_event_data(ev.data);
    let n = payload.len() as int;
    let keep = b.len() - off;
    let head = enc_u32(WAL_MAGIC) + enc_u16(WAL_VERSION) + enc_u32(payload.len() as u32)
        + enc_u64(ev.event_id.0) + enc_u64(ev.tick.0);
    assert(rec =~= head + payload + enc_u32(crc32_of(head + payload)));
    assert(rec.len() == 30 + n);
    assert forall|j: int| 0 <= j < keep implies b[off + j] == rec[j] by {
        assert(b.subrange(off, b.len() as int)[j] == b[off + j]);
        assert(rec.take(keep)[j] == rec[j]);
    }
    if keep < 4 {
    } else {
        assert(b.subrange(off, off + 4) =~= rec.subrange(0, 4));
        assert(rec.subrange(0, 4) =~= enc_u32(WAL_MAGIC));
        lemma_sdec_enc_u32(b, off, WAL_MAGIC);
        if keep < 6 {
        } else {
            assert(b.subrange(off + 4, off + 6) =~= rec.subrange(4, 6));
            assert(rec.subrange(4, 6) =~= enc_u16(WAL_VERSION));
            lemma_sdec_enc_u16(b, off + 4, WAL_VERSION);
            if keep < 10 {
            } else {
                assert(b.subrange(off + 6, off + 10) =~= rec.subrange(6, 10));
                assert(rec.subrange(6, 10) =~= enc_u32(payload.len() as u32));
                lemma_sdec_enc_u32(b, off + 6, payload.len() as u32);
                if keep < 18 {
                } else {
                    assert(b.subrange(off + 10, off + 18) =~= rec.subrange(10, 18));
                    assert(rec.subrange(10, 18) =~= enc_u64(ev.event_id.0));
                    lemma_sdec_enc_u64(b, off + 10, ev.event_id.0);
                    if keep < 26 {
                    } else {
                        assert(b.subrange(off + 18, off + 26) =~= rec.subrange(18, 26));
                        assert(rec.subrange(18, 26) =~= enc_u64(ev.tick.0));
                        lemma_sdec_enc_u64(b, off + 18, ev.tick.0);
                        // the checksum would sit past the end of the buffer
                        assert(off + 26 + n + 4 > b.len());
                        assert(sdec_u32(b, off + 26 + n) is None);
                    }
                }
            }
        }
    }
}

/// Scanning a buffer that holds exactly these records, followed by
/// anything at which a record decode fails, yields exactly these events
/// and ends where the records end.
#[verifier::spinoff_prover]
#[verifier::rlimit(100)]
pub proof fn lemma_scan_of_records(b: Seq<u8>, off: int, evs: Seq<SimEventView>)
    requires
        0 <= off,
        events_ok(evs),
        off + records_concat(evs).len() <= b.len(),
        b.subrange(off, off + records_concat(evs).len() as int) == records_concat(evs),
        sdec_record(b, off + records_concat(evs).len() as int) is None,
    ensures
        wal_scan(b, off) == (evs, off + records_concat(evs).len() as int),
    decreases evs.len(),
{
    if evs.len() == 0 {
        assert(evs =~= Seq::<SimEventView>::empty());
    } else {
        let e = records_concat(evs);
        let r0 = record_bytes(evs[0]);
        let n0 = r0.len() as int;
        assert(b.subrange(off, off + n0) =~= e.subrange(0, n0));
        assert(e.subrange(0, n0) =~= r0);
        lemma_sdec_record(b, off, evs[0]);
        assert(b.subrange(off + n0, off + e.len() as int) =~= e.subrange(n0, e.len() as int));
        assert(e.subrange(n0, e.len() as int) =~= records_concat(evs.drop_first()));
        lemma_scan_of_records(b, off + n0, evs.drop_first());
        assert(seq![evs[0]] + evs.drop_first() =~= evs);
    }
}

/// Torn-write tolerance: append events, then tear any strict, non-empty
/// amount off the last record; recovery yields exactly the earlier events
/// and ends exactly where their records end.
pub proof fn lemma_torn_tail_recovery(evs: Seq<SimEventView>, cut: int)
    requires
        evs.len() > 0,
        events_ok(evs),
        0 < cut < record_bytes(evs.last()).len(),
    ensures
        ({
            let full = records_concat(evs);
            let torn = full.take(full.len() - cut);
            wal_scan(torn, 0) == (
                evs.drop_last(),
                records_concat(evs.drop_last()).len() as int,
            )
        }),
{
    let full = records_concat(evs);
    let prefix = records_concat(evs.drop_last());
    let last_rec = record_bytes(evs.last());
    lemma_records_concat_push(evs.drop_last(), evs.last());
    assert(evs.drop_last().push(evs.last()) =~= evs);
    assert(full == prefix + last_rec);
    let torn = full.take(full.len() - cut);
    assert(torn.len() == prefix.len() + last_rec.len() - cut);
    assert(torn.subrange(0, prefix.len() as int) =~= prefix);
    assert(torn.subrange(prefix.len() as int, torn.len() as int) =~= last_rec.take(
        last_rec.len() - cut,
    ));
    lemma_sdec_record_torn(torn, prefix.len() as int, evs.last());
    assert(events_ok(evs.drop_last())) by {
        assert forall|i: int| 0 <= i < evs.drop_last().len() implies event_ok(
            #[trigger] evs.drop_last()[i],
        ) by {
            assert(evs.drop_last()[i] == evs[i]);
        }
    }
    lemma_scan_of_records(torn, 0, evs.drop_last());
}

/// A record whose payload was altered in one place, and whose altered
/// bytes no longer match the stored checksum, never parses.
///
/// That a single changed byte always changes the CRC-32 is a property of
/// the checksum itself and stands outside this proof; the change in the
/// checksum enters as the hypothesis.
#[verifier::spinoff_prover]
#[verifier::rlimit(60)]
pub proof fn lemma_sdec_record_corrupt(b: Seq<u8>, off: int, ev: SimEventView, pos: int, v: u8)
    requires
        0 <= off,
        event_ok(ev),
        26 <= pos < 26 + enc_event_data(ev.data).len(),
        off + record_bytes(ev).len() <= b.len(),
        b.subrange(off, off + record_bytes(ev).len() as int) == record_bytes(ev).update(pos, v),
        crc32_of(record_bytes(ev).update(pos, v).take(26 + enc_event_data(ev.data).len() as int))
            != crc32_of(record_bytes(ev).take(26 + enc_event_data(ev.data).len() as int)),
    ensures
        sdec_record(b, off) is None,
{
    lemma_enc_lens();
    let rec = record_bytes(ev);
    let payload = enc_event_data(ev.data);
    let n = payload.len() as int;
    let m = rec.update(pos, v);
    let head = enc_u32(WAL_MAGIC) + enc_u16(WAL_VERSION) + enc_u32(payload.len() as u32)
        + enc_u64(ev.event_id.0) + enc_u64(ev.tick.0);
    assert(rec =~= head + payload + enc_u32(crc32_of(head + payload)));
    assert(rec.len() == 30 + n);
    assert forall|j: int| 0 <= j < rec.len() implies b[off + j] == m[j] by {
        assert(b.subrange(off, off + rec.len() as int)[j] == b[off + j]);
    }
    assert forall|j: int| 0 <= j < rec.len() && j != pos implies b[off + j] == rec[j] by {
        assert(m[j] == rec[j]);
    }

    assert(b.subrange(off, off + 4) =~= rec.subrange(0, 4));
    assert(rec.subrange(0, 4) =~= enc_u32(WAL_MAGIC));
    lemma_sdec_enc_u32(b, off, WAL_MAGIC);
    assert(b.subrange(off + 4, off + 6) =~= rec.subrange(4, 6));
    assert(rec.subrange(4, 6) =~= enc_u16(WAL_VERSION));
    lemma_sdec_enc_u16(b, off + 4, WAL_VERSION);
    assert(b.subrange(off + 6, off + 10) =~= rec.subrange(6, 10));
    assert(rec.subrange(6, 10) =~= enc_u32(payload.len() as u32));
    lemma_sdec_enc_u32(b, off + 6, payload.len() as u32);
    assert(b.subrange(off + 10, off + 18) =~= rec.subrange(10, 18));
    assert(rec.subrange(10, 18) =~= enc_u64(ev.event_id.0));
    lemma_sdec_enc_u64(b, off + 10, ev.event_id.0);
    assert(b.subrange(off + 18, off + 26) =~= rec.subrange(18, 26));
    assert(rec.subrange(18, 26) =~= enc_u64(ev.tick.0));
    lemma_sdec_enc_u64(b, off + 18, ev.tick.0);

    let pay_end = off + 26 + n;
    assert(b.subrange(pay_end, pay_end + 4) =~= rec.subrange(26 + n, 30 + n));
    assert(rec.subrange(26 + n, 30 + n) =~= enc_u32(crc32_of(head + payload)));
    lemma_sdec_enc_u32(b, pay_end, crc32_of(head + payload));
    assert(b.subrange(off, pay_end) =~= m.take(26 + n));
    assert(rec.take(26 + n) =~= head + payload);
}

/// The length of a record: its header, its payload, and its checksum.
proof fn proof_record_len(ev: SimEventView)
    ensures
        record_bytes(ev).len() == 30 + enc_event_data(ev.data).len(),
{
    lemma_enc_lens();
    let payload = enc_event_data(ev.data);
    let head = enc_u32(WAL_MAGIC) + enc_u16(WAL_VERSION) + enc_u32(payload.len() as u32)
        + enc_u64(ev.event_id.0) + enc_u64(ev.tick.0);
    assert(record_bytes(ev) =~= head + payload + enc_u32(crc32_of(head + payload)));
}

/// CRC integrity at the scan level: alter one payload byte of one record
/// in a log (in a way the checksum notices, as CRC-32 always does for a
/// single byte); recovery yields exactly the records before it.
pub proof fn lemma_crc_detects_corruption(
    evs: Seq<SimEventView>,
    k: int,
    pos: int,
    v: u8,
    rest: Seq<u8>,
)
    requires
        events_ok(evs),
        0 <= k < evs.len(),
        26 <= pos < 26 + enc_event_data(evs[k].data).len(),
        crc32_of(
            record_bytes(evs[k]).update(pos, v).take(
                26 + enc_event_data(evs[k].data).len() as int,
            ),
        ) != crc32_of(record_bytes(evs[k]).take(26 + enc_event_data(evs[k].data).len() as int)),
    ensures
        ({
            let b = records_concat(evs.take(k)) + record_bytes(evs[k]).update(pos, v) + rest;
            wal_scan(b, 0) == (evs.take(k), records_concat(evs.take(k)).len() as int)
        }),
{
    let prefix = records_concat(evs.take(k));
    let rec = record_bytes(evs[k]);
    let payload = enc_event_data(evs[k].data);
    proof_record_len(evs[k]);
    let mrec = rec.update(pos, v);
    assert(mrec.len() == rec.len());
    let b = prefix + mrec + rest;
    assert(b.subrange(0, prefix.len() as int) =~= prefix);
    assert(b.subrange(prefix.len() as int, prefix.len() + mrec.len() as int) =~= mrec);
    assert(b.subrange(prefix.len() as int, prefix.len() + rec.len() as int) =~= rec.update(
        pos,
        v,
    ));
    lemma_sdec_record_corrupt(b, prefix.len() as int, evs[k], pos, v);
    assert(events_ok(evs.take(k))) by {
        assert forall|i: int| 0 <= i < evs.take(k).len() implies event_ok(
            #[trigger] evs.take(k)[i],
        ) by {
            assert(evs.take(k)[i] == evs[i]);
        }
    }
    lemma_scan_of_records(b, 0, evs.take(k));
}

} // verus!
