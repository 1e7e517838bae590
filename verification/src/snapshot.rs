//! The snapshot codec: a stable binary encoding of the whole world.
//!
//! A snapshot round-trips the world losslessly: decoding an encoded world
//! yields a world with the same mathematical value (see
//! [`lemma_world_codec_roundtrip`]).  The format version travels inside
//! the metadata, so future layouts can migrate on load.

use vstd::prelude::*;

use vstd::utf8::encode_utf8;

use crate::codec::{dec_kind, dec_opt_str, dec_props, dec_state, dec_str, dec_u32,
    dec_u64, dec_world_pos, enc_kind, enc_opt_str, enc_props, enc_state, enc_str, enc_u32,
    enc_u64, enc_u8, enc_world_pos, lemma_enc_lens, lemma_sdec_enc_kind, lemma_sdec_enc_opt_str,
    lemma_sdec_enc_props, lemma_sdec_enc_state, lemma_sdec_enc_str, lemma_sdec_enc_u32,
    lemma_sdec_enc_u64, lemma_sdec_enc_world_pos, opt_str_ok, put_kind, put_opt_str, put_props,
    put_state, put_str, put_u32, put_u64, put_world_pos, sdec_kind, sdec_opt_str, sdec_props,
    sdec_state, sdec_str, sdec_u32, sdec_u64, sdec_world_pos};
use crate::types::{EntityId, EventId, MetaView, RngSeed, SimTime, Tick, WorldMeta, ZoneId};
use crate::world::{Entity, EntityView, World, WorldView, Zone, ZoneView};

verus! {

// ============================================================================
// Metadata codec
// ============================================================================

/// The encoding of world metadata.
pub open spec fn enc_meta(m: MetaView) -> Seq<u8> {
    enc_str(m.world_id) + enc_str(m.name) + enc_u64(m.seed.0) + enc_u64(m.current_tick.0)
        + enc_u64(m.sim_time.units) + enc_u64(m.created_tick.0) + enc_u64(m.snapshot_tick.0)
        + enc_u64(m.last_event_id.0) + enc_u32(m.format_version)
}

/// Whether the metadata's strings fit their length prefixes.
pub open spec fn meta_ok(m: MetaView) -> bool {
    encode_utf8(m.world_id).len() <= u64::MAX && encode_utf8(m.name).len() <= u64::MAX
}

/// Decode world metadata.
pub open spec fn sdec_meta(b: Seq<u8>, off: int) -> Option<(MetaView, int)> {
    match sdec_str(b, off) {
        Some((world_id, o1)) => match sdec_str(b, o1) {
            Some((name, o2)) => match sdec_u64(b, o2) {
                Some((seed, o3)) => match sdec_u64(b, o3) {
                    Some((ct, o4)) => match sdec_u64(b, o4) {
                        Some((st, o5)) => match sdec_u64(b, o5) {
                            Some((crt, o6)) => match sdec_u64(b, o6) {
                                Some((snt, o7)) => match sdec_u64(b, o7) {
                                    Some((lei, o8)) => match sdec_u32(b, o8) {
                                        Some((fv, o9)) => Some(
                                            (
                                                MetaView {
                                                    world_id,
                                                    name,
                                                    seed: RngSeed(seed),
                                                    current_tick: Tick(ct),
                                                    sim_time: SimTime { units: st },
                                                    created_tick: Tick(crt),
                                                    snapshot_tick: Tick(snt),
                                                    last_event_id: EventId(lei),
                                                    format_version: fv,
                                                },
                                                o9,
                                            ),
                                        ),
                                        None => None,
                                    },
                                    None => None,
                                },
                                None => None,
                            },
                            None => None,
                        },
                        None => None,
                    },
                    None => None,
                },
                None => None,
            },
            None => None,
        },
        None => None,
    }
}

#[verifier::spinoff_prover]
pub proof fn lemma_sdec_enc_meta(b: Seq<u8>, off: int, m: MetaView)
    requires
        0 <= off,
        meta_ok(m),
        off + enc_meta(m).len() <= b.len(),
        b.subrange(off, off + enc_meta(m).len() as int) == enc_meta(m),
    ensures
        sdec_meta(b, off) == Some((m, off + enc_meta(m).len())),
{
    lemma_enc_lens();
    let e = enc_meta(m);
    let n1 = enc_str(m.world_id).len() as int;
    let n2 = enc_str(m.name).len() as int;
    assert(b.subrange(off, off + n1) =~= e.subrange(0, n1));
    assert(e.subrange(0, n1) =~= enc_str(m.world_id));
    lemma_sdec_enc_str(b, off, m.world_id);
    assert(b.subrange(off + n1, off + n1 + n2) =~= e.subrange(n1, n1 + n2));
    assert(e.subrange(n1, n1 + n2) =~= enc_str(m.name));
    lemma_sdec_enc_str(b, off + n1, m.name);
    let o2 = off + n1 + n2;
    assert(b.subrange(o2, o2 + 8) =~= e.subrange(n1 + n2, n1 + n2 + 8));
    assert(e.subrange(n1 + n2, n1 + n2 + 8) =~= enc_u64(m.seed.0));
    lemma_sdec_enc_u64(b, o2, m.seed.0);
    assert(b.subrange(o2 + 8, o2 + 16) =~= e.subrange(n1 + n2 + 8, n1 + n2 + 16));
    assert(e.subrange(n1 + n2 + 8, n1 + n2 + 16) =~= enc_u64(m.current_tick.0));
    lemma_sdec_enc_u64(b, o2 + 8, m.current_tick.0);
    assert(b.subrange(o2 + 16, o2 + 24) =~= e.subrange(n1 + n2 + 16, n1 + n2 + 24));
    assert(e.subrange(n1 + n2 + 16, n1 + n2 + 24) =~= enc_u64(m.sim_time.units));
    lemma_sdec_enc_u64(b, o2 + 16, m.sim_time.units);
    assert(b.subrange(o2 + 24, o2 + 32) =~= e.subrange(n1 + n2 + 24, n1 + n2 + 32));
    assert(e.subrange(n1 + n2 + 24, n1 + n2 + 32) =~= enc_u64(m.created_tick.0));
    lemma_sdec_enc_u64(b, o2 + 24, m.created_tick.0);
    assert(b.subrange(o2 + 32, o2 + 40) =~= e.subrange(n1 + n2 + 32, n1 + n2 + 40));
    assert(e.subrange(n1 + n2 + 32, n1 + n2 + 40) =~= enc_u64(m.snapshot_tick.0));
    lemma_sdec_enc_u64(b, o2 + 32, m.snapshot_tick.0);
    assert(b.subrange(o2 + 40, o2 + 48) =~= e.subrange(n1 + n2 + 40, n1 + n2 + 48));
    assert(e.subrange(n1 + n2 + 40, n1 + n2 + 48) =~= enc_u64(m.last_event_id.0));
    lemma_sdec_enc_u64(b, o2 + 40, m.last_event_id.0);
    assert(b.subrange(o2 + 48, o2 + 52) =~= e.subrange(n1 + n2 + 48, n1 + n2 + 52));
    assert(e.subrange(n1 + n2 + 48, n1 + n2 + 52) =~= enc_u32(m.format_version));
    lemma_sdec_enc_u32(b, o2 + 48, m.format_version);
}

/// Encode world metadata.
pub fn put_meta(out: &mut Vec<u8>, m: &WorldMeta)
    ensures
        final(out)@ == old(out)@ + enc_meta(m@),
{
    put_str(out, m.world_id.as_str());
    put_str(out, m.name.as_str());
    put_u64(out, m.seed.0);
    put_u64(out, m.current_tick.0);
    put_u64(out, m.sim_time.units);
    put_u64(out, m.created_tick.0);
    put_u64(out, m.snapshot_tick.0);
    put_u64(out, m.last_event_id.0);
    put_u32(out, m.format_version);
    proof {
        assert(final(out)@ =~= old(out)@ + enc_meta(m@));
    }
}

/// Decode world metadata.
pub fn dec_meta(buf: &[u8], off: usize) -> (r: Option<(WorldMeta, usize)>)
    ensures
        match r {
            Some((m, o2)) => sdec_meta(buf@, off as int) == Some((m@, o2 as int)),
            None => sdec_meta(buf@, off as int) is None,
        },
{
    match dec_str(buf, off) {
        Some((world_id, o1)) => match dec_str(buf, o1) {
            Some((name, o2)) => match dec_u64(buf, o2) {
                Some((seed, o3)) => match dec_u64(buf, o3) {
                    Some((ct, o4)) => match dec_u64(buf, o4) {
                        Some((st, o5)) => match dec_u64(buf, o5) {
                            Some((crt, o6)) => match dec_u64(buf, o6) {
                                Some((snt, o7)) => match dec_u64(buf, o7) {
                                    Some((lei, o8)) => match dec_u32(buf, o8) {
                                        Some((fv, o9)) => Some(
                                            (
                                                WorldMeta {
                                                    world_id,
                                                    name,
                                                    seed: RngSeed(seed),
                                                    current_tick: Tick(ct),
                                                    sim_time: SimTime { units: st },
                                                    created_tick: Tick(crt),
                                                    snapshot_tick: Tick(snt),
                                                    last_event_id: EventId(lei),
                                                    format_version: fv,
                                                },
                                                o9,
                                            ),
                                        ),
                                        None => None,
                                    },
                                    None => None,
                                },
                                None => None,
                            },
                            None => None,
                        },
                        None => None,
                    },
                    None => None,
                },
                None => None,
            },
            None => None,
        },
        None => None,
    }
}

// ============================================================================
// Entity and zone codecs
// ============================================================================

/// The encoding of one entity.
pub open spec fn enc_entity(e: EntityView) -> Seq<u8> {
    enc_u64(e.id.0) + enc_kind(e.kind) + enc_state(e.state) + enc_world_pos(e.position) + enc_u64(
        e.created_at.0,
    ) + enc_props(e.properties)
}

/// Whether the entity's name, if any, fits its length prefix.
pub open spec fn entity_ok(e: EntityView) -> bool {
    opt_str_ok(e.properties.name)
}

/// Decode one entity.
pub open spec fn sdec_entity(b: Seq<u8>, off: int) -> Option<(EntityView, int)> {
    match sdec_u64(b, off) {
        Some((id, o1)) => match sdec_kind(b, o1) {
            Some((kind, o2)) => match sdec_state(b, o2) {
                Some((state, o3)) => match sdec_world_pos(b, o3) {
                    Some((position, o4)) => match sdec_u64(b, o4) {
                        Some((created, o5)) => match sdec_props(b, o5) {
                            Some((properties, o6)) => Some(
                                (
                                    EntityView {
                                        id: EntityId(id),
                                        kind,
                                        state,
                                        position,
                                        created_at: Tick(created),
                                        properties,
                                    },
                                    o6,
                                ),
                            ),
                            None => None,
                        },
                        None => None,
                    },
                    None => None,
                },
                None => None,
            },
            None => None,
        },
        None => None,
    }
}

#[verifier::spinoff_prover]
pub proof fn lemma_sdec_enc_entity(b: Seq<u8>, off: int, e: EntityView)
    requires
        0 <= off,
        entity_ok(e),
        off + enc_entity(e).len() <= b.len(),
        b.subrange(off, off + enc_entity(e).len() as int) == enc_entity(e),
    ensures
        sdec_entity(b, off) == Some((e, off + enc_entity(e).len())),
{
    lemma_enc_lens();
    let en = enc_entity(e);
    assert(b.subrange(off, off + 8) =~= en.subrange(0, 8));
    assert(en.subrange(0, 8) =~= enc_u64(e.id.0));
    lemma_sdec_enc_u64(b, off, e.id.0);
    assert(b.subrange(off + 8, off + 9) =~= en.subrange(8, 9));
    assert(en.subrange(8, 9) =~= enc_kind(e.kind));
    lemma_sdec_enc_kind(b, off + 8, e.kind);
    assert(b.subrange(off + 9, off + 10) =~= en.subrange(9, 10));
    assert(en.subrange(9, 10) =~= enc_state(e.state));
    lemma_sdec_enc_state(b, off + 9, e.state);
    assert(b.subrange(off + 10, off + 26) =~= en.subrange(10, 26));
    assert(en.subrange(10, 26) =~= enc_world_pos(e.position));
    lemma_sdec_enc_world_pos(b, off + 10, e.position);
    assert(b.subrange(off + 26, off + 34) =~= en.subrange(26, 34));
    assert(en.subrange(26, 34) =~= enc_u64(e.created_at.0));
    lemma_sdec_enc_u64(b, off + 26, e.created_at.0);
    let np = enc_props(e.properties).len() as int;
    assert(b.subrange(off + 34, off + 34 + np) =~= en.subrange(34, 34 + np));
    assert(en.subrange(34, 34 + np) =~= enc_props(e.properties));
    lemma_sdec_enc_props(b, off + 34, e.properties);
}

/// The concatenated encodings of a sequence of entities.
pub open spec fn enc_entity_list(s: Seq<EntityView>) -> Seq<u8>
    decreases s.len(),
{
    if s.len() == 0 {
        Seq::empty()
    } else {
        enc_entity(s[0]) + enc_entity_list(s.drop_first())
    }
}

/// Decode a fixed number of entities.
pub open spec fn sdec_entity_list(b: Seq<u8>, off: int, n: nat) -> Option<(Seq<EntityView>, int)>
    decreases n,
{
    if n == 0 {
        Some((Seq::empty(), off))
    } else {
        match sdec_entity(b, off) {
            Some((e, o2)) => match sdec_entity_list(b, o2, (n - 1) as nat) {
                Some((rest, o3)) => Some((seq![e] + rest, o3)),
                None => None,
            },
            None => None,
        }
    }
}

/// Every entity in the sequence can be encoded.
pub open spec fn entities_ok(s: Seq<EntityView>) -> bool {
    forall|i: int| 0 <= i < s.len() ==> entity_ok(#[trigger] s[i])
}

pub proof fn lemma_sdec_enc_entity_list(b: Seq<u8>, off: int, s: Seq<EntityView>)
    requires
        0 <= off,
        entities_ok(s),
        off + enc_entity_list(s).len() <= b.len(),
        b.subrange(off, off + enc_entity_list(s).len() as int) == enc_entity_list(s),
    ensures
        sdec_entity_list(b, off, s.len()) == Some((s, off + enc_entity_list(s).len())),
    decreases s.len(),
{
    if s.len() == 0 {
        assert(s =~= Seq::<EntityView>::empty());
    } else {
        let e = enc_entity_list(s);
        let n1 = enc_entity(s[0]).len() as int;
        assert(b.subrange(off, off + n1) =~= e.subrange(0, n1));
        assert(e.subrange(0, n1) =~= enc_entity(s[0]));
        lemma_sdec_enc_entity(b, off, s[0]);
        assert(b.subrange(off + n1, off + e.len() as int) =~= e.subrange(n1, e.len() as int));
        assert(e.subrange(n1, e.len() as int) =~= enc_entity_list(s.drop_first()));
        lemma_sdec_enc_entity_list(b, off + n1, s.drop_first());
        assert(seq![s[0]] + s.drop_first() =~= s);
    }
}

/// Appending one entity to a list appends its encoding.
pub proof fn lemma_enc_entity_list_push(s: Seq<EntityView>, e: EntityView)
    ensures
        enc_entity_list(s.push(e)) == enc_entity_list(s) + enc_entity(e),
    decreases s.len(),
{
    reveal_with_fuel(enc_entity_list, 3);
    if s.len() == 0 {
        assert(s.push(e)[0] == e);
        assert(s.push(e).drop_first() =~= Seq::<EntityView>::empty());
        assert(enc_entity_list(s.push(e)) =~= enc_entity(e));
        assert(enc_entity_list(s) + enc_entity(e) =~= enc_entity(e));
    } else {
        assert(s.push(e)[0] == s[0]);
        assert(s.push(e).drop_first() =~= s.drop_first().push(e));
        lemma_enc_entity_list_push(s.drop_first(), e);
        assert(enc_entity_list(s.push(e)) =~= enc_entity_list(s) + enc_entity(e));
    }
}

/// The encoding of one zone: id, name, loaded flag, then the member list
/// with its length.
pub open spec fn enc_zone(z: ZoneView) -> Seq<u8> {
    enc_u32(z.id.0) + enc_opt_str(z.name) + enc_u8(if z.loaded {
        1u8
    } else {
        0u8
    }) + enc_u64(z.entities.len() as u64) + enc_id_list(z.entities)
}

/// The concatenated encodings of the member ids.
pub open spec fn enc_id_list(s: Seq<EntityId>) -> Seq<u8>
    decreases s.len(),
{
    if s.len() == 0 {
        Seq::empty()
    } else {
        enc_u64(s[0].0) + enc_id_list(s.drop_first())
    }
}

/// Whether the zone can be encoded.
pub open spec fn zone_ok(z: ZoneView) -> bool {
    opt_str_ok(z.name) && z.entities.len() <= u64::MAX
}

/// Decode a fixed number of member ids.
pub open spec fn sdec_id_list(b: Seq<u8>, off: int, n: nat) -> Option<(Seq<EntityId>, int)>
    decreases n,
{
    if n == 0 {
        Some((Seq::empty(), off))
    } else {
        match sdec_u64(b, off) {
            Some((id, o2)) => match sdec_id_list(b, o2, (n - 1) as nat) {
                Some((rest, o3)) => Some((seq![EntityId(id)] + rest, o3)),
                None => None,
            },
            None => None,
        }
    }
}

/// Decode one zone.
pub open spec fn sdec_zone(b: Seq<u8>, off: int) -> Option<(ZoneView, int)> {
    match sdec_u32(b, off) {
        Some((id, o1)) => match sdec_opt_str(b, o1) {
            Some((name, o2)) => match crate::codec::sdec_u8(b, o2) {
                Some((loaded, o3)) => if loaded == 0 || loaded == 1 {
                    match sdec_u64(b, o3) {
                        Some((n, o4)) => match sdec_id_list(b, o4, n as nat) {
                            Some((members, o5)) => Some(
                                (
                                    ZoneView {
                                        id: ZoneId(id),
                                        name,
                                        loaded: loaded == 1,
                                        entities: members,
                                    },
                                    o5,
                                ),
                            ),
                            None => None,
                        },
                        None => None,
                    }
                } else {
                    None
                },
                None => None,
            },
            None => None,
        },
        None => None,
    }
}

pub proof fn lemma_sdec_enc_id_list(b: Seq<u8>, off: int, s: Seq<EntityId>)
    requires
        0 <= off,
        off + enc_id_list(s).len() <= b.len(),
        b.subrange(off, off + enc_id_list(s).len() as int) == enc_id_list(s),
    ensures
        sdec_id_list(b, off, s.len()) == Some((s, off + enc_id_list(s).len())),
    decreases s.len(),
{
    lemma_enc_lens();
    if s.len() == 0 {
        assert(s =~= Seq::<EntityId>::empty());
    } else {
        let e = enc_id_list(s);
        assert(b.subrange(off, off + 8) =~= e.subrange(0, 8));
        assert(e.subrange(0, 8) =~= enc_u64(s[0].0));
        lemma_sdec_enc_u64(b, off, s[0].0);
        assert(b.subrange(off + 8, off + e.len() as int) =~= e.subrange(8, e.len() as int));
        assert(e.subrange(8, e.len() as int) =~= enc_id_list(s.drop_first()));
        lemma_sdec_enc_id_list(b, off + 8, s.drop_first());
        assert(seq![s[0]] + s.drop_first() =~= s);
    }
}

/// Appending one id to a list appends its encoding.
pub proof fn lemma_enc_id_list_push(s: Seq<EntityId>, id: EntityId)
    ensures
        enc_id_list(s.push(id)) == enc_id_list(s) + enc_u64(id.0),
    decreases s.len(),
{
    reveal_with_fuel(enc_id_list, 3);
    if s.len() == 0 {
        assert(s.push(id)[0] == id);
        assert(s.push(id).drop_first() =~= Seq::<EntityId>::empty());
        assert(enc_id_list(s.push(id)) =~= enc_id_list(s) + enc_u64(id.0));
    } else {
        assert(s.push(id)[0] == s[0]);
        assert(s.push(id).drop_first() =~= s.drop_first().push(id));
        lemma_enc_id_list_push(s.drop_first(), id);
        assert(enc_id_list(s.push(id)) =~= enc_id_list(s) + enc_u64(id.0));
    }
}

#[verifier::spinoff_prover]
pub proof fn lemma_sdec_enc_zone(b: Seq<u8>, off: int, z: ZoneView)
    requires
        0 <= off,
        zone_ok(z),
        off + enc_zone(z).len() <= b.len(),
        b.subrange(off, off + enc_zone(z).len() as int) == enc_zone(z),
    ensures
        sdec_zone(b, off) == Some((z, off + enc_zone(z).len())),
{
    lemma_enc_lens();
    let e = enc_zone(z);
    let n1 = enc_opt_str(z.name).len() as int;
    assert(b.subrange(off, off + 4) =~= e.subrange(0, 4));
    assert(e.subrange(0, 4) =~= enc_u32(z.id.0));
    lemma_sdec_enc_u32(b, off, z.id.0);
    assert(b.subrange(off + 4, off + 4 + n1) =~= e.subrange(4, 4 + n1));
    assert(e.subrange(4, 4 + n1) =~= enc_opt_str(z.name));
    lemma_sdec_enc_opt_str(b, off + 4, z.name);
    let o3 = off + 4 + n1;
    let lb: u8 = if z.loaded {
        1u8
    } else {
        0u8
    };
    assert(b.subrange(o3, o3 + 1) =~= e.subrange(4 + n1, 4 + n1 + 1));
    assert(e.subrange(4 + n1, 4 + n1 + 1) =~= crate::codec::enc_u8(lb));
    crate::codec::lemma_sdec_enc_u8(b, o3, lb);
    assert(b.subrange(o3 + 1, o3 + 9) =~= e.subrange(4 + n1 + 1, 4 + n1 + 9));
    assert(e.subrange(4 + n1 + 1, 4 + n1 + 9) =~= enc_u64(z.entities.len() as u64));
    lemma_sdec_enc_u64(b, o3 + 1, z.entities.len() as u64);
    let nl = enc_id_list(z.entities).len() as int;
    assert(b.subrange(o3 + 9, o3 + 9 + nl) =~= e.subrange(4 + n1 + 9, 4 + n1 + 9 + nl));
    assert(e.subrange(4 + n1 + 9, 4 + n1 + 9 + nl) =~= enc_id_list(z.entities));
    lemma_sdec_enc_id_list(b, o3 + 9, z.entities);
}

/// The concatenated encodings of a sequence of zones.
pub open spec fn enc_zone_list(s: Seq<ZoneView>) -> Seq<u8>
    decreases s.len(),
{
    if s.len() == 0 {
        Seq::empty()
    } else {
        enc_zone(s[0]) + enc_zone_list(s.drop_first())
    }
}

/// Decode a fixed number of zones.
pub open spec fn sdec_zone_list(b: Seq<u8>, off: int, n: nat) -> Option<(Seq<ZoneView>, int)>
    decreases n,
{
    if n == 0 {
        Some((Seq::empty(), off))
    } else {
        match sdec_zone(b, off) {
            Some((z, o2)) => match sdec_zone_list(b, o2, (n - 1) as nat) {
                Some((rest, o3)) => Some((seq![z] + rest, o3)),
                None => None,
            },
            None => None,
        }
    }
}

/// Every zone in the sequence can be encoded.
pub open spec fn zones_ok(s: Seq<ZoneView>) -> bool {
    forall|i: int| 0 <= i < s.len() ==> zone_ok(#[trigger] s[i])
}

pub proof fn lemma_sdec_enc_zone_list(b: Seq<u8>, off: int, s: Seq<ZoneView>)
    requires
        0 <= off,
        zones_ok(s),
        off + enc_zone_list(s).len() <= b.len(),
        b.subrange(off, off + enc_zone_list(s).len() as int) == enc_zone_list(s),
    ensures
        sdec_zone_list(b, off, s.len()) == Some((s, off + enc_zone_list(s).len())),
    decreases s.len(),
{
    if s.len() == 0 {
        assert(s =~= Seq::<ZoneView>::empty());
    } else {
        let e = enc_zone_list(s);
        let n1 = enc_zone(s[0]).len() as int;
        assert(b.subrange(off, off + n1) =~= e.subrange(0, n1));
        assert(e.subrange(0, n1) =~= enc_zone(s[0]));
        lemma_sdec_enc_zone(b, off, s[0]);
        assert(b.subrange(off + n1, off + e.len() as int) =~= e.subrange(n1, e.len() as int));
        assert(e.subrange(n1, e.len() as int) =~= enc_zone_list(s.drop_first()));
        lemma_sdec_enc_zone_list(b, off + n1, s.drop_first());
        assert(seq![s[0]] + s.drop_first() =~= s);
    }
}

/// Appending one zone to a list appends its encoding.
pub proof fn lemma_enc_zone_list_push(s: Seq<ZoneView>, z: ZoneView)
    ensures
        enc_zone_list(s.push(z)) == enc_zone_list(s) + enc_zone(z),
    decreases s.len(),
{
    reveal_with_fuel(enc_zone_list, 3);
    if s.len() == 0 {
        assert(s.push(z)[0] == z);
        assert(s.push(z).drop_first() =~= Seq::<ZoneView>::empty());
        assert(enc_zone_list(s.push(z)) =~= enc_zone_list(s) + enc_zone(z));
    } else {
        assert(s.push(z)[0] == s[0]);
        assert(s.push(z).drop_first() =~= s.drop_first().push(z));
        lemma_enc_zone_list_push(s.drop_first(), z);
        assert(enc_zone_list(s.push(z)) =~= enc_zone_list(s) + enc_zone(z));
    }
}

// ============================================================================
// Whole-world codec
// ============================================================================

/// The snapshot encoding of a world.
pub open spec fn enc_world(w: WorldView) -> Seq<u8> {
    enc_meta(w.meta) + enc_u64(w.current_tick.0) + enc_u64(w.sim_time.units) + enc_u64(w.rng_state)
        + enc_u64(w.next_entity_id) + enc_u64(w.entities.len() as u64) + enc_entity_list(
        w.entities,
    ) + enc_u64(w.zones.len() as u64) + enc_zone_list(w.zones)
}

/// Whether the world can be encoded: every string fits its length prefix
/// and the collection counts fit their fields.
pub open spec fn world_ok(w: WorldView) -> bool {
    &&& meta_ok(w.meta)
    &&& entities_ok(w.entities)
    &&& zones_ok(w.zones)
    &&& w.entities.len() <= u64::MAX
    &&& w.zones.len() <= u64::MAX
}

/// Decode a world.
pub open spec fn sdec_world(b: Seq<u8>, off: int) -> Option<(WorldView, int)> {
    match sdec_meta(b, off) {
        Some((meta, o1)) => match sdec_u64(b, o1) {
            Some((ct, o2)) => match sdec_u64(b, o2) {
                Some((st, o3)) => match sdec_u64(b, o3) {
                    Some((rng, o4)) => match sdec_u64(b, o4) {
                        Some((next, o5)) => match sdec_u64(b, o5) {
                            Some((ne, o6)) => match sdec_entity_list(b, o6, ne as nat) {
                                Some((entities, o7)) => match sdec_u64(b, o7) {
                                    Some((nz, o8)) => match sdec_zone_list(b, o8, nz as nat) {
                                        Some((zones, o9)) => Some(
                                            (
                                                WorldView {
                                                    meta,
                                                    current_tick: Tick(ct),
                                                    sim_time: SimTime { units: st },
                                                    rng_state: rng,
                                                    next_entity_id: next,
                                                    entities,
                                                    zones,
                                                },
                                                o9,
                                            ),
                                        ),
                                        None => None,
                                    },
                                    None => None,
                                },
                                None => None,
                            },
                            None => None,
                        },
                        None => None,
                    },
                    None => None,
                },
                None => None,
            },
            None => None,
        },
        None => None,
    }
}

#[verifier::spinoff_prover]
#[verifier::rlimit(50)]
pub proof fn lemma_sdec_enc_world(b: Seq<u8>, off: int, w: WorldView)
    requires
        0 <= off,
        world_ok(w),
        off + enc_world(w).len() <= b.len(),
        b.subrange(off, off + enc_world(w).len() as int) == enc_world(w),
    ensures
        sdec_world(b, off) == Some((w, off + enc_world(w).len())),
{
    lemma_enc_lens();
    let e = enc_world(w);
    let nm = enc_meta(w.meta).len() as int;
    assert(b.subrange(off, off + nm) =~= e.subrange(0, nm));
    assert(e.subrange(0, nm) =~= enc_meta(w.meta));
    lemma_sdec_enc_meta(b, off, w.meta);
    let o1 = off + nm;
    assert(b.subrange(o1, o1 + 8) =~= e.subrange(nm, nm + 8));
    assert(e.subrange(nm, nm + 8) =~= enc_u64(w.current_tick.0));
    lemma_sdec_enc_u64(b, o1, w.current_tick.0);
    assert(b.subrange(o1 + 8, o1 + 16) =~= e.subrange(nm + 8, nm + 16));
    assert(e.subrange(nm + 8, nm + 16) =~= enc_u64(w.sim_time.units));
    lemma_sdec_enc_u64(b, o1 + 8, w.sim_time.units);
    assert(b.subrange(o1 + 16, o1 + 24) =~= e.subrange(nm + 16, nm + 24));
    assert(e.subrange(nm + 16, nm + 24) =~= enc_u64(w.rng_state));
    lemma_sdec_enc_u64(b, o1 + 16, w.rng_state);
    assert(b.subrange(o1 + 24, o1 + 32) =~= e.subrange(nm + 24, nm + 32));
    assert(e.subrange(nm + 24, nm + 32) =~= enc_u64(w.next_entity_id));
    lemma_sdec_enc_u64(b, o1 + 24, w.next_entity_id);
    assert(b.subrange(o1 + 32, o1 + 40) =~= e.subrange(nm + 32, nm + 40));
    assert(e.subrange(nm + 32, nm + 40) =~= enc_u64(w.entities.len() as u64));
    lemma_sdec_enc_u64(b, o1 + 32, w.entities.len() as u64);
    let nel = enc_entity_list(w.entities).len() as int;
    let o6 = o1 + 40;
    assert(b.subrange(o6, o6 + nel) =~= e.subrange(nm + 40, nm + 40 + nel));
    assert(e.subrange(nm + 40, nm + 40 + nel) =~= enc_entity_list(w.entities));
    lemma_sdec_enc_entity_list(b, o6, w.entities);
    let o7 = o6 + nel;
    assert(b.subrange(o7, o7 + 8) =~= e.subrange(nm + 40 + nel, nm + 48 + nel));
    assert(e.subrange(nm + 40 + nel, nm + 48 + nel) =~= enc_u64(w.zones.len() as u64));
    lemma_sdec_enc_u64(b, o7, w.zones.len() as u64);
    let nzl = enc_zone_list(w.zones).len() as int;
    let o8 = o7 + 8;
    assert(b.subrange(o8, o8 + nzl) =~= e.subrange(nm + 48 + nel, nm + 48 + nel + nzl));
    assert(e.subrange(nm + 48 + nel, nm + 48 + nel + nzl) =~= enc_zone_list(w.zones));
    lemma_sdec_enc_zone_list(b, o8, w.zones);
}

/// Decoding an encoded world yields an equal world: the snapshot format
/// loses nothing.
pub proof fn lemma_world_codec_roundtrip(w: WorldView)
    requires
        world_ok(w),
    ensures
        sdec_world(enc_world(w), 0) == Some((w, enc_world(w).len() as int)),
{
    let b = enc_world(w);
    assert(b.subrange(0, b.len() as int) =~= b);
    lemma_sdec_enc_world(b, 0, w);
}

impl World {
    /// Serialize to snapshot bytes.
    pub fn to_bytes(&self) -> (r: Result<Vec<u8>, String>)
        ensures
            match r {
                Ok(out) => out@ == enc_world(self@),
                Err(_) => false,
            },
    {
        let mut out: Vec<u8> = Vec::new();
        put_meta(&mut out, &self.meta);
        put_u64(&mut out, self.current_tick.0);
        put_u64(&mut out, self.sim_time.units);
        put_u64(&mut out, self.rng_state);
        put_u64(&mut out, self.next_entity_id);
        put_u64(&mut out, self.entities.len() as u64);
        let ghost prefix = out@;
        let mut i: usize = 0;
        while i < self.entities.len()
            invariant
                0 <= i <= self.entities.len(),
                out@ == prefix + enc_entity_list(self@.entities.take(i as int)),
            decreases self.entities.len() - i,
        {
            proof {
                lemma_enc_entity_list_push(
                    self@.entities.take(i as int),
                    self@.entities[i as int],
                );
                assert(self@.entities.take(i + 1) =~= self@.entities.take(i as int).push(
                    self@.entities[i as int],
                ));
            }
            let e = &self.entities[i];
            put_u64(&mut out, e.id.0);
            put_kind(&mut out, e.kind);
            put_state(&mut out, e.state);
            put_world_pos(&mut out, &e.position);
            put_u64(&mut out, e.created_at.0);
            put_props(&mut out, &e.properties);
            proof {
                assert(out@ =~= prefix + enc_entity_list(self@.entities.take(i + 1)));
            }
            i = i + 1;
        }
        proof {
            assert(self@.entities.take(self@.entities.len() as int) =~= self@.entities);
        }
        put_u64(&mut out, self.zones.len() as u64);
        let ghost prefix2 = out@;
        let mut j: usize = 0;
        while j < self.zones.len()
            invariant
                0 <= j <= self.zones.len(),
                out@ == prefix2 + enc_zone_list(self@.zones.take(j as int)),
            decreases self.zones.len() - j,
        {
            proof {
                lemma_enc_zone_list_push(self@.zones.take(j as int), self@.zones[j as int]);
                assert(self@.zones.take(j + 1) =~= self@.zones.take(j as int).push(
                    self@.zones[j as int],
                ));
            }
            let z = &self.zones[j];
            put_u32(&mut out, z.id.0);
            put_opt_str(&mut out, &z.name);
            crate::codec::put_u8(&mut out, if z.loaded {
                1
            } else {
                0
            });
            put_u64(&mut out, z.entities.len() as u64);
            let ghost zprefix = out@;
            let mut k: usize = 0;
            while k < z.entities.len()
                invariant
                    0 <= k <= z.entities.len(),
                    out@ == zprefix + enc_id_list(z@.entities.take(k as int)),
                decreases z.entities.len() - k,
            {
                proof {
                    lemma_enc_id_list_push(z@.entities.take(k as int), z@.entities[k as int]);
                    assert(z@.entities.take(k + 1) =~= z@.entities.take(k as int).push(
                        z@.entities[k as int],
                    ));
                }
                put_u64(&mut out, z.entities[k].0);
                proof {
                    assert(out@ =~= zprefix + enc_id_list(z@.entities.take(k + 1)));
                }
                k = k + 1;
            }
            proof {
                assert(z@.entities.take(z@.entities.len() as int) =~= z@.entities);
                assert(out@ =~= prefix2 + enc_zone_list(self@.zones.take(j + 1)));
            }
            j = j + 1;
        }
        proof {
            assert(self@.zones.take(self@.zones.len() as int) =~= self@.zones);
            assert(out@ =~= enc_world(self@));
        }
        Ok(out)
    }

    /// Deserialize from snapshot bytes; fails on anything that is not a
    /// complete encoded world.
    pub fn from_bytes(data: &[u8]) -> (r: Result<World, String>)
        ensures
            match r {
                Ok(w) => sdec_world(data@, 0) == Some((w@, data@.len() as int)),
                Err(_) => !(sdec_world(data@, 0) matches Some((wv, end)) && end == data@.len()),
            },
    {
        match dec_world(data, 0) {
            Some((w, end)) => {
                if end == data.len() {
                    Ok(w)
                } else {
                    Err(String::from_str("snapshot has trailing bytes"))
                }
            },
            None => Err(String::from_str("snapshot decode failed")),
        }
    }
}

/// Decode a world value from a buffer.
pub fn dec_world(buf: &[u8], off: usize) -> (r: Option<(World, usize)>)
    ensures
        match r {
            Some((w, o2)) => sdec_world(buf@, off as int) == Some((w@, o2 as int)),
            None => sdec_world(buf@, off as int) is None,
        },
{
    let meta_r = dec_meta(buf, off);
    match meta_r {
        Some((meta, o1)) => match dec_u64(buf, o1) {
            Some((ct, o2)) => match dec_u64(buf, o2) {
                Some((st, o3)) => match dec_u64(buf, o3) {
                    Some((rng, o4)) => match dec_u64(buf, o4) {
                        Some((next, o5)) => match dec_u64(buf, o5) {
                            Some((ne, o6)) => match dec_entity_vec(buf, o6, ne) {
                                Some((entities, o7)) => match dec_u64(buf, o7) {
                                    Some((nz, o8)) => match dec_zone_vec(buf, o8, nz) {
                                        Some((zones, o9)) => Some(
                                            (
                                                World {
                                                    meta,
                                                    current_tick: Tick(ct),
                                                    sim_time: SimTime { units: st },
                                                    rng_state: rng,
                                                    next_entity_id: next,
                                                    entities,
                                                    zones,
                                                },
                                                o9,
                                            ),
                                        ),
                                        None => None,
                                    },
                                    None => None,
                                },
                                None => None,
                            },
                            None => None,
                        },
                        None => None,
                    },
                    None => None,
                },
                None => None,
            },
            None => None,
        },
        None => None,
    }
}

/// Decode one entity value.
fn dec_entity(buf: &[u8], off: usize) -> (r: Option<(Entity, usize)>)
    ensures
        match r {
            Some((e, o2)) => sdec_entity(buf@, off as int) == Some((e@, o2 as int)),
            None => sdec_entity(buf@, off as int) is None,
        },
{
    match dec_u64(buf, off) {
        Some((id, o1)) => match dec_kind(buf, o1) {
            Some((kind, o2)) => match dec_state(buf, o2) {
                Some((state, o3)) => match dec_world_pos(buf, o3) {
                    Some((position, o4)) => match dec_u64(buf, o4) {
                        Some((created, o5)) => match dec_props(buf, o5) {
                            Some((properties, o6)) => Some(
                                (
                                    Entity {
                                        id: EntityId(id),
                                        kind,
                                        state,
                                        position,
                                        created_at: Tick(created),
                                        properties,
                                    },
                                    o6,
                                ),
                            ),
                            None => None,
                        },
                        None => None,
                    },
                    None => None,
                },
                None => None,
            },
            None => None,
        },
        None => None,
    }
}

/// Decode a counted list of entities.
fn dec_entity_vec(buf: &[u8], off: usize, n: u64) -> (r: Option<(Vec<Entity>, usize)>)
    ensures
        match r {
            Some((v, o2)) => sdec_entity_list(buf@, off as int, n as nat) == Some(
                (v@.map_values(|e: Entity| e@), o2 as int),
            ),
            None => sdec_entity_list(buf@, off as int, n as nat) is None,
        },
{
    let mut out: Vec<Entity> = Vec::new();
    let mut cur: usize = off;
    let mut remaining: u64 = n;
    loop
        invariant
            remaining <= n,
            sdec_entity_list(buf@, off as int, n as nat) == (match sdec_entity_list(
                buf@,
                cur as int,
                remaining as nat,
            ) {
                Some((rest, end)) => Some(
                    (out@.map_values(|e: Entity| e@) + rest, end),
                ),
                None => None::<(Seq<EntityView>, int)>,
            }),
        decreases remaining,
    {
        if remaining == 0 {
            proof {
                assert(out@.map_values(|e: Entity| e@) + Seq::<EntityView>::empty()
                    =~= out@.map_values(|e: Entity| e@));
            }
            return Some((out, cur));
        }
        match dec_entity(buf, cur) {
            Some((e, o2)) => {
                proof {
                    assert((out@ + seq![e]).map_values(|x: Entity| x@) =~= out@.map_values(
                        |x: Entity| x@,
                    ) + seq![e@]);
                }
                out.push(e);
                proof {
                    let rest0 = sdec_entity_list(buf@, o2 as int, (remaining - 1) as nat);
                    if rest0 is Some {
                        assert(seq![e@] + rest0.unwrap().0 =~= (out@.map_values(|x: Entity| x@)
                            + rest0.unwrap().0).skip(out@.len() - 1));
                    }
                }
                cur = o2;
                remaining = remaining - 1;
            },
            None => {
                return None;
            },
        }
    }
}

/// Decode one zone value.
fn dec_zone(buf: &[u8], off: usize) -> (r: Option<(Zone, usize)>)
    ensures
        match r {
            Some((z, o2)) => sdec_zone(buf@, off as int) == Some((z@, o2 as int)),
            None => sdec_zone(buf@, off as int) is None,
        },
{
    match dec_u32(buf, off) {
        Some((id, o1)) => match dec_opt_str(buf, o1) {
            Some((name, o2)) => match crate::codec::dec_u8(buf, o2) {
                Some((loaded, o3)) => {
                    if loaded == 0 || loaded == 1 {
                        match dec_u64(buf, o3) {
                            Some((nv, o4)) => match dec_id_vec(buf, o4, nv) {
                                Some((members, o5)) => Some(
                                    (
                                        Zone {
                                            id: ZoneId(id),
                                            name,
                                            loaded: loaded == 1,
                                            entities: members,
                                        },
                                        o5,
                                    ),
                                ),
                                None => None,
                            },
                            None => None,
                        }
                    } else {
                        None
                    }
                },
                None => None,
            },
            None => None,
        },
        None => None,
    }
}

/// Decode a counted list of entity ids.
fn dec_id_vec(buf: &[u8], off: usize, n: u64) -> (r: Option<(Vec<EntityId>, usize)>)
    ensures
        match r {
            Some((v, o2)) => sdec_id_list(buf@, off as int, n as nat) == Some((v@, o2 as int)),
            None => sdec_id_list(buf@, off as int, n as nat) is None,
        },
{
    let mut out: Vec<EntityId> = Vec::new();
    let mut cur: usize = off;
    let mut remaining: u64 = n;
    loop
        invariant
            remaining <= n,
            sdec_id_list(buf@, off as int, n as nat) == (match sdec_id_list(
                buf@,
                cur as int,
                remaining as nat,
            ) {
                Some((rest, end)) => Some((out@ + rest, end)),
                None => None::<(Seq<EntityId>, int)>,
            }),
        decreases remaining,
    {
        if remaining == 0 {
            proof {
                assert(out@ + Seq::<EntityId>::empty() =~= out@);
            }
            return Some((out, cur));
        }
        match dec_u64(buf, cur) {
            Some((id, o2)) => {
                proof {
                    let rest0 = sdec_id_list(buf@, o2 as int, (remaining - 1) as nat);
                    if rest0 is Some {
                        assert(out@ + (seq![EntityId(id)] + rest0.unwrap().0) =~= (out@.push(
                            EntityId(id),
                        )) + rest0.unwrap().0);
                    }
                }
                out.push(EntityId(id));
                cur = o2;
                remaining = remaining - 1;
            },
            None => {
                return None;
            },
        }
    }
}

/// Decode a counted list of zones.
fn dec_zone_vec(buf: &[u8], off: usize, n: u64) -> (r: Option<(Vec<Zone>, usize)>)
    ensures
        match r {
            Some((v, o2)) => sdec_zone_list(buf@, off as int, n as nat) == Some(
                (v@.map_values(|z: Zone| z@), o2 as int),
            ),
            None => sdec_zone_list(buf@, off as int, n as nat) is None,
        },
{
    let mut out: Vec<Zone> = Vec::new();
    let mut cur: usize = off;
    let mut remaining: u64 = n;
    loop
        invariant
            remaining <= n,
            sdec_zone_list(buf@, off as int, n as nat) == (match sdec_zone_list(
                buf@,
                cur as int,
                remaining as nat,
            ) {
                Some((rest, end)) => Some((out@.map_values(|z: Zone| z@) + rest, end)),
                None => None::<(Seq<ZoneView>, int)>,
            }),
        decreases remaining,
    {
        if remaining == 0 {
            proof {
                assert(out@.map_values(|z: Zone| z@) + Seq::<ZoneView>::empty()
                    =~= out@.map_values(|z: Zone| z@));
            }
            return Some((out, cur));
        }
        match dec_zone(buf, cur) {
            Some((z, o2)) => {
                proof {
                    assert((out@ + seq![z]).map_values(|x: Zone| x@) =~= out@.map_values(
                        |x: Zone| x@,
                    ) + seq![z@]);
                }
                out.push(z);
                cur = o2;
                remaining = remaining - 1;
            },
            None => {
                return None;
            },
        }
    }
}

} // verus!
