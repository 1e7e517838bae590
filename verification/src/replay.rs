//! Event replay: the pure state-mutation function behind crash recovery.
//!
//! `apply_event` reconstructs world state from recorded events.  It is a
//! deterministic fold: no I/O, no randomness, no clock.  Applying an event
//! that references a missing entity or zone is a harmless no-op, and
//! re-applying an event that already took effect leaves the world unchanged
//! (see [`lemma_apply_event_idempotent`]).

use vstd::prelude::*;
use vstd::string::StringExecFns;

use crate::events::{EventData, EventDataView, PropertyValue, SimEvent, SimEventView};
use crate::types::EntityState;
use crate::world::{entities_sorted, find_entity, find_zone, has_entity, has_zone, degrade_fn,
    deplete_fn, lemma_find_insert_entity, lemma_find_insert_zone, lemma_find_remove_entity,
    lemma_find_update_entity, lemma_find_update_zone, lemma_find_update_zone_other,
    lemma_update_entity_same, lemma_update_zone_same, ne_entity, set_amount_fn, set_health_fn,
    set_name_fn, set_position_fn, set_state_fn, update_zone, zones_sorted,
    lemma_find_entity_id, lemma_find_zone_id, Entity, EntityView, World,
    WorldView, ZoneView, Zone};

verus! {

/// The world after one event is applied.
///
/// The tick is first fast-forwarded to the event's tick (never rewound);
/// then the event's own effect is applied.
pub open spec fn apply_event_model(w0: WorldView, ev: SimEventView) -> WorldView {
    let w = w0.fast_forward_model(ev.tick);
    match ev.data {
        EventDataView::WorldCreated { .. } => w,
        EventDataView::WorldLoaded { .. } => w,
        EventDataView::WorldSaved { .. } => w,
        EventDataView::TickProcessed { tick, sim_time, .. } => {
            if tick.0 > w.current_tick.0 {
                WorldView {
                    current_tick: tick,
                    sim_time,
                    meta: crate::types::MetaView { current_tick: tick, sim_time, ..w.meta },
                    ..w
                }
            } else {
                w
            }
        },
        EventDataView::ZoneCreated { zone_id, name } => {
            if has_zone(w.zones, zone_id.0) {
                w
            } else {
                w.add_zone_model(
                    ZoneView { id: zone_id, name, loaded: true, entities: Seq::empty() },
                )
            }
        },
        EventDataView::ZoneLoaded { zone_id } => w.set_zone_loaded_model(zone_id, true),
        EventDataView::ZoneUnloaded { zone_id } => w.set_zone_loaded_model(zone_id, false),
        EventDataView::EntitySpawned { entity_id, kind, position, properties } => {
            if has_entity(w.entities, entity_id.0) {
                w
            } else {
                let w1 = if entity_id.0 >= w.next_entity_id {
                    WorldView {
                        next_entity_id: if entity_id.0 == u64::MAX {
                            u64::MAX
                        } else {
                            (entity_id.0 + 1) as u64
                        },
                        ..w
                    }
                } else {
                    w
                };
                w1.add_entity_model(
                    EntityView {
                        id: entity_id,
                        kind,
                        state: EntityState::Active,
                        position,
                        created_at: ev.tick,
                        properties,
                    },
                )
            }
        },
        EventDataView::EntityDespawned { entity_id, .. } => w.remove_entity_model(entity_id),
        EventDataView::EntityMoved { entity_id, from, to } => w.move_entity_model(
            entity_id,
            from,
            to,
        ),
        EventDataView::EntityStateChanged { entity_id, new_state, .. } => w.with_entity(
            entity_id,
            set_state_fn(new_state),
        ),
        EventDataView::EntityPropertyChanged { entity_id, property, new_value, .. } => {
            if property == "name"@ {
                match new_value {
                    crate::events::PropertyValueView::String(s) => w.with_entity(
                        entity_id,
                        set_name_fn(s),
                    ),
                    _ => w,
                }
            } else if property == "amount"@ {
                match new_value {
                    crate::events::PropertyValueView::UInt(v) => w.with_entity(
                        entity_id,
                        set_amount_fn(v as u32),
                    ),
                    _ => w,
                }
            } else if property == "health"@ {
                match new_value {
                    crate::events::PropertyValueView::UInt(v) => w.with_entity(
                        entity_id,
                        set_health_fn(v as u32),
                    ),
                    _ => w,
                }
            } else {
                w
            }
        },
        EventDataView::ResourceDepleted { entity_id, remaining, .. } => w.with_entity(
            entity_id,
            deplete_fn(remaining),
        ),
        EventDataView::EntityDegraded { entity_id, new_health, .. } => w.with_entity(
            entity_id,
            degrade_fn(new_health),
        ),
    }
}

/// The world after a sequence of events is applied in order.
pub open spec fn replay_model(w: WorldView, evs: Seq<SimEventView>) -> WorldView
    decreases evs.len(),
{
    if evs.len() == 0 {
        w
    } else {
        replay_model(apply_event_model(w, evs[0]), evs.drop_first())
    }
}

/// Appending one more event to a replay applies it to the folded state.
pub proof fn lemma_replay_model_push(w: WorldView, evs: Seq<SimEventView>, ev: SimEventView)
    ensures
        replay_model(w, evs.push(ev)) == apply_event_model(replay_model(w, evs), ev),
    decreases evs.len(),
{
    reveal_with_fuel(replay_model, 3);
    if evs.len() == 0 {
        assert(evs.push(ev).drop_first() =~= Seq::<SimEventView>::empty());
        assert(evs.push(ev)[0] == ev);
    } else {
        assert(evs.push(ev)[0] == evs[0]);
        assert(evs.push(ev).drop_first() =~= evs.drop_first().push(ev));
        lemma_replay_model_push(apply_event_model(w, evs[0]), evs.drop_first(), ev);
    }
}

/// Apply a single event to the world state.
///
/// Deterministic and total: every event variant is handled, a missing
/// referent is a no-op, and the call always succeeds.
pub fn apply_event(world: &mut World, event: &SimEvent) -> (r: Result<(), String>)
    ensures
        r is Ok,
        final(world)@ == apply_event_model(old(world)@, event@),
{
    world.fast_forward(event.tick);

    match &event.data {
        EventData::WorldCreated { .. } => Ok(()),
        EventData::WorldLoaded { .. } => Ok(()),
        EventData::WorldSaved { .. } => Ok(()),
        EventData::TickProcessed { tick, sim_time, .. } => {
            if tick.0 > world.current_tick.0 {
                world.current_tick = *tick;
                world.sim_time = *sim_time;
                world.meta.current_tick = *tick;
                world.meta.sim_time = *sim_time;
            }
            Ok(())
        },
        EventData::ZoneCreated { zone_id, name } => {
            if !world.has_zone(*zone_id) {
                let name_copy: Option<String> = match name {
                    Some(s) => Some(s.clone()),
                    None => None,
                };
                let zone = Zone::new(*zone_id, name_copy);
                world.add_zone(zone);
            }
            Ok(())
        },
        EventData::ZoneLoaded { zone_id } => {
            world.set_zone_loaded(*zone_id, true);
            Ok(())
        },
        EventData::ZoneUnloaded { zone_id } => {
            world.set_zone_loaded(*zone_id, false);
            Ok(())
        },
        EventData::EntitySpawned { entity_id, kind, position, properties } => {
            let present = match world.get_entity(*entity_id) {
                Some(_) => true,
                None => false,
            };
            if !present {
                if entity_id.0 >= world.next_entity_id {
                    world.next_entity_id = entity_id.0.saturating_add(1);
                }
                let entity = Entity::new(
                    *entity_id,
                    *kind,
                    *position,
                    event.tick,
                    properties.clone(),
                );
                world.add_entity(entity);
            }
            Ok(())
        },
        EventData::EntityDespawned { entity_id, .. } => {
            world.remove_entity(*entity_id);
            Ok(())
        },
        EventData::EntityMoved { entity_id, from, to } => {
            world.move_entity(*entity_id, *from, *to);
            Ok(())
        },
        EventData::EntityStateChanged { entity_id, new_state, .. } => {
            world.set_entity_state(*entity_id, *new_state);
            Ok(())
        },
        EventData::EntityPropertyChanged { entity_id, property, new_value, .. } => {
            if *property == String::from_str("name") {
                if let PropertyValue::String(s) = new_value {
                    world.set_entity_name(*entity_id, s.clone());
                }
            } else if *property == String::from_str("amount") {
                if let PropertyValue::UInt(v) = new_value {
                    world.set_entity_amount(*entity_id, *v as u32);
                }
            } else if *property == String::from_str("health") {
                if let PropertyValue::UInt(v) = new_value {
                    world.set_entity_health(*entity_id, *v as u32);
                }
            }
            Ok(())
        },
        EventData::ResourceDepleted { entity_id, remaining, .. } => {
            world.deplete_entity(*entity_id, *remaining);
            Ok(())
        },
        EventData::EntityDegraded { entity_id, new_health, .. } => {
            world.degrade_entity(*entity_id, *new_health);
            Ok(())
        },
    }
}

/// Replay a sequence of events in order; every event applies, so the count
/// of successes is the length of the slice.
pub fn replay_events(world: &mut World, events: &Vec<SimEvent>) -> (n: usize)
    ensures
        n == events@.len(),
        final(world)@ == replay_model(old(world)@, events@.map_values(|e: SimEvent| e@)),
{
    let ghost evs = events@.map_values(|e: SimEvent| e@);
    let mut applied: usize = 0;
    let mut i: usize = 0;
    while i < events.len()
        invariant
            0 <= i <= events.len(),
            applied == i,
            evs == events@.map_values(|e: SimEvent| e@),
            world@ == replay_model(old(world)@, evs.take(i as int)),
        decreases events.len() - i,
    {
        proof {
            assert(evs.take(i + 1) =~= evs.take(i as int).push(evs[i as int]));
            lemma_replay_model_push(old(world)@, evs.take(i as int), evs[i as int]);
        }
        let r = apply_event(world, &events[i]);
        if r.is_ok() {
            applied = applied + 1;
        }
        i = i + 1;
    }
    proof {
        assert(evs.take(evs.len() as int) =~= evs);
    }
    applied
}

// ============================================================================
// Replay idempotence
// ============================================================================

/// A sequence whose members all satisfy a predicate is its own filtrate.
proof fn lemma_filter_all<A>(s: Seq<A>, pred: spec_fn(A) -> bool)
    requires
        forall|i: int| 0 <= i < s.len() ==> pred(#[trigger] s[i]),
    ensures
        s.filter(pred) =~= s,
    decreases s.len(),
{
    reveal(Seq::filter);
    if s.len() > 0 {
        lemma_filter_all(s.drop_last(), pred);
    }
}

/// Removing a member twice is the same as removing it once.
proof fn lemma_remove_member_idem(z: ZoneView, id: crate::types::EntityId)
    ensures
        z.remove_member(id).remove_member(id) == z.remove_member(id),
{
    let kept = z.entities.filter(ne_entity(id));
    assert forall|i: int| 0 <= i < kept.len() implies ne_entity(id)(#[trigger] kept[i]) by {
        z.entities.lemma_filter_pred(ne_entity(id), i);
    }
    lemma_filter_all(kept, ne_entity(id));
}

/// Adding a member twice is the same as adding it once.
proof fn lemma_add_member_idem(z: ZoneView, id: crate::types::EntityId)
    ensures
        z.add_member(id).add_member(id) == z.add_member(id),
{
    if !z.entities.contains(id) {
        assert(z.entities.push(id)[z.entities.len() as int] == id);
        assert(z.entities.push(id).contains(id));
    }
}

/// Transforming the same entity in place twice, with a transformer that is
/// idempotent and keeps the id, is the same as transforming it once.
proof fn lemma_with_entity_idem(w: WorldView, id: crate::types::EntityId, f: spec_fn(EntityView)
    -> EntityView)
    requires
        forall|e: EntityView| (#[trigger] f(e)).id == e.id,
        forall|e: EntityView| f(#[trigger] f(e)) == f(e),
    ensures
        w.with_entity(id, f).with_entity(id, f) == w.with_entity(id, f),
{
    match find_entity(w.entities, id.0) {
        Some(e) => {
            lemma_find_entity_id(w.entities, id.0);
            lemma_find_update_entity(w.entities, id.0, f(e));
            let w1 = w.with_entity(id, f);
            lemma_update_entity_same(w1.entities, id.0, f(e));
            assert(update_entity_of(w1, id, f) =~= w1.entities);
        },
        None => {},
    }
}

/// The entity sequence after the second in-place transformation.
spec fn update_entity_of(w1: WorldView, id: crate::types::EntityId, f: spec_fn(EntityView)
    -> EntityView) -> Seq<EntityView> {
    w1.with_entity(id, f).entities
}

/// Setting a zone's loaded flag twice is the same as setting it once.
proof fn lemma_set_zone_loaded_idem(w: WorldView, id: crate::types::ZoneId, loaded: bool)
    ensures
        w.set_zone_loaded_model(id, loaded).set_zone_loaded_model(id, loaded)
            == w.set_zone_loaded_model(id, loaded),
{
    match find_zone(w.zones, id.0) {
        Some(z) => {
            lemma_find_zone_id(w.zones, id.0);
            let z1 = ZoneView { loaded, ..z };
            lemma_find_update_zone(w.zones, id.0, z1);
            let w1 = w.set_zone_loaded_model(id, loaded);
            assert((ZoneView { loaded, ..z1 }) == z1);
            lemma_update_zone_same(w1.zones, id.0, z1);
            assert(w1.set_zone_loaded_model(id, loaded).zones =~= w1.zones);
        },
        None => {},
    }
}

/// Moving an entity along the same edge twice is the same as moving it
/// once.
#[verifier::spinoff_prover]
#[verifier::rlimit(60)]
proof fn lemma_move_entity_idem(
    w: WorldView,
    id: crate::types::EntityId,
    from: crate::types::WorldPos,
    to: crate::types::WorldPos,
)
    ensures
        w.move_entity_model(id, from, to).move_entity_model(id, from, to) == w.move_entity_model(
            id,
            from,
            to,
        ),
{
    match find_entity(w.entities, id.0) {
        None => {},
        Some(e) => {
            lemma_find_entity_id(w.entities, id.0);
            lemma_find_zone_id(w.zones, from.zone.0);
            lemma_find_zone_id(w.zones, to.zone.0);
            let e2 = set_position_fn(to)(e);
            let z_mid = if from.zone != to.zone {
                let za = match find_zone(w.zones, from.zone.0) {
                    Some(zf) => update_zone(w.zones, from.zone.0, zf.remove_member(id)),
                    None => w.zones,
                };
                match find_zone(za, to.zone.0) {
                    Some(zt) => update_zone(za, to.zone.0, zt.add_member(id)),
                    None => za,
                }
            } else {
                w.zones
            };
            let wA = w.move_entity_model(id, from, to);
            lemma_find_update_entity(w.entities, id.0, e2);
            assert(find_entity(wA.entities, id.0) == Some(e2));
            assert(set_position_fn(to)(e2) == e2);

            if from.zone != to.zone {
                match find_zone(w.zones, from.zone.0) {
                    Some(zf) => {
                        let zf1 = zf.remove_member(id);
                        lemma_find_update_zone(w.zones, from.zone.0, zf1);
                        let za = update_zone(w.zones, from.zone.0, zf1);
                        lemma_find_zone_id(za, to.zone.0);
                        match find_zone(za, to.zone.0) {
                            Some(zt) => {
                                let zt1 = zt.add_member(id);
                                lemma_find_update_zone(za, to.zone.0, zt1);
                                lemma_find_update_zone_other(
                                    za,
                                    to.zone.0,
                                    zt1,
                                    from.zone.0,
                                );
                                // second pass: the from-zone entry is
                                // already filtered, the to-zone entry
                                // already holds the id
                                lemma_remove_member_idem(zf, id);
                                lemma_update_zone_same(wA.zones, from.zone.0, zf1);
                                lemma_add_member_idem(zt, id);
                                lemma_update_zone_same(wA.zones, to.zone.0, zt1);
                                assert(wA.move_entity_model(id, from, to).zones =~= wA.zones);
                            },
                            None => {
                                lemma_find_update_zone_other(
                                    w.zones,
                                    from.zone.0,
                                    zf1,
                                    to.zone.0,
                                );
                                lemma_remove_member_idem(zf, id);
                                lemma_update_zone_same(wA.zones, from.zone.0, zf1);
                                assert(wA.move_entity_model(id, from, to).zones =~= wA.zones);
                            },
                        }
                    },
                    None => {
                        match find_zone(w.zones, to.zone.0) {
                            Some(zt) => {
                                let zt1 = zt.add_member(id);
                                lemma_find_update_zone(w.zones, to.zone.0, zt1);
                                lemma_find_update_zone_other(
                                    w.zones,
                                    to.zone.0,
                                    zt1,
                                    from.zone.0,
                                );
                                lemma_add_member_idem(zt, id);
                                lemma_update_zone_same(wA.zones, to.zone.0, zt1);
                                assert(wA.move_entity_model(id, from, to).zones =~= wA.zones);
                            },
                            None => {},
                        }
                    },
                }
            }
            lemma_update_entity_same(wA.entities, id.0, e2);
            assert(wA.move_entity_model(id, from, to).entities =~= wA.entities);
            assert(wA.move_entity_model(id, from, to) =~= wA);
        },
    }
}

/// The first application of an event never rewinds the tick past the
/// event's own tick.
proof fn lemma_apply_event_tick(w: WorldView, ev: SimEventView)
    ensures
        apply_event_model(w, ev).current_tick.0 >= ev.tick.0,
{
}

/// Replay idempotence: re-applying an event that has already taken effect
/// leaves the world unchanged.  Holds of every event variant, for any
/// world whose entities and zones stand in sorted id order.
#[verifier::spinoff_prover]
#[verifier::rlimit(100)]
pub proof fn lemma_apply_event_idempotent(w: WorldView, ev: SimEventView)
    requires
        entities_sorted(w.entities),
        zones_sorted(w.zones),
    ensures
        apply_event_model(apply_event_model(w, ev), ev) == apply_event_model(w, ev),
{
    let w1 = w.fast_forward_model(ev.tick);
    let wA = apply_event_model(w, ev);
    lemma_apply_event_tick(w, ev);
    assert(wA.fast_forward_model(ev.tick) == wA);
    match ev.data {
        EventDataView::WorldCreated { .. } => {},
        EventDataView::WorldLoaded { .. } => {},
        EventDataView::WorldSaved { .. } => {},
        EventDataView::TickProcessed { .. } => {},
        EventDataView::ZoneCreated { zone_id, name } => {
            if !has_zone(w1.zones, zone_id.0) {
                lemma_find_insert_zone(
                    w1.zones,
                    ZoneView { id: zone_id, name, loaded: true, entities: Seq::empty() },
                );
            }
        },
        EventDataView::ZoneLoaded { zone_id } => {
            lemma_set_zone_loaded_idem(w1, zone_id, true);
        },
        EventDataView::ZoneUnloaded { zone_id } => {
            lemma_set_zone_loaded_idem(w1, zone_id, false);
        },
        EventDataView::EntitySpawned { entity_id, kind, position, properties } => {
            if !has_entity(w1.entities, entity_id.0) {
                let e = EntityView {
                    id: entity_id,
                    kind,
                    state: crate::types::EntityState::Active,
                    position,
                    created_at: ev.tick,
                    properties,
                };
                lemma_find_insert_entity(w1.entities, e);
            }
        },
        EventDataView::EntityDespawned { entity_id, .. } => {
            match find_entity(w1.entities, entity_id.0) {
                Some(_) => {
                    lemma_find_remove_entity(w1.entities, entity_id.0);
                },
                None => {},
            }
        },
        EventDataView::EntityMoved { entity_id, from, to } => {
            lemma_move_entity_idem(w1, entity_id, from, to);
        },
        EventDataView::EntityStateChanged { entity_id, new_state, .. } => {
            assert forall|e: EntityView| (#[trigger] set_state_fn(new_state)(e)).id == e.id by {}
            assert forall|e: EntityView|
                set_state_fn(new_state)(#[trigger] set_state_fn(new_state)(e)) == set_state_fn(
                    new_state,
                )(e) by {}
            lemma_with_entity_idem(w1, entity_id, set_state_fn(new_state));
        },
        EventDataView::EntityPropertyChanged { entity_id, property, new_value, .. } => {
            if property == "name"@ {
                match new_value {
                    crate::events::PropertyValueView::String(sv) => {
                        assert forall|e: EntityView|
                            (#[trigger] set_name_fn(sv)(e)).id == e.id by {}
                        assert forall|e: EntityView|
                            set_name_fn(sv)(#[trigger] set_name_fn(sv)(e)) == set_name_fn(sv)(
                                e,
                            ) by {}
                        lemma_with_entity_idem(w1, entity_id, set_name_fn(sv));
                    },
                    _ => {},
                }
            } else if property == "amount"@ {
                match new_value {
                    crate::events::PropertyValueView::UInt(v) => {
                        assert forall|e: EntityView|
                            (#[trigger] set_amount_fn(v as u32)(e)).id == e.id by {}
                        assert forall|e: EntityView|
                            set_amount_fn(v as u32)(#[trigger] set_amount_fn(v as u32)(e))
                                == set_amount_fn(v as u32)(e) by {}
                        lemma_with_entity_idem(w1, entity_id, set_amount_fn(v as u32));
                    },
                    _ => {},
                }
            } else if property == "health"@ {
                match new_value {
                    crate::events::PropertyValueView::UInt(v) => {
                        assert forall|e: EntityView|
                            (#[trigger] set_health_fn(v as u32)(e)).id == e.id by {}
                        assert forall|e: EntityView|
                            set_health_fn(v as u32)(#[trigger] set_health_fn(v as u32)(e))
                                == set_health_fn(v as u32)(e) by {}
                        lemma_with_entity_idem(w1, entity_id, set_health_fn(v as u32));
                    },
                    _ => {},
                }
            }
        },
        EventDataView::ResourceDepleted { entity_id, remaining, .. } => {
            assert forall|e: EntityView| (#[trigger] deplete_fn(remaining)(e)).id == e.id by {}
            assert forall|e: EntityView|
                deplete_fn(remaining)(#[trigger] deplete_fn(remaining)(e)) == deplete_fn(
                    remaining,
                )(e) by {}
            lemma_with_entity_idem(w1, entity_id, deplete_fn(remaining));
        },
        EventDataView::EntityDegraded { entity_id, new_health, .. } => {
            assert forall|e: EntityView| (#[trigger] degrade_fn(new_health)(e)).id == e.id by {}
            assert forall|e: EntityView|
                degrade_fn(new_health)(#[trigger] degrade_fn(new_health)(e)) == degrade_fn(
                    new_health,
                )(e) by {}
            lemma_with_entity_idem(w1, entity_id, degrade_fn(new_health));
        },
    }
}

/// Replaying a concatenation folds the two parts in order.
pub proof fn lemma_replay_model_concat(w: WorldView, a: Seq<SimEventView>, b: Seq<SimEventView>)
    ensures
        replay_model(w, a + b) == replay_model(replay_model(w, a), b),
    decreases a.len(),
{
    if a.len() == 0 {
        assert(a + b =~= b);
    } else {
        assert((a + b)[0] == a[0]);
        assert((a + b).drop_first() =~= a.drop_first() + b);
        lemma_replay_model_concat(apply_event_model(w, a[0]), a.drop_first(), b);
    }
}

/// The effect of an event does not depend on its assigned id.
pub proof fn lemma_apply_event_ignores_id(w: WorldView, ev1: SimEventView, ev2: SimEventView)
    requires
        ev1.tick == ev2.tick,
        ev1.data == ev2.data,
    ensures
        apply_event_model(w, ev1) == apply_event_model(w, ev2),
{
}

} // verus!
