//! The simulation engine: command dispatch, tick systems, event emission.
//!
//! The engine is deterministic: every command's effect on the world, the
//! RNG, the event log and the store is a function of the previous state
//! and the command alone, stated by [`process_command_model`] and proved
//! of [`Simulation::process_command`].  Same state, same command - same
//! new state and same events.
//!
//! Commands are validated before any mutation.  Events are buffered while
//! a command runs and handed to the event log on success, which assigns
//! monotonic ids; a failed command appends nothing.

use vstd::prelude::*;
use vstd::string::StringExecFns;

use crate::clock::{ISimClock, UnlimitedClock};
use crate::commands::{Command, CommandView, CreateWorldCmd, CreateZoneCmd, PropsView,
    SpawnEntityCmd};
use crate::errors::{ApiError, ApiErrorView};
use crate::events::{DespawnReason, EventData, EventDataView, SimEvent, SimEventView};
use crate::mocks::{assign_ids, ev_after, find_meta, find_snap, store_meta_model,
    store_snap_model, MockEventLog, MockWorldStore};
use crate::replay::{apply_event_model, replay_model};
use crate::rng::{pcg_next_state, pcg_output, Pcg32Rng};
use crate::snapshot::{enc_world, sdec_world};
use crate::text::world_id_seq;
use crate::types::{EntityId, EntityKind, EntityState, EventId, MetaView, RngSeed, Tick,
    ZoneId};
use crate::validation::{command_violations, validate_command};
use crate::world::{active_ids, dead_ids, degrade_fn, deplete_fn, find_entity, find_zone, has_entity, update_entity,
    has_zone, set_amount_fn, set_health_fn, set_state_fn, world_new_model, Entity, World,
    WorldView, Zone, ZoneView};

verus! {

/// Resources lose one unit with this probability, counted out of `2^24`
/// equally likely draws; the value equals a single-precision comparison
/// of the draw fraction with 0.01.
pub const RESOURCE_DEPLETION_CHANCE: u32 = 167773;

/// Creatures lose one health with this probability, counted out of `2^24`
/// equally likely draws; the value equals a single-precision comparison
/// of the draw fraction with 0.005.
pub const CREATURE_DEGRADE_CHANCE: u32 = 83887;

/// The reaper removes dead entities when the tick is a multiple of this.
pub const REAPER_PERIOD: u64 = 100;

/// The simulation engine: the world, the deterministic RNG, the clock,
/// the event log and the world store, plus the per-command event buffer.
#[derive(Debug)]
pub struct Simulation {
    /// The world state; absent until one is created or loaded.
    pub world: Option<World>,
    /// The deterministic RNG.
    pub rng: Pcg32Rng,
    /// The clock.
    pub clock: UnlimitedClock,
    /// The event log.
    pub event_log: MockEventLog,
    /// The world store.
    pub store: MockWorldStore,
    /// Events pending to be recorded by the current command.
    pub pending_events: Vec<SimEvent>,
}

/// The mathematical value of a [`Simulation`].
#[verifier::ext_equal]
pub ghost struct SimView {
    pub world: Option<WorldView>,
    pub rng_seed: RngSeed,
    pub rng_state: u64,
    pub rng_increment: u64,
    pub clock_tick: Tick,
    pub log: Seq<SimEventView>,
    pub log_next: u64,
    pub metas: Seq<MetaView>,
    pub snaps: Seq<(Seq<char>, Seq<u8>)>,
    pub pending: Seq<SimEventView>,
}

impl View for Simulation {
    type V = SimView;

    open spec fn view(&self) -> SimView {
        SimView {
            world: match self.world {
                Some(ref w) => Some(w@),
                None => None,
            },
            rng_seed: self.rng.seed,
            rng_state: self.rng.state,
            rng_increment: self.rng.increment,
            clock_tick: self.clock.current_tick,
            log: self.event_log.events_view(),
            log_next: self.event_log.next_event_id,
            metas: self.store.metas_view(),
            snaps: self.store.snaps_view(),
            pending: self.pending_events@.map_values(|e: SimEvent| e@),
        }
    }
}

impl SimView {
    /// The engine's structural invariant: the event log numbers its events
    /// contiguously from 1.
    pub open spec fn inv(self) -> bool {
        &&& self.log_next == self.log.len() + 1
        &&& forall|i: int| 0 <= i < self.log.len() ==> (#[trigger] self.log[i]).event_id.0 == i + 1
    }

    /// The id of the last recorded event, or zero.
    pub open spec fn last_event_id(self) -> u64 {
        if self.log_next > 1 {
            (self.log_next - 1) as u64
        } else {
            0
        }
    }
}

/// A buffered event: the placeholder id, the given tick, the given data.
pub open spec fn pend(tick: Tick, data: EventDataView) -> SimEventView {
    SimEventView { event_id: EventId(0), tick, data }
}

// ============================================================================
// Tick-system model
// ============================================================================

/// Whether a draw from this RNG state hits a chance of
/// `threshold / 2^24`.
pub open spec fn chance_hit(rng_state: u64, threshold: u32) -> bool {
    (pcg_output(rng_state) >> 8) < threshold
}

/// The effect of the per-entity rules on one entity: the changed world,
/// the RNG state after any draw, the emitted events, and how many
/// entities were processed (1 if the entity still exists).
pub open spec fn tick_entity_model(w: WorldView, rs: u64, inc: u64, id: EntityId) -> (
    WorldView,
    u64,
    Seq<SimEventView>,
    int,
) {
    match find_entity(w.entities, id.0) {
        None => (w, rs, Seq::empty(), 0),
        Some(e) => match e.kind {
            EntityKind::Resource => match e.properties.amount {
                Some(amt) => if amt > 0 {
                    let rs2 = pcg_next_state(rs, inc);
                    if chance_hit(rs, RESOURCE_DEPLETION_CHANCE) {
                        let new_amount = (amt - 1) as u32;
                        let w1 = w.with_entity(id, set_amount_fn(new_amount));
                        let ev1 = pend(
                            w.current_tick,
                            EventDataView::ResourceDepleted {
                                entity_id: id,
                                amount: 1,
                                remaining: new_amount,
                            },
                        );
                        if new_amount == 0 {
                            let w2 = w1.with_entity(id, set_state_fn(EntityState::Dead));
                            let ev2 = pend(
                                w.current_tick,
                                EventDataView::EntityStateChanged {
                                    entity_id: id,
                                    old_state: e.state,
                                    new_state: EntityState::Dead,
                                },
                            );
                            (w2, rs2, seq![ev1, ev2], 1)
                        } else {
                            (w1, rs2, seq![ev1], 1)
                        }
                    } else {
                        (w, rs2, Seq::empty(), 1)
                    }
                } else {
                    (w, rs, Seq::empty(), 1)
                },
                None => (w, rs, Seq::empty(), 1),
            },
            EntityKind::Creature => match e.properties.health {
                Some(hp) => if hp > 0 {
                    let rs2 = pcg_next_state(rs, inc);
                    if chance_hit(rs, CREATURE_DEGRADE_CHANCE) {
                        let new_health = (hp - 1) as u32;
                        let w1 = w.with_entity(id, set_health_fn(new_health));
                        let ev1 = pend(
                            w.current_tick,
                            EventDataView::EntityDegraded {
                                entity_id: id,
                                old_health: hp,
                                new_health,
                            },
                        );
                        if new_health == 0 {
                            let w2 = w1.with_entity(id, set_state_fn(EntityState::Dead));
                            let ev2 = pend(
                                w.current_tick,
                                EventDataView::EntityStateChanged {
                                    entity_id: id,
                                    old_state: e.state,
                                    new_state: EntityState::Dead,
                                },
                            );
                            (w2, rs2, seq![ev1, ev2], 1)
                        } else {
                            (w1, rs2, seq![ev1], 1)
                        }
                    } else {
                        (w, rs2, Seq::empty(), 1)
                    }
                } else {
                    (w, rs, Seq::empty(), 1)
                },
                None => (w, rs, Seq::empty(), 1),
            },
            _ => (w, rs, Seq::empty(), 1),
        },
    }
}

/// The per-entity rules folded over a sequence of entity ids in order.
pub open spec fn tick_entities_model(w: WorldView, rs: u64, inc: u64, ids: Seq<EntityId>) -> (
    WorldView,
    u64,
    Seq<SimEventView>,
    int,
)
    decreases ids.len(),
{
    if ids.len() == 0 {
        (w, rs, Seq::empty(), 0)
    } else {
        let (w1, rs1, evs1, n1) = tick_entity_model(w, rs, inc, ids[0]);
        let (w2, rs2, evs2, n2) = tick_entities_model(w1, rs1, inc, ids.drop_first());
        (w2, rs2, evs1 + evs2, n1 + n2)
    }
}

/// Folding one more id applies its rule to the folded state.
pub proof fn lemma_tick_entities_push(
    w: WorldView,
    rs: u64,
    inc: u64,
    ids: Seq<EntityId>,
    id: EntityId,
)
    ensures
        ({
            let (w1, rs1, evs1, n1) = tick_entities_model(w, rs, inc, ids);
            let (w2, rs2, evs2, n2) = tick_entity_model(w1, rs1, inc, id);
            tick_entities_model(w, rs, inc, ids.push(id)) == (w2, rs2, evs1 + evs2, n1 + n2)
        }),
    decreases ids.len(),
{
    reveal_with_fuel(tick_entities_model, 3);
    if ids.len() == 0 {
        assert(ids.push(id)[0] == id);
        assert(ids.push(id).drop_first() =~= Seq::<EntityId>::empty());
        let (w1, rs1, evs1, n1) = tick_entity_model(w, rs, inc, id);
        assert(Seq::<SimEventView>::empty() + evs1 =~= evs1);
        assert(evs1 + Seq::<SimEventView>::empty() =~= evs1);
    } else {
        assert(ids.push(id)[0] == ids[0]);
        assert(ids.push(id).drop_first() =~= ids.drop_first().push(id));
        let (wa, rsa, evsa, na) = tick_entity_model(w, rs, inc, ids[0]);
        lemma_tick_entities_push(wa, rsa, inc, ids.drop_first(), id);
        let (wb, rsb, evsb, nb) = tick_entities_model(wa, rsa, inc, ids.drop_first());
        let (wc, rsc, evsc, nc) = tick_entity_model(wb, rsb, inc, id);
        assert(evsa + (evsb + evsc) =~= (evsa + evsb) + evsc);
    }
}

/// The reaper folded over a sequence of entity ids: each present entity is
/// removed and a despawn event recorded.
pub open spec fn reap_model(w: WorldView, ids: Seq<EntityId>) -> (WorldView, Seq<SimEventView>)
    decreases ids.len(),
{
    if ids.len() == 0 {
        (w, Seq::empty())
    } else {
        let present = has_entity(w.entities, ids[0].0);
        let w1 = w.remove_entity_model(ids[0]);
        let evs1: Seq<SimEventView> = if present {
            seq![
                pend(
                    w.current_tick,
                    EventDataView::EntityDespawned {
                        entity_id: ids[0],
                        reason: DespawnReason::Death,
                    },
                ),
            ]
        } else {
            Seq::empty()
        };
        let (w2, evs2) = reap_model(w1, ids.drop_first());
        (w2, evs1 + evs2)
    }
}

/// Reaping one more id applies its removal to the folded state.
pub proof fn lemma_reap_push(w: WorldView, ids: Seq<EntityId>, id: EntityId)
    ensures
        ({
            let (w1, evs1) = reap_model(w, ids);
            let present = has_entity(w1.entities, id.0);
            let w2 = w1.remove_entity_model(id);
            let evs2: Seq<SimEventView> = if present {
                seq![
                    pend(
                        w1.current_tick,
                        EventDataView::EntityDespawned {
                            entity_id: id,
                            reason: DespawnReason::Death,
                        },
                    ),
                ]
            } else {
                Seq::empty()
            };
            reap_model(w, ids.push(id)) == (w2, evs1 + evs2)
        }),
    decreases ids.len(),
{
    reveal_with_fuel(reap_model, 3);
    if ids.len() == 0 {
        assert(ids.push(id)[0] == id);
        assert(ids.push(id).drop_first() =~= Seq::<EntityId>::empty());
        let present = has_entity(w.entities, id.0);
        let evs2: Seq<SimEventView> = if present {
            seq![
                pend(
                    w.current_tick,
                    EventDataView::EntityDespawned {
                        entity_id: id,
                        reason: DespawnReason::Death,
                    },
                ),
            ]
        } else {
            Seq::empty()
        };
        assert(evs2 + Seq::<SimEventView>::empty() =~= evs2);
        assert(Seq::<SimEventView>::empty() + evs2 =~= evs2);
    } else {
        assert(ids.push(id)[0] == ids[0]);
        assert(ids.push(id).drop_first() =~= ids.drop_first().push(id));
        let present0 = has_entity(w.entities, ids[0].0);
        let wa = w.remove_entity_model(ids[0]);
        lemma_reap_push(wa, ids.drop_first(), id);
        let evsa: Seq<SimEventView> = if present0 {
            seq![
                pend(
                    w.current_tick,
                    EventDataView::EntityDespawned {
                        entity_id: ids[0],
                        reason: DespawnReason::Death,
                    },
                ),
            ]
        } else {
            Seq::empty()
        };
        let (wb, evsb) = reap_model(wa, ids.drop_first());
        let presentb = has_entity(wb.entities, id.0);
        let evsc: Seq<SimEventView> = if presentb {
            seq![
                pend(
                    wb.current_tick,
                    EventDataView::EntityDespawned {
                        entity_id: id,
                        reason: DespawnReason::Death,
                    },
                ),
            ]
        } else {
            Seq::empty()
        };
        assert(evsa + (evsb + evsc) =~= (evsa + evsb) + evsc);
    }
}

/// One full run of the tick systems: the per-entity rules over the active
/// entities in ascending id order, then - every hundredth tick - the
/// reaper over the dead entities in ascending id order.
pub open spec fn tick_systems_model(w: WorldView, rs: u64, inc: u64) -> (
    WorldView,
    u64,
    Seq<SimEventView>,
    int,
) {
    let ids = active_ids(w.entities);
    let (w1, rs1, evs1, n) = tick_entities_model(w, rs, inc, ids);
    if w1.current_tick.0 % REAPER_PERIOD == 0 {
        let (w2, evs2) = reap_model(w1, dead_ids(w1.entities));
        (w2, rs1, evs1 + evs2, n)
    } else {
        (w1, rs1, evs1, n)
    }
}

/// A count clamped into a `u32`.
pub open spec fn clamp_u32(n: int) -> u32 {
    if n > u32::MAX {
        u32::MAX
    } else if n < 0 {
        0
    } else {
        n as u32
    }
}

// ============================================================================
// Command models
// ============================================================================

/// The effect of `SaveWorld`: capture the RNG state and the WAL cursor in
/// the world, store the snapshot and the metadata, and record the save.
pub open spec fn save_world_model(s: SimView) -> (SimView, Result<(), ApiErrorView>) {
    match s.world {
        None => (s, Err(ApiErrorView::NoWorldLoaded)),
        Some(w) => {
            let w1 = WorldView {
                rng_state: s.rng_state,
                meta: MetaView {
                    snapshot_tick: w.current_tick,
                    last_event_id: EventId(s.last_event_id()),
                    ..w.meta
                },
                ..w
            };
            let bytes = enc_world(w1);
            let s1 = SimView {
                world: Some(w1),
                snaps: store_snap_model(s.snaps, w1.meta.world_id, bytes),
                metas: store_meta_model(s.metas, w1.meta),
                pending: s.pending.push(
                    pend(w1.current_tick, EventDataView::WorldSaved { tick: w1.current_tick }),
                ),
                ..s
            };
            (s1, Ok(()))
        },
    }
}

/// The effect of `CreateWorld`: refuse a colliding id, otherwise build the
/// fresh world, reset the RNG and the clock, record the creation and the
/// origin zone, and save.
pub open spec fn create_world_model(s: SimView, name: Seq<char>, seed: RngSeed) -> (
    SimView,
    Result<(), ApiErrorView>,
) {
    let wid = world_id_seq(seed.0);
    if find_meta(s.metas, wid) is Some {
        (s, Err(ApiErrorView::WorldAlreadyExists(wid)))
    } else {
        let w = world_new_model(name, seed);
        let s1 = SimView {
            rng_state: seed.0,
            clock_tick: Tick(0),
            pending: s.pending + seq![
                pend(Tick(0), EventDataView::WorldCreated { world_id: wid, name, seed }),
                pend(
                    Tick(0),
                    EventDataView::ZoneCreated { zone_id: ZoneId(0), name: Some("Origin"@) },
                ),
            ],
            world: Some(w),
            ..s
        };
        save_world_model(s1)
    }
}

/// The effect of `LoadWorld`: decode the stored snapshot, replay the
/// surviving events past its cursor, fast-forward to the last replayed
/// tick, restore the RNG and the clock, and record the load.
pub open spec fn load_world_model(s: SimView, world_id: Seq<char>) -> (
    SimView,
    Result<(), ApiErrorView>,
) {
    if find_meta(s.metas, world_id) is None {
        (s, Err(ApiErrorView::WorldNotFound(world_id)))
    } else {
        match find_snap(s.snaps, world_id) {
            None => (s, Err(ApiErrorView::StorageError("snapshot not found"@))),
            Some(bytes) => match sdec_world(bytes, 0) {
                Some((wv, end)) => if end == bytes.len() {
                    let evs = s.log.filter(ev_after(wv.meta.last_event_id));
                    let w2 = replay_model(wv, evs);
                    let w3 = if evs.len() > 0 {
                        w2.fast_forward_model(evs.last().tick)
                    } else {
                        w2
                    };
                    let s1 = SimView {
                        world: Some(w3),
                        rng_state: w3.rng_state,
                        clock_tick: w3.current_tick,
                        pending: s.pending.push(
                            pend(
                                w3.current_tick,
                                EventDataView::WorldLoaded { world_id, tick: w3.current_tick },
                            ),
                        ),
                        ..s
                    };
                    (s1, Ok(()))
                } else {
                    (s, Err(ApiErrorView::StorageError("failed to deserialize world"@)))
                },
                None => (s, Err(ApiErrorView::StorageError("failed to deserialize world"@))),
            },
        }
    }
}

/// The effect of `Tick`: advance the world one tick, mirror the clock,
/// run the tick systems, and record the processed tick.
pub open spec fn tick_model(s: SimView) -> (SimView, Result<(), ApiErrorView>) {
    match s.world {
        None => (s, Err(ApiErrorView::NoWorldLoaded)),
        Some(w) => {
            let w1 = w.advance_tick_model();
            let (w2, rs2, evs, n) = tick_systems_model(w1, s.rng_state, s.rng_increment);
            let done = pend(
                w1.current_tick,
                EventDataView::TickProcessed {
                    tick: w1.current_tick,
                    sim_time: w1.sim_time,
                    entities_processed: clamp_u32(n),
                },
            );
            let s1 = SimView {
                world: Some(w2),
                rng_state: rs2,
                clock_tick: w1.current_tick,
                pending: s.pending + evs + seq![done],
                ..s
            };
            (s1, Ok(()))
        },
    }
}

/// The effect of `TickN`: `n` ticks in sequence, stopping at the first
/// failure.
pub open spec fn tick_n_model(s: SimView, n: u32) -> (SimView, Result<(), ApiErrorView>)
    decreases n,
{
    if n == 0 {
        (s, Ok(()))
    } else {
        let (s1, r) = tick_model(s);
        match r {
            Ok(()) => tick_n_model(s1, (n - 1) as u32),
            Err(e) => (s1, Err(e)),
        }
    }
}

/// The effect of `SpawnEntity`: refuse a missing zone, otherwise allocate
/// the next id, insert the entity, and record the spawn.
pub open spec fn spawn_entity_model(
    s: SimView,
    position: crate::types::WorldPos,
    kind: EntityKind,
    properties: PropsView,
) -> (SimView, Result<(), ApiErrorView>) {
    match s.world {
        None => (s, Err(ApiErrorView::NoWorldLoaded)),
        Some(w) => {
            if !has_zone(w.zones, position.zone.0) {
                (s, Err(ApiErrorView::ZoneNotFound(position.zone)))
            } else if w.next_entity_id == u64::MAX {
                (s, Err(ApiErrorView::InternalError("entity id space exhausted"@)))
            } else {
                let id = EntityId(w.next_entity_id);
                let w1 = WorldView { next_entity_id: (w.next_entity_id + 1) as u64, ..w };
                let e = crate::world::EntityView {
                    id,
                    kind,
                    state: EntityState::Active,
                    position,
                    created_at: w.current_tick,
                    properties,
                };
                let w2 = w1.add_entity_model(e);
                let s1 = SimView {
                    world: Some(w2),
                    pending: s.pending.push(
                        pend(
                            w.current_tick,
                            EventDataView::EntitySpawned {
                                entity_id: id,
                                kind,
                                position,
                                properties,
                            },
                        ),
                    ),
                    ..s
                };
                (s1, Ok(()))
            }
        },
    }
}

/// The effect of `DespawnEntity`: refuse a missing entity, otherwise
/// remove it and record the despawn.
pub open spec fn despawn_entity_model(s: SimView, id: EntityId) -> (
    SimView,
    Result<(), ApiErrorView>,
) {
    match s.world {
        None => (s, Err(ApiErrorView::NoWorldLoaded)),
        Some(w) => {
            if !has_entity(w.entities, id.0) {
                (s, Err(ApiErrorView::EntityNotFound(id)))
            } else {
                let w1 = w.remove_entity_model(id);
                let s1 = SimView {
                    world: Some(w1),
                    pending: s.pending.push(
                        pend(
                            w.current_tick,
                            EventDataView::EntityDespawned {
                                entity_id: id,
                                reason: DespawnReason::Command,
                            },
                        ),
                    ),
                    ..s
                };
                (s1, Ok(()))
            }
        },
    }
}

/// The effect of `CreateZone`: refuse a colliding id, otherwise insert a
/// loaded zone and record the creation.
pub open spec fn create_zone_model(s: SimView, zone_id: ZoneId, name: Option<Seq<char>>) -> (
    SimView,
    Result<(), ApiErrorView>,
) {
    match s.world {
        None => (s, Err(ApiErrorView::NoWorldLoaded)),
        Some(w) => {
            if has_zone(w.zones, zone_id.0) {
                (s, Err(ApiErrorView::ZoneAlreadyExists(zone_id)))
            } else {
                let z = ZoneView { id: zone_id, name, loaded: true, entities: Seq::empty() };
                let w1 = w.add_zone_model(z);
                let s1 = SimView {
                    world: Some(w1),
                    pending: s.pending.push(
                        pend(w.current_tick, EventDataView::ZoneCreated { zone_id, name }),
                    ),
                    ..s
                };
                (s1, Ok(()))
            }
        },
    }
}

/// The dispatch of one validated command.
pub open spec fn dispatch_model(s: SimView, cmd: CommandView) -> (
    SimView,
    Result<(), ApiErrorView>,
) {
    match cmd {
        CommandView::CreateWorld { name, seed } => create_world_model(s, name, seed),
        CommandView::LoadWorld { world_id } => load_world_model(s, world_id),
        CommandView::SaveWorld => save_world_model(s),
        CommandView::Tick => tick_model(s),
        CommandView::TickN(n) => tick_n_model(s, n),
        CommandView::SpawnEntity { position, kind, properties } => spawn_entity_model(
            s,
            position,
            kind,
            properties,
        ),
        CommandView::DespawnEntity(id) => despawn_entity_model(s, id),
        CommandView::CreateZone { zone_id, name } => create_zone_model(s, zone_id, name),
        CommandView::Shutdown => if s.world is Some {
            save_world_model(s)
        } else {
            (s, Ok(()))
        },
    }
}

/// The full effect of one command: validate; clear the event buffer; run
/// the command; on success, hand the buffered events to the log, which
/// assigns them ids - those stamped events are the result.
pub open spec fn process_command_model(s: SimView, cmd: CommandView) -> (
    SimView,
    Result<Seq<SimEventView>, ApiErrorView>,
) {
    let violations = command_violations_of(cmd);
    if violations.len() > 0 {
        (s, Err(ApiErrorView::ValidationFailed(violations)))
    } else {
        let s0 = SimView { pending: Seq::empty(), ..s };
        let (s1, r) = dispatch_model(s0, cmd);
        match r {
            Err(e) => (s1, Err(e)),
            Ok(()) => {
                if s1.pending.len() == 0 {
                    (s1, Ok(Seq::empty()))
                } else if s1.pending.len() < u64::MAX - s1.log_next {
                    let stamped = assign_ids(s1.log_next, s1.pending);
                    let s2 = SimView {
                        log: s1.log + stamped,
                        log_next: (s1.log_next + s1.pending.len()) as u64,
                        pending: Seq::empty(),
                        ..s1
                    };
                    (s2, Ok(stamped))
                } else {
                    (
                        SimView { pending: Seq::empty(), ..s1 },
                        Err(ApiErrorView::StorageError("event id space exhausted"@)),
                    )
                }
            },
        }
    }
}

/// The validation failures of a command value.
pub open spec fn command_violations_of(cmd: CommandView) -> Seq<
    crate::errors::ValidationErrorView,
> {
    match cmd {
        CommandView::CreateWorld { name, .. } => crate::validation::create_world_violations(name),
        CommandView::TickN(n) => crate::validation::tick_n_violations(n),
        CommandView::CreateZone { name, .. } => crate::validation::create_zone_violations(name),
        _ => Seq::empty(),
    }
}

// ============================================================================
// The engine
// ============================================================================


/// Apply the per-entity rules to one entity, drawing from the RNG where
/// the rules call for it and buffering any emitted events.  Returns 1 if
/// the entity was processed (it still exists), else 0.
#[verifier::spinoff_prover]
#[verifier::rlimit(60)]
fn tick_one_entity(world: &mut World, rng: &mut Pcg32Rng, pending: &mut Vec<SimEvent>, id: EntityId)
    -> (n: u32)
    ensures
        ({
            let (we, rse, evse, ne) = tick_entity_model(
                old(world)@,
                old(rng).state,
                old(rng).increment,
                id,
            );
            &&& final(world)@ == we
            &&& final(rng).state == rse
            &&& final(rng).seed == old(rng).seed
            &&& final(rng).increment == old(rng).increment
            &&& final(pending)@.map_values(|e: SimEvent| e@) == old(pending)@.map_values(
                |e: SimEvent| e@,
            ) + evse
            &&& n == ne
        }),
{
    let info: Option<(EntityKind, Option<u32>, Option<u32>, EntityState)> = match world.get_entity(
        id,
    ) {
        Some(e) => Some((e.kind, e.properties.health, e.properties.amount, e.state)),
        None => None,
    };
    match info {
        None => {
            proof {
                assert(pending@.map_values(|e: SimEvent| e@) =~= pending@.map_values(
                    |e: SimEvent| e@,
                ) + Seq::<SimEventView>::empty());
            }
            0
        },
        Some((kind, health, amount, state0)) => {
            match kind {
                EntityKind::Resource => {
                    if let Some(amt) = amount {
                        if amt > 0 && rng.chance_in_2_24(RESOURCE_DEPLETION_CHANCE) {
                            let new_amount = amt - 1;
                            world.set_entity_amount(id, new_amount);
                            let ghost pb = pending@;
                            pending.push(
                                SimEvent::new(
                                    world.current_tick,
                                    EventData::ResourceDepleted {
                                        entity_id: id,
                                        amount: 1,
                                        remaining: new_amount,
                                    },
                                ),
                            );
                            proof {
                                assert(pending@.map_values(|e: SimEvent| e@) =~= pb.map_values(
                                    |e: SimEvent| e@,
                                ).push(pending@.last()@));
                            }
                            if new_amount == 0 {
                                world.set_entity_state(id, EntityState::Dead);
                                let ghost pb2 = pending@;
                                pending.push(
                                    SimEvent::new(
                                        world.current_tick,
                                        EventData::EntityStateChanged {
                                            entity_id: id,
                                            old_state: state0,
                                            new_state: EntityState::Dead,
                                        },
                                    ),
                                );
                                proof {
                                    assert(pending@.map_values(|e: SimEvent| e@)
                                        =~= pb2.map_values(|e: SimEvent| e@).push(
                                        pending@.last()@,
                                    ));
                                }
                            }
                        }
                    }
                },
                EntityKind::Creature => {
                    if let Some(hp) = health {
                        if hp > 0 && rng.chance_in_2_24(CREATURE_DEGRADE_CHANCE) {
                            let new_health = hp - 1;
                            world.set_entity_health(id, new_health);
                            let ghost pb = pending@;
                            pending.push(
                                SimEvent::new(
                                    world.current_tick,
                                    EventData::EntityDegraded {
                                        entity_id: id,
                                        old_health: hp,
                                        new_health,
                                    },
                                ),
                            );
                            proof {
                                assert(pending@.map_values(|e: SimEvent| e@) =~= pb.map_values(
                                    |e: SimEvent| e@,
                                ).push(pending@.last()@));
                            }
                            if new_health == 0 {
                                world.set_entity_state(id, EntityState::Dead);
                                let ghost pb2 = pending@;
                                pending.push(
                                    SimEvent::new(
                                        world.current_tick,
                                        EventData::EntityStateChanged {
                                            entity_id: id,
                                            old_state: state0,
                                            new_state: EntityState::Dead,
                                        },
                                    ),
                                );
                                proof {
                                    assert(pending@.map_values(|e: SimEvent| e@)
                                        =~= pb2.map_values(|e: SimEvent| e@).push(
                                        pending@.last()@,
                                    ));
                                }
                            }
                        }
                    }
                },
                _ => {},
            }
            proof {
                let (we, rse, evse, ne) = tick_entity_model(
                    old(world)@,
                    old(rng).state,
                    old(rng).increment,
                    id,
                );
                assert(pending@.map_values(|e: SimEvent| e@) =~= old(pending)@.map_values(
                    |e: SimEvent| e@,
                ) + evse);
            }
            1
        },
    }
}

/// Run the per-entity rules and the reaper over the world, drawing from
/// the RNG in ascending entity-id order and buffering the emitted events.
/// Returns the number of entities processed (clamped into a `u32`).
#[verifier::spinoff_prover]
#[verifier::rlimit(100)]
fn run_tick_systems(world: &mut World, rng: &mut Pcg32Rng, pending: &mut Vec<SimEvent>) -> (n:
    u32)
    ensures
        ({
            let (w2, rs2, evs, n_model) = tick_systems_model(
                old(world)@,
                old(rng).state,
                old(rng).increment,
            );
            &&& final(world)@ == w2
            &&& final(rng).state == rs2
            &&& final(rng).seed == old(rng).seed
            &&& final(rng).increment == old(rng).increment
            &&& final(pending)@.map_values(|e: SimEvent| e@) == old(pending)@.map_values(
                |e: SimEvent| e@,
            ) + evs
            &&& n == clamp_u32(n_model)
        }),
{
    let ghost w0 = world@;
    let ghost rs0 = rng.state;
    let ghost inc = rng.increment;
    let ghost p0 = pending@.map_values(|e: SimEvent| e@);

    let ids = world.active_entities();
    let mut processed: u32 = 0;
    let mut i: usize = 0;
    while i < ids.len()
        invariant
            0 <= i <= ids@.len(),
            ids@ == active_ids(w0.entities),
            rng.increment == inc,
            rng.seed == old(rng).seed,
            ({
                let (w1, rs1, evs1, n1) = tick_entities_model(w0, rs0, inc, ids@.take(i as int));
                &&& world@ == w1
                &&& rng.state == rs1
                &&& pending@.map_values(|e: SimEvent| e@) == p0 + evs1
                &&& processed == clamp_u32(n1)
                &&& 0 <= n1 <= i
            }),
        decreases ids@.len() - i,
    {
        proof {
            lemma_tick_entities_push(w0, rs0, inc, ids@.take(i as int), ids@[i as int]);
            assert(ids@.take(i + 1) =~= ids@.take(i as int).push(ids@[i as int]));
        }
        let id = ids[i];
        let got = tick_one_entity(world, rng, pending, id);
        if got == 1 && processed < u32::MAX {
            processed = processed + 1;
        }
        proof {
            let (w1, rs1, evs1, n1) = tick_entities_model(w0, rs0, inc, ids@.take(i as int));
            let (we, rse, evse, ne) = tick_entity_model(w1, rs1, inc, ids@[i as int]);
            assert(pending@.map_values(|e: SimEvent| e@) =~= p0 + (evs1 + evse));
            assert(0 <= ne <= 1);
            let (w2, rs2, evs2, n2) = tick_entities_model(w0, rs0, inc, ids@.take(i + 1));
            assert(n2 == n1 + ne);
            assert(world@ == w2);
            assert(rng.state == rs2);
            assert(pending@.map_values(|e: SimEvent| e@) =~= p0 + evs2);
            assert(processed == clamp_u32(n2));
        }
        i = i + 1;
    }
    proof {
        assert(ids@.take(ids@.len() as int) =~= ids@);
    }

    // The reaper: every hundredth tick, clear out the dead.
    if world.current_tick.0 % REAPER_PERIOD == 0 {
        let ghost w_mid = world@;
        let ghost p_mid = pending@.map_values(|e: SimEvent| e@);
        let dead = world.dead_entities();
        let mut j: usize = 0;
        while j < dead.len()
            invariant
                0 <= j <= dead@.len(),
                dead@ == dead_ids(w_mid.entities),
                rng.increment == inc,
                rng.seed == old(rng).seed,
                rng.state == tick_entities_model(w0, rs0, inc, active_ids(w0.entities)).1,
                processed == clamp_u32(
                    tick_entities_model(w0, rs0, inc, active_ids(w0.entities)).3,
                ),
                ({
                    let (wj, evsj) = reap_model(w_mid, dead@.take(j as int));
                    &&& world@ == wj
                    &&& pending@.map_values(|e: SimEvent| e@) == p_mid + evsj
                }),
            decreases dead@.len() - j,
        {
            proof {
                lemma_reap_push(w_mid, dead@.take(j as int), dead@[j as int]);
                assert(dead@.take(j + 1) =~= dead@.take(j as int).push(dead@[j as int]));
            }
            let id = dead[j];
            let tick_now = world.current_tick;
            let removed = world.remove_entity(id);
            match removed {
                Some(_) => {
                    let ghost pb = pending@;
                    pending.push(
                        SimEvent::new(
                            tick_now,
                            EventData::EntityDespawned {
                                entity_id: id,
                                reason: DespawnReason::Death,
                            },
                        ),
                    );
                    proof {
                        assert(pending@.map_values(|e: SimEvent| e@) =~= pb.map_values(
                            |e: SimEvent| e@,
                        ).push(pending@.last()@));
                    }
                },
                None => {},
            }
            proof {
                let (wj, evsj) = reap_model(w_mid, dead@.take(j + 1));
                assert(pending@.map_values(|e: SimEvent| e@) =~= p_mid + evsj);
            }
            j = j + 1;
        }
        proof {
            assert(dead@.take(dead@.len() as int) =~= dead@);
        }
    }
    processed
}

impl Simulation {
    /// Create a new simulation with the given ports; no world is loaded.
    pub fn new(
        rng: Pcg32Rng,
        clock: UnlimitedClock,
        event_log: MockEventLog,
        store: MockWorldStore,
    ) -> (r: Simulation)
        ensures
            r.world is None,
            r.rng == rng,
            r.clock == clock,
            r.event_log == event_log,
            r.store == store,
            r@.pending == Seq::<SimEventView>::empty(),
    {
        let r = Simulation {
            world: None,
            rng,
            clock,
            event_log,
            store,
            pending_events: Vec::new(),
        };
        proof {
            assert(r@.pending =~= Seq::<SimEventView>::empty());
        }
        r
    }

    /// Whether a world is loaded.
    pub fn has_world(&self) -> (b: bool)
        ensures
            b == (self@.world is Some),
    {
        match self.world {
            Some(_) => true,
            None => false,
        }
    }

    /// The current world, if one is loaded.
    pub fn world(&self) -> (r: Option<&World>)
        ensures
            match r {
                Some(w) => self@.world == Some(w@),
                None => self@.world is None,
            },
    {
        match &self.world {
            Some(w) => Some(w),
            None => None,
        }
    }

    /// The current world, mutably, if one is loaded.  What the caller
    /// writes through the reference lands in place.
    pub fn world_mut(&mut self) -> (r: Option<&mut World>)
        ensures
            match r {
                Some(w) => old(self)@.world == Some((*w)@),
                None => old(self)@.world is None && *final(self) == *old(self),
            },
    {
        match &mut self.world {
            Some(w) => Some(w),
            None => None,
        }
    }

    /// Access to the RNG.
    pub fn rng(&mut self) -> (r: &mut Pcg32Rng)
        ensures
            *r == old(self).rng,
    {
        &mut self.rng
    }

    /// The current tick, or the genesis tick if no world is loaded.
    pub fn current_tick(&self) -> (t: Tick)
        ensures
            t == match self@.world {
                Some(w) => w.current_tick,
                None => Tick(0),
            },
    {
        match &self.world {
            Some(w) => w.current_tick,
            None => Tick(0),
        }
    }

    fn cmd_save_world(&mut self) -> (r: Result<(), ApiError>)
        ensures
            final(self).event_log == old(self).event_log,
            ({
                let (s1, rm) = save_world_model(old(self)@);
                &&& final(self)@ == s1
                &&& match (r, rm) {
                    (Ok(()), Ok(())) => true,
                    (Err(e), Err(em)) => e@ == em,
                    _ => false,
                }
            }),
    {
        let last_id = self.event_log.last_event_id();
        let rng_state_now = self.rng.state();
        match &mut self.world {
            None => Err(ApiError::NoWorldLoaded),
            Some(world) => {
                world.rng_state = rng_state_now;
                world.meta.snapshot_tick = world.current_tick;
                world.meta.last_event_id = last_id;

                let snapshot = match world.to_bytes() {
                    Ok(b) => b,
                    Err(e) => {
                        return Err(ApiError::StorageError(e));
                    },
                };
                let world_id = world.id().to_owned();

                match self.store.save_snapshot(world_id.as_str(), &snapshot) {
                    Ok(()) => {},
                    Err(_) => {
                        return Err(
                            ApiError::StorageError(String::from_str("snapshot write failed")),
                        );
                    },
                }
                match self.store.save_meta(&world.meta) {
                    Ok(()) => {},
                    Err(_) => {
                        return Err(
                            ApiError::StorageError(String::from_str("metadata write failed")),
                        );
                    },
                }
                match self.event_log.sync() {
                    Ok(()) => {},
                    Err(_) => {
                        return Err(ApiError::StorageError(String::from_str("sync failed")));
                    },
                }

                let tick = world.current_tick;
                let ghost pb = self.pending_events@;
                self.pending_events.push(SimEvent::new(tick, EventData::WorldSaved { tick }));
                proof {
                    assert(self.pending_events@.map_values(|e: SimEvent| e@) =~= pb.map_values(
                        |e: SimEvent| e@,
                    ).push(self.pending_events@.last()@));
                    let (s1, rm) = save_world_model(old(self)@);
                    assert(self@ =~= s1);
                }
                Ok(())
            },
        }
    }

    fn cmd_create_world(&mut self, cmd: CreateWorldCmd) -> (r: Result<(), ApiError>)
        ensures
            final(self).event_log == old(self).event_log,
            ({
                let (s1, rm) = create_world_model(old(self)@, cmd.name@, cmd.seed);
                &&& final(self)@ == s1
                &&& match (r, rm) {
                    (Ok(()), Ok(())) => true,
                    (Err(e), Err(em)) => e@ == em,
                    _ => false,
                }
            }),
    {
        let seed = cmd.seed;
        let world = World::new(cmd.name, seed);

        if self.store.has_world(world.id()) {
            return Err(ApiError::WorldAlreadyExists(world.id().to_owned()));
        }

        self.rng.restore(seed.0);
        self.clock.set_tick(Tick(0));

        let world_id = world.id().to_owned();
        let name = world.meta.name.clone();
        let ghost pb = self.pending_events@;
        self.pending_events.push(
            SimEvent::new(Tick(0), EventData::WorldCreated { world_id, name, seed }),
        );
        proof {
            assert(self.pending_events@.map_values(|e: SimEvent| e@) =~= pb.map_values(
                |e: SimEvent| e@,
            ).push(self.pending_events@.last()@));
        }
        let ghost pb2 = self.pending_events@;
        self.pending_events.push(
            SimEvent::new(
                Tick(0),
                EventData::ZoneCreated {
                    zone_id: ZoneId(0),
                    name: Some(String::from_str("Origin")),
                },
            ),
        );
        proof {
            assert(self.pending_events@.map_values(|e: SimEvent| e@) =~= pb2.map_values(
                |e: SimEvent| e@,
            ).push(self.pending_events@.last()@));
        }

        self.world = Some(world);
        let r = self.cmd_save_world();
        proof {
            let (s1, rm) = create_world_model(old(self)@, cmd.name@, cmd.seed);
            assert(self@ =~= s1);
        }
        r
    }

    fn cmd_load_world(&mut self, world_id: &str) -> (r: Result<(), ApiError>)
        ensures
            final(self).event_log == old(self).event_log,
            ({
                let (s1, rm) = load_world_model(old(self)@, world_id@);
                &&& final(self)@ == s1
                &&& match (r, rm) {
                    (Ok(()), Ok(())) => true,
                    (Err(e), Err(em)) => e@ == em,
                    _ => false,
                }
            }),
    {
        if !self.store.has_world(world_id) {
            return Err(ApiError::WorldNotFound(world_id.to_owned()));
        }

        let snapshot = match self.store.load_snapshot(world_id) {
            Ok(b) => b,
            Err(_) => {
                return Err(ApiError::StorageError(String::from_str("snapshot not found")));
            },
        };

        let mut world = match World::from_bytes(snapshot.as_slice()) {
            Ok(w) => w,
            Err(_) => {
                return Err(
                    ApiError::StorageError(String::from_str("failed to deserialize world")),
                );
            },
        };

        let last_event_id = world.meta.last_event_id;
        let events_to_replay = match self.event_log.read_from_event_id(last_event_id) {
            Ok(v) => v,
            Err(_) => {
                return Err(ApiError::StorageError(String::from_str("failed to read log")));
            },
        };

        let _applied = crate::replay::replay_events(&mut world, &events_to_replay);

        if events_to_replay.len() > 0 {
            let last_tick = events_to_replay[events_to_replay.len() - 1].tick;
            proof {
                assert(events_to_replay@.map_values(|e: SimEvent| e@).last()
                    == events_to_replay@[events_to_replay@.len() - 1]@);
            }
            world.fast_forward(last_tick);
        }

        self.rng.restore(world.rng_state);
        self.clock.set_tick(world.current_tick);

        let tick = world.current_tick;
        let ghost pb = self.pending_events@;
        self.pending_events.push(
            SimEvent::new(
                tick,
                EventData::WorldLoaded { world_id: world_id.to_owned(), tick },
            ),
        );
        proof {
            assert(self.pending_events@.map_values(|e: SimEvent| e@) =~= pb.map_values(
                |e: SimEvent| e@,
            ).push(self.pending_events@.last()@));
        }
        self.world = Some(world);
        proof {
            let (s1, rm) = load_world_model(old(self)@, world_id@);
            assert(self@ =~= s1);
        }
        Ok(())
    }

    fn cmd_tick(&mut self) -> (r: Result<(), ApiError>)
        ensures
            final(self).event_log == old(self).event_log,
            ({
                let (s1, rm) = tick_model(old(self)@);
                &&& final(self)@ == s1
                &&& match (r, rm) {
                    (Ok(()), Ok(())) => true,
                    (Err(e), Err(em)) => e@ == em,
                    _ => false,
                }
            }),
    {
        match &mut self.world {
            None => Err(ApiError::NoWorldLoaded),
            Some(world) => {
                world.advance_tick();
                self.clock.set_tick(world.current_tick);

                let tick = world.current_tick;
                let sim_time = world.sim_time;

                let entities_processed = run_tick_systems(
                    world,
                    &mut self.rng,
                    &mut self.pending_events,
                );

                let ghost pb = self.pending_events@;
                self.pending_events.push(
                    SimEvent::new(
                        tick,
                        EventData::TickProcessed { tick, sim_time, entities_processed },
                    ),
                );
                proof {
                    assert(self.pending_events@.map_values(|e: SimEvent| e@) =~= pb.map_values(
                        |e: SimEvent| e@,
                    ).push(self.pending_events@.last()@));
                    let (s1, rm) = tick_model(old(self)@);
                    assert(self@.pending =~= s1.pending);
                    assert(self@ =~= s1);
                }
                Ok(())
            },
        }
    }

    fn cmd_spawn_entity(&mut self, cmd: SpawnEntityCmd) -> (r: Result<(), ApiError>)
        ensures
            final(self).event_log == old(self).event_log,
            ({
                let (s1, rm) = spawn_entity_model(
                    old(self)@,
                    cmd.position,
                    cmd.kind,
                    cmd.properties@,
                );
                &&& final(self)@ == s1
                &&& match (r, rm) {
                    (Ok(()), Ok(())) => true,
                    (Err(e), Err(em)) => e@ == em,
                    _ => false,
                }
            }),
    {
        match &mut self.world {
            None => Err(ApiError::NoWorldLoaded),
            Some(world) => {
                if !world.has_zone(cmd.position.zone) {
                    return Err(ApiError::ZoneNotFound(cmd.position.zone));
                }
                if world.next_entity_id == u64::MAX {
                    return Err(
                        ApiError::InternalError(String::from_str("entity id space exhausted")),
                    );
                }

                let id = world.allocate_entity_id();
                let tick = world.current_tick;

                let entity = Entity::new(id, cmd.kind, cmd.position, tick, cmd.properties.clone());
                world.add_entity(entity);

                let ghost pb = self.pending_events@;
                self.pending_events.push(
                    SimEvent::new(
                        tick,
                        EventData::EntitySpawned {
                            entity_id: id,
                            kind: cmd.kind,
                            position: cmd.position,
                            properties: cmd.properties,
                        },
                    ),
                );
                proof {
                    assert(self.pending_events@.map_values(|e: SimEvent| e@) =~= pb.map_values(
                        |e: SimEvent| e@,
                    ).push(self.pending_events@.last()@));
                    let (s1, rm) = spawn_entity_model(
                        old(self)@,
                        cmd.position,
                        cmd.kind,
                        cmd.properties@,
                    );
                    assert(self@ =~= s1);
                }
                Ok(())
            },
        }
    }

    fn cmd_despawn_entity(&mut self, id: EntityId) -> (r: Result<(), ApiError>)
        ensures
            final(self).event_log == old(self).event_log,
            ({
                let (s1, rm) = despawn_entity_model(old(self)@, id);
                &&& final(self)@ == s1
                &&& match (r, rm) {
                    (Ok(()), Ok(())) => true,
                    (Err(e), Err(em)) => e@ == em,
                    _ => false,
                }
            }),
    {
        match &mut self.world {
            None => Err(ApiError::NoWorldLoaded),
            Some(world) => {
                let tick = world.current_tick;
                match world.remove_entity(id) {
                    None => Err(ApiError::EntityNotFound(id)),
                    Some(_) => {
                        let ghost pb = self.pending_events@;
                        self.pending_events.push(
                            SimEvent::new(
                                tick,
                                EventData::EntityDespawned {
                                    entity_id: id,
                                    reason: DespawnReason::Command,
                                },
                            ),
                        );
                        proof {
                            assert(self.pending_events@.map_values(|e: SimEvent| e@)
                                =~= pb.map_values(|e: SimEvent| e@).push(
                                self.pending_events@.last()@,
                            ));
                            let (s1, rm) = despawn_entity_model(old(self)@, id);
                            assert(self@ =~= s1);
                        }
                        Ok(())
                    },
                }
            },
        }
    }

    fn cmd_create_zone(&mut self, cmd: CreateZoneCmd) -> (r: Result<(), ApiError>)
        ensures
            final(self).event_log == old(self).event_log,
            ({
                let (s1, rm) = create_zone_model(
                    old(self)@,
                    cmd.zone_id,
                    match cmd.name {
                        Some(ref s) => Some(s@),
                        None => None,
                    },
                );
                &&& final(self)@ == s1
                &&& match (r, rm) {
                    (Ok(()), Ok(())) => true,
                    (Err(e), Err(em)) => e@ == em,
                    _ => false,
                }
            }),
    {
        let ghost name_view: Option<Seq<char>> = match cmd.name {
            Some(ref s) => Some(s@),
            None => None,
        };
        match &mut self.world {
            None => Err(ApiError::NoWorldLoaded),
            Some(world) => {
                if world.has_zone(cmd.zone_id) {
                    return Err(ApiError::ZoneAlreadyExists(cmd.zone_id));
                }

                let tick = world.current_tick;
                let name_for_event: Option<String> = match &cmd.name {
                    Some(s) => Some(s.clone()),
                    None => None,
                };
                let zone = Zone::new(cmd.zone_id, cmd.name);
                world.add_zone(zone);

                let ghost pb = self.pending_events@;
                self.pending_events.push(
                    SimEvent::new(
                        tick,
                        EventData::ZoneCreated { zone_id: cmd.zone_id, name: name_for_event },
                    ),
                );
                proof {
                    assert(self.pending_events@.map_values(|e: SimEvent| e@) =~= pb.map_values(
                        |e: SimEvent| e@,
                    ).push(self.pending_events@.last()@));
                    let (s1, rm) = create_zone_model(old(self)@, cmd.zone_id, name_view);
                    assert(self@ =~= s1);
                }
                Ok(())
            },
        }
    }

    /// Process a command and return the resulting events, stamped with
    /// their log-assigned ids.
    ///
    /// The new engine state and the result are a function of the old state
    /// and the command: [`process_command_model`].
    #[verifier::spinoff_prover]
    #[verifier::rlimit(100)]
    pub fn process_command(&mut self, cmd: Command) -> (r: Result<Vec<SimEvent>, ApiError>)
        requires
            old(self).event_log.wf(),
        ensures
            final(self).event_log.wf(),
            ({
                let (s2, rm) = process_command_model(old(self)@, cmd@);
                &&& final(self)@ == s2
                &&& match (r, rm) {
                    (Ok(evs), Ok(evs_m)) => evs@.map_values(|e: SimEvent| e@) == evs_m,
                    (Err(e), Err(em)) => e@ == em,
                    _ => false,
                }
            }),
    {
        let ghost cmd_v = cmd@;
        match validate_command(&cmd) {
            Err(errors) => {
                proof {
                    assert(command_violations_of(cmd_v) =~= crate::validation::command_violations(
                        &cmd,
                    ));
                }
                return Err(ApiError::ValidationFailed(errors));
            },
            Ok(()) => {},
        }
        proof {
            assert(command_violations_of(cmd_v) =~= crate::validation::command_violations(&cmd));
        }

        self.pending_events.clear();
        proof {
            assert(self@.pending =~= Seq::<SimEventView>::empty());
            assert(self@ =~= (SimView { pending: Seq::empty(), ..old(self)@ }));
        }
        let ghost s_cleared = self@;

        let step: Result<(), ApiError> = match cmd {
            Command::CreateWorld(c) => {
                let ghost name_v = c.name@;
                let ghost seed_v = c.seed;
                let r = self.cmd_create_world(c);
                proof {
                    assert(dispatch_model(s_cleared, cmd_v) == create_world_model(
                        s_cleared,
                        name_v,
                        seed_v,
                    ));
                }
                r
            },
            Command::LoadWorld(c) => {
                let ghost wid_v = c.world_id@;
                let r = self.cmd_load_world(c.world_id.as_str());
                proof {
                    assert(dispatch_model(s_cleared, cmd_v) == load_world_model(
                        s_cleared,
                        wid_v,
                    ));
                }
                r
            },
            Command::SaveWorld => self.cmd_save_world(),
            Command::Tick => self.cmd_tick(),
            Command::TickN(n) => {
                let mut step: Result<(), ApiError> = Ok(());
                let mut i: u32 = 0;
                while i < n && step.is_ok()
                    invariant
                        0 <= i <= n,
                        self.event_log == old(self).event_log,
                        match step {
                            Ok(()) => tick_n_model(s_cleared, n) == tick_n_model(
                                self@,
                                (n - i) as u32,
                            ),
                            Err(ref e) => tick_n_model(s_cleared, n) == (
                                self@,
                                Err::<(), ApiErrorView>(e@),
                            ),
                        },
                    decreases n - i,
                {
                    let r = self.cmd_tick();
                    match r {
                        Ok(()) => {
                            step = Ok(());
                        },
                        Err(e) => {
                            step = Err(e);
                        },
                    }
                    i = i + 1;
                }
                proof {
                    assert(dispatch_model(s_cleared, cmd_v) == tick_n_model(s_cleared, n));
                }
                step
            },
            Command::SpawnEntity(c) => {
                let ghost pos_v = c.position;
                let ghost kind_v = c.kind;
                let ghost props_v = c.properties@;
                let r = self.cmd_spawn_entity(c);
                proof {
                    assert(dispatch_model(s_cleared, cmd_v) == spawn_entity_model(
                        s_cleared,
                        pos_v,
                        kind_v,
                        props_v,
                    ));
                }
                r
            },
            Command::DespawnEntity(id) => self.cmd_despawn_entity(id),
            Command::CreateZone(c) => {
                let ghost zid_v = c.zone_id;
                let ghost name_v: Option<Seq<char>> = match c.name {
                    Some(ref s) => Some(s@),
                    None => None,
                };
                let r = self.cmd_create_zone(c);
                proof {
                    assert(dispatch_model(s_cleared, cmd_v) == create_zone_model(
                        s_cleared,
                        zid_v,
                        name_v,
                    ));
                }
                r
            },
            Command::Shutdown => {
                let loaded = match self.world {
                    Some(_) => true,
                    None => false,
                };
                if loaded {
                    self.cmd_save_world()
                } else {
                    Ok(())
                }
            },
        };

        proof {
            let (sd, rd) = dispatch_model(s_cleared, cmd_v);
            assert(self@ == sd);
            assert(match step {
                Ok(()) => rd is Ok,
                Err(ref e) => rd == Err::<(), ApiErrorView>(e@),
            });
            assert(self.event_log == old(self).event_log);
        }

        match step {
            Err(e) => {
                return Err(e);
            },
            Ok(()) => {},
        }

        if self.pending_events.len() == 0 {
            let empty_out: Vec<SimEvent> = Vec::new();
            proof {
                assert(empty_out@.map_values(|e: SimEvent| e@) =~= Seq::<SimEventView>::empty());
            }
            return Ok(empty_out);
        }

        let ghost s1 = self@;
        let events = self.pending_events.split_off(0);
        proof {
            assert(self.pending_events@ =~= Seq::<SimEvent>::empty());
            assert(self@.pending =~= Seq::<SimEventView>::empty());
            assert(events@.map_values(|e: SimEvent| e@) =~= s1.pending);
        }
        match self.event_log.append_batch(events) {
            Ok(persisted) => {
                proof {
                    let (s2, rm) = process_command_model(old(self)@, cmd_v);
                    assert(self@.log =~= s1.log + assign_ids(s1.log_next, s1.pending));
                    assert(self@ =~= s2);
                }
                Ok(persisted)
            },
            Err(_) => Err(ApiError::StorageError(String::from_str("event id space exhausted"))),
        }
    }
}


// ============================================================================
// The zone-membership invariant across commands
// ============================================================================

/// A fresh world satisfies the world invariants.
pub proof fn lemma_world_new_wf(name: Seq<char>, seed: RngSeed)
    ensures
        world_new_model(name, seed).wf(),
{
    let w = world_new_model(name, seed);
    assert(w.zones[0].id.0 == 0);
    assert(find_zone(w.zones, 0) is Some);
}

/// Saving touches no entity or zone, so the invariants survive.
proof fn lemma_save_wf(s: SimView)
    requires
        match s.world {
            Some(w) => w.wf(),
            None => true,
        },
    ensures
        match save_world_model(s).0.world {
            Some(w2) => w2.wf(),
            None => true,
        },
{
}

/// One per-entity rule application preserves the invariants.
proof fn lemma_tick_entity_wf(w: WorldView, rs: u64, inc: u64, id: EntityId)
    requires
        w.wf(),
    ensures
        tick_entity_model(w, rs, inc, id).0.wf(),
{
    match find_entity(w.entities, id.0) {
        None => {},
        Some(e) => {
            match e.kind {
                EntityKind::Resource => match e.properties.amount {
                    Some(amt) => if amt > 0 && chance_hit(rs, RESOURCE_DEPLETION_CHANCE) {
                        let new_amount = (amt - 1) as u32;
                        assert forall|x: crate::world::EntityView|
                            (#[trigger] set_amount_fn(new_amount)(x)).id == x.id by {}
                        assert forall|x: crate::world::EntityView|
                            (#[trigger] set_amount_fn(new_amount)(x)).position == x.position by {}
                        crate::world::lemma_with_entity_wf(w, id, set_amount_fn(new_amount));
                        if new_amount == 0 {
                            let w1 = w.with_entity(id, set_amount_fn(new_amount));
                            assert forall|x: crate::world::EntityView|
                                (#[trigger] set_state_fn(EntityState::Dead)(x)).id == x.id by {}
                            assert forall|x: crate::world::EntityView|
                                (#[trigger] set_state_fn(EntityState::Dead)(x)).position
                                    == x.position by {}
                            crate::world::lemma_with_entity_wf(
                                w1,
                                id,
                                set_state_fn(EntityState::Dead),
                            );
                        }
                    },
                    None => {},
                },
                EntityKind::Creature => match e.properties.health {
                    Some(hp) => if hp > 0 && chance_hit(rs, CREATURE_DEGRADE_CHANCE) {
                        let new_health = (hp - 1) as u32;
                        assert forall|x: crate::world::EntityView|
                            (#[trigger] set_health_fn(new_health)(x)).id == x.id by {}
                        assert forall|x: crate::world::EntityView|
                            (#[trigger] set_health_fn(new_health)(x)).position == x.position by {}
                        crate::world::lemma_with_entity_wf(w, id, set_health_fn(new_health));
                        if new_health == 0 {
                            let w1 = w.with_entity(id, set_health_fn(new_health));
                            assert forall|x: crate::world::EntityView|
                                (#[trigger] set_state_fn(EntityState::Dead)(x)).id == x.id by {}
                            assert forall|x: crate::world::EntityView|
                                (#[trigger] set_state_fn(EntityState::Dead)(x)).position
                                    == x.position by {}
                            crate::world::lemma_with_entity_wf(
                                w1,
                                id,
                                set_state_fn(EntityState::Dead),
                            );
                        }
                    },
                    None => {},
                },
                _ => {},
            }
        },
    }
}

/// The per-entity rules, folded over any id sequence, preserve the
/// invariants.
proof fn lemma_tick_entities_wf(w: WorldView, rs: u64, inc: u64, ids: Seq<EntityId>)
    requires
        w.wf(),
    ensures
        tick_entities_model(w, rs, inc, ids).0.wf(),
    decreases ids.len(),
{
    if ids.len() > 0 {
        lemma_tick_entity_wf(w, rs, inc, ids[0]);
        let (w1, rs1, evs1, n1) = tick_entity_model(w, rs, inc, ids[0]);
        lemma_tick_entities_wf(w1, rs1, inc, ids.drop_first());
    }
}

/// The reaper, folded over any id sequence, preserves the invariants.
proof fn lemma_reap_wf(w: WorldView, ids: Seq<EntityId>)
    requires
        w.wf(),
    ensures
        reap_model(w, ids).0.wf(),
    decreases ids.len(),
{
    if ids.len() > 0 {
        crate::world::lemma_remove_entity_wf(w, ids[0]);
        lemma_reap_wf(w.remove_entity_model(ids[0]), ids.drop_first());
    }
}

/// One tick preserves the invariants.
proof fn lemma_tick_wf(s: SimView)
    requires
        match s.world {
            Some(w) => w.wf(),
            None => true,
        },
    ensures
        match tick_model(s).0.world {
            Some(w2) => w2.wf(),
            None => true,
        },
{
    match s.world {
        None => {},
        Some(w) => {
            let w1 = w.advance_tick_model();
            assert(w1.wf());
            lemma_tick_entities_wf(w1, s.rng_state, s.rng_increment, active_ids(w1.entities));
            let (w2, rs2, evs, n) = tick_entities_model(
                w1,
                s.rng_state,
                s.rng_increment,
                active_ids(w1.entities),
            );
            if w2.current_tick.0 % REAPER_PERIOD == 0 {
                lemma_reap_wf(w2, dead_ids(w2.entities));
            }
        },
    }
}

/// Any number of ticks preserves the invariants.
proof fn lemma_tick_n_wf(s: SimView, n: u32)
    requires
        match s.world {
            Some(w) => w.wf(),
            None => true,
        },
    ensures
        match tick_n_model(s, n).0.world {
            Some(w2) => w2.wf(),
            None => true,
        },
    decreases n,
{
    if n > 0 {
        lemma_tick_wf(s);
        let (s1, r) = tick_model(s);
        match r {
            Ok(()) => {
                lemma_tick_n_wf(s1, (n - 1) as u32);
            },
            Err(_) => {},
        }
    }
}

/// Zone membership across commands: every command except a load keeps
/// the world well-formed - each entity's id listed exactly once in its
/// declared zone's member list, every listed id backed by an entity
/// declared there, the containers sorted, the clocks mirrored, the ids
/// in range, the origin zone present.  (A load reconstructs the world
/// from storage, whose contents this model does not constrain.)
pub proof fn lemma_commands_preserve_wf(s: SimView, cmd: CommandView)
    requires
        match s.world {
            Some(w) => w.wf(),
            None => true,
        },
        !(cmd matches CommandView::LoadWorld { .. }),
    ensures
        match process_command_model(s, cmd).0.world {
            Some(w2) => w2.wf(),
            None => true,
        },
{
    let violations = command_violations_of(cmd);
    if violations.len() > 0 {
    } else {
        let s0 = SimView { pending: Seq::empty(), ..s };
        match cmd {
            CommandView::CreateWorld { name, seed } => {
                let wid = world_id_seq(seed.0);
                if find_meta(s0.metas, wid) is Some {
                } else {
                    lemma_world_new_wf(name, seed);
                    let w = world_new_model(name, seed);
                    let s1 = SimView {
                        rng_state: seed.0,
                        clock_tick: Tick(0),
                        pending: s0.pending + seq![
                            pend(
                                Tick(0),
                                EventDataView::WorldCreated { world_id: wid, name, seed },
                            ),
                            pend(
                                Tick(0),
                                EventDataView::ZoneCreated {
                                    zone_id: ZoneId(0),
                                    name: Some("Origin"@),
                                },
                            ),
                        ],
                        world: Some(w),
                        ..s0
                    };
                    lemma_save_wf(s1);
                }
            },
            CommandView::LoadWorld { .. } => {},
            CommandView::SaveWorld => {
                lemma_save_wf(s0);
            },
            CommandView::Tick => {
                lemma_tick_wf(s0);
            },
            CommandView::TickN(n) => {
                lemma_tick_n_wf(s0, n);
            },
            CommandView::SpawnEntity { position, kind, properties } => {
                match s0.world {
                    None => {},
                    Some(w) => {
                        if has_zone(w.zones, position.zone.0) && w.next_entity_id != u64::MAX {
                            let id = EntityId(w.next_entity_id);
                            let w1 = WorldView {
                                next_entity_id: (w.next_entity_id + 1) as u64,
                                ..w
                            };
                            assert(w1.wf());
                            let e = crate::world::EntityView {
                                id,
                                kind,
                                state: EntityState::Active,
                                position,
                                created_at: w.current_tick,
                                properties,
                            };
                            assert(!has_entity(w1.entities, e.id.0)) by {
                                assert forall|j: int| 0 <= j < w1.entities.len() implies (
                                #[trigger] w1.entities[j]).id.0 != e.id.0 by {}
                                crate::world::lemma_find_entity_none(w1.entities, e.id.0);
                            }
                            crate::world::lemma_add_entity_wf(w1, e);
                        }
                    },
                }
            },
            CommandView::DespawnEntity(id) => {
                match s0.world {
                    None => {},
                    Some(w) => {
                        crate::world::lemma_remove_entity_wf(w, id);
                    },
                }
            },
            CommandView::CreateZone { zone_id, name } => {
                match s0.world {
                    None => {},
                    Some(w) => {
                        if !has_zone(w.zones, zone_id.0) {
                            let z = ZoneView {
                                id: zone_id,
                                name,
                                loaded: true,
                                entities: Seq::empty(),
                            };
                            crate::world::lemma_add_zone_wf(w, z);
                        }
                    },
                }
            },
            CommandView::Shutdown => {
                if s0.world is Some {
                    lemma_save_wf(s0);
                }
            },
        }
    }
}

// ============================================================================
// Crash-recovery equivalence, command by command
// ============================================================================

/// Replaying a spawn's emitted event onto the world the command started
/// from rebuilds exactly the world the command produced.
pub proof fn lemma_spawn_replay_equivalence(
    w: WorldView,
    position: crate::types::WorldPos,
    kind: EntityKind,
    properties: PropsView,
)
    requires
        w.wf(),
        has_zone(w.zones, position.zone.0),
        w.next_entity_id < u64::MAX,
    ensures
        ({
            let id = EntityId(w.next_entity_id);
            let e = crate::world::EntityView {
                id,
                kind,
                state: EntityState::Active,
                position,
                created_at: w.current_tick,
                properties,
            };
            let w2 = WorldView { next_entity_id: (w.next_entity_id + 1) as u64, ..w }
                .add_entity_model(e);
            let ev = pend(
                w.current_tick,
                EventDataView::EntitySpawned { entity_id: id, kind, position, properties },
            );
            apply_event_model(w, ev) == w2
        }),
{
    let id = EntityId(w.next_entity_id);
    assert(!has_entity(w.entities, id.0)) by {
        assert forall|j: int| 0 <= j < w.entities.len() implies (
        #[trigger] w.entities[j]).id.0 != id.0 by {}
        crate::world::lemma_find_entity_none(w.entities, id.0);
    }
    let ev = pend(
        w.current_tick,
        EventDataView::EntitySpawned { entity_id: id, kind, position, properties },
    );
    assert(w.fast_forward_model(ev.tick) == w);
}

/// Replaying a despawn's emitted event onto the world the command
/// started from rebuilds exactly the world the command produced.
pub proof fn lemma_despawn_replay_equivalence(w: WorldView, id: EntityId)
    ensures
        ({
            let ev = pend(
                w.current_tick,
                EventDataView::EntityDespawned {
                    entity_id: id,
                    reason: DespawnReason::Command,
                },
            );
            apply_event_model(w, ev) == w.remove_entity_model(id)
        }),
{
    let ev = pend(
        w.current_tick,
        EventDataView::EntityDespawned { entity_id: id, reason: DespawnReason::Command },
    );
    assert(w.fast_forward_model(ev.tick) == w);
}

/// Replaying a zone creation's emitted event onto the world the command
/// started from rebuilds exactly the world the command produced.
pub proof fn lemma_create_zone_replay_equivalence(
    w: WorldView,
    zone_id: ZoneId,
    name: Option<Seq<char>>,
)
    requires
        !has_zone(w.zones, zone_id.0),
    ensures
        ({
            let z = ZoneView { id: zone_id, name, loaded: true, entities: Seq::empty() };
            let ev = pend(w.current_tick, EventDataView::ZoneCreated { zone_id, name });
            apply_event_model(w, ev) == w.add_zone_model(z)
        }),
{
    let ev = pend(w.current_tick, EventDataView::ZoneCreated { zone_id, name });
    assert(w.fast_forward_model(ev.tick) == w);
}

/// The tick rules on one entity: replaying the emitted events onto the
/// same world reproduces the change; every emitted event carries the
/// world's tick, and the tick itself never moves.
#[verifier::spinoff_prover]
#[verifier::rlimit(100)]
proof fn lemma_tick_entity_replay(w: WorldView, rs: u64, inc: u64, id: EntityId)
    ensures
        ({
            let (w1, rs1, evs, n) = tick_entity_model(w, rs, inc, id);
            &&& replay_model(w, evs) == w1
            &&& forall|i: int| 0 <= i < evs.len() ==> (#[trigger] evs[i]).tick == w.current_tick
            &&& w1.current_tick == w.current_tick
        }),
{
    reveal_with_fuel(crate::replay::replay_model, 4);
    let (w1, rs1, evs, n) = tick_entity_model(w, rs, inc, id);
    match find_entity(w.entities, id.0) {
        None => {},
        Some(e) => {
            crate::world::lemma_find_entity_id(w.entities, id.0);
            match e.kind {
                EntityKind::Resource => match e.properties.amount {
                    Some(amt) => if amt > 0 && chance_hit(rs, RESOURCE_DEPLETION_CHANCE) {
                        let new_amount = (amt - 1) as u32;
                        let a_fwd = set_amount_fn(new_amount)(e);
                        let a_rep = deplete_fn(new_amount)(e);
                        if new_amount == 0 {
                            let ev1 = evs[0];
                            let ev2 = evs[1];
                            assert(evs.drop_first() =~= seq![ev2]);
                            assert(seq![ev2].drop_first() =~= Seq::<SimEventView>::empty());
                            let wa = apply_event_model(w, ev1);
                            assert(w.fast_forward_model(ev1.tick) == w);
                            assert(wa == w.with_entity(id, deplete_fn(new_amount)));
                            crate::world::lemma_find_update_entity(w.entities, id.0, a_rep);
                            assert(wa.fast_forward_model(ev2.tick) == wa);
                            let wb = apply_event_model(wa, ev2);
                            assert(wb.entities == update_entity(
                                wa.entities,
                                id.0,
                                set_state_fn(EntityState::Dead)(a_rep),
                            ));
                            crate::world::lemma_update_entity_collapse(
                                w.entities,
                                id.0,
                                a_rep,
                                set_state_fn(EntityState::Dead)(a_rep),
                            );
                            crate::world::lemma_find_update_entity(w.entities, id.0, a_fwd);
                            crate::world::lemma_update_entity_collapse(
                                w.entities,
                                id.0,
                                a_fwd,
                                set_state_fn(EntityState::Dead)(a_fwd),
                            );
                            assert(set_state_fn(EntityState::Dead)(a_rep) == set_state_fn(
                                EntityState::Dead,
                            )(a_fwd));
                            assert(wb =~= w1);
                        } else {
                            let ev1 = evs[0];
                            assert(evs.drop_first() =~= Seq::<SimEventView>::empty());
                            assert(w.fast_forward_model(ev1.tick) == w);
                            assert(a_rep == a_fwd);
                            assert(apply_event_model(w, ev1) =~= w1);
                        }
                    },
                    None => {},
                },
                EntityKind::Creature => match e.properties.health {
                    Some(hp) => if hp > 0 && chance_hit(rs, CREATURE_DEGRADE_CHANCE) {
                        let new_health = (hp - 1) as u32;
                        let a_fwd = set_health_fn(new_health)(e);
                        let a_rep = degrade_fn(new_health)(e);
                        if new_health == 0 {
                            let ev1 = evs[0];
                            let ev2 = evs[1];
                            assert(evs.drop_first() =~= seq![ev2]);
                            assert(seq![ev2].drop_first() =~= Seq::<SimEventView>::empty());
                            let wa = apply_event_model(w, ev1);
                            assert(w.fast_forward_model(ev1.tick) == w);
                            assert(wa == w.with_entity(id, degrade_fn(new_health)));
                            crate::world::lemma_find_update_entity(w.entities, id.0, a_rep);
                            assert(wa.fast_forward_model(ev2.tick) == wa);
                            let wb = apply_event_model(wa, ev2);
                            assert(wb.entities == update_entity(
                                wa.entities,
                                id.0,
                                set_state_fn(EntityState::Dead)(a_rep),
                            ));
                            crate::world::lemma_update_entity_collapse(
                                w.entities,
                                id.0,
                                a_rep,
                                set_state_fn(EntityState::Dead)(a_rep),
                            );
                            crate::world::lemma_find_update_entity(w.entities, id.0, a_fwd);
                            crate::world::lemma_update_entity_collapse(
                                w.entities,
                                id.0,
                                a_fwd,
                                set_state_fn(EntityState::Dead)(a_fwd),
                            );
                            assert(set_state_fn(EntityState::Dead)(a_rep) == set_state_fn(
                                EntityState::Dead,
                            )(a_fwd));
                            assert(wb =~= w1);
                        } else {
                            let ev1 = evs[0];
                            assert(evs.drop_first() =~= Seq::<SimEventView>::empty());
                            assert(w.fast_forward_model(ev1.tick) == w);
                            assert(a_rep == a_fwd);
                            assert(apply_event_model(w, ev1) =~= w1);
                        }
                    },
                    None => {},
                },
                _ => {},
            }
        },
    }
}

/// The tick rules over an id sequence: replaying the emitted events onto
/// the same world reproduces the fold.
proof fn lemma_tick_entities_replay(w: WorldView, rs: u64, inc: u64, ids: Seq<EntityId>)
    ensures
        ({
            let (w1, rs1, evs, n) = tick_entities_model(w, rs, inc, ids);
            &&& replay_model(w, evs) == w1
            &&& forall|i: int| 0 <= i < evs.len() ==> (#[trigger] evs[i]).tick == w.current_tick
            &&& w1.current_tick == w.current_tick
        }),
    decreases ids.len(),
{
    let (w1, rs1, evs, n) = tick_entities_model(w, rs, inc, ids);
    if ids.len() == 0 {
    } else {
        let (wa, rsa, evsa, na) = tick_entity_model(w, rs, inc, ids[0]);
        lemma_tick_entity_replay(w, rs, inc, ids[0]);
        lemma_tick_entities_replay(wa, rsa, inc, ids.drop_first());
        let (wb, rsb, evsb, nb) = tick_entities_model(wa, rsa, inc, ids.drop_first());
        crate::replay::lemma_replay_model_concat(w, evsa, evsb);
    }
}

/// The reaper over an id sequence: replaying the emitted despawn events
/// onto the same world reproduces the removals.
proof fn lemma_reap_replay(w: WorldView, ids: Seq<EntityId>)
    ensures
        ({
            let (w1, evs) = reap_model(w, ids);
            &&& replay_model(w, evs) == w1
            &&& forall|i: int| 0 <= i < evs.len() ==> (#[trigger] evs[i]).tick == w.current_tick
            &&& w1.current_tick == w.current_tick
        }),
    decreases ids.len(),
{
    reveal_with_fuel(crate::replay::replay_model, 3);
    let (w1, evs) = reap_model(w, ids);
    if ids.len() == 0 {
    } else {
        let present = has_entity(w.entities, ids[0].0);
        let wa = w.remove_entity_model(ids[0]);
        let evsa: Seq<SimEventView> = if present {
            seq![
                pend(
                    w.current_tick,
                    EventDataView::EntityDespawned {
                        entity_id: ids[0],
                        reason: DespawnReason::Death,
                    },
                ),
            ]
        } else {
            Seq::empty()
        };
        if present {
            let ev = evsa[0];
            assert(w.fast_forward_model(ev.tick) == w);
            assert(evsa.drop_first() =~= Seq::<SimEventView>::empty());
            assert(replay_model(w, evsa) == wa);
        } else {
            assert(wa == w);
        }
        lemma_reap_replay(wa, ids.drop_first());
        let (wb, evsb) = reap_model(wa, ids.drop_first());
        crate::replay::lemma_replay_model_concat(w, evsa, evsb);
    }
}

/// Fast-forwarding to the advanced tick is the same as advancing, for a
/// well-formed world.
proof fn lemma_ffw_advance(w: WorldView)
    requires
        w.wf(),
    ensures
        w.fast_forward_model(w.advance_tick_model().current_tick) == w.advance_tick_model(),
{
}

/// Crash-recovery equivalence for a tick: replaying the events one tick
/// emits - the per-entity events, the reaper's despawns, and the final
/// tick record - onto the world the tick started from rebuilds exactly
/// the world the tick produced.  (The events here are as buffered; the
/// ids the log later assigns do not enter any event's effect.)
#[verifier::spinoff_prover]
#[verifier::rlimit(100)]
pub proof fn lemma_tick_replay_equivalence(s: SimView)
    requires
        match s.world {
            Some(w) => w.wf(),
            None => false,
        },
    ensures
        ({
            let w = s.world.unwrap();
            let w1 = w.advance_tick_model();
            let (w2, rs2, evs, n) = tick_systems_model(w1, s.rng_state, s.rng_increment);
            let done = pend(
                w1.current_tick,
                EventDataView::TickProcessed {
                    tick: w1.current_tick,
                    sim_time: w1.sim_time,
                    entities_processed: clamp_u32(n),
                },
            );
            replay_model(w, evs.push(done)) == w2
        }),
{
    reveal_with_fuel(crate::replay::replay_model, 3);
    let w = s.world.unwrap();
    let w1 = w.advance_tick_model();
    let t1 = w1.current_tick;
    lemma_ffw_advance(w);
    let (wa, rsa, evsa, n) = tick_entities_model(
        w1,
        s.rng_state,
        s.rng_increment,
        active_ids(w1.entities),
    );
    lemma_tick_entities_replay(w1, s.rng_state, s.rng_increment, active_ids(w1.entities));
    let (w2, rs2, evs, nn) = tick_systems_model(w1, s.rng_state, s.rng_increment);
    if wa.current_tick.0 % REAPER_PERIOD == 0 {
        lemma_reap_replay(wa, dead_ids(wa.entities));
        crate::replay::lemma_replay_model_concat(w1, evsa, reap_model(wa, dead_ids(wa.entities)).1);
    }
    assert(replay_model(w1, evs) == w2);
    assert(w2.current_tick == t1);
    assert(forall|i: int| 0 <= i < evs.len() ==> (#[trigger] evs[i]).tick == t1);

    let done = pend(
        t1,
        EventDataView::TickProcessed {
            tick: t1,
            sim_time: w1.sim_time,
            entities_processed: clamp_u32(nn),
        },
    );
    let full = evs.push(done);
    assert(full[0].tick == t1);
    // The first event's own fast-forward performs the tick advance, so
    // replaying onto the pre-tick world equals replaying onto the
    // advanced one.
    assert(apply_event_model(w, full[0]) == apply_event_model(w1, full[0]));
    assert(replay_model(w, full) == replay_model(w1, full));
    assert(full.drop_last() =~= evs);
    crate::replay::lemma_replay_model_push(w1, evs, done);
    assert(apply_event_model(w2, done) == w2) by {
        assert(w2.fast_forward_model(done.tick) == w2);
    }
}

} // verus!
