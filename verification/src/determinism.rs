//! The determinism harness: the canonical world hash, the scheduled
//! command runner, and the checkpoint comparison.
//!
//! The canonical hash digests a canonical byte encoding of the world, so
//! worlds with equal mathematical values always hash alike.  The runner
//! executes a scheduled command stream tick by tick and records
//! checkpoints; its whole outcome is a function of the seed, the inputs
//! and the schedule ([`run_model`]), which is what makes two independent
//! runs comparable at all.

use vstd::prelude::*;

use crate::clock::UnlimitedClock;
use crate::codec::{enc_i32, enc_u32, enc_u64, kind_byte, put_i32, put_u32, put_u64, put_u8,
    state_byte};
use crate::commands::{Command, CommandView, CreateWorldCmd};
use crate::hasher::{IStateHasher, StateHash, XxHasher, xxh64_of};
use crate::mocks::{MockEventLog, MockWorldStore};
use crate::rng::Pcg32Rng;
use crate::sim::{process_command_model, SimView, Simulation};
use crate::types::{RngSeed, Tick};
use crate::world::{World, WorldView, EntityView, ZoneView};

verus! {

// ============================================================================
// Canonical encoding and hash
// ============================================================================

/// The canonical bytes of one entity: id, kind code, state code, zone and
/// coordinates, creation tick, then the properties with absent numbers as
/// zero and the name length-prefixed.
pub open spec fn canonical_entity_bytes(e: EntityView) -> Seq<u8> {
    enc_u64(e.id.0) + seq![kind_byte(e.kind)] + seq![state_byte(e.state)] + enc_u32(
        e.position.zone.0,
    ) + enc_i32(e.position.pos.x) + enc_i32(e.position.pos.y) + enc_i32(e.position.pos.z)
        + enc_u64(e.created_at.0) + (match e.properties.name {
        Some(n) => enc_u64(vstd::utf8::encode_utf8(n).len() as u64) + vstd::utf8::encode_utf8(n),
        None => enc_u64(0),
    }) + enc_u32(
        match e.properties.amount {
            Some(a) => a,
            None => 0,
        },
    ) + enc_u32(
        match e.properties.health {
            Some(h) => h,
            None => 0,
        },
    )
}

/// The canonical bytes of one zone: id, loaded flag, member count.
pub open spec fn canonical_zone_bytes(z: ZoneView) -> Seq<u8> {
    enc_u32(z.id.0) + seq![
        if z.loaded {
            1u8
        } else {
            0u8
        },
    ] + enc_u64(z.entities.len() as u64)
}

/// The concatenated canonical bytes of the entities, in their stored
/// (ascending id) order.
pub open spec fn canonical_entity_list(s: Seq<EntityView>) -> Seq<u8>
    decreases s.len(),
{
    if s.len() == 0 {
        Seq::empty()
    } else {
        canonical_entity_bytes(s[0]) + canonical_entity_list(s.drop_first())
    }
}

/// The concatenated canonical bytes of the zones, in their stored
/// (ascending id) order.
pub open spec fn canonical_zone_list(s: Seq<ZoneView>) -> Seq<u8>
    decreases s.len(),
{
    if s.len() == 0 {
        Seq::empty()
    } else {
        canonical_zone_bytes(s[0]) + canonical_zone_list(s.drop_first())
    }
}

/// The canonical byte encoding of the world: tick, simulated time, RNG
/// state, allocator cursor, then the counted entities and zones in
/// ascending id order.
pub open spec fn canonical_world_bytes(w: WorldView) -> Seq<u8> {
    enc_u64(w.current_tick.0) + enc_u64(w.sim_time.units) + enc_u64(w.rng_state) + enc_u64(
        w.next_entity_id,
    ) + enc_u64(w.entities.len() as u64) + canonical_entity_list(w.entities) + enc_u64(
        w.zones.len() as u64,
    ) + canonical_zone_list(w.zones)
}

/// The canonical hash of a world value.
pub open spec fn canonical_hash_of(w: WorldView) -> u64 {
    xxh64_of(canonical_world_bytes(w), 0)
}

/// Appending one entity appends its canonical bytes.
proof fn lemma_canonical_entity_list_push(s: Seq<EntityView>, e: EntityView)
    ensures
        canonical_entity_list(s.push(e)) == canonical_entity_list(s) + canonical_entity_bytes(e),
    decreases s.len(),
{
    reveal_with_fuel(canonical_entity_list, 3);
    if s.len() == 0 {
        assert(s.push(e)[0] == e);
        assert(s.push(e).drop_first() =~= Seq::<EntityView>::empty());
        assert(canonical_entity_list(s.push(e)) =~= canonical_entity_list(s)
            + canonical_entity_bytes(e));
    } else {
        assert(s.push(e)[0] == s[0]);
        assert(s.push(e).drop_first() =~= s.drop_first().push(e));
        lemma_canonical_entity_list_push(s.drop_first(), e);
        assert(canonical_entity_list(s.push(e)) =~= canonical_entity_list(s)
            + canonical_entity_bytes(e));
    }
}

/// Appending one zone appends its canonical bytes.
proof fn lemma_canonical_zone_list_push(s: Seq<ZoneView>, z: ZoneView)
    ensures
        canonical_zone_list(s.push(z)) == canonical_zone_list(s) + canonical_zone_bytes(z),
    decreases s.len(),
{
    reveal_with_fuel(canonical_zone_list, 3);
    if s.len() == 0 {
        assert(s.push(z)[0] == z);
        assert(s.push(z).drop_first() =~= Seq::<ZoneView>::empty());
        assert(canonical_zone_list(s.push(z)) =~= canonical_zone_list(s)
            + canonical_zone_bytes(z));
    } else {
        assert(s.push(z)[0] == s[0]);
        assert(s.push(z).drop_first() =~= s.drop_first().push(z));
        lemma_canonical_zone_list_push(s.drop_first(), z);
        assert(canonical_zone_list(s.push(z)) =~= canonical_zone_list(s)
            + canonical_zone_bytes(z));
    }
}

/// Append one entity's canonical bytes.
#[verifier::spinoff_prover]
#[verifier::rlimit(60)]
fn put_canonical_entity(out: &mut Vec<u8>, e: &crate::world::Entity)
    ensures
        final(out)@ == old(out)@ + canonical_entity_bytes(e@),
{
    put_u64(out, e.id.0);
    let kb: u8 = match e.kind {
        crate::types::EntityKind::Resource => 0,
        crate::types::EntityKind::Creature => 1,
        crate::types::EntityKind::Item => 2,
        crate::types::EntityKind::Structure => 3,
    };
    put_u8(out, kb);
    let sb: u8 = match e.state {
        crate::types::EntityState::Active => 0,
        crate::types::EntityState::Dormant => 1,
        crate::types::EntityState::Dead => 2,
    };
    put_u8(out, sb);
    put_u32(out, e.position.zone.0);
    put_i32(out, e.position.pos.x);
    put_i32(out, e.position.pos.y);
    put_i32(out, e.position.pos.z);
    put_u64(out, e.created_at.0);
    match &e.properties.name {
        Some(n) => {
            let bytes = n.as_str().as_bytes();
            put_u64(out, bytes.len() as u64);
            out.extend_from_slice(bytes);
        },
        None => {
            put_u64(out, 0);
        },
    }
    put_u32(
        out,
        match e.properties.amount {
            Some(a) => a,
            None => 0,
        },
    );
    put_u32(
        out,
        match e.properties.health {
            Some(h) => h,
            None => 0,
        },
    );
    proof {
        assert(final(out)@ =~= old(out)@ + canonical_entity_bytes(e@));
    }
}

/// Compute the canonical byte encoding of the world.
#[verifier::spinoff_prover]
#[verifier::rlimit(100)]
pub fn compute_canonical_bytes(world: &World) -> (out: Vec<u8>)
    ensures
        out@ == canonical_world_bytes(world@),
{
    let mut out: Vec<u8> = Vec::new();
    put_u64(&mut out, world.current_tick.0);
    put_u64(&mut out, world.sim_time.units);
    put_u64(&mut out, world.rng_state);
    put_u64(&mut out, world.next_entity_id);
    put_u64(&mut out, world.entities.len() as u64);
    let ghost prefix = out@;
    let mut i: usize = 0;
    while i < world.entities.len()
        invariant
            0 <= i <= world.entities.len(),
            out@ == prefix + canonical_entity_list(world@.entities.take(i as int)),
        decreases world.entities.len() - i,
    {
        proof {
            lemma_canonical_entity_list_push(
                world@.entities.take(i as int),
                world@.entities[i as int],
            );
            assert(world@.entities.take(i + 1) =~= world@.entities.take(i as int).push(
                world@.entities[i as int],
            ));
        }
        let e = &world.entities[i];
        put_canonical_entity(&mut out, e);
        proof {
            assert(out@ =~= prefix + canonical_entity_list(world@.entities.take(i + 1)));
        }
        i = i + 1;
    }
    proof {
        assert(world@.entities.take(world@.entities.len() as int) =~= world@.entities);
    }
    put_u64(&mut out, world.zones.len() as u64);
    let ghost prefix2 = out@;
    let mut j: usize = 0;
    while j < world.zones.len()
        invariant
            0 <= j <= world.zones.len(),
            out@ == prefix2 + canonical_zone_list(world@.zones.take(j as int)),
        decreases world.zones.len() - j,
    {
        proof {
            lemma_canonical_zone_list_push(world@.zones.take(j as int), world@.zones[j as int]);
            assert(world@.zones.take(j + 1) =~= world@.zones.take(j as int).push(
                world@.zones[j as int],
            ));
        }
        let z = &world.zones[j];
        put_u32(&mut out, z.id.0);
        put_u8(&mut out, if z.loaded {
            1
        } else {
            0
        });
        put_u64(&mut out, z.entities.len() as u64);
        proof {
            assert(out@ =~= prefix2 + canonical_zone_list(world@.zones.take(j + 1)));
        }
        j = j + 1;
    }
    proof {
        assert(world@.zones.take(world@.zones.len() as int) =~= world@.zones);
        assert(out@ =~= canonical_world_bytes(world@));
    }
    out
}

/// Compute the canonical hash of the world: the digest of its canonical
/// byte encoding.
pub fn compute_canonical_hash(world: &World, hasher: &mut XxHasher) -> (h: StateHash)
    ensures
        h.0 == canonical_hash_of(world@),
{
    let bytes = compute_canonical_bytes(world);
    hasher.reset();
    hasher.update(bytes.as_slice());
    proof {
        assert(hasher.buffered() =~= bytes@);
    }
    hasher.finalize()
}

/// Worlds with equal mathematical values hash alike: the canonical hash
/// depends on nothing but the world's value.
pub proof fn lemma_canonical_hash_stable(w1: &World, w2: &World)
    requires
        w1@ == w2@,
    ensures
        canonical_hash_of(w1@) == canonical_hash_of(w2@),
{
}

// ============================================================================
// Checkpoints and the scheduled-command runner
// ============================================================================

/// A checkpoint: a tick and the canonical hash the world had there.
#[derive(Debug, Clone, Copy, PartialEq, Eq, Structural)]
pub struct Checkpoint {
    pub tick: Tick,
    pub hash: StateHash,
}

/// A command scheduled to run at a tick.
#[derive(Debug)]
pub struct ScheduledCommand {
    /// Tick at which to execute the command.
    pub tick: Tick,
    /// The command to execute.
    pub command: Command,
}

impl View for ScheduledCommand {
    type V = (Tick, CommandView);

    open spec fn view(&self) -> (Tick, CommandView) {
        (self.tick, self.command@)
    }
}

impl Clone for ScheduledCommand {
    fn clone(&self) -> (r: ScheduledCommand)
        ensures
            r == *self,
    {
        ScheduledCommand { tick: self.tick, command: self.command.clone() }
    }
}

/// Configuration for a deterministic run.
#[derive(Debug)]
pub struct DeterministicRunConfig {
    /// RNG seed for the world.
    pub seed: RngSeed,
    /// World name.
    pub world_name: String,
    /// Commands to execute, each at its tick.
    pub inputs: Vec<ScheduledCommand>,
    /// Total ticks to simulate.
    pub total_ticks: u64,
    /// Checkpoint interval (0 = only the final checkpoint).
    pub checkpoint_every: u64,
}

/// Result of a deterministic run.
#[derive(Debug)]
pub struct DeterministicRunResult {
    /// Checkpoints collected during the run.
    pub checkpoints: Vec<Checkpoint>,
    /// Final tick reached.
    pub final_tick: Tick,
}

/// A scheduled command inserted behind every earlier-or-equal tick: the
/// stable insertion step.
pub open spec fn insert_by_tick(s: Seq<(Tick, CommandView)>, x: (Tick, CommandView)) -> Seq<
    (Tick, CommandView),
>
    decreases s.len(),
{
    if s.len() == 0 {
        seq![x]
    } else if s.last().0.0 <= x.0.0 {
        s.push(x)
    } else {
        insert_by_tick(s.drop_last(), x).push(s.last())
    }
}

/// The inputs sorted by tick, stably: equal ticks keep their order.
pub open spec fn sort_by_tick(s: Seq<(Tick, CommandView)>) -> Seq<(Tick, CommandView)>
    decreases s.len(),
{
    if s.len() == 0 {
        Seq::empty()
    } else {
        insert_by_tick(sort_by_tick(s.drop_last()), s.last())
    }
}

/// The engine state after a command, with the result discarded.
pub open spec fn proc(s: SimView, cmd: CommandView) -> SimView {
    process_command_model(s, cmd).0
}

/// Run every scheduled command whose tick has come.
pub open spec fn drain_inputs(
    s: SimView,
    inputs: Seq<(Tick, CommandView)>,
    idx: int,
    t: u64,
) -> (SimView, int)
    decreases inputs.len() - idx
        when 0 <= idx <= inputs.len()
{
    if idx < inputs.len() && inputs[idx].0.0 <= t {
        drain_inputs(proc(s, inputs[idx].1), inputs, idx + 1, t)
    } else {
        (s, idx)
    }
}

/// The main loop of the runner: at each tick number, drain the due
/// commands, tick once, and checkpoint on schedule.
pub open spec fn run_ticks(
    s: SimView,
    inputs: Seq<(Tick, CommandView)>,
    idx: int,
    t: u64,
    total: u64,
    every: u64,
    acc: Seq<Checkpoint>,
) -> (SimView, Seq<Checkpoint>)
    decreases total - t
        when t <= total
{
    if t >= total {
        (s, acc)
    } else {
        let (s1, idx1) = drain_inputs(s, inputs, idx, t);
        let s2 = proc(s1, CommandView::Tick);
        let acc2 = if (every > 0 && ((t + 1) as u64) % every == 0) || t + 1 == total {
            match s2.world {
                Some(w) => acc.push(
                    Checkpoint { tick: w.current_tick, hash: StateHash(canonical_hash_of(w)) },
                ),
                None => acc,
            }
        } else {
            acc
        };
        run_ticks(s2, inputs, idx1, (t + 1) as u64, total, every, acc2)
    }
}

/// The whole deterministic run: create the world, sort the inputs stably
/// by tick, then run the schedule.  Everything the run produces is a
/// function of the starting state and the configuration.
pub open spec fn run_model(
    s0: SimView,
    name: Seq<char>,
    seed: RngSeed,
    inputs: Seq<(Tick, CommandView)>,
    total: u64,
    every: u64,
) -> (SimView, Seq<Checkpoint>) {
    let s1 = proc(s0, CommandView::CreateWorld { name, seed });
    run_ticks(s1, sort_by_tick(inputs), 0, 0, total, every, Seq::empty())
}

/// Determinism: two runs that start from equal states with equal
/// configurations produce equal checkpoint sequences and equal final
/// states.
pub proof fn lemma_run_deterministic_reproducible(
    a: (SimView, Seq<Checkpoint>),
    b: (SimView, Seq<Checkpoint>),
    s0: SimView,
    name: Seq<char>,
    seed: RngSeed,
    inputs: Seq<(Tick, CommandView)>,
    total: u64,
    every: u64,
)
    requires
        a == run_model(s0, name, seed, inputs, total, every),
        b == run_model(s0, name, seed, inputs, total, every),
    ensures
        a == b,
{
}

/// Insert one scheduled command into an already-sorted vector, keeping
/// commands of equal ticks in arrival order.
fn insert_sorted(out: &mut Vec<ScheduledCommand>, x: ScheduledCommand)
    ensures
        final(out)@.map_values(|c: ScheduledCommand| c@) == insert_by_tick(
            old(out)@.map_values(|c: ScheduledCommand| c@),
            x@,
        ),
{
    let ghost s = out@.map_values(|c: ScheduledCommand| c@);
    let ghost xv = x@;
    let mut p: usize = out.len();
    while p > 0 && out[p - 1].tick.0 > x.tick.0
        invariant
            0 <= p <= out@.len(),
            forall|k: int| p <= k < out@.len() ==> (#[trigger] out@[k]).tick.0 > x.tick.0,
        decreases p,
    {
        p = p - 1;
    }
    proof {
        assert forall|k: int| p <= k < s.len() implies s[k].0.0 > xv.0.0 by {
            assert(s[k] == out@[k]@);
        }
        lemma_insert_by_tick_at(s, xv, p as int);
    }
    out.insert(p, x);
    proof {
        assert(final(out)@.map_values(|c: ScheduledCommand| c@) =~= s.insert(p as int, xv));
    }
}

/// Inserting at the position after every earlier-or-equal tick is what
/// `insert_by_tick` does.
proof fn lemma_insert_by_tick_at(s: Seq<(Tick, CommandView)>, x: (Tick, CommandView), p: int)
    requires
        0 <= p <= s.len(),
        forall|k: int| p <= k < s.len() ==> s[k].0.0 > x.0.0,
        p > 0 ==> s[p - 1].0.0 <= x.0.0,
    ensures
        insert_by_tick(s, x) =~= s.insert(p, x),
    decreases s.len(),
{
    if s.len() == 0 {
    } else if p == s.len() {
        assert(s.last().0.0 <= x.0.0 || s.len() == 0);
        assert(insert_by_tick(s, x) == s.push(x));
        assert(s.push(x) =~= s.insert(p, x));
    } else {
        assert(s.last().0.0 > x.0.0);
        lemma_insert_by_tick_at(s.drop_last(), x, p);
        assert(insert_by_tick(s, x) == insert_by_tick(s.drop_last(), x).push(s.last()));
        assert(insert_by_tick(s.drop_last(), x) =~= s.drop_last().insert(p, x));
        assert(s.drop_last().insert(p, x).push(s.last()) =~= s.insert(p, x));
    }
}

/// Run a deterministic simulation and collect state hashes at the
/// checkpoints.  The result is a function of the given ports' state and
/// the configuration: [`run_model`].
#[verifier::spinoff_prover]
#[verifier::rlimit(100)]
pub fn run_deterministic(
    config: &DeterministicRunConfig,
    rng: Pcg32Rng,
    clock: UnlimitedClock,
    event_log: MockEventLog,
    store: MockWorldStore,
) -> (r: DeterministicRunResult)
    requires
        event_log.wf(),
    ensures
        ({
            let s0 = SimView {
                world: None,
                rng_seed: rng.seed,
                rng_state: rng.state,
                rng_increment: rng.increment,
                clock_tick: clock.current_tick,
                log: event_log.events_view(),
                log_next: event_log.next_event_id,
                metas: store.metas_view(),
                snaps: store.snaps_view(),
                pending: Seq::empty(),
            };
            let (s_end, cps) = run_model(
                s0,
                config.world_name@,
                config.seed,
                config.inputs@.map_values(|c: ScheduledCommand| c@),
                config.total_ticks,
                config.checkpoint_every,
            );
            &&& r.checkpoints@ == cps
            &&& r.final_tick == match s_end.world {
                Some(w) => w.current_tick,
                None => Tick(0),
            }
        }),
{
    let mut sim = Simulation::new(rng, clock, event_log, store);
    let mut hasher = XxHasher::new();
    let mut checkpoints: Vec<Checkpoint> = Vec::new();

    let ghost s0 = sim@;
    let ghost inputs_v = config.inputs@.map_values(|c: ScheduledCommand| c@);

    // Create the world.
    let create_cmd = Command::CreateWorld(
        CreateWorldCmd { name: config.world_name.clone(), seed: config.seed },
    );
    let _created = sim.process_command(create_cmd);

    // Sort the inputs stably by tick.
    let mut inputs: Vec<ScheduledCommand> = Vec::new();
    let mut k: usize = 0;
    while k < config.inputs.len()
        invariant
            0 <= k <= config.inputs@.len(),
            inputs_v == config.inputs@.map_values(|c: ScheduledCommand| c@),
            inputs@.map_values(|c: ScheduledCommand| c@) == sort_by_tick(
                inputs_v.take(k as int),
            ),
        decreases config.inputs@.len() - k,
    {
        proof {
            assert(inputs_v.take(k + 1).drop_last() =~= inputs_v.take(k as int));
            assert(inputs_v.take(k + 1).last() == inputs_v[k as int]);
        }
        insert_sorted(&mut inputs, config.inputs[k].clone());
        k = k + 1;
    }
    proof {
        assert(inputs_v.take(inputs_v.len() as int) =~= inputs_v);
    }
    let ghost sorted_v = inputs@.map_values(|c: ScheduledCommand| c@);

    let ghost s1 = sim@;
    let mut input_idx: usize = 0;
    let mut tick_num: u64 = 0;
    while tick_num < config.total_ticks
        invariant
            0 <= tick_num <= config.total_ticks,
            0 <= input_idx <= inputs@.len(),
            sorted_v == inputs@.map_values(|c: ScheduledCommand| c@),
            sim.event_log.wf(),
            run_ticks(s1, sorted_v, 0, 0, config.total_ticks, config.checkpoint_every, Seq::empty())
                == run_ticks(
                sim@,
                sorted_v,
                input_idx as int,
                tick_num,
                config.total_ticks,
                config.checkpoint_every,
                checkpoints@,
            ),
        decreases config.total_ticks - tick_num,
    {
        // Execute every command scheduled for this tick.
        let ghost s_tick = sim@;
        let ghost idx0 = input_idx as int;
        while input_idx < inputs.len() && inputs[input_idx].tick.0 <= tick_num
            invariant
                idx0 <= input_idx <= inputs@.len(),
                sorted_v == inputs@.map_values(|c: ScheduledCommand| c@),
                sim.event_log.wf(),
                drain_inputs(s_tick, sorted_v, idx0, tick_num) == drain_inputs(
                    sim@,
                    sorted_v,
                    input_idx as int,
                    tick_num,
                ),
            decreases inputs@.len() - input_idx,
        {
            let cmd = inputs[input_idx].command.clone();
            let _res = sim.process_command(cmd);
            input_idx = input_idx + 1;
        }
        proof {
            assert(drain_inputs(s_tick, sorted_v, idx0, tick_num) == (
                sim@,
                input_idx as int,
            ));
        }

        // Execute the tick.
        let _res = sim.process_command(Command::Tick);

        // Checkpoint on schedule.
        let due = (config.checkpoint_every > 0 && (tick_num + 1) % config.checkpoint_every == 0)
            || tick_num + 1 == config.total_ticks;
        if due {
            match &sim.world {
                Some(world) => {
                    let hash = compute_canonical_hash(world, &mut hasher);
                    checkpoints.push(Checkpoint { tick: world.current_tick, hash });
                },
                None => {},
            }
        }
        tick_num = tick_num + 1;
    }

    let final_tick = sim.current_tick();
    DeterministicRunResult { checkpoints, final_tick }
}

/// The tick of the first divergence between two checkpoint sequences of
/// equal length.
pub open spec fn divergence_tick(a: Seq<Checkpoint>, b: Seq<Checkpoint>) -> Tick
    decreases a.len(),
{
    if a.len() == 0 {
        Tick(0)
    } else if a[0] != b[0] {
        if a[0].tick != b[0].tick {
            if a[0].tick.0 < b[0].tick.0 {
                a[0].tick
            } else {
                b[0].tick
            }
        } else {
            a[0].tick
        }
    } else {
        divergence_tick(a.drop_first(), b.drop_first())
    }
}

/// A first divergence at a given index determines the divergence tick.
proof fn lemma_divergence_at(a: Seq<Checkpoint>, b: Seq<Checkpoint>, i: int)
    requires
        a.len() == b.len(),
        0 <= i < a.len(),
        a[i] != b[i],
        forall|j: int| 0 <= j < i ==> a[j] == b[j],
    ensures
        divergence_tick(a, b) == if a[i].tick != b[i].tick {
            if a[i].tick.0 < b[i].tick.0 {
                a[i].tick
            } else {
                b[i].tick
            }
        } else {
            a[i].tick
        },
    decreases a.len(),
{
    if i > 0 {
        lemma_divergence_at(a.drop_first(), b.drop_first(), i - 1);
    }
}

/// Compare two run results.
///
/// Succeeds exactly when the checkpoint sequences are pointwise equal;
/// otherwise reports the tick of the first divergence (the genesis tick
/// when even the lengths differ).
pub fn verify_determinism(run_a: &DeterministicRunResult, run_b: &DeterministicRunResult) -> (r:
    Result<(), Tick>)
    ensures
        (r is Ok) == (run_a.checkpoints@ == run_b.checkpoints@),
        match r {
            Ok(()) => true,
            Err(t) => if run_a.checkpoints@.len() != run_b.checkpoints@.len() {
                t == Tick(0)
            } else {
                t == divergence_tick(run_a.checkpoints@, run_b.checkpoints@)
            },
        },
{
    if run_a.checkpoints.len() != run_b.checkpoints.len() {
        proof {
            assert(run_a.checkpoints@ != run_b.checkpoints@);
        }
        return Err(Tick(0));
    }

    let mut i: usize = 0;
    while i < run_a.checkpoints.len()
        invariant
            run_a.checkpoints@.len() == run_b.checkpoints@.len(),
            0 <= i <= run_a.checkpoints@.len(),
            forall|j: int| 0 <= j < i ==> run_a.checkpoints@[j] == run_b.checkpoints@[j],
        decreases run_a.checkpoints@.len() - i,
    {
        let a = run_a.checkpoints[i];
        let b = run_b.checkpoints[i];
        if a.tick != b.tick {
            proof {
                lemma_divergence_at(run_a.checkpoints@, run_b.checkpoints@, i as int);
            }
            if a.tick.0 < b.tick.0 {
                return Err(a.tick);
            } else {
                return Err(b.tick);
            }
        }
        if a.hash != b.hash {
            proof {
                lemma_divergence_at(run_a.checkpoints@, run_b.checkpoints@, i as int);
            }
            return Err(a.tick);
        }
        i = i + 1;
    }
    proof {
        assert(run_a.checkpoints@ =~= run_b.checkpoints@);
    }
    Ok(())
}

} // verus!
