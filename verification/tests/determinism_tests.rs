use seeyuj::clock::UnlimitedClock;
use seeyuj::commands::{Command, EntityProperties, SpawnEntityCmd};
use seeyuj::determinism::{
    run_deterministic, verify_determinism, compute_canonical_hash, Checkpoint,
    DeterministicRunConfig, DeterministicRunResult, ScheduledCommand,
};
use seeyuj::hasher::StateHash;
use seeyuj::hasher::XxHasher;
use seeyuj::mocks::{MockEventLog, MockWorldStore};
use seeyuj::rng::Pcg32Rng;
use seeyuj::types::{EntityKind, Position, RngSeed, Tick, WorldPos, ZoneId};
use seeyuj::world::World;

fn fixed_input_stream() -> Vec<ScheduledCommand> {
    let mut inputs = Vec::new();

    for i in 0..5 {
        inputs.push(ScheduledCommand {
            tick: Tick(5),
            command: Command::SpawnEntity(SpawnEntityCmd {
                position: WorldPos::new(ZoneId::origin(), Position::new(i * 10, 0, 0)),
                kind: EntityKind::Resource,
                properties: EntityProperties {
                    name: Some(format!("Resource_{}", i)),
                    amount: Some(100),
                    health: None,
                },
            }),
        });
    }

    for i in 0..3 {
        inputs.push(ScheduledCommand {
            tick: Tick(10),
            command: Command::SpawnEntity(SpawnEntityCmd {
                position: WorldPos::new(ZoneId::origin(), Position::new(i * 10, 10, 0)),
                kind: EntityKind::Creature,
                properties: EntityProperties {
                    name: Some(format!("Creature_{}", i)),
                    amount: None,
                    health: Some(100),
                },
            }),
        });
    }

    inputs
}

fn clone_inputs(inputs: &[ScheduledCommand]) -> Vec<ScheduledCommand> {
    inputs.iter().cloned().collect()
}

#[test]
fn deterministic_replay_same_inputs_same_hashes() {
    let seed = RngSeed::new(42);
    let inputs = fixed_input_stream();
    let steps = 100;
    let checkpoint_every = 10;

    let config_a = DeterministicRunConfig {
        seed,
        world_name: "Test World".to_string(),
        inputs: clone_inputs(&inputs),
        total_ticks: steps,
        checkpoint_every,
    };
    let config_b = DeterministicRunConfig {
        seed,
        world_name: "Test World".to_string(),
        inputs,
        total_ticks: steps,
        checkpoint_every,
    };

    let result_a = run_deterministic(
        &config_a,
        Pcg32Rng::new(seed),
        UnlimitedClock::new(),
        MockEventLog::new(),
        MockWorldStore::new(),
    );

    let result_b = run_deterministic(
        &config_b,
        Pcg32Rng::new(seed),
        UnlimitedClock::new(),
        MockEventLog::new(),
        MockWorldStore::new(),
    );

    assert_eq!(result_a.checkpoints.len(), result_b.checkpoints.len());

    for (a, b) in result_a.checkpoints.iter().zip(result_b.checkpoints.iter()) {
        assert_eq!(a.tick, b.tick, "Tick mismatch");
        assert_eq!(
            a.hash, b.hash,
            "Hash mismatch at tick {}: {} vs {}",
            a.tick.0, a.hash.0, b.hash.0
        );
    }

    verify_determinism(&result_a, &result_b).expect("Determinism verification failed");
}

#[test]
fn deterministic_with_many_ticks() {
    let seed = RngSeed::new(12345);
    let inputs = fixed_input_stream();
    let steps = 1000;
    let checkpoint_every = 100;

    let config_a = DeterministicRunConfig {
        seed,
        world_name: "Long Test".to_string(),
        inputs: clone_inputs(&inputs),
        total_ticks: steps,
        checkpoint_every,
    };
    let config_b = DeterministicRunConfig {
        seed,
        world_name: "Long Test".to_string(),
        inputs,
        total_ticks: steps,
        checkpoint_every,
    };

    let result_a = run_deterministic(
        &config_a,
        Pcg32Rng::new(seed),
        UnlimitedClock::new(),
        MockEventLog::new(),
        MockWorldStore::new(),
    );

    let result_b = run_deterministic(
        &config_b,
        Pcg32Rng::new(seed),
        UnlimitedClock::new(),
        MockEventLog::new(),
        MockWorldStore::new(),
    );

    verify_determinism(&result_a, &result_b)
        .expect("Determinism verification failed for long run");

    assert_eq!(result_a.checkpoints.len(), 10);
}

#[test]
fn different_seeds_produce_different_hashes() {
    let inputs = fixed_input_stream();
    let steps = 50;
    let checkpoint_every = 50;

    let config_a = DeterministicRunConfig {
        seed: RngSeed::new(1),
        world_name: "World A".to_string(),
        inputs: clone_inputs(&inputs),
        total_ticks: steps,
        checkpoint_every,
    };

    let config_b = DeterministicRunConfig {
        seed: RngSeed::new(2),
        world_name: "World B".to_string(),
        inputs,
        total_ticks: steps,
        checkpoint_every,
    };

    let result_a = run_deterministic(
        &config_a,
        Pcg32Rng::new(config_a.seed),
        UnlimitedClock::new(),
        MockEventLog::new(),
        MockWorldStore::new(),
    );

    let result_b = run_deterministic(
        &config_b,
        Pcg32Rng::new(config_b.seed),
        UnlimitedClock::new(),
        MockEventLog::new(),
        MockWorldStore::new(),
    );

    assert_ne!(
        result_a.checkpoints.last().unwrap().hash,
        result_b.checkpoints.last().unwrap().hash,
        "Different seeds should produce different hashes"
    );
}

#[test]
fn canonical_hash_is_stable() {
    let world = World::new("Hash Test".to_string(), RngSeed::new(42));

    let mut hasher1 = XxHasher::new();
    let mut hasher2 = XxHasher::new();

    let hash1 = compute_canonical_hash(&world, &mut hasher1);
    let hash2 = compute_canonical_hash(&world, &mut hasher2);

    assert_eq!(hash1, hash2, "Same world should produce same hash");
}

#[test]
fn verify_determinism_reports_divergence() {
    let a = DeterministicRunResult {
        checkpoints: vec![
            Checkpoint { tick: Tick(1), hash: StateHash(10) },
            Checkpoint { tick: Tick(2), hash: StateHash(20) },
        ],
        final_tick: Tick(2),
    };
    let b = DeterministicRunResult {
        checkpoints: vec![
            Checkpoint { tick: Tick(1), hash: StateHash(10) },
            Checkpoint { tick: Tick(2), hash: StateHash(99) },
        ],
        final_tick: Tick(2),
    };
    assert_eq!(verify_determinism(&a, &b), Err(Tick(2)));
    assert_eq!(verify_determinism(&a, &a), Ok(()));
}
