use seeyuj::rng::Pcg32Rng;
use seeyuj::types::RngSeed;

#[test]
fn deterministic_sequence() {
    let mut rng1 = Pcg32Rng::new(RngSeed::new(42));
    let mut rng2 = Pcg32Rng::new(RngSeed::new(42));

    for _ in 0..100 {
        assert_eq!(rng1.next_u32(), rng2.next_u32());
    }
}

#[test]
fn different_seeds_different_sequences() {
    let mut rng1 = Pcg32Rng::new(RngSeed::new(42));
    let mut rng2 = Pcg32Rng::new(RngSeed::new(43));

    let seq1: Vec<u32> = (0..10).map(|_| rng1.next_u32()).collect();
    let seq2: Vec<u32> = (0..10).map(|_| rng2.next_u32()).collect();

    assert_ne!(seq1, seq2);
}

#[test]
fn state_save_restore() {
    let mut rng = Pcg32Rng::new(RngSeed::new(42));

    for _ in 0..50 {
        rng.next_u32();
    }

    let saved_state = rng.state();

    let expected: Vec<u32> = (0..10).map(|_| rng.next_u32()).collect();

    rng.restore(saved_state);
    let actual: Vec<u32> = (0..10).map(|_| rng.next_u32()).collect();

    assert_eq!(expected, actual);
}

#[test]
fn range_bounds() {
    let mut rng = Pcg32Rng::new(RngSeed::new(12345));

    for _ in 0..1000 {
        let val = rng.range_i32(-10, 10);
        assert!(val >= -10 && val <= 10);
    }
}

#[test]
fn pick_from_slice() {
    let mut rng = Pcg32Rng::new(RngSeed::new(7));
    let values = [10u32, 20, 30];
    let picked = rng.pick(&values).unwrap();
    assert!(values.contains(picked));
    let empty: [u32; 0] = [];
    assert!(rng.pick(&empty).is_none());
}
