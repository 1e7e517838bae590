use seeyuj::clock::{FixedStepClock, ISimClock, UnlimitedClock};
use seeyuj::types::Tick;

#[test]
fn unlimited_clock_advances() {
    let mut clock = UnlimitedClock::new();
    assert_eq!(clock.current_tick(), Tick(0));

    clock.advance();
    assert_eq!(clock.current_tick(), Tick(1));

    clock.advance();
    assert_eq!(clock.current_tick(), Tick(2));
}

#[test]
fn clock_set_tick() {
    let mut clock = UnlimitedClock::new();
    clock.set_tick(Tick(100));
    assert_eq!(clock.current_tick(), Tick(100));
}

#[test]
fn fixed_step_creation() {
    let clock = FixedStepClock::new(60);
    assert_eq!(clock.current_tick(), Tick(0));
}

#[test]
fn fixed_step_pacing() {
    let mut clock = FixedStepClock::new(20);
    assert!(clock.should_tick_at(0));
    clock.advance_at(1_000_000_000);
    assert_eq!(clock.current_tick(), Tick(1));
    assert!(!clock.should_tick_at(1_000_000_001));
    assert!(clock.should_tick_at(1_050_000_000));
    assert_eq!(clock.wait_nanos_at(1_010_000_000), 40_000_000);
}
