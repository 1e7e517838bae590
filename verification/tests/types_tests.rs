use seeyuj::types::{EntityId, Position, Tick};

#[test]
fn tick_ordering() {
    assert!(Tick(1) < Tick(2));
    assert_eq!(Tick(5).next(), Tick(6));
}

#[test]
fn entity_id_validity() {
    assert!(!EntityId::new(0).is_valid());
    assert!(EntityId::new(1).is_valid());
}

#[test]
fn position_distance() {
    let a = Position::new(0, 0, 0);
    let b = Position::new(3, 4, 0);
    assert_eq!(a.manhattan_distance(&b), 7);
}

#[test]
fn tick_next_saturates() {
    assert_eq!(Tick(u64::MAX).next(), Tick(u64::MAX));
}
