use seeyuj::scenarios::TestScenario;

#[test]
fn empty_world_scenario() {
    let sim = TestScenario::empty_world(42).build();
    assert!(sim.has_world());
}

#[test]
fn world_with_entities() {
    let sim = TestScenario::empty_world(42)
        .with_resource(0, 0, 100)
        .with_creature(5, 5, 50)
        .build();

    let world = sim.world().unwrap();
    assert_eq!(world.entity_count(), 2);
}
