use alter_rsps::world::{next_tick, setup, TICK_RATE_MS};

#[test]
fn setup_builds_world_with_one_player() {
    let world = setup();
    assert_eq!(world.name, "World");
    assert_eq!(world.players.len(), 1);
    assert_eq!(world.players[0].name, "Player");
    assert!(!world.should_shutdown);
}

#[test]
fn tick_sleeps_for_rest_of_tick() {
    let world = setup();
    assert_eq!(next_tick(&world, 0), Some(600));
    assert_eq!(next_tick(&world, 150), Some(450));
    assert_eq!(next_tick(&world, 599), Some(1));
    assert_eq!(TICK_RATE_MS, 600);
}

#[test]
fn overrunning_tick_does_not_sleep() {
    let world = setup();
    assert_eq!(next_tick(&world, 600), Some(0));
    assert_eq!(next_tick(&world, 1_000_000), Some(0));
    assert_eq!(next_tick(&world, u128::MAX), Some(0));
}

#[test]
fn shutting_down_world_stops_ticking() {
    let mut world = setup();
    world.should_shutdown = true;
    assert_eq!(next_tick(&world, 10), None);
}
