use ecosim::clock::FrameClock;
use ecosim::config::SimConfig;
use ecosim::simulation::Simulation;
use ecosim::state::{handle_input, AppState};

#[test]
fn the_application_starts_in_the_menu() {
    assert_eq!(AppState::default(), AppState::Menu);
}

#[test]
fn the_exit_signal_asks_for_the_menu() {
    assert_eq!(handle_input(true), Some(AppState::Menu));
    assert_eq!(handle_input(false), None);
}

#[test]
fn a_session_moves_between_menu_and_simulation() {
    let mut sim = Simulation::new(SimConfig::default());
    assert_eq!(sim.state, AppState::Menu);
    assert!(sim.world.units.is_empty());

    sim.advance(30_000, false);
    assert_eq!(sim.state, AppState::Menu);
    assert!(sim.world.units.is_empty());
    assert!(sim.world.berries.is_empty());

    sim.enter_simulation();
    assert_eq!(sim.state, AppState::Simulation);
    assert_eq!(sim.world.units.len(), 12);
    assert_eq!(sim.world.game_data.num_berries, 0);

    sim.advance(30_000, false);
    assert_eq!(sim.state, AppState::Simulation);
    assert!(sim.world.is_valid());

    sim.advance(30_000, true);
    assert_eq!(sim.state, AppState::Menu);
    assert!(sim.world.units.is_empty());
    assert!(sim.world.berries.is_empty());
    assert!(sim.world.corpses.is_empty());
    assert!(sim.world.events.is_empty());
    assert_eq!(sim.world.game_data.num_berries, 0);
}

#[test]
fn entering_twice_keeps_the_running_session() {
    let mut sim = Simulation::new(SimConfig::default());
    sim.enter_simulation();
    sim.advance(30_000, false);
    let units = sim.world.units.clone();
    let berries = sim.world.berries.clone();
    sim.enter_simulation();
    assert_eq!(sim.state, AppState::Simulation);
    assert_eq!(sim.world.units, units);
    assert_eq!(sim.world.berries, berries);
}

#[test]
fn leaving_twice_is_leaving_once() {
    let mut sim = Simulation::new(SimConfig::default());
    sim.enter_simulation();
    sim.exit_simulation();
    assert_eq!(sim.state, AppState::Menu);
    assert!(sim.world.units.is_empty());
    sim.exit_simulation();
    assert_eq!(sim.state, AppState::Menu);
    assert!(sim.world.units.is_empty());
    assert_eq!(sim.world.game_data.max_berries, 8);
}

#[test]
fn the_frame_clock_loses_no_time() {
    let mut clock = FrameClock::new();
    assert_eq!(clock.whole_micros(16_666_667), 16_666);
    assert_eq!(clock.carried_nanos, 667);
    assert_eq!(clock.whole_micros(16_666_667), 16_667);
    assert_eq!(clock.carried_nanos, 334);
    assert_eq!(clock.whole_micros(16_666_666), 16_667);
    assert_eq!(clock.carried_nanos, 0);
    assert_eq!(clock.whole_micros(999), 0);
    assert_eq!(clock.whole_micros(1), 1);
    assert_eq!(clock.carried_nanos, 0);
    assert_eq!(clock.whole_micros(31_250_000), 31_250);
    assert_eq!(clock.whole_micros(u64::MAX), u32::MAX);
    assert_eq!(clock.carried_nanos, 0);
    assert_eq!(clock.whole_micros(4_294_967_295_999), u32::MAX);
    assert_eq!(clock.carried_nanos, 999);
}
