use micropolis::map::{GameMap, SURFACE};
use micropolis::simulation::{
    census_system, get_power_consumption, has_road_neighbor, is_conductor, simulation_tick,
    update_power_grid, update_valves, update_zones, PowerGrid, SimulationState,
};
use micropolis::tile::TileType;

fn blank(width: u32, height: u32) -> GameMap {
    let samples = vec![0u32; (width * height) as usize];
    GameMap::new(width, height, 0, &samples).ok().unwrap()
}

fn valves(population: u32, jobs: u32) -> (i16, i16, i16) {
    let mut state = SimulationState::default();
    state.total_pop = population;
    state.num_jobs = jobs;
    update_valves(&mut state);
    assert_eq!(state.total_pop, population);
    assert_eq!(state.num_jobs, jobs);
    (state.r_valve, state.c_valve, state.i_valve)
}

#[test]
fn the_simulation_module_offers_every_stage_of_a_tick() {
    let mut map = blank(2, 1);
    map.set(SURFACE, 0, 0, TileType::PowerPlant);
    map.set(SURFACE, 1, 0, TileType::CommercialOccupied3);
    let mut state = SimulationState::default();
    simulation_tick(&mut state);
    assert_eq!(state.time, 1);
    state.time = 96;
    census_system(&map, &mut state);
    update_valves(&mut state);
    assert_eq!((state.total_pop, state.num_jobs), (0, 24));
    assert_eq!((state.r_valve, state.c_valve, state.i_valve), (-500, 0, 0));
    state.growth_rate = 0;
    let events = update_zones(&mut map, &state);
    assert!(events.is_empty());
    let mut grid = PowerGrid::default();
    update_power_grid(&map, &mut grid, &state);
    assert_eq!(grid.net_power(), 494);
    assert!(grid.is_powered(1, 0));
    assert_eq!(get_power_consumption(TileType::CommercialOccupied3), 6);
    assert!(is_conductor(TileType::PowerPlant));
    assert!(!has_road_neighbor(&[TileType::Dirt, TileType::Dirt], 2, 1, 0, 0));
}

#[test]
fn default_state() {
    let state = SimulationState::default();
    assert_eq!(state.time, 0);
    assert_eq!((state.r_valve, state.c_valve, state.i_valve), (0, 0, 0));
    assert_eq!((state.total_pop, state.num_jobs), (0, 0));
    assert_eq!(state.growth_rate, 1000);
}

#[test]
fn tick_advances_the_clock_by_one() {
    let mut state = SimulationState::default();
    simulation_tick(&mut state);
    simulation_tick(&mut state);
    assert_eq!(state.time, 2);
    assert_eq!(state.growth_rate, 1000);
}

#[test]
fn valves_bootstrap_an_empty_city() {
    assert_eq!(valves(0, 0), (2000, 0, 0));
}

#[test]
fn valves_turn_around_balance() {
    let above = valves(100, 101);
    let below = valves(100, 99);
    assert_eq!(above, (20, -500, -500));
    assert_eq!(below, (-500, 15, 15));
    assert!(above.0 > 0 && below.0 < 0);
}

#[test]
fn valves_at_balance_discourage_homes() {
    assert_eq!(valves(100, 100), (-500, 0, 0));
}

#[test]
fn valves_are_clamped() {
    assert_eq!(valves(1, 100), (2000, -500, -500));
    assert_eq!(valves(8, 16), (2000, -500, -500));
    assert_eq!(valves(8, 24), (2000, -500, -500));
    assert_eq!(valves(16, 24), (1000, -500, -500));
    assert_eq!(valves(u32::MAX - 1, u32::MAX), (0, -500, -500));
}

#[test]
fn valves_with_people_and_no_jobs() {
    assert_eq!(valves(8, 0), (-500, 1500, 1500));
    assert_eq!(valves(3, 1), (-500, 1000, 1000));
    assert_eq!(valves(3, 2), (-500, 500, 500));
    assert_eq!(valves(7, 2), (-500, 1071, 1071));
}

#[test]
fn valves_with_jobs_and_no_people() {
    assert_eq!(valves(0, 5), (-500, 0, 0));
}

fn settled_map() -> GameMap {
    let mut map = blank(4, 3);
    map.set(SURFACE, 0, 0, TileType::ResidentialOccupied1);
    map.set(SURFACE, 1, 0, TileType::ResidentialOccupied2);
    map.set(SURFACE, 2, 0, TileType::ResidentialOccupied3);
    map.set(SURFACE, 3, 0, TileType::Residential);
    map.set(SURFACE, 0, 1, TileType::CommercialOccupied1);
    map.set(SURFACE, 1, 1, TileType::CommercialOccupied3);
    map.set(SURFACE, 2, 1, TileType::IndustrialOccupied2);
    map.set(SURFACE, 3, 1, TileType::Industrial);
    map.set(SURFACE, 0, 2, TileType::Road);
    map.set(SURFACE, 1, 2, TileType::PowerPlant);
    map
}

#[test]
fn census_counts_people_and_jobs() {
    let map = settled_map();
    let mut state = SimulationState::default();
    census_system(&map, &mut state);
    assert_eq!(state.total_pop, 8 + 16 + 24);
    assert_eq!(state.num_jobs, 8 + 24 + 16);
    assert_eq!(state.time, 0);
}

#[test]
fn census_runs_once_a_day() {
    let mut map = settled_map();
    let mut state = SimulationState::default();
    census_system(&map, &mut state);
    let first = state;
    map.set(SURFACE, 3, 2, TileType::ResidentialOccupied3);
    map.set(SURFACE, 2, 2, TileType::IndustrialOccupied3);
    state.time = 50;
    census_system(&map, &mut state);
    assert_eq!(state.total_pop, first.total_pop);
    assert_eq!(state.num_jobs, first.num_jobs);
    state.time = 95;
    census_system(&map, &mut state);
    assert_eq!(state.total_pop, 48);
    state.time = 96;
    census_system(&map, &mut state);
    assert_eq!(state.total_pop, 72);
    assert_eq!(state.num_jobs, 72);
}

#[test]
fn census_overwrites_stale_totals() {
    let map = blank(2, 2);
    let mut state = SimulationState::default();
    state.total_pop = 500;
    state.num_jobs = 700;
    census_system(&map, &mut state);
    assert_eq!((state.total_pop, state.num_jobs), (0, 0));
}

#[test]
fn census_ignores_layers_above_the_surface() {
    let mut map = blank(2, 2);
    map.set(micropolis::map::AIR, 0, 0, TileType::ResidentialOccupied3);
    let mut state = SimulationState::default();
    census_system(&map, &mut state);
    assert_eq!((state.total_pop, state.num_jobs), (0, 0));
}
