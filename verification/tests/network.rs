use micropolis::map::{GameMap, AIR, SURFACE};
use micropolis::power::{trace_network, update_power_grid, PowerGrid};
use micropolis::simulation::SimulationState;
use micropolis::tile::TileType;

fn blank(width: u32, height: u32) -> GameMap {
    let samples = vec![0u32; (width * height) as usize];
    GameMap::new(width, height, 0, &samples).ok().unwrap()
}

fn at(time: u64) -> SimulationState {
    let mut state = SimulationState::default();
    state.time = time;
    state
}

fn powered(grid: &PowerGrid, width: i32, height: i32) -> Vec<(i32, i32)> {
    let mut cells = Vec::new();
    for z in -1..=height {
        for x in -1..=width {
            if grid.is_powered(x, z) {
                cells.push((x, z));
            }
        }
    }
    cells
}

/// A plant at x = 0, lines above x = 1 to 3, and a house next to the last line.
fn strip() -> GameMap {
    let mut map = blank(5, 2);
    map.set(SURFACE, 0, 0, TileType::PowerPlant);
    map.set(AIR, 1, 0, TileType::PowerLine);
    map.set(AIR, 2, 0, TileType::PowerLine);
    map.set(AIR, 3, 0, TileType::PowerLine);
    map.set(SURFACE, 3, 1, TileType::ResidentialOccupied1);
    map
}

#[test]
fn default_grid_powers_nothing() {
    let grid = PowerGrid::default();
    assert_eq!(grid.net_power(), 0);
    assert!(powered(&grid, 64, 64).is_empty());
}

#[test]
fn power_runs_along_the_strip() {
    let map = strip();
    let network = trace_network(&map);
    assert_eq!(
        network,
        vec![true, true, true, true, false, false, false, false, true, false]
    );
    let mut grid = PowerGrid::default();
    update_power_grid(&map, &mut grid, &at(0));
    assert_eq!(powered(&grid, 5, 2), vec![(3, 1)]);
    assert_eq!(grid.net_power(), 499);
}

#[test]
fn a_cut_line_disconnects_what_lies_behind() {
    let mut map = strip();
    let mut grid = PowerGrid::default();
    update_power_grid(&map, &mut grid, &at(0));
    assert!(grid.is_powered(3, 1));
    assert!(map.set(AIR, 2, 0, TileType::Empty));
    update_power_grid(&map, &mut grid, &at(4));
    assert!(!grid.is_powered(3, 1));
    assert!(powered(&grid, 5, 2).is_empty());
    assert_eq!(grid.net_power(), 500);
    assert_eq!(
        trace_network(&map),
        vec![true, true, false, false, false, false, false, false, false, false]
    );
}

#[test]
fn the_grid_keeps_its_result_between_hours() {
    let mut map = strip();
    let mut grid = PowerGrid::default();
    update_power_grid(&map, &mut grid, &at(8));
    map.set(AIR, 2, 0, TileType::Empty);
    for time in [9, 10, 11] {
        update_power_grid(&map, &mut grid, &at(time));
        assert_eq!(powered(&grid, 5, 2), vec![(3, 1)]);
        assert_eq!(grid.net_power(), 499);
    }
    update_power_grid(&map, &mut grid, &at(12));
    assert!(powered(&grid, 5, 2).is_empty());
}

#[test]
fn a_house_on_the_strip_itself_has_power() {
    let mut map = blank(5, 1);
    map.set(SURFACE, 0, 0, TileType::PowerPlant);
    for x in 1..4 {
        map.set(AIR, x, 0, TileType::PowerLine);
    }
    map.set(SURFACE, 4, 0, TileType::ResidentialOccupied1);
    let mut grid = PowerGrid::default();
    update_power_grid(&map, &mut grid, &at(0));
    assert_eq!(powered(&grid, 5, 1), vec![(4, 0)]);
    assert_eq!(grid.net_power(), 499);
    assert_eq!(trace_network(&map), vec![true, true, true, true, true]);
}

#[test]
fn buildings_pass_power_on() {
    let mut map = blank(4, 1);
    map.set(SURFACE, 0, 0, TileType::PowerPlant);
    map.set(SURFACE, 1, 0, TileType::ResidentialOccupied2);
    map.set(SURFACE, 2, 0, TileType::CommercialOccupied3);
    map.set(SURFACE, 3, 0, TileType::IndustrialOccupied1);
    let mut grid = PowerGrid::default();
    update_power_grid(&map, &mut grid, &at(0));
    assert_eq!(powered(&grid, 4, 1), vec![(1, 0), (2, 0), (3, 0)]);
    assert_eq!(grid.net_power(), 500 - 2 - 6 - 4);
}

#[test]
fn roads_zones_water_and_ground_stop_power() {
    for stop in [
        TileType::Empty,
        TileType::Dirt,
        TileType::Water,
        TileType::Road,
        TileType::Residential,
        TileType::Commercial,
        TileType::Industrial,
    ] {
        let mut map = blank(3, 1);
        map.set(SURFACE, 0, 0, TileType::PowerPlant);
        map.set(SURFACE, 1, 0, stop);
        map.set(SURFACE, 2, 0, TileType::ResidentialOccupied1);
        let mut grid = PowerGrid::default();
        update_power_grid(&map, &mut grid, &at(0));
        assert!(powered(&grid, 3, 1).is_empty(), "{:?}", stop);
        assert_eq!(grid.net_power(), 500);
        assert_eq!(trace_network(&map), vec![true, false, false]);
    }
}

#[test]
fn power_does_not_cross_corners() {
    let mut map = blank(2, 2);
    map.set(SURFACE, 0, 0, TileType::PowerPlant);
    map.set(SURFACE, 1, 1, TileType::ResidentialOccupied1);
    let mut grid = PowerGrid::default();
    update_power_grid(&map, &mut grid, &at(0));
    assert!(powered(&grid, 2, 2).is_empty());
    assert_eq!(grid.net_power(), 500);
}

#[test]
fn power_does_not_wrap_around_the_edge() {
    let mut map = blank(3, 2);
    map.set(SURFACE, 2, 0, TileType::PowerPlant);
    map.set(SURFACE, 0, 1, TileType::ResidentialOccupied1);
    let mut grid = PowerGrid::default();
    update_power_grid(&map, &mut grid, &at(0));
    assert!(powered(&grid, 3, 2).is_empty());
}

#[test]
fn a_line_on_the_surface_conducts_too() {
    let mut map = blank(3, 1);
    map.set(SURFACE, 0, 0, TileType::PowerPlant);
    map.set(SURFACE, 1, 0, TileType::PowerLine);
    map.set(SURFACE, 2, 0, TileType::CommercialOccupied1);
    let mut grid = PowerGrid::default();
    update_power_grid(&map, &mut grid, &at(0));
    assert_eq!(powered(&grid, 3, 1), vec![(2, 0)]);
    assert_eq!(grid.net_power(), 498);
}

#[test]
fn a_plant_in_the_air_feeds_nothing() {
    let mut map = blank(2, 1);
    map.set(AIR, 0, 0, TileType::PowerPlant);
    map.set(SURFACE, 1, 0, TileType::ResidentialOccupied1);
    let mut grid = PowerGrid::default();
    update_power_grid(&map, &mut grid, &at(0));
    assert!(powered(&grid, 2, 1).is_empty());
    assert_eq!(grid.net_power(), 0);
}

#[test]
fn a_map_without_air_is_no_error() {
    let mut map = GameMap::default();
    map.set(SURFACE, 10, 10, TileType::PowerPlant);
    map.set(SURFACE, 11, 10, TileType::IndustrialOccupied3);
    map.set(SURFACE, 13, 10, TileType::IndustrialOccupied3);
    let mut grid = PowerGrid::default();
    update_power_grid(&map, &mut grid, &at(0));
    assert_eq!(powered(&grid, 64, 64), vec![(11, 10)]);
    assert_eq!(grid.net_power(), 488);
}

#[test]
fn supply_adds_up_over_plants() {
    let mut map = blank(3, 3);
    map.set(SURFACE, 0, 0, TileType::PowerPlant);
    map.set(SURFACE, 2, 2, TileType::PowerPlant);
    map.set(SURFACE, 1, 0, TileType::PowerPlant);
    let mut grid = PowerGrid::default();
    update_power_grid(&map, &mut grid, &at(0));
    assert_eq!(grid.net_power(), 1500);
    assert!(powered(&grid, 3, 3).is_empty());
}

/// One plant and a row of factories that draw `extra` units more than 500.
fn loaded(extra: i32) -> GameMap {
    let mut map = blank(45, 1);
    map.set(SURFACE, 0, 0, TileType::PowerPlant);
    for x in 1..=41 {
        map.set(SURFACE, x, 0, TileType::IndustrialOccupied3);
    }
    map.set(SURFACE, 42, 0, TileType::IndustrialOccupied2);
    match extra {
        0 => {}
        1 => {
            map.set(SURFACE, 43, 0, TileType::ResidentialOccupied1);
        }
        _ => panic!("no such load"),
    }
    map
}

#[test]
fn demand_equal_to_supply_powers_everyone() {
    let map = loaded(0);
    let mut grid = PowerGrid::default();
    update_power_grid(&map, &mut grid, &at(0));
    assert_eq!(grid.net_power(), 0);
    let expected: Vec<(i32, i32)> = (1..=42).map(|x| (x, 0)).collect();
    assert_eq!(powered(&grid, 45, 1), expected);
}

#[test]
fn one_unit_too_many_blacks_out_everyone() {
    let map = loaded(1);
    let mut grid = PowerGrid::default();
    update_power_grid(&map, &mut grid, &at(0));
    assert_eq!(grid.net_power(), -1);
    assert!(powered(&grid, 45, 1).is_empty());
}

#[test]
fn a_brownout_clears_the_earlier_result() {
    let mut map = loaded(0);
    let mut grid = PowerGrid::default();
    update_power_grid(&map, &mut grid, &at(0));
    assert!(grid.is_powered(1, 0));
    map.set(SURFACE, 43, 0, TileType::ResidentialOccupied1);
    update_power_grid(&map, &mut grid, &at(4));
    assert!(powered(&grid, 45, 1).is_empty());
    assert_eq!(grid.net_power(), -1);
}

#[test]
fn buildings_off_the_network_draw_nothing() {
    let mut map = blank(5, 1);
    map.set(SURFACE, 0, 0, TileType::PowerPlant);
    map.set(SURFACE, 1, 0, TileType::ResidentialOccupied3);
    map.set(SURFACE, 3, 0, TileType::IndustrialOccupied3);
    map.set(SURFACE, 4, 0, TileType::IndustrialOccupied3);
    let mut grid = PowerGrid::default();
    update_power_grid(&map, &mut grid, &at(0));
    assert_eq!(powered(&grid, 5, 1), vec![(1, 0)]);
    assert_eq!(grid.net_power(), 497);
}

#[test]
fn without_a_plant_nobody_has_power() {
    let mut map = blank(3, 1);
    map.set(SURFACE, 0, 0, TileType::ResidentialOccupied1);
    map.set(AIR, 1, 0, TileType::PowerLine);
    let mut grid = PowerGrid::default();
    update_power_grid(&map, &mut grid, &at(0));
    assert!(powered(&grid, 3, 1).is_empty());
    assert_eq!(grid.net_power(), 0);
    assert_eq!(trace_network(&map), vec![false, false, false]);
}

#[test]
fn the_network_winds_through_a_maze() {
    let mut map = blank(5, 5);
    map.set(SURFACE, 0, 0, TileType::PowerPlant);
    let lines = [
        (1, 0), (2, 0), (3, 0), (4, 0), (4, 1), (4, 2), (3, 2), (2, 2), (1, 2), (0, 2), (0, 3),
        (0, 4), (1, 4), (2, 4), (3, 4),
    ];
    for (x, z) in lines {
        map.set(AIR, x, z, TileType::PowerLine);
    }
    map.set(SURFACE, 4, 4, TileType::CommercialOccupied2);
    map.set(SURFACE, 2, 1, TileType::ResidentialOccupied1);
    map.set(SURFACE, 2, 3, TileType::Residential);
    let mut grid = PowerGrid::default();
    update_power_grid(&map, &mut grid, &at(0));
    assert_eq!(powered(&grid, 5, 5), vec![(2, 1), (4, 4)]);
    assert_eq!(grid.net_power(), 500 - 1 - 4);
    let network = trace_network(&map);
    let reached = network.iter().filter(|hit| **hit).count();
    assert_eq!(reached, 1 + lines.len() + 2);
}
