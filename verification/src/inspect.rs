//! What the inspector shows of a cell.

use crate::map::{GameMap, AIR, SURFACE};
use crate::power::{PowerGrid, PLANT_OUTPUT};
use crate::tile::{get_power_consumption, power_consumption, TileType};
use vstd::prelude::*;

verus! {

/// What a cell has to do with the power network.
#[derive(Debug, Clone, Copy, PartialEq, Eq, Structural)]
pub enum PowerReport {
    /// The tile neither draws nor supplies power.
    Idle,
    /// The tile draws `usage` units, and has power or has not.
    Consumer { usage: i32, powered: bool },
    /// The tile supplies `output` units to a network whose supply less
    /// demand is `net_power`.
    Plant { output: i32, net_power: i32 },
}

/// The tile that the inspector shows for a cell, the layer where it was
/// found, and its part in the power network.
#[derive(Debug, Clone, Copy, PartialEq, Eq, Structural)]
pub struct Inspection {
    pub tile: TileType,
    pub layer: i32,
    pub power: PowerReport,
}

/// Whether the inspector looks through a surface tile at the air above:
/// it does through nothing and through bare ground.
pub open spec fn transparent(tile: TileType) -> bool {
    tile == TileType::Empty || tile == TileType::Dirt
}

/// The layer whose tile is shown for `(x, z)`: the air where the surface is
/// transparent and the air holds something, and the surface otherwise.
pub open spec fn shown_layer(map: &GameMap, x: int, z: int) -> i32 {
    if transparent(map.tile_or_empty(SURFACE, x, z)) && map.tile_or_empty(AIR, x, z)
        != TileType::Empty {
        AIR
    } else {
        SURFACE
    }
}

/// What the inspector shows for the cell `(x, z)`.
pub open spec fn inspection_of(map: &GameMap, grid: &PowerGrid, x: int, z: int) -> Inspection {
    let layer = shown_layer(map, x, z);
    let tile = map.tile_or_empty(layer, x, z);
    Inspection {
        tile,
        layer,
        power: if power_consumption(tile) > 0 {
            PowerReport::Consumer {
                usage: power_consumption(tile) as i32,
                powered: grid.powered_tiles().contains((x, z)),
            }
        } else if tile == TileType::PowerPlant {
            PowerReport::Plant { output: PLANT_OUTPUT, net_power: grid.spec_net_power() as i32 }
        } else {
            PowerReport::Idle
        },
    }
}

/// Looks at the cell `(x, z)`: `None` off the map, and what the inspector
/// shows otherwise.
pub fn inspect(map: &GameMap, grid: &PowerGrid, x: i32, z: i32) -> (r: Option<Inspection>)
    requires
        map.wf(),
    ensures
        r == if map.in_bounds(x as int, z as int) {
            Some(inspection_of(map, grid, x as int, z as int))
        } else {
            None
        },
{
    if !map.contains(x, z) {
        return None;
    }
    let mut tile = match map.get(SURFACE, x, z) {
        Some(t) => t,
        None => TileType::Empty,
    };
    let mut layer = SURFACE;
    if tile == TileType::Empty || tile == TileType::Dirt {
        match map.get(AIR, x, z) {
            Some(above) => {
                if above != TileType::Empty {
                    tile = above;
                    layer = AIR;
                }
            },
            None => {},
        }
    }
    let usage = get_power_consumption(tile);
    let power = if usage > 0 {
        PowerReport::Consumer { usage, powered: grid.is_powered(x, z) }
    } else if tile == TileType::PowerPlant {
        PowerReport::Plant { output: PLANT_OUTPUT, net_power: grid.net_power() }
    } else {
        PowerReport::Idle
    };
    Some(Inspection { tile, layer, power })
}

} // verus!
