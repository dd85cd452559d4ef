//! The editing tools.
//!
//! A tool is applied to a drag from one cell to another. The road tool lays
//! a straight line along the longer side of the drag; every other tool
//! fills the rectangle that the drag spans. Cells off the map are passed
//! over. Every chunk in which a cell changed is notified once.

use crate::chunk::{chunk_containing, chunk_of, ChunkUpdateEvent};
use crate::map::{GameMap, AIR, SURFACE};
use crate::tile::TileType;
use vstd::prelude::*;

verus! {

/// The tool in hand.
#[derive(Debug, Clone, Copy, PartialEq, Eq, Structural)]
pub enum ToolState {
    Select,
    Bulldozer,
    Road,
    Residential,
    Commercial,
    Industrial,
    PowerLine,
    PowerPlant,
}

impl Default for ToolState {
    fn default() -> (tool: ToolState)
        ensures
            tool == ToolState::Select,
    {
        ToolState::Select
    }
}

/// A rectangle of cells, its bounds included. It is empty where a lower
/// bound lies above the upper one.
#[derive(Debug, Clone, Copy, PartialEq, Eq, Structural)]
pub struct Footprint {
    pub min_x: i32,
    pub max_x: i32,
    pub min_z: i32,
    pub max_z: i32,
}

impl Footprint {
    /// Whether the cell `(x, z)` lies in the rectangle.
    pub open spec fn covers(self, x: int, z: int) -> bool {
        self.min_x <= x <= self.max_x && self.min_z <= z <= self.max_z
    }
}

/// The cells that a tool works on when dragged from `start` to `end`, each
/// given as column and row. A road runs along the row of the start where
/// the drag is wider than it is tall, and along the column of the start
/// otherwise.
pub open spec fn footprint_of(tool: ToolState, start: [i32; 2], end: [i32; 2]) -> Footprint {
    let sx = start[0];
    let sz = start[1];
    let ex = end[0];
    let ez = end[1];
    let min_x = if sx <= ex {
        sx
    } else {
        ex
    };
    let max_x = if sx >= ex {
        sx
    } else {
        ex
    };
    let min_z = if sz <= ez {
        sz
    } else {
        ez
    };
    let max_z = if sz >= ez {
        sz
    } else {
        ez
    };
    if tool == ToolState::Road {
        if max_x - min_x > max_z - min_z {
            Footprint { min_x, max_x, min_z: sz, max_z: sz }
        } else {
            Footprint { min_x: sx, max_x: sx, min_z, max_z }
        }
    } else {
        Footprint { min_x, max_x, min_z, max_z }
    }
}

/// The layer that a tool writes to and the tile that it writes; `None` for
/// the tool that writes nothing.
pub open spec fn tool_tile(tool: ToolState) -> Option<(i32, TileType)> {
    match tool {
        ToolState::Select => None,
        ToolState::Bulldozer => Some((SURFACE, TileType::Dirt)),
        ToolState::Road => Some((SURFACE, TileType::Road)),
        ToolState::Residential => Some((SURFACE, TileType::Residential)),
        ToolState::Commercial => Some((SURFACE, TileType::Commercial)),
        ToolState::Industrial => Some((SURFACE, TileType::Industrial)),
        ToolState::PowerLine => Some((AIR, TileType::PowerLine)),
        ToolState::PowerPlant => Some((SURFACE, TileType::PowerPlant)),
    }
}

/// Whether a building or a plant at `(x, z)` keeps a power line from
/// being strung above it.
pub open spec fn line_blocked(map: &GameMap, x: int, z: int) -> bool {
    match map.tile_at(SURFACE, x, z) {
        Some(t) => t.is_building() || t == TileType::PowerPlant,
        None => false,
    }
}

/// The tile at `(x, z)` of `layer` once `tool` has worked on that cell.
pub open spec fn tooled(map: &GameMap, tool: ToolState, layer: i32, x: int, z: int) -> Option<
    TileType,
> {
    match tool_tile(tool) {
        Some((target, tile)) => if target == layer && map.tile_at(layer, x, z).is_some() && !(tool
            == ToolState::PowerLine && line_blocked(map, x, z)) {
            Some(tile)
        } else {
            map.tile_at(layer, x, z)
        },
        None => map.tile_at(layer, x, z),
    }
}

/// Whether `tool` changes a tile of the cell `(x, z)`.
pub open spec fn tool_changes(map: &GameMap, tool: ToolState, x: int, z: int) -> bool {
    exists|layer: i32| #[trigger] tooled(map, tool, layer, x, z) != map.tile_at(layer, x, z)
}

/// Whether `(a, b)` comes before `(x, z)` when the cells of a rectangle are
/// taken row by row.
spec fn reached(area: Footprint, x: int, z: int, a: int, b: int) -> bool {
    area.covers(a, b) && (b < z || (b == z && a < x))
}

/// Whether the change of the cell `(a, b)`, taken before `(x, z)`, has
/// `event` notified.
spec fn raises(
    map: &GameMap,
    tool: ToolState,
    area: Footprint,
    x: int,
    z: int,
    a: int,
    b: int,
    event: ChunkUpdateEvent,
) -> bool {
    reached(area, x, z, a, b) && tool_changes(map, tool, a, b) && chunk_containing(a, b) == event
}

/// The rectangle that a tool works on when dragged from `start` to `end`,
/// each given as column and row.
pub fn footprint(tool: ToolState, start: [i32; 2], end: [i32; 2]) -> (area: Footprint)
    ensures
        area == footprint_of(tool, start, end),
{
    let sx = start[0];
    let sz = start[1];
    let ex = end[0];
    let ez = end[1];
    let min_x = if sx <= ex {
        sx
    } else {
        ex
    };
    let max_x = if sx >= ex {
        sx
    } else {
        ex
    };
    let min_z = if sz <= ez {
        sz
    } else {
        ez
    };
    let max_z = if sz >= ez {
        sz
    } else {
        ez
    };
    if tool == ToolState::Road {
        if max_x as i64 - min_x as i64 > max_z as i64 - min_z as i64 {
            Footprint { min_x, max_x, min_z: sz, max_z: sz }
        } else {
            Footprint { min_x: sx, max_x: sx, min_z, max_z }
        }
    } else {
        Footprint { min_x, max_x, min_z, max_z }
    }
}

/// The layer that a tool writes to and the tile that it writes.
pub fn tool_target(tool: ToolState) -> (r: Option<(i32, TileType)>)
    ensures
        r == tool_tile(tool),
{
    match tool {
        ToolState::Select => None,
        ToolState::Bulldozer => Some((SURFACE, TileType::Dirt)),
        ToolState::Road => Some((SURFACE, TileType::Road)),
        ToolState::Residential => Some((SURFACE, TileType::Residential)),
        ToolState::Commercial => Some((SURFACE, TileType::Commercial)),
        ToolState::Industrial => Some((SURFACE, TileType::Industrial)),
        ToolState::PowerLine => Some((AIR, TileType::PowerLine)),
        ToolState::PowerPlant => Some((SURFACE, TileType::PowerPlant)),
    }
}

/// Whether a power line cannot be strung above `(x, z)`.
pub fn blocks_line(map: &GameMap, x: i32, z: i32) -> (r: bool)
    requires
        map.wf(),
    ensures
        r == line_blocked(map, x as int, z as int),
{
    match map.get(SURFACE, x, z) {
        Some(t) => t == TileType::PowerPlant || match t.decompose() {
            Some((_, stage)) => stage >= 1,
            None => false,
        },
        None => false,
    }
}

/// Whether `event` is among `events`.
pub fn has_event(events: &Vec<ChunkUpdateEvent>, event: ChunkUpdateEvent) -> (r: bool)
    ensures
        r == events@.contains(event),
{
    let mut i: usize = 0;
    while i < events.len()
        invariant
            i <= events@.len(),
            forall|k: int| 0 <= k < i ==> events@[k] != event,
        decreases events@.len() - i,
    {
        if events[i] == event {
            return true;
        }
        i = i + 1;
    }
    false
}

/// Applies `tool` to the drag from `start` to `end`, each given as column
/// and row, and returns one notification for each chunk in which a cell
/// changed.
///
/// Every cell of the tool's footprint that lies on the map gets the tool's
/// tile, on the tool's layer, where the map has that layer. A power line is
/// not strung above a building or a plant. No other tile changes.
pub fn apply_tool(start: [i32; 2], end: [i32; 2], tool: ToolState, map: &mut GameMap) -> (events:
    Vec<ChunkUpdateEvent>)
    requires
        old(map).wf(),
    ensures
        final(map).wf(),
        final(map).spec_width() == old(map).spec_width(),
        final(map).spec_height() == old(map).spec_height(),
        forall|layer: i32, x: int, z: int| #[trigger]
            final(map).tile_at(layer, x, z) == if footprint_of(tool, start, end).covers(x, z) {
                tooled(old(map), tool, layer, x, z)
            } else {
                old(map).tile_at(layer, x, z)
            },
        events@.no_duplicates(),
        forall|event: ChunkUpdateEvent|
            events@.contains(event) <==> exists|x: int, z: int|
                footprint_of(tool, start, end).covers(x, z) && #[trigger] tool_changes(
                    old(map),
                    tool,
                    x,
                    z,
                ) && chunk_containing(x, z) == event,
{
    let mut events: Vec<ChunkUpdateEvent> = Vec::new();
    let whole = footprint(tool, start, end);
    let (layer, tile) = match tool_target(tool) {
        Some(target) => target,
        None => {
            proof {
                assert forall|x: int, z: int| !#[trigger] tool_changes(old(map), tool, x, z) by {}
            }
            return events;
        },
    };
    proof {
        map.lemma_sides_fit();
    }
    let w = map.width() as i32;
    let h = map.height() as i32;
    let area = Footprint {
        min_x: if whole.min_x < 0 {
            0
        } else {
            whole.min_x
        },
        max_x: if whole.max_x >= w {
            w - 1
        } else {
            whole.max_x
        },
        min_z: if whole.min_z < 0 {
            0
        } else {
            whole.min_z
        },
        max_z: if whole.max_z >= h {
            h - 1
        } else {
            whole.max_z
        },
    };
    proof {
        assert forall|x: int, z: int| whole.covers(x, z) && !area.covers(x, z) implies !old(
            map,
        ).in_bounds(x, z) by {}
        assert forall|x: int, z: int| area.covers(x, z) implies whole.covers(x, z) && old(
            map,
        ).in_bounds(x, z) by {}
    }
    if area.min_x > area.max_x || area.min_z > area.max_z {
        proof {
            lemma_off_map_untouched(old(map), tool);
            assert forall|x: int, z: int| whole.covers(x, z) implies !#[trigger] tool_changes(
                old(map),
                tool,
                x,
                z,
            ) by {}
        }
        return events;
    }
    let mut z: i32 = area.min_z;
    while z <= area.max_z
        invariant
            area.min_z <= z <= area.max_z + 1,
            0 <= area.min_x <= area.max_x < w,
            0 <= area.min_z <= area.max_z < h,
            map.wf(),
            old(map).wf(),
            w == map.spec_width(),
            h == map.spec_height(),
            map.spec_width() == old(map).spec_width(),
            map.spec_height() == old(map).spec_height(),
            w <= 4_294_967,
            h <= 4_294_967,
            tool_tile(tool) == Some((layer, tile)),
            forall|l: i32, a: int, b: int| #[trigger]
                map.tile_at(l, a, b) == if reached(area, area.min_x as int, z as int, a, b) {
                    tooled(old(map), tool, l, a, b)
                } else {
                    old(map).tile_at(l, a, b)
                },
            events@.no_duplicates(),
            forall|event: ChunkUpdateEvent|
                events@.contains(event) <==> exists|a: int, b: int| #[trigger]
                    raises(old(map), tool, area, area.min_x as int, z as int, a, b, event),
        decreases area.max_z + 1 - z,
    {
        let mut x: i32 = area.min_x;
        while x <= area.max_x
            invariant
                area.min_x <= x <= area.max_x + 1,
                area.min_z <= z <= area.max_z,
                0 <= area.min_x <= area.max_x < w,
                0 <= area.min_z <= area.max_z < h,
                map.wf(),
                old(map).wf(),
                w == map.spec_width(),
                h == map.spec_height(),
                map.spec_width() == old(map).spec_width(),
                map.spec_height() == old(map).spec_height(),
                w <= 4_294_967,
                h <= 4_294_967,
                tool_tile(tool) == Some((layer, tile)),
                forall|l: i32, a: int, b: int| #[trigger]
                    map.tile_at(l, a, b) == if reached(area, x as int, z as int, a, b) {
                        tooled(old(map), tool, l, a, b)
                    } else {
                        old(map).tile_at(l, a, b)
                    },
                events@.no_duplicates(),
                forall|event: ChunkUpdateEvent|
                    events@.contains(event) <==> exists|a: int, b: int| #[trigger]
                        raises(old(map), tool, area, x as int, z as int, a, b, event),
            decreases area.max_x + 1 - x,
        {
            let ghost before = events@;
            let ghost earlier = *map;
            assert(map.tile_at(SURFACE, x as int, z as int) == old(map).tile_at(
                SURFACE,
                x as int,
                z as int,
            ));
            assert(map.tile_at(layer, x as int, z as int) == old(map).tile_at(
                layer,
                x as int,
                z as int,
            ));
            let blocked = match tool {
                ToolState::PowerLine => blocks_line(map, x, z),
                _ => false,
            };
            let changed = if blocked {
                false
            } else {
                map.set(layer, x, z, tile)
            };
            let here = chunk_of(x, z);
            proof {
                lemma_tool_changes(old(map), tool, x as int, z as int);
                assert(changed == tool_changes(old(map), tool, x as int, z as int));
                assert forall|l: i32, a: int, b: int| #[trigger]
                    map.tile_at(l, a, b) == if reached(area, x + 1, z as int, a, b) {
                        tooled(old(map), tool, l, a, b)
                    } else {
                        old(map).tile_at(l, a, b)
                    } by {
                    if a == x && b == z {
                        if l != layer {
                            assert(map.tile_at(l, a, b) == earlier.tile_at(l, a, b));
                        }
                    } else {
                        assert(map.tile_at(l, a, b) == earlier.tile_at(l, a, b));
                        assert(reached(area, x + 1, z as int, a, b) == reached(
                            area,
                            x as int,
                            z as int,
                            a,
                            b,
                        ));
                    }
                }
            }
            if changed && !has_event(&events, here) {
                events.push(here);
                proof {
                    assert(events@ == before.push(here));
                    assert(events@.no_duplicates()) by {
                        assert forall|i: int, j: int|
                            0 <= i < events@.len() && 0 <= j < events@.len() && i != j implies events@[i]
                            != events@[j] by {
                            if i < before.len() && j < before.len() {
                                assert(before[i] != before[j]);
                            } else if i < before.len() {
                                assert(before.contains(before[i]));
                            } else {
                                assert(before.contains(before[j]));
                            }
                        }
                    }
                    assert forall|event: ChunkUpdateEvent| events@.contains(event) == (
                    before.contains(event) || event == here) by {
                        if before.contains(event) {
                            let k = choose|k: int| 0 <= k < before.len() && before[k] == event;
                            assert(events@[k] == event);
                        }
                        if event == here {
                            assert(events@[before.len() as int] == here);
                        }
                    }
                }
            }
            proof {
                assert forall|event: ChunkUpdateEvent| events@.contains(event) <==> exists|
                    a: int,
                    b: int,
                | #[trigger] raises(old(map), tool, area, x + 1, z as int, a, b, event) by {
                    if events@.contains(event) {
                        if before.contains(event) {
                            let (a, b) = choose|a: int, b: int| #[trigger]
                                raises(old(map), tool, area, x as int, z as int, a, b, event);
                            assert(raises(old(map), tool, area, x + 1, z as int, a, b, event));
                        } else {
                            assert(raises(
                                old(map),
                                tool,
                                area,
                                x + 1,
                                z as int,
                                x as int,
                                z as int,
                                event,
                            ));
                        }
                    }
                    if exists|a: int, b: int| #[trigger]
                        raises(old(map), tool, area, x + 1, z as int, a, b, event) {
                        let (a, b) = choose|a: int, b: int| #[trigger]
                            raises(old(map), tool, area, x + 1, z as int, a, b, event);
                        if !(a == x && b == z) {
                            assert(raises(old(map), tool, area, x as int, z as int, a, b, event));
                            assert(before.contains(event));
                        } else {
                            assert(changed && event == here);
                        }
                        assert(events@.contains(event));
                    }
                }
            }
            x = x + 1;
        }
        proof {
            assert forall|a: int, b: int| #[trigger]
                reached(area, area.max_x + 1, z as int, a, b) == reached(
                    area,
                    area.min_x as int,
                    z + 1,
                    a,
                    b,
                ) by {}
            assert forall|event: ChunkUpdateEvent| events@.contains(event) <==> exists|
                a: int,
                b: int,
            | #[trigger] raises(old(map), tool, area, area.min_x as int, z + 1, a, b, event) by {
                if events@.contains(event) {
                    let (a, b) = choose|a: int, b: int| #[trigger]
                        raises(old(map), tool, area, area.max_x + 1, z as int, a, b, event);
                    assert(raises(old(map), tool, area, area.min_x as int, z + 1, a, b, event));
                }
                if exists|a: int, b: int| #[trigger]
                    raises(old(map), tool, area, area.min_x as int, z + 1, a, b, event) {
                    let (a, b) = choose|a: int, b: int| #[trigger]
                        raises(old(map), tool, area, area.min_x as int, z + 1, a, b, event);
                    assert(raises(old(map), tool, area, area.max_x + 1, z as int, a, b, event));
                }
            }
        }
        z = z + 1;
    }
    proof {
        lemma_off_map_untouched(old(map), tool);
        assert forall|a: int, b: int| #[trigger]
            reached(area, area.min_x as int, area.max_z + 1, a, b) == area.covers(a, b) by {}
        assert forall|l: i32, a: int, b: int| #[trigger]
            map.tile_at(l, a, b) == if whole.covers(a, b) {
                tooled(old(map), tool, l, a, b)
            } else {
                old(map).tile_at(l, a, b)
            } by {
            assert(map.tile_at(l, a, b) == if reached(
                area,
                area.min_x as int,
                area.max_z + 1,
                a,
                b,
            ) {
                tooled(old(map), tool, l, a, b)
            } else {
                old(map).tile_at(l, a, b)
            });
        }
        assert forall|event: ChunkUpdateEvent| events@.contains(event) <==> exists|
            a: int,
            b: int,
        |
            whole.covers(a, b) && #[trigger] tool_changes(old(map), tool, a, b)
                && chunk_containing(a, b) == event by {
            if events@.contains(event) {
                let (a, b) = choose|a: int, b: int| #[trigger]
                    raises(old(map), tool, area, area.min_x as int, area.max_z + 1, a, b, event);
                assert(whole.covers(a, b) && tool_changes(old(map), tool, a, b)
                    && chunk_containing(a, b) == event);
            }
            if exists|a: int, b: int|
                whole.covers(a, b) && #[trigger] tool_changes(old(map), tool, a, b)
                    && chunk_containing(a, b) == event {
                let (a, b) = choose|a: int, b: int|
                    whole.covers(a, b) && #[trigger] tool_changes(old(map), tool, a, b)
                        && chunk_containing(a, b) == event;
                assert(area.covers(a, b));
                assert(raises(
                    old(map),
                    tool,
                    area,
                    area.min_x as int,
                    area.max_z + 1,
                    a,
                    b,
                    event,
                ));
            }
        }
    }
    events
}

/// A tool changes nothing off the map.
pub proof fn lemma_off_map_untouched(map: &GameMap, tool: ToolState)
    ensures
        forall|x: int, z: int| !map.in_bounds(x, z) ==> !#[trigger] tool_changes(map, tool, x, z),
        forall|layer: i32, x: int, z: int|
            !map.in_bounds(x, z) ==> #[trigger] tooled(map, tool, layer, x, z) == map.tile_at(
                layer,
                x,
                z,
            ),
{
}

/// A tool changes a cell where it has a tile to write there, the cell has
/// the tool's layer, no building or plant blocks a power line, and the
/// tile is not there yet.
pub proof fn lemma_tool_changes(map: &GameMap, tool: ToolState, x: int, z: int)
    ensures
        tool_changes(map, tool, x, z) <==> match tool_tile(tool) {
            Some((layer, tile)) => map.tile_at(layer, x, z).is_some() && map.tile_at(layer, x, z)
                != Some(tile) && !(tool == ToolState::PowerLine && line_blocked(map, x, z)),
            None => false,
        },
{
    match tool_tile(tool) {
        Some((layer, tile)) => {
            if map.tile_at(layer, x, z).is_some() && map.tile_at(layer, x, z) != Some(tile) && !(
            tool == ToolState::PowerLine && line_blocked(map, x, z)) {
                assert(tooled(map, tool, layer, x, z) != map.tile_at(layer, x, z));
            }
        },
        None => {},
    }
}

} // verus!
