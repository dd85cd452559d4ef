//! The power network.
//!
//! Power plants on the surface feed a network that spreads from cell to
//! cell, along rows and columns, over every cell that conducts: plants,
//! buildings, and power lines in the air. The buildings that the network
//! reaches are its consumers. Where the plants supply at least what the
//! consumers draw, every consumer has power; where they do not, none has.

use crate::clock::TICKS_PER_HOUR;
use crate::map::{lemma_index_in_area, lemma_index_split, lemma_index_unique, GameMap, AIR, SURFACE};
use crate::simulation::{surface_of, SimulationState};
use crate::tile::{conducts, get_power_consumption, is_conductor, power_consumption, TileType};
use std::collections::VecDeque;
use vstd::prelude::*;

verus! {

/// Units of power that one plant supplies.
pub const PLANT_OUTPUT: i32 = 500;

/// Whether `(nx, nz)` is the cell left, right, above or below `(x, z)`.
pub open spec fn adjacent(x: int, z: int, nx: int, nz: int) -> bool {
    (nz == z && (nx == x + 1 || nx == x - 1)) || (nx == x && (nz == z + 1 || nz == z - 1))
}

/// Whether a power plant stands at `(x, z)`.
pub open spec fn plant_at(map: &GameMap, x: int, z: int) -> bool {
    map.tile_at(SURFACE, x, z) == Some(TileType::PowerPlant)
}

/// Whether the cell `(x, z)` carries power onward: its surface tile
/// conducts, or a power line runs through the air above it. A layer that
/// the map lacks conducts nowhere.
pub open spec fn conducts_at(map: &GameMap, x: int, z: int) -> bool {
    map.in_bounds(x, z) && (conducts(map.tile_or_empty(SURFACE, x, z)) || map.tile_at(AIR, x, z)
        == Some(TileType::PowerLine))
}

/// Whether `path` leads from a plant over conducting cells, each next to
/// the one before.
pub open spec fn is_feed(map: &GameMap, path: Seq<(int, int)>) -> bool {
    &&& path.len() > 0
    &&& plant_at(map, path[0].0, path[0].1)
    &&& forall|k: int|
        0 < k < path.len() ==> adjacent(
            path[k - 1].0,
            path[k - 1].1,
            (#[trigger] path[k]).0,
            path[k].1,
        ) && conducts_at(map, path[k].0, path[k].1)
}

/// Whether the network reaches `(x, z)`: some feed ends there.
pub open spec fn in_network(map: &GameMap, x: int, z: int) -> bool {
    exists|path: Seq<(int, int)>| #[trigger] is_feed(map, path) && path.last() == (x, z)
}

/// Whether a building stands at `(x, z)`.
pub open spec fn draws_power(map: &GameMap, x: int, z: int) -> bool {
    map.in_bounds(x, z) && power_consumption(map.tile_or_empty(SURFACE, x, z)) > 0
}

/// Whether `(x, z)` is a consumer: a building that the network reaches, or
/// that stands next to a cell that the network reaches.
pub open spec fn is_consumer(map: &GameMap, x: int, z: int) -> bool {
    draws_power(map, x, z) && (in_network(map, x, z) || exists|nx: int, nz: int|
        adjacent(x, z, nx, nz) && #[trigger] in_network(map, nx, nz))
}

/// The consumers of a map.
pub open spec fn consumers(map: &GameMap) -> Set<(int, int)> {
    Set::new(|c: (int, int)| is_consumer(map, c.0, c.1))
}

/// What the plants among `tiles` supply.
pub open spec fn supply_of(tiles: Seq<TileType>) -> int
    decreases tiles.len(),
{
    if tiles.len() == 0 {
        0
    } else {
        supply_of(tiles.drop_last()) + if tiles.last() == TileType::PowerPlant {
            PLANT_OUTPUT as int
        } else {
            0
        }
    }
}

/// What the consumers among the first `n` cells of the surface draw.
pub open spec fn demand_upto(map: &GameMap, n: int) -> int
    decreases n,
{
    if n <= 0 {
        0
    } else {
        demand_upto(map, n - 1) + if is_consumer(
            map,
            (n - 1) % map.spec_width(),
            (n - 1) / map.spec_width(),
        ) {
            power_consumption(surface_of(map)[n - 1])
        } else {
            0
        }
    }
}

/// What all plants of a map supply.
pub open spec fn total_supply(map: &GameMap) -> int {
    supply_of(surface_of(map))
}

/// What all consumers of a map draw.
pub open spec fn total_demand(map: &GameMap) -> int {
    demand_upto(map, surface_of(map).len() as int)
}

/// The outcome of the last computation of the network.
pub struct PowerGrid {
    powered: Vec<bool>,
    width: u32,
    net_power: i32,
}

impl PowerGrid {
    /// Supply less demand.
    pub closed spec fn spec_net_power(&self) -> int {
        self.net_power as int
    }

    /// Supply less demand.
    pub fn net_power(&self) -> (net: i32)
        ensures
            net == self.spec_net_power(),
    {
        self.net_power
    }

    /// The cells that have power.
    pub closed spec fn powered_tiles(&self) -> Set<(int, int)> {
        Set::new(
            |c: (int, int)|
                0 <= c.0 < self.width && 0 <= c.1 && c.1 * self.width + c.0 < self.powered@.len()
                    && self.powered@[c.1 * self.width + c.0],
        )
    }

    /// Whether the cell `(x, z)` has power.
    pub fn is_powered(&self, x: i32, z: i32) -> (r: bool)
        ensures
            r == self.powered_tiles().contains((x as int, z as int)),
    {
        if x < 0 || z < 0 || x as u32 >= self.width {
            return false;
        }
        assert(z * self.width <= 0x7FFF_FFFF * 0xFFFF_FFFF) by (nonlinear_arith)
            requires
                0 <= z <= 0x7FFF_FFFF,
                0 <= self.width <= 0xFFFF_FFFF,
        ;
        let i: u64 = (z as u64) * (self.width as u64) + (x as u64);
        if i >= self.powered.len() as u64 {
            return false;
        }
        self.powered[i as usize]
    }
}

impl Default for PowerGrid {
    /// No cell has power, and supply and demand are even.
    fn default() -> (grid: PowerGrid)
        ensures
            grid.powered_tiles() =~= Set::<(int, int)>::empty(),
            grid.spec_net_power() == 0,
    {
        PowerGrid { powered: Vec::new(), width: 0, net_power: 0 }
    }
}

/// Whether the search has marked the cell `(x, z)`.
pub open spec fn marked(map: &GameMap, visited: Seq<bool>, x: int, z: int) -> bool {
    map.in_bounds(x, z) && visited[map.index(x, z)]
}

/// How many cells the search has not marked.
spec fn unmarked(visited: Seq<bool>) -> nat
    decreases visited.len(),
{
    if visited.len() == 0 {
        0
    } else {
        unmarked(visited.drop_last()) + if visited.last() {
            0nat
        } else {
            1nat
        }
    }
}

/// Whether `(x, z)` waits in the queue of the search.
spec fn queued(queue: Seq<(i32, i32)>, x: int, z: int) -> bool {
    exists|k: int| 0 <= k < queue.len() && (#[trigger] queue[k]).0 == x && queue[k].1 == z
}

/// Whether every conducting cell next to `(x, z)` is marked.
spec fn settled(map: &GameMap, visited: Seq<bool>, x: int, z: int) -> bool {
    forall|nx: int, nz: int|
        adjacent(x, z, nx, nz) && conducts_at(map, nx, nz) ==> #[trigger] marked(
            map,
            visited,
            nx,
            nz,
        )
}

/// What holds of the marks and the queue throughout the search: only cells
/// of the network are marked, and only marked cells wait in the queue.
spec fn search_sound(map: &GameMap, visited: Seq<bool>, queue: Seq<(i32, i32)>) -> bool {
    &&& visited.len() == map.area()
    &&& forall|x: int, z: int| #[trigger] marked(map, visited, x, z) ==> in_network(map, x, z)
    &&& forall|k: int|
        0 <= k < queue.len() ==> marked(map, visited, (#[trigger] queue[k]).0 as int, queue[k].1 as int)
}

/// Every marked cell is settled, waits in the queue, or is the cell
/// `(cx, cz)` that the search is working on.
spec fn search_frontier(
    map: &GameMap,
    visited: Seq<bool>,
    queue: Seq<(i32, i32)>,
    cx: int,
    cz: int,
) -> bool {
    forall|x: int, z: int| #[trigger]
        marked(map, visited, x, z) ==> settled(map, visited, x, z) || queued(queue, x, z) || (x
            == cx && z == cz)
}

/// Every plant is marked.
spec fn plants_marked(map: &GameMap, visited: Seq<bool>) -> bool {
    forall|x: int, z: int| plant_at(map, x, z) ==> #[trigger] marked(map, visited, x, z)
}

/// Whether `surface` and `air` are those two layers of `map`.
spec fn layers_of(
    map: &GameMap,
    surface: Option<&Vec<TileType>>,
    air: Option<&Vec<TileType>>,
) -> bool {
    &&& match surface {
        Some(tiles) => map.grids().contains_key(SURFACE) && tiles@ == map.grids()[SURFACE],
        None => !map.grids().contains_key(SURFACE),
    }
    &&& match air {
        Some(tiles) => map.grids().contains_key(AIR) && tiles@ == map.grids()[AIR],
        None => !map.grids().contains_key(AIR),
    }
}

/// Marking one more cell leaves one cell fewer unmarked.
proof fn lemma_mark(visited: Seq<bool>, i: int)
    requires
        0 <= i < visited.len(),
        !visited[i],
    ensures
        unmarked(visited.update(i, true)) + 1 == unmarked(visited),
    decreases visited.len(),
{
    let after = visited.update(i, true);
    if i == visited.len() - 1 {
        assert(after.drop_last() =~= visited.drop_last());
    } else {
        assert(after.drop_last() =~= visited.drop_last().update(i, true));
        lemma_mark(visited.drop_last(), i);
    }
}

/// A plant is in the network.
pub proof fn lemma_plant_in_network(map: &GameMap, x: int, z: int)
    requires
        plant_at(map, x, z),
    ensures
        in_network(map, x, z),
{
    let path = seq![(x, z)];
    assert(is_feed(map, path));
    assert(path.last() == (x, z));
}

/// A conducting cell next to a cell of the network is in the network.
pub proof fn lemma_network_spreads(map: &GameMap, x: int, z: int, nx: int, nz: int)
    requires
        in_network(map, x, z),
        adjacent(x, z, nx, nz),
        conducts_at(map, nx, nz),
    ensures
        in_network(map, nx, nz),
{
    let path = choose|path: Seq<(int, int)>| #[trigger] is_feed(map, path) && path.last() == (x, z);
    let longer = path.push((nx, nz));
    assert forall|k: int| 0 < k < longer.len() implies adjacent(
        longer[k - 1].0,
        longer[k - 1].1,
        (#[trigger] longer[k]).0,
        longer[k].1,
    ) && conducts_at(map, longer[k].0, longer[k].1) by {
        if k < path.len() {
            assert(longer[k] == path[k]);
            assert(longer[k - 1] == path[k - 1]);
        } else {
            assert(longer[k - 1] == path.last());
        }
    }
    assert(longer[0] == path[0]);
    assert(is_feed(map, longer));
    assert(longer.last() == (nx, nz));
}

/// A consumer is a building that the network reaches. That a building next
/// to the network counts as a consumer adds none: a building conducts, so
/// the network reaches it.
pub proof fn lemma_consumer_in_network(map: &GameMap, x: int, z: int)
    ensures
        is_consumer(map, x, z) <==> draws_power(map, x, z) && in_network(map, x, z),
{
    if is_consumer(map, x, z) && !in_network(map, x, z) {
        let (nx, nz) = choose|nx: int, nz: int|
            adjacent(x, z, nx, nz) && #[trigger] in_network(map, nx, nz);
        assert(adjacent(nx, nz, x, z));
        lemma_network_spreads(map, nx, nz, x, z);
    }
}

/// Marks that hold every plant and are closed under conduction hold the
/// end of every feed.
proof fn lemma_closed_marks_hold_feeds(
    map: &GameMap,
    visited: Seq<bool>,
    path: Seq<(int, int)>,
)
    requires
        plants_marked(map, visited),
        forall|x: int, z: int| #[trigger] marked(map, visited, x, z) ==> settled(map, visited, x, z),
        is_feed(map, path),
    ensures
        marked(map, visited, path.last().0, path.last().1),
    decreases path.len(),
{
    if path.len() > 1 {
        let shorter = path.drop_last();
        assert forall|k: int| 0 < k < shorter.len() implies adjacent(
            shorter[k - 1].0,
            shorter[k - 1].1,
            (#[trigger] shorter[k]).0,
            shorter[k].1,
        ) && conducts_at(map, shorter[k].0, shorter[k].1) by {
            assert(shorter[k] == path[k]);
            assert(shorter[k - 1] == path[k - 1]);
        }
        assert(shorter[0] == path[0]);
        lemma_closed_marks_hold_feeds(map, visited, shorter);
        let last = path.len() - 1;
        assert(shorter.last() == path[last - 1]);
        assert(adjacent(path[last - 1].0, path[last - 1].1, path[last].0, path[last].1)
            && conducts_at(map, path[last].0, path[last].1));
        assert(settled(map, visited, path[last - 1].0, path[last - 1].1));
    }
}

/// Whether the cell `(x, z)` conducts.
fn conducts_here(
    map: &GameMap,
    surface: Option<&Vec<TileType>>,
    air: Option<&Vec<TileType>>,
    x: i32,
    z: i32,
) -> (r: bool)
    requires
        map.wf(),
        map.in_bounds(x as int, z as int),
        layers_of(map, surface, air),
    ensures
        r == conducts_at(map, x as int, z as int),
{
    let i = map.index_of(x, z);
    let on_surface = match surface {
        Some(tiles) => is_conductor(tiles[i]),
        None => false,
    };
    if on_surface {
        return true;
    }
    match air {
        Some(tiles) => tiles[i] == TileType::PowerLine,
        None => false,
    }
}

/// Looks at `(nx, nz)`, a neighbour of the marked cell `(cx, cz)`: where it
/// lies on the map, conducts and is not marked yet, it is marked and joins
/// the queue.
fn visit(
    map: &GameMap,
    surface: Option<&Vec<TileType>>,
    air: Option<&Vec<TileType>>,
    visited: &mut Vec<bool>,
    queue: &mut VecDeque<(i32, i32)>,
    cx: i32,
    cz: i32,
    nx: i32,
    nz: i32,
)
    requires
        map.wf(),
        layers_of(map, surface, air),
        search_sound(map, old(visited)@, old(queue)@),
        search_frontier(map, old(visited)@, old(queue)@, cx as int, cz as int),
        marked(map, old(visited)@, cx as int, cz as int),
        adjacent(cx as int, cz as int, nx as int, nz as int),
    ensures
        search_sound(map, final(visited)@, final(queue)@),
        search_frontier(map, final(visited)@, final(queue)@, cx as int, cz as int),
        forall|x: int, z: int|
            marked(map, old(visited)@, x, z) ==> #[trigger] marked(map, final(visited)@, x, z),
        conducts_at(map, nx as int, nz as int) ==> marked(
            map,
            final(visited)@,
            nx as int,
            nz as int,
        ),
        2 * unmarked(final(visited)@) + final(queue)@.len() <= 2 * unmarked(old(visited)@)
            + old(queue)@.len(),
{
    if !map.contains(nx, nz) {
        return ;
    }
    let i = map.index_of(nx, nz);
    if visited[i] {
        return ;
    }
    if !conducts_here(map, surface, air, nx, nz) {
        return ;
    }
    visited.set(i, true);
    queue.push_back((nx, nz));
    proof {
        let before = old(visited)@;
        let after = visited@;
        let w = map.spec_width();
        let h = map.spec_height();
        lemma_mark(before, i as int);
        lemma_network_spreads(map, cx as int, cz as int, nx as int, nz as int);
        assert forall|x: int, z: int| #[trigger]
            marked(map, after, x, z) == (marked(map, before, x, z) || (x == nx && z == nz)) by {
            if map.in_bounds(x, z) {
                lemma_index_in_area(w, h, x, z);
                if map.index(x, z) == i {
                    lemma_index_unique(w, x, z, nx as int, nz as int);
                }
            }
        }
        assert(queue@.last() == (nx, nz));
        assert(queued(queue@, nx as int, nz as int));
        assert forall|x: int, z: int| queued(old(queue)@, x, z) implies queued(queue@, x, z) by {
            let k = choose|k: int|
                0 <= k < old(queue)@.len() && (#[trigger] old(queue)@[k]).0 == x
                    && old(queue)@[k].1 == z;
            assert(queue@[k] == old(queue)@[k]);
        }
        assert forall|k: int| 0 <= k < queue@.len() implies marked(
            map,
            after,
            (#[trigger] queue@[k]).0 as int,
            queue@[k].1 as int,
        ) by {
            if k < old(queue)@.len() {
                assert(queue@[k] == old(queue)@[k]);
            }
        }
        assert forall|x: int, z: int| #[trigger] marked(map, after, x, z) implies settled(
            map,
            after,
            x,
            z,
        ) || queued(queue@, x, z) || (x == cx && z == cz) by {
            if !(x == nx && z == nz) {
                assert(marked(map, before, x, z));
                if settled(map, before, x, z) {
                    assert forall|ax: int, az: int|
                        adjacent(x, z, ax, az) && conducts_at(map, ax, az) implies #[trigger] marked(
                        map,
                        after,
                        ax,
                        az,
                    ) by {
                        assert(marked(map, before, ax, az));
                    }
                }
            }
        }
    }
}

/// Finds the network of a map: the result tells, for each cell by its
/// index, whether the network reaches it.
pub fn trace_network(map: &GameMap) -> (visited: Vec<bool>)
    requires
        map.wf(),
    ensures
        visited@.len() == map.area(),
        forall|x: int, z: int|
            map.in_bounds(x, z) ==> (#[trigger] marked(map, visited@, x, z) <==> in_network(
                map,
                x,
                z,
            )),
{
    let surface = map.layer(SURFACE);
    let air = map.layer(AIR);
    let w = map.width();
    let h = map.height();
    proof {
        map.lemma_sides_fit();
        assert(w as int * h as int == map.area());
    }
    let cells: usize = (w as usize) * (h as usize);
    let mut visited: Vec<bool> = Vec::with_capacity(cells);
    let mut n: usize = 0;
    while n < cells
        invariant
            n <= cells,
            visited@.len() == n,
            forall|k: int| 0 <= k < n ==> !visited@[k],
        decreases cells - n,
    {
        visited.push(false);
        n = n + 1;
    }
    let mut queue: VecDeque<(i32, i32)> = VecDeque::new();
    proof {
        assert forall|a: int, b: int| !#[trigger] marked(map, visited@, a, b) by {
            if map.in_bounds(a, b) {
                lemma_index_in_area(w as int, h as int, a, b);
            }
        }
    }
    match surface {
        Some(tiles) => {
            let mut z: u32 = 0;
            while z < h
                invariant
                    z <= h,
                    map.wf(),
                    w == map.spec_width(),
                    h == map.spec_height(),
                    w <= 4_294_967,
                    h <= 4_294_967,
                    layers_of(map, surface, air),
                    surface == Some(tiles),
                    search_sound(map, visited@, queue@),
                    forall|a: int, b: int| #[trigger]
                        marked(map, visited@, a, b) ==> queued(queue@, a, b),
                    forall|a: int, b: int|
                        0 <= b < z && plant_at(map, a, b) ==> #[trigger] marked(map, visited@, a, b),
                decreases h - z,
            {
                let mut x: u32 = 0;
                while x < w
                    invariant
                        x <= w,
                        z < h,
                        map.wf(),
                        w == map.spec_width(),
                        h == map.spec_height(),
                        w <= 4_294_967,
                        h <= 4_294_967,
                        layers_of(map, surface, air),
                        surface == Some(tiles),
                        search_sound(map, visited@, queue@),
                        forall|a: int, b: int| #[trigger]
                            marked(map, visited@, a, b) ==> queued(queue@, a, b),
                        forall|a: int, b: int|
                            0 <= b < z && plant_at(map, a, b) ==> #[trigger] marked(
                                map,
                                visited@,
                                a,
                                b,
                            ),
                        forall|a: int|
                            0 <= a < x && plant_at(map, a, z as int) ==> #[trigger] marked(
                                map,
                                visited@,
                                a,
                                z as int,
                            ),
                    decreases w - x,
                {
                    let i = map.index_of(x as i32, z as i32);
                    if tiles[i] == TileType::PowerPlant {
                        let ghost before = visited@;
                        let ghost waiting = queue@;
                        visited.set(i, true);
                        queue.push_back((x as i32, z as i32));
                        proof {
                            lemma_plant_in_network(map, x as int, z as int);
                            assert forall|a: int, b: int| #[trigger]
                                marked(map, visited@, a, b) == (marked(map, before, a, b) || (a == x
                                    && b == z)) by {
                                if map.in_bounds(a, b) {
                                    lemma_index_in_area(w as int, h as int, a, b);
                                    if map.index(a, b) == i {
                                        lemma_index_unique(w as int, a, b, x as int, z as int);
                                    }
                                }
                            }
                            assert forall|k: int| 0 <= k < queue@.len() implies marked(
                                map,
                                visited@,
                                (#[trigger] queue@[k]).0 as int,
                                queue@[k].1 as int,
                            ) by {
                                if k < waiting.len() {
                                    assert(queue@[k] == waiting[k]);
                                }
                            }
                            assert(queue@.last() == (x as i32, z as i32));
                            assert forall|a: int, b: int| #[trigger]
                                marked(map, visited@, a, b) implies queued(queue@, a, b) by {
                                if a == x && b == z {
                                    assert(queue@[queue@.len() - 1].0 == a);
                                } else {
                                    let k = choose|k: int|
                                        0 <= k < waiting.len() && (#[trigger] waiting[k]).0 == a
                                            && waiting[k].1 == b;
                                    assert(queue@[k] == waiting[k]);
                                }
                            }
                        }
                    }
                    x = x + 1;
                }
                z = z + 1;
            }
        },
        None => {},
    }
    proof {
        assert forall|a: int, b: int| plant_at(map, a, b) implies #[trigger] marked(
            map,
            visited@,
            a,
            b,
        ) by {}
    }
    while queue.len() > 0
        invariant
            map.wf(),
            w == map.spec_width(),
            h == map.spec_height(),
            w <= 4_294_967,
            h <= 4_294_967,
            layers_of(map, surface, air),
            search_sound(map, visited@, queue@),
            search_frontier(map, visited@, queue@, -1, -1),
            plants_marked(map, visited@),
        decreases 2 * unmarked(visited@) + queue@.len(),
    {
        let ghost waiting = queue@;
        let ghost marks = visited@;
        match queue.pop_front() {
            Some((cx, cz)) => {
                proof {
                    assert(waiting[0] == (cx, cz));
                    assert(marked(map, marks, cx as int, cz as int));
                    assert forall|k: int| 0 <= k < queue@.len() implies marked(
                        map,
                        marks,
                        (#[trigger] queue@[k]).0 as int,
                        queue@[k].1 as int,
                    ) by {
                        assert(queue@[k] == waiting[k + 1]);
                    }
                    assert forall|a: int, b: int| #[trigger] marked(map, marks, a, b) implies settled(
                        map,
                        marks,
                        a,
                        b,
                    ) || queued(queue@, a, b) || (a == cx && b == cz) by {
                        if queued(waiting, a, b) && !(a == cx && b == cz) {
                            let k = choose|k: int|
                                0 <= k < waiting.len() && (#[trigger] waiting[k]).0 == a
                                    && waiting[k].1 == b;
                            assert(queue@[k - 1] == waiting[k]);
                        }
                    }
                }
                visit(map, surface, air, &mut visited, &mut queue, cx, cz, cx + 1, cz);
                visit(map, surface, air, &mut visited, &mut queue, cx, cz, cx - 1, cz);
                visit(map, surface, air, &mut visited, &mut queue, cx, cz, cx, cz + 1);
                visit(map, surface, air, &mut visited, &mut queue, cx, cz, cx, cz - 1);
                proof {
                    assert(settled(map, visited@, cx as int, cz as int));
                    assert forall|a: int, b: int| plant_at(map, a, b) implies #[trigger] marked(
                        map,
                        visited@,
                        a,
                        b,
                    ) by {
                        assert(marked(map, marks, a, b));
                    }
                }
            },
            None => {},
        }
    }
    proof {
        assert forall|a: int, b: int| #[trigger] marked(map, visited@, a, b) implies settled(
            map,
            visited@,
            a,
            b,
        ) by {
            assert(!queued(queue@, a, b));
        }
        assert forall|a: int, b: int| map.in_bounds(a, b) implies (#[trigger] marked(
            map,
            visited@,
            a,
            b,
        ) <==> in_network(map, a, b)) by {
            if in_network(map, a, b) {
                let path = choose|path: Seq<(int, int)>| #[trigger]
                    is_feed(map, path) && path.last() == (a, b);
                lemma_closed_marks_hold_feeds(map, visited@, path);
            }
        }
    }
    visited
}

/// The cell with index `i` is the cell in column `i % width` of row
/// `i / width`, and no other.
proof fn lemma_cell_of_index(map: &GameMap, x: int, z: int)
    requires
        map.wf(),
        map.in_bounds(x, z),
    ensures
        0 <= map.index(x, z) < map.area(),
        map.index(x, z) % map.spec_width() == x,
        map.index(x, z) / map.spec_width() == z,
{
    let w = map.spec_width();
    let h = map.spec_height();
    let i = map.index(x, z);
    lemma_index_in_area(w, h, x, z);
    lemma_index_split(w, h, i);
    lemma_index_unique(w, i % w, i / w, x, z);
}

/// Recomputes, once an hour, which buildings have power.
///
/// At a tick that is no multiple of [`TICKS_PER_HOUR`] the grid stays as it
/// is. At any other the net power becomes the supply of the plants less the
/// demand of the consumers, and the powered cells become the consumers
/// where the supply covers the demand, and no cell at all where it does not.
pub fn update_power_grid(map: &GameMap, grid: &mut PowerGrid, state: &SimulationState)
    requires
        map.wf(),
    ensures
        state.time % TICKS_PER_HOUR != 0 ==> {
            &&& final(grid).powered_tiles() == old(grid).powered_tiles()
            &&& final(grid).spec_net_power() == old(grid).spec_net_power()
        },
        state.time % TICKS_PER_HOUR == 0 ==> {
            &&& final(grid).spec_net_power() == total_supply(map) - total_demand(map)
            &&& final(grid).powered_tiles() == if total_supply(map) >= total_demand(map) {
                consumers(map)
            } else {
                Set::<(int, int)>::empty()
            }
        },
{
    if state.time % TICKS_PER_HOUR != 0 {
        return ;
    }
    let visited = trace_network(map);
    let w = map.width();
    let mut supply: i32 = 0;
    let mut demand: i32 = 0;
    let mut flags: Vec<bool> = Vec::new();
    match map.layer(SURFACE) {
        Some(tiles) => {
            let n = tiles.len();
            let mut i: usize = 0;
            while i < n
                invariant
                    i <= n,
                    map.wf(),
                    w == map.spec_width(),
                    n == map.area(),
                    n == tiles@.len(),
                    n == visited@.len(),
                    tiles@ == surface_of(map),
                    map.grids().contains_key(SURFACE),
                    forall|x: int, z: int|
                        map.in_bounds(x, z) ==> (#[trigger] marked(map, visited@, x, z)
                            <==> in_network(map, x, z)),
                    flags@.len() == i,
                    supply == supply_of(tiles@.take(i as int)),
                    demand == demand_upto(map, i as int),
                    0 <= supply <= PLANT_OUTPUT * i,
                    0 <= demand <= 12 * i,
                    forall|k: int|
                        0 <= k < i ==> #[trigger] flags@[k] == is_consumer(
                            map,
                            k % (w as int),
                            k / (w as int),
                        ),
                decreases n - i,
            {
                let tile = tiles[i];
                let units = get_power_consumption(tile);
                let consumer = visited[i] && units > 0;
                proof {
                    let x = i as int % (w as int);
                    let z = i as int / (w as int);
                    lemma_index_split(map.spec_width(), map.spec_height(), i as int);
                    assert(map.in_bounds(x, z) && map.index(x, z) == i);
                    assert(marked(map, visited@, x, z) == visited@[i as int]);
                    assert(map.tile_or_empty(SURFACE, x, z) == tile);
                    lemma_consumer_in_network(map, x, z);
                    assert(consumer == is_consumer(map, x, z));
                    assert(tiles@.take(i + 1).drop_last() =~= tiles@.take(i as int));
                }
                if tile == TileType::PowerPlant {
                    supply = supply + PLANT_OUTPUT;
                }
                if consumer {
                    demand = demand + units;
                }
                flags.push(consumer);
                i = i + 1;
            }
            proof {
                assert(tiles@.take(n as int) =~= tiles@);
            }
        },
        None => {},
    }
    grid.net_power = supply - demand;
    grid.width = w;
    if supply >= demand {
        grid.powered = flags;
        proof {
            assert forall|c: (int, int)| grid.powered_tiles().contains(c) == consumers(
                map,
            ).contains(c) by {
                let (x, z) = c;
                if map.in_bounds(x, z) {
                    if map.grids().contains_key(SURFACE) {
                        lemma_cell_of_index(map, x, z);
                    }
                } else if 0 <= x < w && 0 <= z {
                    assert(z * w + x >= map.area()) by (nonlinear_arith)
                        requires
                            0 <= x,
                            z >= map.spec_height(),
                            w == map.spec_width(),
                            0 < w,
                            map.area() == map.spec_width() * map.spec_height(),
                    ;
                }
            }
            assert(grid.powered_tiles() =~= consumers(map));
        }
    } else {
        grid.powered = Vec::new();
        assert(grid.powered_tiles() =~= Set::<(int, int)>::empty());
    }
}

} // verus!
