//! The zone-growth automaton.
//!
//! Each tick the automaton makes a number of trials. A trial picks a cell of
//! the surface at random; where the cell is a zone whose valve calls for a
//! change of stage, the change happens with a chance that grows with the
//! growth rate. An undeveloped zone develops only with a road nearby.
//!
//! What a tick does to the surface is stated over the sequence of its
//! trials: [`after_trials`] replays them one by one.

use crate::chunk::{chunk_containing, chunk_of, ChunkUpdateEvent};
use crate::map::{lemma_index_in_area, GameMap, SURFACE};
use crate::random::{draw_below, draw_ratio};
use crate::simulation::{surface_of, SimulationState};
use crate::tile::{TileType, ZoneFamily};
use vstd::prelude::*;

verus! {

/// How far, in cells along either axis, a road may be from a zone that develops.
pub const ROAD_RADIUS: i32 = 3;

/// Growth rate, in thousandths, for one trial each tick.
pub const RATE_PER_TRIAL: u32 = 10;

/// Growth rate, in thousandths, from which an undeveloped zone is sure to develop.
pub const SURE_DEVELOPMENT: u32 = 10_000;

/// Growth rate, in thousandths, from which a building is sure to change stage.
pub const SURE_STEP: u32 = 20_000;

/// Whether `(x, z)` is a cell of a `w` by `h` grid that holds a road.
pub open spec fn road_at(tiles: Seq<TileType>, w: int, h: int, x: int, z: int) -> bool {
    &&& 0 <= x < w
    &&& 0 <= z < h
    &&& 0 <= z * w + x < tiles.len()
    &&& tiles[z * w + x] == TileType::Road
}

/// Whether some cell other than `(x, z)` itself, at most [`ROAD_RADIUS`]
/// columns and [`ROAD_RADIUS`] rows away, holds a road.
pub open spec fn road_near(tiles: Seq<TileType>, w: int, h: int, x: int, z: int) -> bool {
    exists|nx: int, nz: int|
        x - ROAD_RADIUS <= nx <= x + ROAD_RADIUS && z - ROAD_RADIUS <= nz <= z + ROAD_RADIUS && !(nx
            == x && nz == z) && #[trigger] road_at(tiles, w, h, nx, nz)
}

/// The valve that governs a family.
pub open spec fn valve_of(state: SimulationState, family: ZoneFamily) -> int {
    match family {
        ZoneFamily::Residential => state.r_valve as int,
        ZoneFamily::Commercial => state.c_valve as int,
        ZoneFamily::Industrial => state.i_valve as int,
    }
}

/// The tile that `tile` is about to become, if any, under a valve.
///
/// An undeveloped zone develops where the valve is positive and a road is
/// near. A building of stage 1 or 2 grows where the valve is above 500 or
/// 1000; failing that it shrinks where the valve is below -500 or 0. A
/// building of stage 3 shrinks where the valve is below 500. Growth is
/// looked at before shrinking.
pub open spec fn growth_target(tile: TileType, valve: int, road_is_near: bool) -> Option<
    TileType,
> {
    match tile.zone() {
        Some((family, stage)) => {
            if stage == 0 {
                if valve > 0 && road_is_near {
                    Some(TileType::of_zone(family, 1))
                } else {
                    None
                }
            } else if stage == 1 {
                if valve > 500 {
                    Some(TileType::of_zone(family, 2))
                } else if valve < -500 {
                    Some(TileType::of_zone(family, 0))
                } else {
                    None
                }
            } else if stage == 2 {
                if valve > 1000 {
                    Some(TileType::of_zone(family, 3))
                } else if valve < 0 {
                    Some(TileType::of_zone(family, 1))
                } else {
                    None
                }
            } else {
                if valve < 500 {
                    Some(TileType::of_zone(family, 2))
                } else {
                    None
                }
            }
        },
        None => None,
    }
}

/// The chance, as numerator and denominator, with which a pending change of
/// `tile` happens: a tenth of the growth rate for an undeveloped zone, a
/// twentieth for a building, and never more than 1.
pub open spec fn growth_chance(growth_rate: u32, tile: TileType) -> (int, int) {
    let sure = if tile.is_building() {
        SURE_STEP as int
    } else {
        SURE_DEVELOPMENT as int
    };
    (
        if growth_rate < sure {
            growth_rate as int
        } else {
            sure
        },
        sure,
    )
}

/// Trials in one tick: a hundred times the growth rate, rounded down.
pub open spec fn trials_per_tick(growth_rate: u32) -> int {
    growth_rate as int / (RATE_PER_TRIAL as int)
}

/// One trial: the cell that was picked, and whether the draw for the
/// pending change succeeded.
pub struct Trial {
    pub x: int,
    pub z: int,
    pub lucky: bool,
}

/// The change that is pending at `(x, z)` of a surface, if any.
pub open spec fn pending(
    tiles: Seq<TileType>,
    w: int,
    h: int,
    state: SimulationState,
    x: int,
    z: int,
) -> Option<TileType> {
    let tile = tiles[z * w + x];
    match tile.zone() {
        Some((family, _)) => growth_target(
            tile,
            valve_of(state, family),
            road_near(tiles, w, h, x, z),
        ),
        None => None,
    }
}

/// Whether a trial changes the surface.
pub open spec fn trial_changes(
    tiles: Seq<TileType>,
    w: int,
    h: int,
    state: SimulationState,
    t: Trial,
) -> bool {
    t.lucky && pending(tiles, w, h, state, t.x, t.z).is_some()
}

/// The surface after one trial.
pub open spec fn after_trial(
    tiles: Seq<TileType>,
    w: int,
    h: int,
    state: SimulationState,
    t: Trial,
) -> Seq<TileType> {
    if trial_changes(tiles, w, h, state, t) {
        tiles.update(t.z * w + t.x, pending(tiles, w, h, state, t.x, t.z).unwrap())
    } else {
        tiles
    }
}

/// Whether a trial can come about on a surface: its cell lies on the map,
/// and its draw is one that the chance allows. A draw fails where nothing
/// is pending and succeeds where the chance is 1.
pub open spec fn trial_allowed(
    tiles: Seq<TileType>,
    w: int,
    h: int,
    state: SimulationState,
    t: Trial,
) -> bool {
    &&& 0 <= t.x < w
    &&& 0 <= t.z < h
    &&& match pending(tiles, w, h, state, t.x, t.z) {
        Some(_) => {
            let chance = growth_chance(state.growth_rate, tiles[t.z * w + t.x]);
            (chance.0 == chance.1 ==> t.lucky) && (chance.0 == 0 ==> !t.lucky)
        },
        None => !t.lucky,
    }
}

/// The surface after a sequence of trials, made in order.
pub open spec fn after_trials(
    tiles: Seq<TileType>,
    w: int,
    h: int,
    state: SimulationState,
    trials: Seq<Trial>,
) -> Seq<TileType>
    decreases trials.len(),
{
    if trials.len() == 0 {
        tiles
    } else {
        after_trial(after_trials(tiles, w, h, state, trials.drop_last()), w, h, state, trials.last())
    }
}

/// Whether each trial of a sequence can come about on the surface that the
/// trials before it leave.
pub open spec fn trials_allowed(
    tiles: Seq<TileType>,
    w: int,
    h: int,
    state: SimulationState,
    trials: Seq<Trial>,
) -> bool
    decreases trials.len(),
{
    trials.len() == 0 || (trials_allowed(tiles, w, h, state, trials.drop_last()) && trial_allowed(
        after_trials(tiles, w, h, state, trials.drop_last()),
        w,
        h,
        state,
        trials.last(),
    ))
}

/// The notifications that a sequence of trials raises: one for each trial
/// that changes the surface, in order, naming the chunk of its cell.
pub open spec fn events_of(
    tiles: Seq<TileType>,
    w: int,
    h: int,
    state: SimulationState,
    trials: Seq<Trial>,
) -> Seq<ChunkUpdateEvent>
    decreases trials.len(),
{
    if trials.len() == 0 {
        Seq::empty()
    } else {
        let earlier = events_of(tiles, w, h, state, trials.drop_last());
        let t = trials.last();
        if trial_changes(after_trials(tiles, w, h, state, trials.drop_last()), w, h, state, t) {
            earlier.push(chunk_containing(t.x, t.z))
        } else {
            earlier
        }
    }
}

/// Whether two surfaces have roads on the same cells.
pub open spec fn same_roads(a: Seq<TileType>, b: Seq<TileType>) -> bool {
    &&& a.len() == b.len()
    &&& forall|i: int|
        0 <= i < a.len() ==> ((#[trigger] a[i] == TileType::Road) <==> (b[i] == TileType::Road))
}

/// Whether `b` holds, on every cell, a tile of the family that `a` holds
/// there, and the very tile of `a` where that is no zone.
pub open spec fn same_families(a: Seq<TileType>, b: Seq<TileType>) -> bool {
    &&& a.len() == b.len()
    &&& forall|i: int|
        0 <= i < a.len() ==> match (#[trigger] a[i]).zone() {
            Some((family, _)) => b[i].zone().is_some() && b[i].zone().unwrap().0 == family,
            None => b[i] == a[i],
        }
}

/// Surfaces with the same roads have a road near the same cells.
pub proof fn lemma_same_roads_near(
    a: Seq<TileType>,
    b: Seq<TileType>,
    w: int,
    h: int,
    x: int,
    z: int,
)
    requires
        same_roads(a, b),
    ensures
        road_near(a, w, h, x, z) == road_near(b, w, h, x, z),
{
    if road_near(a, w, h, x, z) {
        let (nx, nz) = choose|nx: int, nz: int|
            x - ROAD_RADIUS <= nx <= x + ROAD_RADIUS && z - ROAD_RADIUS <= nz <= z + ROAD_RADIUS
                && !(nx == x && nz == z) && #[trigger] road_at(a, w, h, nx, nz);
        assert(a[nz * w + nx] == TileType::Road);
        assert(road_at(b, w, h, nx, nz));
    }
    if road_near(b, w, h, x, z) {
        let (nx, nz) = choose|nx: int, nz: int|
            x - ROAD_RADIUS <= nx <= x + ROAD_RADIUS && z - ROAD_RADIUS <= nz <= z + ROAD_RADIUS
                && !(nx == x && nz == z) && #[trigger] road_at(b, w, h, nx, nz);
        assert(a[nz * w + nx] == TileType::Road <==> b[nz * w + nx] == TileType::Road);
        assert(road_at(a, w, h, nx, nz));
    }
}

/// A pending change leads to another stage of the same family.
pub proof fn lemma_target_in_family(tile: TileType, valve: int, road_is_near: bool)
    ensures
        match growth_target(tile, valve, road_is_near) {
            Some(target) => tile.zone().is_some() && target.zone().is_some()
                && target.zone().unwrap().0 == tile.zone().unwrap().0 && target != tile && (
            target.zone().unwrap().1 == tile.zone().unwrap().1 + 1 || target.zone().unwrap().1 + 1
                == tile.zone().unwrap().1),
            None => true,
        },
{
}

/// Growth comes before shrinking: a building of stage 1 or 2 whose valve is
/// above its growth threshold is about to grow by one stage, whatever else
/// holds of the valve.
pub proof fn lemma_growth_first(tile: TileType, valve: int, road_is_near: bool)
    requires
        tile.zone().is_some(),
        (tile.zone().unwrap().1 == 1 && valve > 500) || (tile.zone().unwrap().1 == 2 && valve
            > 1000),
    ensures
        growth_target(tile, valve, road_is_near) == Some(
            TileType::of_zone(tile.zone().unwrap().0, tile.zone().unwrap().1 + 1),
        ),
{
}

/// Trials keep the size of the surface, its roads, the family of every
/// zone, and every tile that is no zone.
pub proof fn lemma_trials_keep(
    tiles: Seq<TileType>,
    w: int,
    h: int,
    state: SimulationState,
    trials: Seq<Trial>,
)
    requires
        0 < w,
        0 < h,
        tiles.len() == w * h,
        trials_allowed(tiles, w, h, state, trials),
    ensures
        same_roads(tiles, after_trials(tiles, w, h, state, trials)),
        same_families(tiles, after_trials(tiles, w, h, state, trials)),
    decreases trials.len(),
{
    if trials.len() > 0 {
        let earlier = trials.drop_last();
        let t = trials.last();
        lemma_trials_keep(tiles, w, h, state, earlier);
        let before = after_trials(tiles, w, h, state, earlier);
        let after = after_trial(before, w, h, state, t);
        lemma_index_in_area(w, h, t.x, t.z);
        let cell = t.z * w + t.x;
        if trial_changes(before, w, h, state, t) {
            let family = before[cell].zone().unwrap().0;
            lemma_target_in_family(
                before[cell],
                valve_of(state, family),
                road_near(before, w, h, t.x, t.z),
            );
            assert(tiles[cell].zone().is_some());
        }
        assert forall|i: int| 0 <= i < tiles.len() implies ((#[trigger] tiles[i] == TileType::Road)
            <==> (after[i] == TileType::Road)) by {
            assert(tiles[i] == TileType::Road <==> before[i] == TileType::Road);
        }
        assert forall|i: int| 0 <= i < tiles.len() implies match (#[trigger] tiles[i]).zone() {
            Some((family, _)) => after[i].zone().is_some() && after[i].zone().unwrap().0 == family,
            None => after[i] == tiles[i],
        } by {
            assert(match tiles[i].zone() {
                Some((family, _)) => before[i].zone().is_some() && before[i].zone().unwrap().0
                    == family,
                None => before[i] == tiles[i],
            });
        }
    }
}

/// An undeveloped zone without a road nearby stays undeveloped, whatever
/// trials are made and however their draws fall.
pub proof fn lemma_no_road_no_growth(
    tiles: Seq<TileType>,
    w: int,
    h: int,
    state: SimulationState,
    trials: Seq<Trial>,
    x: int,
    z: int,
)
    requires
        0 <= x < w,
        0 <= z < h,
        tiles.len() == w * h,
        trials_allowed(tiles, w, h, state, trials),
        tiles[z * w + x].zone().is_some(),
        tiles[z * w + x].zone().unwrap().1 == 0,
        !road_near(tiles, w, h, x, z),
    ensures
        after_trials(tiles, w, h, state, trials)[z * w + x] == tiles[z * w + x],
    decreases trials.len(),
{
    if trials.len() > 0 {
        let earlier = trials.drop_last();
        let t = trials.last();
        lemma_no_road_no_growth(tiles, w, h, state, earlier, x, z);
        lemma_trials_keep(tiles, w, h, state, earlier);
        let before = after_trials(tiles, w, h, state, earlier);
        lemma_same_roads_near(tiles, before, w, h, x, z);
        lemma_index_in_area(w, h, x, z);
        lemma_index_in_area(w, h, t.x, t.z);
        if t.z * w + t.x == z * w + x {
            crate::map::lemma_index_unique(w, t.x, t.z, x, z);
            assert(pending(before, w, h, state, x, z).is_none());
        }
    }
}

/// Whether a road lies within [`ROAD_RADIUS`] columns and rows of `(x, y)`
/// on a grid of `w` by `h` cells, the cell itself left out.
pub fn has_road_neighbor(tiles: &[TileType], w: i32, h: i32, x: i32, y: i32) -> (found: bool)
    requires
        tiles@.len() == w * h,
    ensures
        found == road_near(tiles@, w as int, h as int, x as int, y as int),
{
    let cells = tiles.len();
    let mut dy: i64 = -3;
    while dy <= 3
        invariant
            -3 <= dy <= 4,
            tiles@.len() == w * h,
            cells == tiles@.len(),
            forall|nx: int, nz: int|
                x - 3 <= nx <= x + 3 && y - 3 <= nz < y + dy && !(nx == x && nz == y)
                    ==> !#[trigger] road_at(tiles@, w as int, h as int, nx, nz),
        decreases 4 - dy,
    {
        let mut dx: i64 = -3;
        while dx <= 3
            invariant
                -3 <= dx <= 4,
                -3 <= dy <= 3,
                tiles@.len() == w * h,
                cells == tiles@.len(),
                forall|nx: int, nz: int|
                    x - 3 <= nx <= x + 3 && y - 3 <= nz < y + dy && !(nx == x && nz == y)
                        ==> !#[trigger] road_at(tiles@, w as int, h as int, nx, nz),
                forall|nx: int|
                    x - 3 <= nx < x + dx && !(nx == x && dy == 0) ==> !#[trigger] road_at(
                        tiles@,
                        w as int,
                        h as int,
                        nx,
                        y + dy,
                    ),
            decreases 4 - dx,
        {
            if !(dx == 0 && dy == 0) {
                let nx: i64 = x as i64 + dx;
                let ny: i64 = y as i64 + dy;
                if nx >= 0 && nx < w as i64 && ny >= 0 && ny < h as i64 {
                    proof {
                        lemma_index_in_area(w as int, h as int, nx as int, ny as int);
                    }
                    let idx: usize = (ny as usize) * (w as usize) + (nx as usize);
                    if tiles[idx] == TileType::Road {
                        assert(road_at(tiles@, w as int, h as int, nx as int, ny as int));
                        return true;
                    }
                }
            }
            dx = dx + 1;
        }
        dy = dy + 1;
    }
    false
}

/// The valve that governs a family.
pub fn family_valve(state: &SimulationState, family: ZoneFamily) -> (valve: i16)
    ensures
        valve == valve_of(*state, family),
{
    match family {
        ZoneFamily::Residential => state.r_valve,
        ZoneFamily::Commercial => state.c_valve,
        ZoneFamily::Industrial => state.i_valve,
    }
}

/// The change that is pending at `(x, z)` of the surface, with the chance
/// of its happening as numerator and denominator. `None` where nothing is
/// pending: the cell is off the map, the map has no surface, the tile is no
/// zone, or the valve does not call for a change.
pub fn pending_transition(map: &GameMap, state: &SimulationState, x: i32, z: i32) -> (r: Option<
    (TileType, u32, u32),
>)
    requires
        map.wf(),
    ensures
        match r {
            Some((target, numerator, denominator)) => {
                &&& map.in_bounds(x as int, z as int)
                &&& map.grids().contains_key(SURFACE)
                &&& pending(
                    surface_of(map),
                    map.spec_width(),
                    map.spec_height(),
                    *state,
                    x as int,
                    z as int,
                ) == Some(target)
                &&& (numerator as int, denominator as int) == growth_chance(
                    state.growth_rate,
                    surface_of(map)[map.index(x as int, z as int)],
                )
                &&& numerator <= denominator
                &&& 0 < denominator
            },
            None => !map.in_bounds(x as int, z as int) || !map.grids().contains_key(SURFACE)
                || pending(
                surface_of(map),
                map.spec_width(),
                map.spec_height(),
                *state,
                x as int,
                z as int,
            ).is_none(),
        },
{
    if !map.contains(x, z) {
        return None;
    }
    let tiles = match map.layer(SURFACE) {
        Some(tiles) => tiles,
        None => {
            return None;
        },
    };
    proof {
        map.lemma_sides_fit();
    }
    let tile = tiles[map.index_of(x, z)];
    let (family, stage) = match tile.decompose() {
        Some(zone) => zone,
        None => {
            return None;
        },
    };
    let valve = family_valve(state, family);
    let target_stage: u8 = if stage == 0 {
        if valve > 0 && has_road_neighbor(
            tiles.as_slice(),
            map.width() as i32,
            map.height() as i32,
            x,
            z,
        ) {
            1
        } else {
            return None;
        }
    } else if stage == 1 {
        if valve > 500 {
            2
        } else if valve < -500 {
            0
        } else {
            return None;
        }
    } else if stage == 2 {
        if valve > 1000 {
            3
        } else if valve < 0 {
            1
        } else {
            return None;
        }
    } else {
        if valve < 500 {
            2
        } else {
            return None;
        }
    };
    let sure: u32 = if stage == 0 {
        SURE_DEVELOPMENT
    } else {
        SURE_STEP
    };
    let numerator: u32 = if state.growth_rate < sure {
        state.growth_rate
    } else {
        sure
    };
    Some((TileType::compose(family, target_stage), numerator, sure))
}

/// Ends a trial at the cell `(x, z)` of the surface whose pending change
/// leads to `target`. Where the draw was lucky and the cell holds another
/// tile than `target`, the cell becomes `target` and the chunk of the cell
/// is to be notified. Otherwise nothing happens: the draw failed, the cell
/// lies off the map, the map has no surface, or `target` is there already.
pub fn zone_trial(map: &mut GameMap, x: i32, z: i32, target: TileType, lucky: bool) -> (event:
    Option<ChunkUpdateEvent>)
    requires
        old(map).wf(),
    ensures
        final(map).wf(),
        final(map).spec_width() == old(map).spec_width(),
        final(map).spec_height() == old(map).spec_height(),
        event.is_some() == (lucky && old(map).tile_at(SURFACE, x as int, z as int).is_some() && old(
            map,
        ).tile_at(SURFACE, x as int, z as int) != Some(target)),
        event.is_some() ==> event == Some(chunk_containing(x as int, z as int)),
        event.is_some() ==> final(map).grids() == old(map).grids().insert(
            SURFACE,
            surface_of(old(map)).update(old(map).index(x as int, z as int), target),
        ),
        event.is_none() ==> final(map).grids() == old(map).grids(),
{
    if lucky {
        if map.set(SURFACE, x, z, target) {
            return Some(chunk_of(x, z));
        }
        proof {
            if old(map).tile_at(SURFACE, x as int, z as int).is_some() {
                let tiles = old(map).grids()[SURFACE];
                lemma_index_in_area(
                    old(map).spec_width(),
                    old(map).spec_height(),
                    x as int,
                    z as int,
                );
                assert(tiles.update(old(map).index(x as int, z as int), target) =~= tiles);
                assert(old(map).grids().insert(SURFACE, tiles) =~= old(map).grids());
            }
        }
    }
    None
}

/// Makes the trials of one tick on the surface of `map` and returns the
/// notifications for the chunks whose cells changed, one for each change.
///
/// The cells and the draws are random. Whatever they are, the surface
/// afterwards is the one that some allowed sequence of
/// [`trials_per_tick`] trials leaves, and the notifications are those of
/// that sequence. A map without a surface stays as it is.
pub fn update_zones(map: &mut GameMap, state: &SimulationState) -> (events: Vec<ChunkUpdateEvent>)
    requires
        old(map).wf(),
    ensures
        final(map).wf(),
        final(map).spec_width() == old(map).spec_width(),
        final(map).spec_height() == old(map).spec_height(),
        !old(map).grids().contains_key(SURFACE) || trials_per_tick(state.growth_rate) == 0
            ==> final(map).grids() == old(map).grids() && events@.len() == 0,
        old(map).grids().contains_key(SURFACE) ==> exists|trials: Seq<Trial>|
            {
                &&& trials.len() == trials_per_tick(state.growth_rate)
                &&& trials_allowed(
                    surface_of(old(map)),
                    old(map).spec_width(),
                    old(map).spec_height(),
                    *state,
                    trials,
                )
                &&& final(map).grids() == old(map).grids().insert(
                    SURFACE,
                    #[trigger] after_trials(
                        surface_of(old(map)),
                        old(map).spec_width(),
                        old(map).spec_height(),
                        *state,
                        trials,
                    ),
                )
                &&& events@ == events_of(
                    surface_of(old(map)),
                    old(map).spec_width(),
                    old(map).spec_height(),
                    *state,
                    trials,
                )
            },
        same_roads(surface_of(old(map)), surface_of(final(map))),
        same_families(surface_of(old(map)), surface_of(final(map))),
        forall|x: int, z: int|
            old(map).in_bounds(x, z) && !road_near(
                surface_of(old(map)),
                old(map).spec_width(),
                old(map).spec_height(),
                x,
                z,
            ) && (#[trigger] old(map).tile_or_empty(SURFACE, x, z)).zone().is_some() && old(
                map,
            ).tile_or_empty(SURFACE, x, z).zone().unwrap().1 == 0 ==> final(map).tile_or_empty(
                SURFACE,
                x,
                z,
            ) == old(map).tile_or_empty(SURFACE, x, z),
{
    let mut events: Vec<ChunkUpdateEvent> = Vec::new();
    if map.layer(SURFACE).is_none() {
        return events;
    }
    let w = map.width();
    let h = map.height();
    let loops: u32 = state.growth_rate / RATE_PER_TRIAL;
    let mut rng = rand::thread_rng();
    let ghost start = surface_of(map);
    let ghost mut trace: Seq<Trial> = Seq::empty();
    proof {
        assert(map.grids().insert(SURFACE, start) =~= map.grids());
    }
    let mut k: u32 = 0;
    while k < loops
        invariant
            k <= loops,
            loops == trials_per_tick(state.growth_rate),
            map.wf(),
            w == map.spec_width(),
            h == map.spec_height(),
            map.spec_width() == old(map).spec_width(),
            map.spec_height() == old(map).spec_height(),
            old(map).grids().contains_key(SURFACE),
            start == surface_of(old(map)),
            trace.len() == k,
            trials_allowed(start, w as int, h as int, *state, trace),
            map.grids() == old(map).grids().insert(
                SURFACE,
                after_trials(start, w as int, h as int, *state, trace),
            ),
            events@ == events_of(start, w as int, h as int, *state, trace),
        decreases loops - k,
    {
        proof {
            map.lemma_sides_fit();
        }
        let x = draw_below(&mut rng, w) as i32;
        let z = draw_below(&mut rng, h) as i32;
        let ghost before = after_trials(start, w as int, h as int, *state, trace);
        assert(surface_of(map) == before);
        let lucky = match pending_transition(map, state, x, z) {
            Some((target, numerator, denominator)) => {
                let lucky = draw_ratio(&mut rng, numerator, denominator);
                proof {
                    lemma_index_in_area(w as int, h as int, x as int, z as int);
                    let family = before[map.index(x as int, z as int)].zone().unwrap().0;
                    lemma_target_in_family(
                        before[map.index(x as int, z as int)],
                        valve_of(*state, family),
                        road_near(before, w as int, h as int, x as int, z as int),
                    );
                }
                match zone_trial(map, x, z, target, lucky) {
                    Some(event) => {
                        events.push(event);
                    },
                    None => {},
                }
                lucky
            },
            None => false,
        };
        proof {
            let t = Trial { x: x as int, z: z as int, lucky };
            let longer = trace.push(t);
            assert(longer.drop_last() =~= trace);
            assert(longer.last() == t);
            assert(trial_allowed(before, w as int, h as int, *state, t));
            assert(trials_allowed(start, w as int, h as int, *state, longer));
            assert(map.grids() =~= old(map).grids().insert(
                SURFACE,
                after_trial(before, w as int, h as int, *state, t),
            ));
            trace = longer;
        }
        k = k + 1;
    }
    proof {
        lemma_trials_keep(start, w as int, h as int, *state, trace);
        assert forall|x: int, z: int|
            old(map).in_bounds(x, z) && !road_near(start, w as int, h as int, x, z) && (
            #[trigger] old(map).tile_or_empty(SURFACE, x, z)).zone().is_some() && old(
                map,
            ).tile_or_empty(SURFACE, x, z).zone().unwrap().1 == 0 implies map.tile_or_empty(
            SURFACE,
            x,
            z,
        ) == old(map).tile_or_empty(SURFACE, x, z) by {
            lemma_no_road_no_growth(start, w as int, h as int, *state, trace, x, z);
        }
    }
    events
}

} // verus!
