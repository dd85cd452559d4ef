//! The simulation's scalar state, the demand valves and the census.
//!
//! One tick is fifteen simulated minutes. The growth rate is a fixed-point
//! number in thousandths: [`GROWTH_UNIT`] stands for 1.0.

use crate::clock::TICKS_PER_DAY;
use crate::map::{GameMap, MAX_TILES, SURFACE};
use crate::tile::{census_weight, residents, workplaces, TileType};
use vstd::prelude::*;

pub use crate::growth::{has_road_neighbor, update_zones};
pub use crate::power::{update_power_grid, PowerGrid};
pub use crate::tile::{get_power_consumption, is_conductor};

verus! {

/// The growth rate that stands for 1.0.
pub const GROWTH_UNIT: u32 = 1000;

/// The largest and, negated, the smallest value of a valve.
pub const VALVE_LIMIT: i16 = 2000;

/// The valve of a category that is oversupplied.
pub const VALVE_DISCOURAGED: i16 = -500;

/// The scalars of a running simulation.
#[derive(Debug, Clone, Copy, PartialEq, Eq, Structural)]
pub struct SimulationState {
    /// Ticks since the start.
    pub time: u64,
    /// Residential demand, from -2000 to 2000.
    pub r_valve: i16,
    /// Commercial demand.
    pub c_valve: i16,
    /// Industrial demand.
    pub i_valve: i16,
    pub total_pop: u32,
    pub num_jobs: u32,
    /// Growth multiplier in thousandths.
    pub growth_rate: u32,
}

impl Default for SimulationState {
    fn default() -> (s: SimulationState)
        ensures
            s == (SimulationState {
                time: 0,
                r_valve: 0,
                c_valve: 0,
                i_valve: 0,
                total_pop: 0,
                num_jobs: 0,
                growth_rate: GROWTH_UNIT,
            }),
    {
        SimulationState {
            time: 0,
            r_valve: 0,
            c_valve: 0,
            i_valve: 0,
            total_pop: 0,
            num_jobs: 0,
            growth_rate: GROWTH_UNIT,
        }
    }
}

/// `v` held between `low` and `high`.
pub open spec fn clamp(v: int, low: int, high: int) -> int {
    if v < low {
        low
    } else if v > high {
        high
    } else {
        v
    }
}

/// The residential, commercial and industrial valves that a population and
/// a number of jobs call for.
///
/// With nobody and no job, only homes are wanted, at full demand. With more
/// jobs than people, homes are wanted in proportion to the surplus, and
/// commerce and industry are discouraged. Otherwise homes are discouraged,
/// and commerce and industry are wanted in proportion to the share of people
/// without a job. A ratio of jobs to people counts as 1 where there are no
/// people. Quotients are rounded towards zero.
pub open spec fn demand_valves(population: int, jobs: int) -> (int, int, int) {
    if population == 0 && jobs == 0 {
        (VALVE_LIMIT as int, 0, 0)
    } else if population > 0 && jobs > population {
        (
            clamp(
                (jobs - population) * 2000 / population,
                -(VALVE_LIMIT as int),
                VALVE_LIMIT as int,
            ),
            VALVE_DISCOURAGED as int,
            VALVE_DISCOURAGED as int,
        )
    } else {
        let wanted = if population > 0 {
            clamp(
                (population - jobs) * 1500 / population,
                -(VALVE_LIMIT as int),
                VALVE_LIMIT as int,
            )
        } else {
            0
        };
        (VALVE_DISCOURAGED as int, wanted, wanted)
    }
}

/// People counted on a sequence of tiles.
pub open spec fn population_of(tiles: Seq<TileType>) -> int
    decreases tiles.len(),
{
    if tiles.len() == 0 {
        0
    } else {
        population_of(tiles.drop_last()) + residents(tiles.last())
    }
}

/// Jobs counted on a sequence of tiles.
pub open spec fn jobs_of(tiles: Seq<TileType>) -> int
    decreases tiles.len(),
{
    if tiles.len() == 0 {
        0
    } else {
        jobs_of(tiles.drop_last()) + workplaces(tiles.last())
    }
}

/// The surface of a map, or no tile at all where it has no surface.
pub open spec fn surface_of(map: &GameMap) -> Seq<TileType> {
    if map.grids().contains_key(SURFACE) {
        map.grids()[SURFACE]
    } else {
        Seq::empty()
    }
}

/// A census counts at most 24 people and 24 jobs for each tile.
pub proof fn lemma_census_bounds(tiles: Seq<TileType>)
    ensures
        0 <= population_of(tiles) <= 24 * tiles.len(),
        0 <= jobs_of(tiles) <= 24 * tiles.len(),
    decreases tiles.len(),
{
    if tiles.len() > 0 {
        lemma_census_bounds(tiles.drop_last());
    }
}

/// More jobs than people draw people in, and no more jobs than people keep
/// them out: with more jobs the residential valve is not negative, and it
/// is positive once the surplus of jobs, times 2000, reaches the
/// population; with no more jobs than people it is negative, and commerce
/// and industry are not discouraged.
pub proof fn lemma_valves_turn_at_balance(population: int, jobs: int)
    requires
        population > 0,
        jobs >= 0,
    ensures
        jobs > population ==> demand_valves(population, jobs).0 >= 0 && demand_valves(
            population,
            jobs,
        ).1 < 0 && demand_valves(population, jobs).2 < 0,
        jobs > population && (jobs - population) * 2000 >= population ==> demand_valves(
            population,
            jobs,
        ).0 > 0,
        jobs <= population ==> demand_valves(population, jobs).0 < 0 && demand_valves(
            population,
            jobs,
        ).1 >= 0 && demand_valves(population, jobs).2 >= 0,
{
    if jobs > population {
        let surplus = (jobs - population) * 2000;
        assert(surplus / population >= 0) by (nonlinear_arith)
            requires
                surplus >= 0,
                population > 0,
        ;
        if surplus >= population {
            assert(surplus / population >= 1) by (nonlinear_arith)
                requires
                    surplus >= population,
                    population > 0,
            ;
        }
    } else {
        let idle = (population - jobs) * 1500;
        assert(idle / population >= 0) by (nonlinear_arith)
            requires
                idle >= 0,
                population > 0,
        ;
    }
}

/// Advances the clock by one tick.
pub fn simulation_tick(state: &mut SimulationState)
    requires
        old(state).time < u64::MAX,
    ensures
        *final(state) == (SimulationState { time: (old(state).time + 1) as u64, ..*old(state) }),
{
    state.time = state.time + 1;
}

/// Sets the three valves from the population and the jobs in `state`.
pub fn update_valves(state: &mut SimulationState)
    ensures
        final(state).r_valve == demand_valves(
            old(state).total_pop as int,
            old(state).num_jobs as int,
        ).0,
        final(state).c_valve == demand_valves(
            old(state).total_pop as int,
            old(state).num_jobs as int,
        ).1,
        final(state).i_valve == demand_valves(
            old(state).total_pop as int,
            old(state).num_jobs as int,
        ).2,
        final(state).time == old(state).time,
        final(state).total_pop == old(state).total_pop,
        final(state).num_jobs == old(state).num_jobs,
        final(state).growth_rate == old(state).growth_rate,
        -VALVE_LIMIT <= final(state).r_valve <= VALVE_LIMIT,
        -VALVE_LIMIT <= final(state).c_valve <= VALVE_LIMIT,
        -VALVE_LIMIT <= final(state).i_valve <= VALVE_LIMIT,
{
    let population: u64 = state.total_pop as u64;
    let jobs: u64 = state.num_jobs as u64;
    if population == 0 && jobs == 0 {
        state.r_valve = VALVE_LIMIT;
        state.c_valve = 0;
        state.i_valve = 0;
    } else if population > 0 && jobs > population {
        let surplus: u64 = (jobs - population) * 2000 / population;
        state.r_valve = if surplus > 2000 {
            VALVE_LIMIT
        } else {
            surplus as i16
        };
        state.c_valve = VALVE_DISCOURAGED;
        state.i_valve = VALVE_DISCOURAGED;
    } else {
        let wanted: i16 = if population > 0 {
            let idle: u64 = (population - jobs) * 1500 / population;
            assert(idle <= 1500) by (nonlinear_arith)
                requires
                    idle == ((population - jobs) * 1500) / (population as int),
                    0 < population,
                    0 <= jobs <= population,
            ;
            idle as i16
        } else {
            0
        };
        state.r_valve = VALVE_DISCOURAGED;
        state.c_valve = wanted;
        state.i_valve = wanted;
    }
}

/// Counts people and jobs on the surface once a day: when the clock is at a
/// multiple of [`TICKS_PER_DAY`], the population and the jobs in `state`
/// become those of the map; at any other time nothing changes.
pub fn census_system(map: &GameMap, state: &mut SimulationState)
    requires
        map.wf(),
    ensures
        old(state).time % TICKS_PER_DAY != 0 ==> *final(state) == *old(state),
        old(state).time % TICKS_PER_DAY == 0 ==> final(state).total_pop == population_of(
            surface_of(map),
        ) && final(state).num_jobs == jobs_of(surface_of(map)),
        final(state).time == old(state).time,
        final(state).r_valve == old(state).r_valve,
        final(state).c_valve == old(state).c_valve,
        final(state).i_valve == old(state).i_valve,
        final(state).growth_rate == old(state).growth_rate,
{
    if state.time % TICKS_PER_DAY != 0 {
        return ;
    }
    let mut population: u32 = 0;
    let mut jobs: u32 = 0;
    match map.layer(SURFACE) {
        Some(tiles) => {
            let n = tiles.len();
            let mut i: usize = 0;
            while i < n
                invariant
                    i <= n,
                    n == tiles@.len(),
                    n <= MAX_TILES,
                    population == population_of(tiles@.take(i as int)),
                    jobs == jobs_of(tiles@.take(i as int)),
                decreases n - i,
            {
                proof {
                    lemma_census_bounds(tiles@.take(i as int));
                    assert(tiles@.take(i + 1).drop_last() =~= tiles@.take(i as int));
                }
                let (people, work) = census_weight(tiles[i]);
                population = population + people;
                jobs = jobs + work;
                i = i + 1;
            }
            proof {
                assert(tiles@.take(n as int) =~= tiles@);
                lemma_census_bounds(tiles@);
            }
        },
        None => {},
    }
    state.total_pop = population;
    state.num_jobs = jobs;
}

} // verus!
