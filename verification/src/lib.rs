//! A grid-based settlement simulation.
//!
//! The world is a layered grid of tiles ([`map`], [`tile`]). Each tick of
//! the clock ([`clock`]) a census counts people and jobs, the demand valves
//! are set from the count ([`simulation`]), zones grow and shrink at random
//! under those valves ([`growth`], [`random`]), and the power network is
//! traced from the plants to find the buildings that have power
//! ([`power`]). Between ticks the editing tools change tiles ([`tools`]) and
//! the inspector reads them ([`inspect`]). Whatever changes a tile names the
//! chunk in which the tile lies ([`chunk`]).

pub mod chunk;
pub mod clock;
pub mod growth;
pub mod inspect;
pub mod map;
pub mod power;
pub mod random;
pub mod simulation;
pub mod tile;
pub mod tools;

pub use crate::map::GameMap;
