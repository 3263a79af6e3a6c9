//! Procedural dungeon-map generation: a grid of wall/floor tiles composed of
//! non-overlapping rectangular rooms connected by L-shaped corridors, plus the
//! movement rule that the game layer consumes.

pub mod connect;
pub mod dungeon;
pub mod grid;
pub mod player;
pub mod rect;
pub mod rng;
