//! Foraging ants on a toroidal hexagonal grid.
//!
//! Ants wander over a grid of hexagonal cells whose edges wrap around, pick up
//! loose items and put them down next to items of the same kind. Nothing
//! coordinates the ants: clusters of like items emerge from these local rules
//! alone.

pub mod ant;
pub mod board;
pub mod config;
pub mod grid;
pub mod interaction;
pub mod item;
pub mod laws;
pub mod model;
pub mod movement;
pub mod random;
pub mod simulation;

pub use ant::Ant;
pub use config::Config;
pub use board::{move_ant, Board, CELLS_PER_ANT, CELLS_PER_ITEM, HOPS_PER_TICK};
pub use grid::neighbors;
pub use item::{Item, ItemType};
pub use simulation::Simulation;
