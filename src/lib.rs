//! Spatial and movement core of a tile-based grid simulation: cell
//! coordinates, a dense cell index and a movement mask derived from an
//! obstacle layout.

pub mod cell;
pub mod grid;
pub mod matrix;
pub mod movement;
pub mod menu;
