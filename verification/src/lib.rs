//! Spatial tracking for a single agent moving over a uniform grid.
//!
//! All coordinates are integers in a unit of the host's choosing.

pub mod cell;
pub mod direction;
pub mod grid;
pub mod markers;
pub mod motion;
pub mod scene;
pub mod segment;
