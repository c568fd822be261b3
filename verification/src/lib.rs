//! Core logic for a small first-person exploration game: a grid collision
//! map that constrains planar movement of a disc-shaped actor, and a
//! line-oriented script interpreter that mutates player stats and console
//! variables.
//!
//! All numeric quantities — world coordinates, stat points, cvar values —
//! are fixed-point micro-units (one world unit is `FIXED_SCALE`
//! micro-units), so that every computation is exact.

pub mod collision;
pub mod cvars;
pub mod engine;
pub mod fixed;
pub mod items;
pub mod script;
pub mod stats;
pub mod text;

pub use fixed::FIXED_SCALE;
