//! Logic core of a grid-based mine puzzle: a rectangular board of tiles,
//! difficulty-driven sizing, a pixel-to-tile lookup, the end-of-game
//! mine-reveal pass, and the top-level game state machine.
//!
//! Rendering, windowing, asset loading and raw input capture are outside
//! collaborators: they hand this core already-decoded events (clicks at a
//! pixel position, a difficulty selection, an "assets ready" signal) and
//! read back tile states for display.

pub mod difficulty;
pub mod game;
pub mod grid;
pub mod grid_size;
pub mod reveal_engine;
pub mod state_machine;
pub mod tile;
