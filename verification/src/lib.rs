//! Conway's Game of Life on a bounded grid, with machine-checked contracts.
//!
//! The grid has fixed edges: cells beyond the border do not exist and never
//! count as neighbours. Every generation is computed from the previous one as a
//! whole, following the classical rule (birth on three neighbours, survival on
//! two or three).

pub mod board;
pub mod cell;
pub mod config;
pub mod game;
pub mod grid;
pub mod laws;
pub mod text;

pub use board::Board;
pub use cell::{calc_new_state, unwrap_cell_state_value, Cell, State};
pub use config::{Config, ConfigError, ConfigResult};
pub use game::{get_cycle_range, CycleRange, Game};
pub use grid::Grid;
