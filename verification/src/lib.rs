//! Conway's Game of Life on a bounded square board, with the controls of an
//! interactive front end: a pause switch, fixed-rate ticks and cell editing
//! by pointer clicks.
//!
//! The crate holds no rendering or input code. A front end hands it plain
//! events (a tick, a key press, a click at a world point) and reads back
//! which cells are alive.

pub mod automaton;
pub mod cells;
pub mod grid;
pub mod simulation;

pub use automaton::{automaton_step, count_neighbours, next_state};
pub use cells::CellSet;
pub use simulation::{Simulation, SimulationState};

pub use grid::{
    build_grid, cell_at, in_grid, within_grid, CellPlacement, Coord, Grid, Position, WorldPoint,
    CELL_PADDING, GRID_SIZE, MAX_GRID_SIZE,
};
