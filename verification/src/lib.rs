//! A verified cellular-automaton grid engine for Conway's Game of Life.
//!
//! The engine owns a toroidal two-dimensional boolean grid together with a
//! same-shaped scratch buffer. Each generation is computed by reading the
//! current buffer and writing the scratch buffer, after which the two buffers
//! exchange roles in O(1); supporting operations edit, clear, randomize,
//! resize and stamp patterns onto the grid. Rendering, windowing and input
//! handling are left to callers.

pub mod grid;
pub mod rule;
pub mod stability;
pub mod torus;

pub use grid::Grid;
pub use grid::GridError;
pub use grid::Mode;
pub use rule::next_state;
