//! A Conway's Game of Life engine on a fixed-size toroidal grid.
//!
//! The grid wraps at its edges, so every cell has exactly eight
//! neighbours. The engine exposes construction, seeding, queries of the
//! live cells, and a one-generation step (`tick`) that evaluates the
//! standard birth/survival rule against the previous generation only.

pub mod grid;
pub mod laws;

pub use grid::Cell;
pub use grid::GridModel;
pub use grid::SeedError;
pub use grid::Universe;
