//! Spatial grids keyed by (row, col) cells.

pub mod spec;
pub mod grid2;
pub mod entity;
pub mod fog;
pub mod buffers;
pub mod obstacles;
pub mod navigation;
