//! Cell-grid logic of a boids-style zooid game: grid geometry, spatial
//! bookkeeping of entities, fog-of-war visibility counters, obstacle maps and
//! the small state machines that drive objectives and input controls.

pub mod byte_grid;
pub mod entity_cells;
pub mod entity_set;
pub mod grid;
pub mod inputs;
pub mod objective;
pub mod team;
