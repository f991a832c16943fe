//! A two-dimensional rigid-body world: bodies held in a generational arena,
//! spring links between them, the ordered work plan of one fixed step, and the
//! control state that decides when the simulation runs and what gets spawned.

pub mod body;
pub mod control;
pub mod plan;
pub mod world;
