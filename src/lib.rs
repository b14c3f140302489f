//! Procedural plant scene logic: grammar rewriting, turtle command planning,
//! mesh index bookkeeping, a streaming grid of plant cells and a
//! terrain-following search for grass blades.

pub mod mesh;
pub mod grammar;
pub mod turtle;
pub mod grid;
pub mod terrain;
pub mod plant;
