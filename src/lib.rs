//! Autonomous explorer and miners on a procedurally generated obstacle grid.
pub mod robots;
