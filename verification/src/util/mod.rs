//! Path helpers for printing env trees.
pub mod path;
