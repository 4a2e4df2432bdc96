//! Integer vector helpers.
pub mod grid;
pub mod vector;
