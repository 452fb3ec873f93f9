//! Exact forward-mode calculus helpers: sample points, matrix-valued
//! maps and the finite-difference laws of the dual engine.

pub mod maps;
pub mod points;
