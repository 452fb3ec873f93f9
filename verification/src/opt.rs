//! The non-linear least-squares optimizer.

pub mod cost_fn;
pub mod ldlt;
pub mod nlls;
pub mod robust_kernel;
pub mod variables;
