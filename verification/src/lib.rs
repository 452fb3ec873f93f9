//! Non-linear least-squares optimization over exact rational arithmetic,
//! together with the image-layout containers used by its example clients.
//!
//! The solver follows the damped Gauss-Newton (Levenberg-Marquardt) scheme:
//! residual terms over families of decision variables are linearized with
//! forward-mode dual numbers, folded into normal equations, and solved by an
//! LDLt factorization whose solution is re-checked exactly before it is
//! trusted.  All arithmetic is performed on exact rationals, so every
//! contract speaks about true mathematical values rather than rounded ones.

pub mod calculus;
pub mod dual;
pub mod image;
pub mod linalg;
pub mod opt;
pub mod rational;
pub mod sensor;
