//! Image containers: sizes, strided layouts, mutable and shared images,
//! and scalar-erased intensity images.

pub mod arc_image;
pub mod dyn_arc_image;
pub mod layout;
pub mod mut_image;
pub mod pixel;
