//! Pixel format descriptors for scalar-erased images.

use vstd::prelude::*;

verus! {

/// Describes the pixels of a scalar-erased image: how many scalar
/// channels one pixel holds and how many bytes one scalar occupies.
#[derive(Debug, Copy, Clone, PartialEq, Eq, Structural)]
pub struct PixelFormat {
    /// number of scalar channels per pixel
    pub num_scalars: usize,
    /// bytes per scalar channel
    pub num_bytes_per_scalar: usize,
}

impl PixelFormat {
    /// Bytes occupied by one whole pixel.
    pub fn num_bytes(&self) -> (r: usize)
        requires
            self.num_scalars * self.num_bytes_per_scalar <= usize::MAX,
        ensures
            r == self.num_scalars * self.num_bytes_per_scalar,
    {
        self.num_scalars * self.num_bytes_per_scalar
    }
}

} // verus!
