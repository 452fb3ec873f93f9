//! Shared images: immutable pixel buffers behind a reference count.

use crate::image::layout::{ImageLayout, ImageSize};
use crate::image::mut_image::GenMutImage;
use std::sync::Arc;
use vstd::prelude::*;

verus! {

/// Relies on `Arc::clone`: the clone refers to the same value.
#[verifier::external_body]
fn arc_clone<T>(a: &Arc<T>) -> (r: Arc<T>)
    ensures
        r == *a,
{
    Arc::clone(a)
}

/// Shared image over an arbitrary pixel type: a reference-counted
/// row-major buffer together with its layout.  Cloning an image or
/// erasing its pixel type shares the buffer instead of copying it.
#[derive(Debug, Clone)]
pub struct ArcImage<STensor> {
    /// shared row-major pixels, one entry per pixel
    pub buffer: Arc<Vec<STensor>>,
    /// the layout of the buffer; always packed (stride equals width)
    pub layout: ImageLayout,
}

impl<STensor> ArcImage<STensor> {
    /// Well-formed: packed stride and exactly one buffer entry per pixel.
    pub open spec fn wf(self) -> bool {
        &&& self.layout.stride == self.layout.size.width
        &&& self.buffer@.len() == self.layout.size.width * self.layout.size.height
    }

    /// The size of the image.
    pub open spec fn spec_size(self) -> ImageSize {
        self.layout.size
    }

    /// Builds a shared image of the given size with every pixel `val`.
    pub fn with_size_and_val(size: ImageSize, val: STensor) -> (r: Self) where STensor: Copy
        requires
            size.width * size.height <= usize::MAX,
        ensures
            r.wf(),
            r.spec_size() == size,
    {
        let owned = GenMutImage::from_image_size_and_val(size, val);
        Self::from_mut_image(owned)
    }

    /// Freezes a mutable image into a shared one; the buffer moves, it
    /// is not copied.
    pub fn from_mut_image(img: GenMutImage<STensor>) -> (r: Self)
        requires
            img.wf(),
        ensures
            r.wf(),
            r.spec_size() == img.spec_size(),
            r.buffer@ == img.data@,
            r.layout == img.layout,
    {
        ArcImage { buffer: Arc::new(img.data), layout: img.layout }
    }

    /// Shares the buffer under a second handle.
    pub fn share_buffer(&self) -> (r: Arc<Vec<STensor>>)
        ensures
            r == self.buffer,
    {
        arc_clone(&self.buffer)
    }

    /// The size of the image.
    pub fn image_size(&self) -> (r: ImageSize)
        ensures
            r == self.spec_size(),
    {
        self.layout.size
    }
}

} // verus!
