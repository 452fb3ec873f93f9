//! Mutable images with exclusively owned pixel buffers.

use crate::image::layout::{ImageLayout, ImageSize};
use crate::linalg::{lemma_row_major_distinct, lemma_row_major_index};
use vstd::prelude::*;

verus! {

/// Mutable image over an arbitrary pixel type `STensor`: a packed
/// row-major buffer together with its layout.
#[derive(Debug, Clone)]
pub struct GenMutImage<STensor> {
    /// the layout of the buffer; always packed (stride equals width)
    pub layout: ImageLayout,
    /// row-major pixels, one entry per pixel
    pub data: Vec<STensor>,
}

/// Mutable image of scalar pixels.
pub type MutImage<Scalar> = GenMutImage<Scalar>;

/// Mutable image of three-channel pixels.
pub type MutImage3<Scalar> = GenMutImage<[Scalar; 3]>;

/// Mutable image of four-channel pixels.
pub type MutImage4<Scalar> = GenMutImage<[Scalar; 4]>;

impl<STensor> GenMutImage<STensor> {
    /// Well-formed: packed stride and exactly one buffer entry per pixel.
    pub open spec fn wf(self) -> bool {
        &&& self.layout.stride == self.layout.size.width
        &&& self.data@.len() == self.layout.size.width * self.layout.size.height
    }

    /// The size of the image.
    pub open spec fn spec_size(self) -> ImageSize {
        self.layout.size
    }

    /// Builds an image of the given size with every pixel set to `val`.
    pub fn from_image_size_and_val(size: ImageSize, val: STensor) -> (r: Self) where
        STensor: Copy,

        requires
            size.width * size.height <= usize::MAX,
        ensures
            r.wf(),
            r.spec_size() == size,
            forall|p: int| 0 <= p < r.data@.len() ==> #[trigger] r.data@[p] == val,
    {
        let total: usize = size.width * size.height;
        let mut data: Vec<STensor> = Vec::new();
        let mut k: usize = 0;
        while k < total
            invariant
                k <= total,
                data@.len() == k,
                forall|p: int| 0 <= p < k ==> #[trigger] data@[p] == val,
            decreases total - k,
        {
            data.push(val);
            k += 1;
        }
        GenMutImage { layout: ImageLayout { size, stride: size.width }, data }
    }

    /// Builds an image of the given size filled with the default pixel.
    pub fn from_image_size(size: ImageSize) -> (r: Self) where STensor: Copy + Default
        requires
            size.width * size.height <= usize::MAX,
        ensures
            r.wf(),
            r.spec_size() == size,
    {
        let val = STensor::default();
        Self::from_image_size_and_val(size, val)
    }

    /// The size of the image.
    pub fn image_size(&self) -> (r: ImageSize)
        ensures
            r == self.spec_size(),
    {
        self.layout.size
    }

    /// Reads the pixel at column `u`, row `v`.
    pub fn pixel(&self, u: usize, v: usize) -> (r: STensor) where STensor: Copy
        requires
            self.wf(),
            u < self.spec_size().width,
            v < self.spec_size().height,
        ensures
            r == self.data@[v * self.layout.size.width + u],
    {
        proof {
            lemma_row_major_index(
                v as int,
                u as int,
                self.layout.size.height as int,
                self.layout.size.width as int,
            );
            assert(self.layout.size.width * self.layout.size.height == self.layout.size.height
                * self.layout.size.width) by (nonlinear_arith);
        }
        let n = self.data.len();
        self.data[v * self.layout.size.width + u]
    }

    /// Overwrites the pixel at column `u`, row `v`.
    pub fn set_pixel(&mut self, u: usize, v: usize, val: STensor)
        requires
            old(self).wf(),
            u < old(self).spec_size().width,
            v < old(self).spec_size().height,
        ensures
            final(self).wf(),
            final(self).layout == old(self).layout,
            final(self).data@ == old(self).data@.update(
                v * old(self).layout.size.width + u,
                val,
            ),
    {
        proof {
            lemma_row_major_index(
                v as int,
                u as int,
                self.layout.size.height as int,
                self.layout.size.width as int,
            );
            assert(self.layout.size.width * self.layout.size.height == self.layout.size.height
                * self.layout.size.width) by (nonlinear_arith);
        }
        let n = self.data.len();
        let idx = v * self.layout.size.width + u;
        self.data.set(idx, val);
    }
}

/// Constructors shared by mutable images.
pub trait IsMutImage<STensor>: Sized {
    /// The size, at the specification level.
    spec fn spec_mut_size(self) -> ImageSize;

    /// Builds an image of the given size filled with the default pixel.
    fn from_image_size(size: ImageSize) -> (r: Self)
        requires
            size.width * size.height <= usize::MAX,
        ensures
            r.spec_mut_size() == size,
    ;

    /// Builds an image of the given size with every pixel set to `val`.
    fn from_image_size_and_val(size: ImageSize, val: STensor) -> (r: Self)
        requires
            size.width * size.height <= usize::MAX,
        ensures
            r.spec_mut_size() == size,
    ;
}

impl<STensor: Copy + Default> IsMutImage<STensor> for GenMutImage<STensor> {
    open spec fn spec_mut_size(self) -> ImageSize {
        self.layout.size
    }

    fn from_image_size(size: ImageSize) -> Self {
        GenMutImage::<STensor>::from_image_size(size)
    }

    fn from_image_size_and_val(size: ImageSize, val: STensor) -> Self {
        GenMutImage::<STensor>::from_image_size_and_val(size, val)
    }
}

} // verus!
