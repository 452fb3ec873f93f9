//! Image sizes and strided row-major layouts.

use vstd::prelude::*;

verus! {

/// Width and height of an image in pixels.
#[derive(Debug, Copy, Clone, Default, PartialEq, Eq, Structural)]
pub struct ImageSize {
    /// image width in pixels
    pub width: usize,
    /// image height in pixels
    pub height: usize,
}

/// Anything with an image size.
pub trait ImageSizeTrait {
    /// The size, at the specification level.
    spec fn spec_size(&self) -> ImageSize;

    /// The size of the image.
    fn size(&self) -> (r: ImageSize)
        ensures
            r == self.spec_size(),
    ;

    /// The width of the image.
    fn width(&self) -> (r: usize)
        ensures
            r == self.spec_size().width,
    ;

    /// The height of the image.
    fn height(&self) -> (r: usize)
        ensures
            r == self.spec_size().height,
    ;

    /// True when the image holds no pixels.
    fn is_empty(&self) -> (r: bool)
        ensures
            r == (self.spec_size().width == 0 || self.spec_size().height == 0),
    ;
}

impl ImageSizeTrait for ImageSize {
    open spec fn spec_size(&self) -> ImageSize {
        *self
    }

    fn size(&self) -> ImageSize {
        *self
    }

    fn width(&self) -> usize {
        self.width
    }

    fn height(&self) -> usize {
        self.height
    }

    fn is_empty(&self) -> bool {
        self.width == 0 || self.height == 0
    }
}

impl ImageSize {
    /// Builds a size from a width and a height.
    pub fn from_width_and_height(width: usize, height: usize) -> (r: Self)
        ensures
            r.width == width,
            r.height == height,
    {
        ImageSize { width, height }
    }
}

/// A row-major layout: a size together with the distance in pixels
/// between the starts of two consecutive rows.
#[derive(Debug, Copy, Clone, Default, PartialEq, Eq, Structural)]
pub struct ImageLayout {
    /// the image size
    pub size: ImageSize,
    /// row stride in pixels
    pub stride: usize,
}

impl ImageLayout {
    /// Well-formed layout: each row's pixels fit within its stride.
    pub open spec fn wf(self) -> bool {
        self.size.width <= self.stride
    }

    /// Builds a packed layout: the stride equals the width.
    pub fn from_width_and_height<T>(width: usize, height: usize) -> (r: Self)
        ensures
            r.wf(),
            r.size.width == width,
            r.size.height == height,
            r.stride == width,
    {
        ImageLayout { size: ImageSize { width, height }, stride: width }
    }
}

/// A well-formed layout's padded area covers every pixel of the image.
pub proof fn lemma_padded_area_covers(layout: ImageLayout)
    by (nonlinear_arith)
    requires
        layout.wf(),
    ensures
        layout.size.width * layout.size.height <= layout.stride * layout.size.height,
{
}

/// Anything with a strided layout.
pub trait ImageLayoutTrait: ImageSizeTrait {
    /// The layout, at the specification level.
    spec fn spec_layout(&self) -> ImageLayout;

    /// The layout of the image.
    fn layout(&self) -> (r: ImageLayout)
        ensures
            r == self.spec_layout(),
    ;

    /// The row stride in pixels.
    fn stride(&self) -> (r: usize)
        ensures
            r == self.spec_layout().stride,
    ;

    /// Number of pixels covered by the layout, padding included.
    fn padded_area(&self) -> (r: usize)
        requires
            self.spec_layout().stride * self.spec_layout().size.height <= usize::MAX,
        ensures
            r == self.spec_layout().stride * self.spec_layout().size.height,
    ;

    /// Number of bytes covered by the layout for the given pixel type.
    fn num_bytes_of_padded_area<T>(&self) -> (r: usize)
        requires
            self.spec_layout().stride * self.spec_layout().size.height <= usize::MAX,
            (self.spec_layout().stride * self.spec_layout().size.height) * vstd::layout::size_of::<
                T,
            >() <= usize::MAX,
        ensures
            r == (self.spec_layout().stride * self.spec_layout().size.height)
                * vstd::layout::size_of::<T>(),
    ;
}

impl ImageSizeTrait for ImageLayout {
    open spec fn spec_size(&self) -> ImageSize {
        self.size
    }

    fn size(&self) -> ImageSize {
        self.size
    }

    fn width(&self) -> usize {
        self.size.width
    }

    fn height(&self) -> usize {
        self.size.height
    }

    fn is_empty(&self) -> bool {
        self.size.width == 0 || self.size.height == 0
    }
}

impl ImageLayoutTrait for ImageLayout {
    open spec fn spec_layout(&self) -> ImageLayout {
        *self
    }

    fn layout(&self) -> ImageLayout {
        *self
    }

    fn stride(&self) -> usize {
        self.stride
    }

    fn padded_area(&self) -> usize {
        self.stride * self.size.height
    }

    fn num_bytes_of_padded_area<T>(&self) -> usize {
        self.padded_area() * core::mem::size_of::<T>()
    }
}

} // verus!
