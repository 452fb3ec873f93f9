//! Scalar-erased shared images.
//!
//! [`AnyImage`] erases the static pixel shape of a shared image while
//! keeping its buffer shared, and [`IntensityImage`] keeps one-, three-
//! and four-channel intensity images behind a single enum.

use crate::image::arc_image::ArcImage;
use crate::image::layout::ImageLayout;
use crate::image::mut_image::GenMutImage;
use crate::image::pixel::PixelFormat;
use std::sync::Arc;
use vstd::prelude::*;

verus! {

/// A shared image whose static pixel shape has been erased into a
/// runtime [`PixelFormat`]; the buffer is shared with the source image.
#[derive(Debug, Clone)]
pub struct AnyImage<Scalar> {
    /// the shared pixel buffer
    pub buffer: Arc<Vec<Scalar>>,
    /// the layout of the buffer
    pub layout: ImageLayout,
    /// runtime description of one pixel
    pub pixel_format: PixelFormat,
}

impl<Scalar> AnyImage<Scalar> {
    /// Erases a shared scalar image; the buffer is shared, not copied.
    pub fn from_image(img: &ArcImage<Scalar>) -> (r: Self)
        requires
            img.wf(),
        ensures
            r.buffer == img.buffer,
            r.layout == img.layout,
            r.pixel_format.num_scalars == 1,
            r.pixel_format.num_bytes_per_scalar == vstd::layout::size_of::<Scalar>(),
    {
        let pixel_format = PixelFormat {
            num_scalars: 1,
            num_bytes_per_scalar: core::mem::size_of::<Scalar>(),
        };
        AnyImage { buffer: img.share_buffer(), layout: img.layout, pixel_format }
    }

    /// The size of the image.
    pub fn size(&self) -> (r: crate::image::layout::ImageSize)
        ensures
            r == self.layout.size,
    {
        self.layout.size
    }

    /// The layout of the image.
    pub fn layout(&self) -> (r: ImageLayout)
        ensures
            r == self.layout,
    {
        self.layout
    }
}

/// Shared intensity image buffers of one, three or four channels.
#[derive(Debug, Clone)]
pub enum IntensityImageEnum<Scalar> {
    /// one channel per pixel
    P(ArcImage<Scalar>),
    /// three channels per pixel
    P3(ArcImage<[Scalar; 3]>),
    /// four channels per pixel
    P4(ArcImage<[Scalar; 4]>),
}

/// Mutable intensity image buffers of one, three or four channels.
#[derive(Debug, Clone)]
pub enum MutIntensityImageEnum<Scalar> {
    /// one channel per pixel
    PU(GenMutImage<Scalar>),
    /// three channels per pixel
    P3U(GenMutImage<[Scalar; 3]>),
    /// four channels per pixel
    P4U(GenMutImage<[Scalar; 4]>),
}

/// A mutable intensity image with its channel count erased.
#[derive(Debug, Clone)]
pub struct MutIntensityImage<Scalar> {
    /// the owned pixel buffer
    pub buffer: MutIntensityImageEnum<Scalar>,
}

impl<Scalar> MutIntensityImage<Scalar> {
    /// Well-formed when the wrapped image is.
    pub open spec fn wf(self) -> bool {
        match self.buffer {
            MutIntensityImageEnum::PU(i) => i.wf(),
            MutIntensityImageEnum::P3U(i) => i.wf(),
            MutIntensityImageEnum::P4U(i) => i.wf(),
        }
    }
}

/// A shared intensity image: an erased buffer together with its layout
/// and a runtime pixel format.
#[derive(Debug, Clone)]
pub struct IntensityImage<Scalar> {
    /// the shared channel buffer
    pub buffer: IntensityImageEnum<Scalar>,
    /// the layout of the buffer
    pub layout: ImageLayout,
    /// runtime description of one pixel
    pub pixel_format: PixelFormat,
}

impl<Scalar> IntensityImage<Scalar> {
    /// The channel count recorded for the wrapped buffer.
    pub open spec fn spec_num_scalars(self) -> int {
        match self.buffer {
            IntensityImageEnum::P(_) => 1,
            IntensityImageEnum::P3(_) => 3,
            IntensityImageEnum::P4(_) => 4,
        }
    }

    /// Well-formed: the format agrees with the wrapped variant and the
    /// layout is the wrapped image's layout.
    pub open spec fn wf(self) -> bool {
        &&& self.pixel_format.num_scalars == self.spec_num_scalars()
        &&& self.pixel_format.num_bytes_per_scalar == vstd::layout::size_of::<Scalar>()
        &&& match self.buffer {
            IntensityImageEnum::P(i) => i.wf() && self.layout == i.layout,
            IntensityImageEnum::P3(i) => i.wf() && self.layout == i.layout,
            IntensityImageEnum::P4(i) => i.wf() && self.layout == i.layout,
        }
    }

    /// The size of the image.
    pub fn size(&self) -> (r: crate::image::layout::ImageSize)
        ensures
            r == self.layout.size,
    {
        self.layout.size
    }

    /// The layout of the image.
    pub fn layout(&self) -> (r: ImageLayout)
        ensures
            r == self.layout,
    {
        self.layout
    }

    /// Wraps a shared one-channel image; the buffer is shared, not copied.
    pub fn from_image(img: &ArcImage<Scalar>) -> (r: Self)
        requires
            img.wf(),
        ensures
            r.wf(),
            r.layout == img.layout,
            r.buffer matches IntensityImageEnum::P(i) && i.buffer == img.buffer,
    {
        let pixel_format = PixelFormat {
            num_scalars: 1,
            num_bytes_per_scalar: core::mem::size_of::<Scalar>(),
        };
        IntensityImage {
            buffer: IntensityImageEnum::P(
                ArcImage { buffer: img.share_buffer(), layout: img.layout },
            ),
            layout: img.layout,
            pixel_format,
        }
    }

    /// Freezes a mutable one-channel image into a shared intensity image.
    pub fn from_mut_image(img: GenMutImage<Scalar>) -> (r: Self)
        requires
            img.wf(),
        ensures
            r.wf(),
            r.layout == img.layout,
    {
        let shared = ArcImage::from_mut_image(img);
        Self::from_image(&shared)
    }

    /// Freezes a mutable intensity image of any channel count.
    pub fn from_dyn_mut(img: MutIntensityImage<Scalar>) -> (r: Self)
        requires
            img.wf(),
        ensures
            r.wf(),
    {
        match img.buffer {
            MutIntensityImageEnum::PU(i) => Self::from_mut_image(i),
            MutIntensityImageEnum::P3U(i) => {
                let shared = ArcImage::from_mut_image(i);
                let pixel_format = PixelFormat {
                    num_scalars: 3,
                    num_bytes_per_scalar: core::mem::size_of::<Scalar>(),
                };
                IntensityImage {
                    layout: shared.layout,
                    buffer: IntensityImageEnum::P3(shared),
                    pixel_format,
                }
            },
            MutIntensityImageEnum::P4U(i) => {
                let shared = ArcImage::from_mut_image(i);
                let pixel_format = PixelFormat {
                    num_scalars: 4,
                    num_bytes_per_scalar: core::mem::size_of::<Scalar>(),
                };
                IntensityImage {
                    layout: shared.layout,
                    buffer: IntensityImageEnum::P4(shared),
                    pixel_format,
                }
            },
        }
    }
}

} // verus!
