use sophus::image::arc_image::ArcImage;
use sophus::image::dyn_arc_image::{
    AnyImage, IntensityImage, IntensityImageEnum, MutIntensityImage, MutIntensityImageEnum,
};
use sophus::image::layout::{ImageLayout, ImageLayoutTrait, ImageSize, ImageSizeTrait};
use sophus::image::mut_image::GenMutImage;
use std::sync::Arc;

#[test]
fn from_mut_image() {
    let size_2_x_3 = ImageSize::from_width_and_height(2, 3);
    let img_f32 = ArcImage::<f32>::with_size_and_val(size_2_x_3, 0.25);
    let dyn_img = AnyImage::from_image(&img_f32);

    assert_eq!(Arc::strong_count(&img_f32.buffer), 2);
    assert_eq!(Arc::strong_count(&dyn_img.buffer), 2);
}

#[test]
fn image_size_and_layout() {
    let size = ImageSize::from_width_and_height(4, 3);
    assert_eq!(size.width(), 4);
    assert_eq!(size.height(), 3);
    assert!(!size.is_empty());
    assert!(ImageSize::from_width_and_height(0, 5).is_empty());

    let layout = ImageLayout::from_width_and_height::<u8>(4, 3);
    assert_eq!(layout.stride(), 4);
    assert_eq!(layout.size(), size);
    assert_eq!(layout.padded_area(), 12);
    assert_eq!(layout.num_bytes_of_padded_area::<u16>(), 24);
    assert_eq!(layout.layout(), layout);
}

#[test]
fn mut_image_pixels() {
    let size = ImageSize::from_width_and_height(3, 2);
    let mut img = GenMutImage::<u8>::from_image_size_and_val(size, 7);
    assert_eq!(img.image_size(), size);
    assert_eq!(img.pixel(2, 1), 7);
    img.set_pixel(2, 1, 9);
    assert_eq!(img.pixel(2, 1), 9);
    assert_eq!(img.pixel(0, 0), 7);

    let defaulted = GenMutImage::<u16>::from_image_size(size);
    assert_eq!(defaulted.pixel(1, 1), 0);
}

#[test]
fn intensity_image_from_scalar() {
    let size = ImageSize::from_width_and_height(2, 2);
    let img = GenMutImage::<u8>::from_image_size_and_val(size, 3);
    let shared = IntensityImage::from_mut_image(img);
    assert_eq!(shared.size(), size);
    assert_eq!(shared.pixel_format.num_scalars, 1);
    assert_eq!(shared.pixel_format.num_bytes_per_scalar, 1);
    assert!(matches!(shared.buffer, IntensityImageEnum::P(_)));
}

#[test]
fn intensity_image_from_dyn_mut() {
    let size = ImageSize::from_width_and_height(2, 3);
    let rgb = GenMutImage::<[f32; 3]>::from_image_size_and_val(size, [0.5f32, 0.25, 0.125]);
    let erased = MutIntensityImage { buffer: MutIntensityImageEnum::P3U(rgb) };
    let shared = IntensityImage::from_dyn_mut(erased);
    assert_eq!(shared.size(), size);
    assert_eq!(shared.pixel_format.num_scalars, 3);
    assert_eq!(shared.pixel_format.num_bytes_per_scalar, 4);
    assert!(matches!(shared.buffer, IntensityImageEnum::P3(_)));

    let gray = GenMutImage::<u16>::from_image_size_and_val(size, 512);
    let erased = MutIntensityImage { buffer: MutIntensityImageEnum::PU(gray) };
    let shared = IntensityImage::from_dyn_mut(erased);
    assert_eq!(shared.pixel_format.num_scalars, 1);
    assert_eq!(shared.pixel_format.num_bytes_per_scalar, 2);
}

#[test]
fn intensity_image_shares_buffer() {
    let size = ImageSize::from_width_and_height(2, 2);
    let img = GenMutImage::<u8>::from_image_size_and_val(size, 3);
    let shared = ArcImage::from_mut_image(img);
    let intensity = IntensityImage::from_image(&shared);
    assert_eq!(Arc::strong_count(&shared.buffer), 2);
    match intensity.buffer {
        IntensityImageEnum::P(inner) => {
            assert_eq!(inner.layout, shared.layout);
        },
        _ => panic!("expected a one-channel buffer"),
    }
}
