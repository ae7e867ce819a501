use image::{DynamicImage, GrayImage, Luma, Rgb as ImageRgb, RgbImage, Rgba, RgbaImage};
use region_palette::color::{pixels_of_rect_in, Rgb};
use region_palette::decoded::raster_of;
use region_palette::region::Region;

#[test]
fn raster_of_keeps_size_and_colors() {
    let decoded = DynamicImage::ImageRgb8(RgbImage::from_fn(3, 2, |x, y| {
        ImageRgb([10 * x as u8, y as u8, 200])
    }));
    let raster = raster_of(&decoded);
    assert_eq!(raster.width(), 3);
    assert_eq!(raster.height(), 2);
    for y in 0..2u32 {
        for x in 0..3u32 {
            assert_eq!(
                raster.get_pixel(x, y),
                Rgb { r: 10 * x as u8, g: y as u8, b: 200 }
            );
        }
    }
}

#[test]
fn raster_of_drops_alpha() {
    let decoded = DynamicImage::ImageRgba8(RgbaImage::from_fn(2, 2, |x, y| {
        Rgba([255, x as u8, y as u8, 17])
    }));
    let raster = raster_of(&decoded);
    assert_eq!(raster.get_pixel(1, 0), Rgb { r: 255, g: 1, b: 0 });
    assert_eq!(raster.get_pixel(0, 1), Rgb { r: 255, g: 0, b: 1 });
}

#[test]
fn raster_of_spreads_gray_over_the_channels() {
    let decoded = DynamicImage::ImageLuma8(GrayImage::from_pixel(1, 3, Luma([90])));
    let raster = raster_of(&decoded);
    assert_eq!(raster.width(), 1);
    assert_eq!(raster.height(), 3);
    assert_eq!(raster.get_pixel(0, 2), Rgb { r: 90, g: 90, b: 90 });
}

#[test]
fn raster_of_an_empty_image() {
    let decoded = DynamicImage::ImageRgb8(RgbImage::new(0, 0));
    let raster = raster_of(&decoded);
    assert_eq!(raster.width(), 0);
    assert_eq!(raster.height(), 0);
}

#[test]
fn region_of_a_decoded_image() {
    let decoded = DynamicImage::ImageRgb8(RgbImage::from_fn(4, 4, |x, y| {
        ImageRgb([x as u8, y as u8, 0])
    }));
    let raster = raster_of(&decoded);
    let rect = Region::from_str("corner=2,3-3,3").unwrap();
    assert_eq!(
        pixels_of_rect_in(&raster, &rect),
        Ok(vec![Rgb { r: 2, g: 3, b: 0 }, Rgb { r: 3, g: 3, b: 0 }])
    );
}
