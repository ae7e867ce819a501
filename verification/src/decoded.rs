//! From a decoded image of the `image` crate to a pixel grid of this library.

use crate::color::{Raster, Rgb};
use image::{DynamicImage, GenericImageView, Pixel};
use vstd::arithmetic::div_mod::lemma_fundamental_div_mod_converse;
use vstd::prelude::*;

verus! {

#[verifier::external_type_specification]
#[verifier::external_body]
pub struct ExDynamicImage(image::DynamicImage);

// The size of a decoded image: its width, then its height.
pub uninterp spec fn image_size(image: DynamicImage) -> (u32, u32);

// The color of each pixel of a decoded image, as (red, green, blue) by (x, y),
// read in eight bits a channel and without alpha.
pub uninterp spec fn image_colors(image: DynamicImage) -> Map<(u32, u32), (u8, u8, u8)>;

/// A triple of channels as a color.
pub open spec fn rgb_of(c: (u8, u8, u8)) -> Rgb {
    Rgb { r: c.0, g: c.1, b: c.2 }
}

/// Calls `GenericImageView::dimensions` on a `DynamicImage`. Trusted: the
/// pair that comes back is the image's width and height, which this library
/// calls `image_size`.
#[verifier::external_body]
fn dimensions_of(image: &DynamicImage) -> (d: (u32, u32))
    ensures
        d == image_size(*image),
{
    image.dimensions()
}

/// Calls `GenericImageView::get_pixel` on a `DynamicImage` and `Pixel::to_rgb`
/// on the result. Trusted: for a coordinate inside the image the call returns,
/// and the three channels are the image's color there, which this library
/// calls `image_colors`. Outside the image `get_pixel` panics, so such
/// coordinates are excluded.
#[verifier::external_body]
fn color_at(image: &DynamicImage, x: u32, y: u32) -> (p: Rgb)
    requires
        x < image_size(*image).0,
        y < image_size(*image).1,
    ensures
        p == rgb_of(image_colors(*image)[(x, y)]),
{
    let pixel = image.get_pixel(x, y).to_rgb();
    Rgb { r: pixel.0[0], g: pixel.0[1], b: pixel.0[2] }
}

/// Copies a decoded image into a pixel grid of the same size, pixel by pixel.
pub fn raster_of(image: &DynamicImage) -> (r: Raster)
    ensures
        r.width() == image_size(*image).0,
        r.height() == image_size(*image).1,
        forall|x: u32, y: u32|
            x < r.width() && y < r.height() ==> #[trigger] r.pixel(x as int, y as int) == rgb_of(
                image_colors(*image)[(x, y)],
            ),
{
    let (width, height) = dimensions_of(image);
    let mut pixels: Vec<Rgb> = Vec::new();
    let mut y: u32 = 0;
    while y < height
        invariant
            (width, height) == image_size(*image),
            y <= height,
            pixels.len() == y * width,
            forall|v: u32, u: u32|
                v < y && u < width ==> #[trigger] pixels@[v * width + u] == rgb_of(
                    image_colors(*image)[(u, v)],
                ),
        decreases height - y,
    {
        let mut x: u32 = 0;
        while x < width
            invariant
                (width, height) == image_size(*image),
                y < height,
                x <= width,
                pixels.len() == y * width + x,
                forall|v: u32, u: u32|
                    (v < y && u < width) || (v == y && u < x) ==> #[trigger] pixels@[v * width + u]
                        == rgb_of(image_colors(*image)[(u, v)]),
            decreases width - x,
        {
            let ghost before = pixels@;
            pixels.push(color_at(image, x, y));
            proof {
                assert forall|v: u32, u: u32|
                    (v < y && u < width) || (v == y && u < x + 1) implies #[trigger] pixels@[v
                    * width + u] == rgb_of(image_colors(*image)[(u, v)]) by {
                    if v == y && u == x {
                    } else {
                        assert(0 <= v * width + u < y * width + x) by (nonlinear_arith)
                            requires
                                (v < y && u < width) || (v == y && u < x),
                                0 <= u,
                                0 <= v,
                                x <= width,
                        ;
                        assert(pixels@[v * width + u] == before[v * width + u]);
                    }
                }
            }
            x += 1;
        }
        proof {
            assert(y * width + width == (y + 1) * width) by (nonlinear_arith);
        }
        y += 1;
    }
    proof {
        assert(y * width == width * height) by (nonlinear_arith)
            requires
                y == height,
        ;
    }
    let ghost copied = pixels@;
    let made = Raster::new(width, height, pixels);
    let r = made.unwrap();
    assert forall|x: u32, y: u32| x < r.width() && y < r.height() implies #[trigger] r.pixel(
        x as int,
        y as int,
    ) == rgb_of(image_colors(*image)[(x, y)]) by {
        assert(r.pixel(x as int, y as int) == copied[y * width + x]);
    }
    r
}

} // verus!
