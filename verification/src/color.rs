//! Colors, pixel grids, and the pixels that a region covers.

use crate::region::{Point, Region};
use crate::text::{digit_char, digit_str};
use vstd::arithmetic::div_mod::lemma_fundamental_div_mod_converse;
use vstd::prelude::*;

verus! {

/// A color with eight bits for each of red, green and blue.
#[derive(Debug, Clone, Copy, PartialEq, Eq, Structural)]
pub struct Rgb {
    pub r: u8,
    pub g: u8,
    pub b: u8,
}

/// Two lower-case hexadecimal digits for one channel.
pub open spec fn hex_byte(v: u8) -> Seq<char> {
    seq![digit_char((v / 16) as nat), digit_char((v % 16) as nat)]
}

/// The text of a color: `#rrggbb`.
pub open spec fn hex_text(c: Rgb) -> Seq<char> {
    seq!['#'] + hex_byte(c.r) + hex_byte(c.g) + hex_byte(c.b)
}

/// Writes a color as `#rrggbb`, in lower case.
pub fn to_hex(rgb: &Rgb) -> (s: String)
    ensures
        s@ == hex_text(*rgb),
{
    proof {
        reveal_strlit("#");
    }
    let mut s = "#".to_owned();
    s.append(digit_str(rgb.r / 16));
    s.append(digit_str(rgb.r % 16));
    s.append(digit_str(rgb.g / 16));
    s.append(digit_str(rgb.g % 16));
    s.append(digit_str(rgb.b / 16));
    s.append(digit_str(rgb.b % 16));
    assert(s@ =~= hex_text(*rgb));
    s
}

/// A decoded image: `width` times `height` pixels, stored row by row.
pub struct Raster {
    width: u32,
    height: u32,
    pixels: Vec<Rgb>,
}

/// Why a region cannot be taken from an image.
#[derive(Debug, Clone, Copy, PartialEq, Eq, Structural)]
pub enum GeometryError {
    /// The end corner lies left of or above the start corner.
    Inverted,
    /// The end corner `(x, y)` lies outside an image of `width` by `height` pixels.
    OutOfBounds { x: u32, y: u32, width: u32, height: u32 },
}

impl Raster {
    #[verifier::type_invariant]
    spec fn well_formed(self) -> bool {
        self.pixels.len() == self.width * self.height
    }

    /// The number of columns.
    pub closed spec fn spec_width(&self) -> u32 {
        self.width
    }

    /// The number of rows.
    pub closed spec fn spec_height(&self) -> u32 {
        self.height
    }

    /// The pixel in column `x` of row `y`.
    pub closed spec fn pixel(&self, x: int, y: int) -> Rgb {
        self.pixels@[y * self.width + x]
    }

    /// Makes an image of the pixels `pixels`, given row by row. There must be
    /// exactly `width * height` of them.
    pub fn new(width: u32, height: u32, pixels: Vec<Rgb>) -> (r: Option<Raster>)
        ensures
            r is Some <==> pixels.len() == width * height,
            r matches Some(image) ==> {
                &&& image.spec_width() == width
                &&& image.spec_height() == height
                &&& forall|x: int, y: int|
                    0 <= x < width && 0 <= y < height ==> #[trigger] image.pixel(x, y) == pixels@[y
                        * width + x]
            },
    {
        assert(width * height <= 0xFFFF_FFFF * 0xFFFF_FFFF) by (nonlinear_arith)
            requires
                0 <= width <= 0xFFFF_FFFF,
                0 <= height <= 0xFFFF_FFFF,
        ;
        let area: u64 = (width as u64) * (height as u64);
        let len: usize = pixels.len();
        if len as u64 == area {
            Some(Raster { width, height, pixels })
        } else {
            None
        }
    }

    /// The number of columns.
    #[verifier::when_used_as_spec(spec_width)]
    pub fn width(&self) -> (w: u32)
        ensures
            w == self.spec_width(),
    {
        self.width
    }

    /// The number of rows.
    #[verifier::when_used_as_spec(spec_height)]
    pub fn height(&self) -> (h: u32)
        ensures
            h == self.spec_height(),
    {
        self.height
    }

    /// The pixel in column `x` of row `y`.
    pub fn get_pixel(&self, x: u32, y: u32) -> (p: Rgb)
        requires
            x < self.width(),
            y < self.height(),
        ensures
            p == self.pixel(x as int, y as int),
    {
        proof {
            use_type_invariant(self);
            assert(y * self.width + x < self.width * self.height) by (nonlinear_arith)
                requires
                    0 <= x < self.width,
                    0 <= y < self.height,
            ;
            assert(0 <= y * self.width) by (nonlinear_arith)
                requires
                    0 <= y,
                    0 <= self.width,
            ;
        }
        let i: usize = (y as usize) * (self.width as usize) + (x as usize);
        self.pixels[i]
    }
}

/// Whether the rectangle from `start` to `end` can be taken from an image of
/// `width` by `height` pixels. An inverted rectangle is refused first.
pub open spec fn check_rect_spec(width: u32, height: u32, start: Point, end: Point) -> Result<
    (),
    GeometryError,
> {
    if end.x < start.x || end.y < start.y {
        Err(GeometryError::Inverted)
    } else if end.x >= width || end.y >= height {
        Err(GeometryError::OutOfBounds { x: end.x, y: end.y, width, height })
    } else {
        Ok(())
    }
}

/// The number of pixels in the rectangle from `start` to `end`, corners included.
pub open spec fn rect_area(start: Point, end: Point) -> int {
    (end.x - start.x + 1) * (end.y - start.y + 1)
}

/// The pixels of the rectangle from `start` to `end`, column by column from
/// the left, each column from the top.
pub open spec fn rect_pixels(image: &Raster, start: Point, end: Point) -> Seq<Rgb> {
    let h = end.y - start.y + 1;
    Seq::new(rect_area(start, end) as nat, |k: int| image.pixel(start.x + k / h, start.y + k % h))
}

/// Whether `(x, y)` lies in the rectangle from `start` to `end`, corners included.
pub open spec fn in_rect(start: Point, end: Point, x: int, y: int) -> bool {
    start.x <= x <= end.x && start.y <= y <= end.y
}

/// Each place in `rect_pixels` holds a pixel of the rectangle.
pub proof fn lemma_rect_pixels_at(image: &Raster, start: Point, end: Point, k: int)
    requires
        start.x <= end.x,
        start.y <= end.y,
        0 <= k < rect_area(start, end),
    ensures
        in_rect(
            start,
            end,
            start.x + k / (end.y - start.y + 1),
            start.y + k % (end.y - start.y + 1),
        ),
        rect_pixels(image, start, end)[k] == image.pixel(
            start.x + k / (end.y - start.y + 1),
            start.y + k % (end.y - start.y + 1),
        ),
{
    let w: int = end.x - start.x + 1;
    let h: int = end.y - start.y + 1;
    assert(0 <= k / h < w && 0 <= k % h < h) by (nonlinear_arith)
        requires
            0 <= k < w * h,
            h > 0,
            w > 0,
    ;
}

/// Each pixel of the rectangle has its place in `rect_pixels`: columns from
/// the left, and within a column from the top.
pub proof fn law_rect_holds_every_pixel(image: &Raster, start: Point, end: Point, x: int, y: int)
    requires
        in_rect(start, end, x, y),
    ensures
        0 <= (x - start.x) * (end.y - start.y + 1) + (y - start.y) < rect_area(start, end),
        rect_pixels(image, start, end)[(x - start.x) * (end.y - start.y + 1) + (y - start.y)]
            == image.pixel(x, y),
{
    let w: int = end.x - start.x + 1;
    let h: int = end.y - start.y + 1;
    let q: int = x - start.x;
    let r: int = y - start.y;
    let k: int = q * h + r;
    assert(0 <= q * h && q * h + h <= w * h) by (nonlinear_arith)
        requires
            0 <= q < w,
            0 < h,
    ;
    lemma_fundamental_div_mod_converse(k, h, q, r);
}

/// The rectangle whose two corners are one point holds that point's pixel and
/// no other.
pub proof fn law_single_pixel_rect(image: &Raster, p: Point)
    ensures
        rect_pixels(image, p, p) == seq![image.pixel(p.x as int, p.y as int)],
{
    assert(rect_area(p, p) == 1) by (nonlinear_arith)
        requires
            rect_area(p, p) == (p.x - p.x + 1) * (p.y - p.y + 1),
    ;
    assert(rect_pixels(image, p, p) =~= seq![image.pixel(p.x as int, p.y as int)]);
}

/// Where every pixel in the rectangle has the color `c`, so has every
/// element of `rect_pixels`.
pub proof fn law_uniform_rect(image: &Raster, start: Point, end: Point, c: Rgb)
    requires
        start.x <= end.x,
        start.y <= end.y,
        forall|x: int, y: int| in_rect(start, end, x, y) ==> #[trigger] image.pixel(x, y) == c,
    ensures
        rect_pixels(image, start, end) == Seq::new(rect_area(start, end) as nat, |k: int| c),
{
    assert forall|k: int| 0 <= k < rect_area(start, end) implies rect_pixels(image, start, end)[k]
        == c by {
        lemma_rect_pixels_at(image, start, end, k);
    }
    assert(rect_pixels(image, start, end) =~= Seq::new(
        rect_area(start, end) as nat,
        |k: int| c,
    ));
}

/// Judges a rectangle against an image's size.
pub fn check_rect(width: u32, height: u32, start: Point, end: Point) -> (r: Result<
    (),
    GeometryError,
>)
    ensures
        r == check_rect_spec(width, height, start, end),
{
    if end.x < start.x || end.y < start.y {
        Err(GeometryError::Inverted)
    } else if end.x >= width || end.y >= height {
        Err(GeometryError::OutOfBounds { x: end.x, y: end.y, width, height })
    } else {
        Ok(())
    }
}

/// Collects the pixels that `rect` covers in `image`, or says why it covers none.
pub fn pixels_of_rect_in(image: &Raster, rect: &Region) -> (r: Result<Vec<Rgb>, GeometryError>)
    ensures
        match r {
            Ok(pixels) => {
                &&& check_rect_spec(image.width(), image.height(), rect.start, rect.end) is Ok
                &&& pixels@ == rect_pixels(image, rect.start, rect.end)
            },
            Err(e) => check_rect_spec(image.width(), image.height(), rect.start, rect.end) == Err::<
                (),
                GeometryError,
            >(e),
        },
{
    let start = rect.start;
    let end = rect.end;
    match check_rect(image.width(), image.height(), start, end) {
        Err(e) => {
            return Err(e);
        },
        Ok(_) => {},
    }
    let ghost h: int = end.y - start.y + 1;
    let mut pixels: Vec<Rgb> = Vec::new();
    let mut x: u32 = start.x;
    while x <= end.x
        invariant
            start.x <= x <= end.x + 1,
            start.y <= end.y < image.height(),
            end.x < image.width(),
            h == end.y - start.y + 1,
            pixels@ == Seq::new(
                ((x - start.x) * h) as nat,
                |k: int| image.pixel(start.x + k / h, start.y + k % h),
            ),
        decreases end.x + 1 - x,
    {
        let mut y: u32 = start.y;
        while y <= end.y
            invariant
                start.x <= x <= end.x < image.width(),
                start.y <= y <= end.y + 1,
                end.y < image.height(),
                h == end.y - start.y + 1,
                pixels@ == Seq::new(
                    ((x - start.x) * h + (y - start.y)) as nat,
                    |k: int| image.pixel(start.x + k / h, start.y + k % h),
                ),
            decreases end.y + 1 - y,
        {
            pixels.push(image.get_pixel(x, y));
            proof {
                let k: int = (x - start.x) * h + (y - start.y);
                assert(0 <= (x - start.x) * h) by (nonlinear_arith)
                    requires
                        0 <= x - start.x,
                        0 < h,
                ;
                lemma_fundamental_div_mod_converse(k, h, x - start.x, y - start.y);
                assert(pixels@ =~= Seq::new(
                    (k + 1) as nat,
                    |k: int| image.pixel(start.x + k / h, start.y + k % h),
                ));
            }
            y += 1;
        }
        proof {
            assert((x - start.x) * h + h == (x + 1 - start.x) * h) by (nonlinear_arith);
        }
        x += 1;
    }
    Ok(pixels)
}

/// Collects, for each region in turn, the pixels that it covers in `image`.
/// The first region that cannot be taken from the image ends the work.
pub fn pixels_of_regions_in(image: &Raster, regions: &Vec<Region>) -> (r: Result<
    Vec<Vec<Rgb>>,
    GeometryError,
>)
    ensures
        match r {
            Ok(all) => {
                &&& all.len() == regions.len()
                &&& forall|i: int|
                    0 <= i < regions.len() ==> {
                        &&& check_rect_spec(
                            image.width(),
                            image.height(),
                            (#[trigger] regions[i]).start,
                            regions[i].end,
                        ) is Ok
                        &&& all[i]@ == rect_pixels(image, regions[i].start, regions[i].end)
                    }
            },
            Err(e) => exists|i: int|
                {
                    &&& 0 <= i < regions.len()
                    &&& check_rect_spec(
                        image.width(),
                        image.height(),
                        (#[trigger] regions[i]).start,
                        regions[i].end,
                    ) == Err::<(), GeometryError>(e)
                    &&& forall|j: int|
                        0 <= j < i ==> check_rect_spec(
                            image.width(),
                            image.height(),
                            (#[trigger] regions[j]).start,
                            regions[j].end,
                        ) is Ok
                },
        },
{
    let mut all: Vec<Vec<Rgb>> = Vec::new();
    let mut i: usize = 0;
    while i < regions.len()
        invariant
            i <= regions.len(),
            all.len() == i,
            forall|j: int|
                0 <= j < i ==> {
                    &&& check_rect_spec(
                        image.width(),
                        image.height(),
                        (#[trigger] regions[j]).start,
                        regions[j].end,
                    ) is Ok
                    &&& all[j]@ == rect_pixels(image, regions[j].start, regions[j].end)
                },
        decreases regions.len() - i,
    {
        match pixels_of_rect_in(image, &regions[i]) {
            Ok(pixels) => {
                all.push(pixels);
            },
            Err(e) => {
                return Err(e);
            },
        }
        i += 1;
    }
    Ok(all)
}

} // verus!
