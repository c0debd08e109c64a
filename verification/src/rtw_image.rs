//! A decoded RGB pixel buffer for image textures.
//!
//! Decoding a file is outside the core: callers hand in the raw
//! width x height x 3 byte buffer, and lookups are verified against it.

use vstd::prelude::*;

verus! {

pub struct RtwImage {
    pub bytes_per_pixel: usize,
    pub data: Vec<u8>,
    pub width: usize,
    pub height: usize,
    pub bytes_per_scanline: usize,
}

pub open spec fn image_wf(img: RtwImage) -> bool {
    &&& img.bytes_per_pixel == 3
    &&& img.width > 0
    &&& img.height > 0
    &&& img.bytes_per_scanline == img.width * 3
    &&& img.data@.len() == img.width * img.height * 3
}

/// The clamped pixel coordinate used by `pixel_data`.
pub open spec fn spec_clamp_coord(x: int, limit: int) -> int
    recommends
        limit > 0,
{
    if x < limit {
        x
    } else {
        limit - 1
    }
}

/// Byte offset of pixel `(x, y)` after clamping into the image.
pub open spec fn spec_pixel_index(img: RtwImage, x: int, y: int) -> int {
    spec_clamp_coord(y, img.height as int) * (img.bytes_per_scanline as int) + spec_clamp_coord(
        x,
        img.width as int,
    ) * 3
}

impl RtwImage {
    /// Wrap an already decoded RGB byte buffer; rejects dimensions that do
    /// not match the buffer.
    pub fn from_raw(width: usize, height: usize, data: Vec<u8>) -> (r: Option<RtwImage>)
        ensures
            match r {
                Option::Some(img) => {
                    &&& image_wf(img)
                    &&& img.width == width
                    &&& img.height == height
                    &&& img.data == data
                },
                Option::None => width == 0 || height == 0 || width * height * 3 != data@.len()
                    || width * height > usize::MAX / 3,
            },
    {
        if width == 0 || height == 0 {
            return None;
        }
        let pixels = match width.checked_mul(height) {
            Some(p) => p,
            None => {
                proof {
                    vstd::arithmetic::mul::lemma_mul_strict_inequality(
                        usize::MAX as int / 3,
                        width as int * height as int,
                        1,
                    );
                }
                return None;
            },
        };
        if pixels > usize::MAX / 3 {
            return None;
        }
        proof {
            vstd::arithmetic::div_mod::lemma_fundamental_div_mod(usize::MAX as int, 3);
        }
        let total = pixels * 3;
        if data.len() != total {
            return None;
        }
        proof {
            assert(width <= width * height) by (nonlinear_arith)
                requires
                    width >= 1,
                    height >= 1,
            ;
        }
        let scanline = width * 3;
        proof {
            assert(width * 3 <= width * height * 3) by (nonlinear_arith)
                requires
                    width >= 1,
                    height >= 1,
            ;
            assert(width as int * height as int * 3 == (width as int * height as int) * 3)
                by (nonlinear_arith);
        }
        Some(
            RtwImage {
                bytes_per_pixel: 3,
                data,
                width,
                height,
                bytes_per_scanline: scanline,
            },
        )
    }

    /// The RGB bytes of the pixel at `(x, y)`, with both coordinates
    /// clamped into the image.
    pub fn pixel_data(&self, x: usize, y: usize) -> (r: [u8; 3])
        requires
            image_wf(*self),
        ensures
            r[0] == self.data@[spec_pixel_index(*self, x as int, y as int)],
            r[1] == self.data@[spec_pixel_index(*self, x as int, y as int) + 1],
            r[2] == self.data@[spec_pixel_index(*self, x as int, y as int) + 2],
    {
        let xc = if x < self.width {
            x
        } else {
            self.width - 1
        };
        let yc = if y < self.height {
            y
        } else {
            self.height - 1
        };
        let n = self.data.len();
        proof {
            lemma_pixel_index_in_bounds(*self, x as int, y as int);
            assert(yc as int == spec_clamp_coord(y as int, self.height as int));
            assert(xc as int == spec_clamp_coord(x as int, self.width as int));
            assert(yc as int * (self.bytes_per_scanline as int) + xc as int * 3 + 2
                < self.data@.len());
            assert(yc as int * (self.bytes_per_scanline as int) >= 0);
            assert(xc as int * 3 >= 0);
        }
        let index = yc * self.bytes_per_scanline + xc * self.bytes_per_pixel;
        [self.data[index], self.data[index + 1], self.data[index + 2]]
    }
}

/// The clamped pixel offset always addresses three bytes inside the
/// buffer.
proof fn lemma_pixel_index_in_bounds(img: RtwImage, x: int, y: int)
    requires
        image_wf(img),
        x >= 0,
        y >= 0,
    ensures
        0 <= spec_pixel_index(img, x, y),
        spec_pixel_index(img, x, y) + 2 < img.data@.len(),
        0 <= spec_clamp_coord(y, img.height as int) * (img.bytes_per_scanline as int),
        0 <= spec_clamp_coord(x, img.width as int) * 3,
{
    let w = img.width as int;
    let h = img.height as int;
    let xc = spec_clamp_coord(x, w);
    let yc = spec_clamp_coord(y, h);
    assert(0 <= xc < w);
    assert(0 <= yc < h);
    assert(yc * (w * 3) + xc * 3 + 2 < w * h * 3) by (nonlinear_arith)
        requires
            0 <= xc < w,
            0 <= yc < h,
    ;
    assert(yc * (w * 3) >= 0) by (nonlinear_arith)
        requires
            yc >= 0,
            w >= 1,
    ;
    assert(xc * 3 >= 0) by (nonlinear_arith)
        requires
            xc >= 0,
    ;
    assert(img.data@.len() == w * h * 3);
}

} // verus!
