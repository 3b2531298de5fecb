//! The pixel grid: a dense `width` by `height` array of truecolor pixels,
//! stored row by row with the channels of each pixel in blue, green, red order.

use vstd::prelude::*;
use crate::arith::{lemma_mul_bound, trunc_div};

verus! {

/// Largest magnitude of the numerator of a factor that scales a color.
pub const FACTOR_LIMIT: i128 = 0x40_0000_0000_0000_0000_0000_0000_0000;

/// A truecolor value of three 8-bit channels.
#[derive(Clone, Copy, Debug, PartialEq, Eq, Structural)]
pub struct Color {
    pub r: u8,
    pub g: u8,
    pub b: u8,
}

/// A channel times the factor `num / den`, rounded toward zero and kept
/// inside the channel range: a product below zero gives 0, one above 255
/// gives 255.
pub open spec fn scaled_channel(c: u8, num: int, den: int) -> u8
    recommends
        den > 0,
{
    let q = trunc_div(c * num, den);
    if q < 0 {
        0u8
    } else if q > 255 {
        255u8
    } else {
        q as u8
    }
}

fn scale_channel(c: u8, num: i128, den: i128) -> (r: u8)
    requires
        den > 0,
        -FACTOR_LIMIT <= num <= FACTOR_LIMIT,
    ensures
        r == scaled_channel(c, num as int, den as int),
{
    proof {
        lemma_mul_bound(c as int, num as int, 255, FACTOR_LIMIT as int);
    }
    let q: i128 = (c as i128) * num / den;
    if q < 0 {
        0
    } else if q > 255 {
        255
    } else {
        q as u8
    }
}

impl Color {
    /// The color with each channel scaled by the factor `num / den`.
    pub fn mul(self, num: i128, den: i128) -> (c: Color)
        requires
            den > 0,
            -FACTOR_LIMIT <= num <= FACTOR_LIMIT,
        ensures
            c.r == scaled_channel(self.r, num as int, den as int),
            c.g == scaled_channel(self.g, num as int, den as int),
            c.b == scaled_channel(self.b, num as int, den as int),
    {
        let r: u8 = scale_channel(self.r, num, den);
        let g: u8 = scale_channel(self.g, num, den);
        let b: u8 = scale_channel(self.b, num, den);
        Color { r, g, b }
    }
}

/// A pixel grid. The pixel at column `x` and row `y` occupies the three bytes
/// that start at `(y * width + x) * 3`, holding blue, green and red.
#[derive(Debug)]
pub struct Image {
    pub width: usize,
    pub height: usize,
    pub pixels: Vec<u8>,
}

/// Row-major cell number of `(x, y)` in a grid of the given width.
pub open spec fn cell(width: int, x: int, y: int) -> int {
    y * width + x
}

/// Inside a grid, a cell number is below the number of cells and determines
/// its column and row.
pub proof fn lemma_cell_bounds(width: int, height: int, x: int, y: int)
    requires
        0 <= x < width,
        0 <= y < height,
    ensures
        0 <= y * width <= cell(width, x, y) < width * height,
        cell(width, x, y) / width == y,
        cell(width, x, y) % width == x,
{
    assert(0 <= y * width && y * width + width <= height * width && height * width == width
        * height) by (nonlinear_arith)
        requires
            0 <= y < height,
            0 < width,
    ;
    vstd::arithmetic::div_mod::lemma_fundamental_div_mod_converse(y * width + x, width, y, x);
}

/// Two positions inside a grid share a cell number only if they are equal.
pub proof fn lemma_cell_injective(width: int, x1: int, y1: int, x2: int, y2: int)
    requires
        0 <= x1 < width,
        0 <= x2 < width,
        0 <= y1,
        0 <= y2,
        cell(width, x1, y1) == cell(width, x2, y2),
    ensures
        x1 == x2,
        y1 == y2,
{
    vstd::arithmetic::div_mod::lemma_fundamental_div_mod_converse(y1 * width + x1, width, y1, x1);
    vstd::arithmetic::div_mod::lemma_fundamental_div_mod_converse(y2 * width + x2, width, y2, x2);
}

impl Image {
    /// The byte array holds exactly three bytes for each pixel.
    pub open spec fn wf(&self) -> bool {
        self.pixels@.len() == self.width * self.height * 3
    }

    /// Whether `(x, y)` names a pixel of the grid.
    pub open spec fn contains(&self, x: int, y: int) -> bool {
        0 <= x < self.width && 0 <= y < self.height
    }

    /// Index of the first byte of pixel `(x, y)`.
    pub open spec fn offset(&self, x: int, y: int) -> int {
        cell(self.width as int, x, y) * 3
    }

    /// The color stored at `(x, y)`.
    pub open spec fn color_at(&self, x: int, y: int) -> Color {
        Color {
            r: self.pixels@[self.offset(x, y) + 2],
            g: self.pixels@[self.offset(x, y) + 1],
            b: self.pixels@[self.offset(x, y)],
        }
    }

    /// The bytes of the grid after storing `color` at `(x, y)`.
    pub open spec fn bytes_with(&self, x: int, y: int, color: Color) -> Seq<u8> {
        self.pixels@.update(self.offset(x, y), color.b).update(
            self.offset(x, y) + 1,
            color.g,
        ).update(self.offset(x, y) + 2, color.r)
    }

    /// Two grids of equal dimensions that agree on every pixel hold the same bytes.
    pub proof fn lemma_same_pixels(&self, other: &Image)
        requires
            self.wf(),
            other.wf(),
            self.width == other.width,
            self.height == other.height,
            forall|x: int, y: int|
                self.contains(x, y) ==> self.color_at(x, y) == other.color_at(x, y),
        ensures
            self.pixels@ == other.pixels@,
    {
        let w = self.width as int;
        let h = self.height as int;
        assert forall|i: int| 0 <= i < self.pixels@.len() implies self.pixels@[i]
            == other.pixels@[i] by {
            let c = i / 3;
            let x = c % w;
            let y = c / w;
            assert(0 <= c < w * h);
            assert(w > 0) by (nonlinear_arith)
                requires
                    0 <= c < w * h,
                    0 <= w,
            ;
            vstd::arithmetic::div_mod::lemma_fundamental_div_mod(c, w);
            assert(0 <= y) by (nonlinear_arith)
                requires
                    y == c / w,
                    0 <= c,
                    0 < w,
            ;
            assert(y < h) by (nonlinear_arith)
                requires
                    c == w * y + x,
                    0 <= x,
                    c < w * h,
                    0 < w,
            ;
            assert(w * y == y * w) by (nonlinear_arith);
            assert(self.contains(x, y));
            assert(self.offset(x, y) == c * 3);
            assert(self.color_at(x, y) == other.color_at(x, y));
        }
        assert(self.pixels@ =~= other.pixels@);
    }

    /// Returns the color of the pixel at `(x, y)`.
    pub fn read(&self, x: usize, y: usize) -> (color: Color)
        requires
            self.wf(),
            self.contains(x as int, y as int),
        ensures
            color == self.color_at(x as int, y as int),
    {
        proof {
            lemma_cell_bounds(self.width as int, self.height as int, x as int, y as int);
            assert(self.pixels.len() == self.pixels@.len());
        }
        let i: usize = (y * self.width + x) * 3;
        Color { r: self.pixels[i + 2], g: self.pixels[i + 1], b: self.pixels[i] }
    }

    /// Stores `color` at `(x, y)`. A position outside the grid is ignored.
    pub fn set(&mut self, x: usize, y: usize, color: Color)
        requires
            old(self).wf(),
        ensures
            final(self).wf(),
            final(self).width == old(self).width,
            final(self).height == old(self).height,
            final(self).pixels@ == if old(self).contains(x as int, y as int) {
                old(self).bytes_with(x as int, y as int, color)
            } else {
                old(self).pixels@
            },
            forall|px: int, py: int| #[trigger]
                final(self).contains(px, py) ==> final(self).color_at(px, py) == if px == x && py
                    == y {
                    color
                } else {
                    old(self).color_at(px, py)
                },
    {
        if x < self.width && y < self.height {
            proof {
                lemma_cell_bounds(self.width as int, self.height as int, x as int, y as int);
                assert(self.pixels.len() == self.pixels@.len());
            }
            let i: usize = (y * self.width + x) * 3;
            self.pixels[i] = color.b;
            self.pixels[i + 1] = color.g;
            self.pixels[i + 2] = color.r;
            proof {
                assert forall|px: int, py: int| #[trigger]
                    self.contains(px, py) implies self.color_at(px, py) == if px == x && py
                    == y {
                    color
                } else {
                    old(self).color_at(px, py)
                } by {
                    lemma_cell_bounds(self.width as int, self.height as int, px, py);
                    if !(px == x && py == y) {
                        if cell(self.width as int, px, py) == cell(
                            self.width as int,
                            x as int,
                            y as int,
                        ) {
                            lemma_cell_injective(self.width as int, px, py, x as int, y as int);
                        }
                    }
                }
            }
        }
    }
}

/// Allocates a grid of the given dimensions with every pixel black.
pub fn create(width: usize, height: usize) -> (img: Image)
    requires
        width * height * 3 <= usize::MAX,
    ensures
        img.wf(),
        img.width == width,
        img.height == height,
        img.pixels@ == Seq::new((width * height * 3) as nat, |i: int| 0u8),
        forall|x: int, y: int| #[trigger]
            img.contains(x, y) ==> img.color_at(x, y) == (Color { r: 0, g: 0, b: 0 }),
{
    assert(width * height <= width * height * 3) by (nonlinear_arith);
    let pixel_len: usize = width * height * 3;
    let pixels: Vec<u8> = vec![0u8; pixel_len];
    let img = Image { width, height, pixels };
    proof {
        assert(img.pixels@ =~= Seq::new((width * height * 3) as nat, |i: int| 0u8));
        assert forall|x: int, y: int| #[trigger] img.contains(x, y) implies img.color_at(x, y) == (
        Color { r: 0, g: 0, b: 0 }) by {
            lemma_cell_bounds(width as int, height as int, x, y);
        }
    }
    img
}

} // verus!
