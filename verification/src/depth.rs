//! The depth grid: one depth for each pixel of a pixel grid, in the same
//! row-major order. A larger depth is nearer to the viewer.

use vstd::prelude::*;
use crate::image::{cell, lemma_cell_bounds, lemma_cell_injective, Color, Image};

verus! {

/// The depth that every cell of a fresh depth grid holds: the least depth,
/// which no fragment is below.
pub const FARTHEST: i64 = -0x8000_0000_0000_0000;

/// Whether `depth` has one cell for each pixel of `img`.
pub open spec fn matches_grid(img: Image, depth: Seq<i64>) -> bool {
    img.wf() && depth.len() == img.width * img.height
}

/// Color and depth stored for the pixel `(x, y)`.
pub open spec fn pixel_state(img: Image, depth: Seq<i64>, x: int, y: int) -> (Color, i64) {
    (img.color_at(x, y), depth[cell(img.width as int, x, y)])
}

/// Two grids of equal dimensions, each with its depth grid, that agree on
/// the state of every pixel hold the same bytes and the same depths.
pub proof fn lemma_same_states(a: Image, a_z: Seq<i64>, b: Image, b_z: Seq<i64>)
    requires
        matches_grid(a, a_z),
        matches_grid(b, b_z),
        a.width == b.width,
        a.height == b.height,
        forall|x: int, y: int| #[trigger]
            a.contains(x, y) ==> pixel_state(a, a_z, x, y) == pixel_state(b, b_z, x, y),
    ensures
        a.pixels@ == b.pixels@,
        a_z == b_z,
{
    let w = a.width as int;
    let h = a.height as int;
    assert forall|x: int, y: int| a.contains(x, y) implies a.color_at(x, y) == b.color_at(
        x,
        y,
    ) by {
        assert(pixel_state(a, a_z, x, y) == pixel_state(b, b_z, x, y));
    }
    a.lemma_same_pixels(&b);
    assert forall|c: int| 0 <= c < a_z.len() implies a_z[c] == b_z[c] by {
        assert(w > 0) by (nonlinear_arith)
            requires
                0 <= c < w * h,
                0 <= w,
        ;
        let x = c % w;
        let y = c / w;
        vstd::arithmetic::div_mod::lemma_fundamental_div_mod(c, w);
        assert(0 <= y) by (nonlinear_arith)
            requires
                y == c / w,
                0 <= c,
                0 < w,
        ;
        assert(y < h) by (nonlinear_arith)
            requires
                c == w * y + x,
                0 <= x,
                c < w * h,
                0 < w,
        ;
        assert(w * y == y * w) by (nonlinear_arith);
        assert(a.contains(x, y));
        assert(pixel_state(a, a_z, x, y) == pixel_state(b, b_z, x, y));
    }
    assert(a_z =~= b_z);
}

/// Allocates a depth grid for a pixel grid of the given dimensions, every
/// cell holding `FARTHEST`.
pub fn create_depth_buffer(width: usize, height: usize) -> (depth: Vec<i64>)
    requires
        width * height <= usize::MAX,
    ensures
        depth@ == Seq::new((width * height) as nat, |i: int| FARTHEST),
{
    let cells: usize = width * height;
    let depth: Vec<i64> = vec![FARTHEST; cells];
    assert(depth@ =~= Seq::new((width * height) as nat, |i: int| FARTHEST));
    depth
}

/// Reads the depth stored for the pixel `(x, y)`.
pub fn depth_at(img: &Image, z_buffer: &Vec<i64>, x: usize, y: usize) -> (z: i64)
    requires
        matches_grid(*img, z_buffer@),
        img.contains(x as int, y as int),
    ensures
        z == pixel_state(*img, z_buffer@, x as int, y as int).1,
{
    proof {
        lemma_cell_bounds(img.width as int, img.height as int, x as int, y as int);
        assert(z_buffer.len() == z_buffer@.len());
    }
    z_buffer[y * img.width + x]
}

/// Stores a fragment: the pixel `(x, y)` takes `color` and its cell takes `z`.
pub fn store(img: &mut Image, z_buffer: &mut Vec<i64>, x: usize, y: usize, color: Color, z: i64)
    requires
        matches_grid(*old(img), old(z_buffer)@),
        old(img).contains(x as int, y as int),
    ensures
        matches_grid(*final(img), final(z_buffer)@),
        final(img).width == old(img).width,
        final(img).height == old(img).height,
        forall|px: int, py: int| #[trigger]
            final(img).contains(px, py) ==> pixel_state(*final(img), final(z_buffer)@, px, py)
                == if px == x && py == y {
                (color, z)
            } else {
                pixel_state(*old(img), old(z_buffer)@, px, py)
            },
{
    proof {
        lemma_cell_bounds(img.width as int, img.height as int, x as int, y as int);
        assert(z_buffer.len() == z_buffer@.len());
    }
    let idx: usize = y * img.width + x;
    img.set(x, y, color);
    z_buffer.set(idx, z);
    proof {
        assert forall|px: int, py: int| #[trigger] img.contains(px, py) implies pixel_state(
            *img,
            z_buffer@,
            px,
            py,
        ) == if px == x && py == y {
            (color, z)
        } else {
            pixel_state(*old(img), old(z_buffer)@, px, py)
        } by {
            lemma_cell_bounds(img.width as int, img.height as int, px, py);
            if !(px == x && py == y) {
                if cell(img.width as int, px, py) == idx {
                    lemma_cell_injective(img.width as int, px, py, x as int, y as int);
                }
            }
        }
    }
}

} // verus!
