//! The scanline triangle filler: flat color, depth interpolated linearly.
//!
//! The vertices are ordered from top to bottom. Each row between the top and
//! the bottom vertex gets one span, bounded by the long edge on one side and
//! by the short edge of its half on the other. The rows end before the row
//! of the bottom vertex, and each span ends before its right boundary.

use vstd::prelude::*;
use crate::arith::{
    clamp_index,
    index_within,
    interpolate,
    lemma_interpolate_between,
    lerp,
    max3,
    min3,
};
use crate::depth::{depth_at, lemma_same_states, matches_grid, pixel_state, store, FARTHEST};
use crate::image::{Color, Image};
use crate::vectors::Vec4;

verus! {

/// The three vertices in ascending order of `y`; vertices of equal `y` keep
/// their order.
pub open spec fn sort_by_y(v0: Vec4, v1: Vec4, v2: Vec4) -> (Vec4, Vec4, Vec4) {
    let (a, b) = if v0.y > v1.y {
        (v1, v0)
    } else {
        (v0, v1)
    };
    let (b, c) = if b.y > v2.y {
        (v2, b)
    } else {
        (b, v2)
    };
    let (a, b) = if a.y > b.y {
        (b, a)
    } else {
        (a, b)
    };
    (a, b, c)
}

/// The span of row `y` of a triangle whose vertices are ordered from `top` to
/// `bottom`: `(left, left_z, right, right_z)`, the two boundary columns, each
/// with the depth interpolated along its edge. Rows from `top` to `mid` are
/// interpolated from `top`, rows from `mid` to `bottom` from `bottom`.
pub open spec fn row_span(top: Vec4, mid: Vec4, bottom: Vec4, y: int) -> Option<
    (int, int, int, int),
> {
    let ends = if top.y <= y < mid.y {
        Some(
            (
                interpolate(top.x as int, mid.x as int, y - top.y, mid.y - top.y),
                interpolate(top.z as int, mid.z as int, y - top.y, mid.y - top.y),
                interpolate(top.x as int, bottom.x as int, y - top.y, bottom.y - top.y),
                interpolate(top.z as int, bottom.z as int, y - top.y, bottom.y - top.y),
            ),
        )
    } else if mid.y <= y < bottom.y {
        Some(
            (
                interpolate(bottom.x as int, mid.x as int, bottom.y - y, bottom.y - mid.y),
                interpolate(bottom.z as int, mid.z as int, bottom.y - y, bottom.y - mid.y),
                interpolate(bottom.x as int, top.x as int, bottom.y - y, bottom.y - top.y),
                interpolate(bottom.z as int, top.z as int, bottom.y - y, bottom.y - top.y),
            ),
        )
    } else {
        None
    };
    match ends {
        Some((xa, za, xb, zb)) => if xa <= xb {
            Some((xa, za, xb, zb))
        } else {
            Some((xb, zb, xa, za))
        },
        None => None,
    }
}

/// The depth of the fragment at `(x, y)` of a triangle whose vertices are
/// ordered from `top` to `bottom`, if the span of the row holds the column.
pub open spec fn row_fragment(top: Vec4, mid: Vec4, bottom: Vec4, x: int, y: int) -> Option<int> {
    match row_span(top, mid, bottom, y) {
        Some((left, left_z, right, right_z)) => if left <= x < right {
            Some(interpolate(left_z, right_z, x - left, right - left))
        } else {
            None
        },
        None => None,
    }
}

/// The depth of the fragment that the triangle produces at `(x, y)`, if any.
pub open spec fn scan_fragment(v0: Vec4, v1: Vec4, v2: Vec4, x: int, y: int) -> Option<int> {
    let (top, mid, bottom) = sort_by_y(v0, v1, v2);
    row_fragment(top, mid, bottom, x, y)
}

/// The state of a pixel after a fragment of the given color has met it:
/// the fragment replaces color and depth only if its depth is above the
/// stored one.
pub open spec fn scan_state(prev: (Color, i64), frag: Option<int>, color: Color) -> (Color, i64) {
    match frag {
        Some(z) => if z > prev.1 {
            (color, z as i64)
        } else {
            prev
        },
        None => prev,
    }
}

/// Whether `after` and `after_z` are what filling the triangle in `color`
/// over `before` and `before_z` leaves.
pub open spec fn drawn_scanline(
    v0: Vec4,
    v1: Vec4,
    v2: Vec4,
    color: Color,
    before: Image,
    before_z: Seq<i64>,
    after: Image,
    after_z: Seq<i64>,
) -> bool {
    &&& matches_grid(after, after_z)
    &&& after.width == before.width
    &&& after.height == before.height
    &&& forall|x: int, y: int| #[trigger]
        after.contains(x, y) ==> pixel_state(after, after_z, x, y) == scan_state(
            pixel_state(before, before_z, x, y),
            scan_fragment(v0, v1, v2, x, y),
            color,
        )
}

/// The span of a row lies between the smallest and the largest column, and
/// its depths between the smallest and the largest depth, of the vertices.
pub proof fn lemma_span_bounds(top: Vec4, mid: Vec4, bottom: Vec4, y: int)
    requires
        top.y <= mid.y <= bottom.y,
        row_span(top, mid, bottom, y) is Some,
    ensures
        ({
            let (left, left_z, right, right_z) = row_span(top, mid, bottom, y).unwrap();
            &&& min3(top.x as int, mid.x as int, bottom.x as int) <= left <= right <= max3(
                top.x as int,
                mid.x as int,
                bottom.x as int,
            )
            &&& min3(top.z as int, mid.z as int, bottom.z as int) <= left_z <= max3(
                top.z as int,
                mid.z as int,
                bottom.z as int,
            )
            &&& min3(top.z as int, mid.z as int, bottom.z as int) <= right_z <= max3(
                top.z as int,
                mid.z as int,
                bottom.z as int,
            )
        }),
{
    if top.y <= y < mid.y {
        lemma_interpolate_between(top.x as int, mid.x as int, y - top.y, mid.y - top.y);
        lemma_interpolate_between(top.z as int, mid.z as int, y - top.y, mid.y - top.y);
        lemma_interpolate_between(top.x as int, bottom.x as int, y - top.y, bottom.y - top.y);
        lemma_interpolate_between(top.z as int, bottom.z as int, y - top.y, bottom.y - top.y);
    } else {
        lemma_interpolate_between(bottom.x as int, mid.x as int, bottom.y - y, bottom.y - mid.y);
        lemma_interpolate_between(bottom.z as int, mid.z as int, bottom.y - y, bottom.y - mid.y);
        lemma_interpolate_between(bottom.x as int, top.x as int, bottom.y - y, bottom.y - top.y);
        lemma_interpolate_between(bottom.z as int, top.z as int, bottom.y - y, bottom.y - top.y);
    }
}

/// A pixel that yields a fragment lies in the bounding box of the vertices,
/// short of its last row and its last column, and the depth of the fragment
/// lies between the smallest and the largest depth of the vertices.
pub proof fn lemma_scan_fragment_in_box(v0: Vec4, v1: Vec4, v2: Vec4, x: int, y: int)
    requires
        scan_fragment(v0, v1, v2, x, y) is Some,
    ensures
        min3(v0.x as int, v1.x as int, v2.x as int) <= x < max3(
            v0.x as int,
            v1.x as int,
            v2.x as int,
        ),
        min3(v0.y as int, v1.y as int, v2.y as int) <= y < max3(
            v0.y as int,
            v1.y as int,
            v2.y as int,
        ),
        min3(v0.z as int, v1.z as int, v2.z as int) <= scan_fragment(v0, v1, v2, x, y).unwrap()
            <= max3(v0.z as int, v1.z as int, v2.z as int),
{
    let (top, mid, bottom) = sort_by_y(v0, v1, v2);
    lemma_span_bounds(top, mid, bottom, y);
    let (left, left_z, right, right_z) = row_span(top, mid, bottom, y).unwrap();
    lemma_interpolate_between(left_z, right_z, x - left, right - left);
}

fn sort3(v0: Vec4, v1: Vec4, v2: Vec4) -> (r: (Vec4, Vec4, Vec4))
    ensures
        r == sort_by_y(v0, v1, v2),
        r.0.y <= r.1.y <= r.2.y,
{
    let (a, b) = if v0.y > v1.y {
        (v1, v0)
    } else {
        (v0, v1)
    };
    let (b, c) = if b.y > v2.y {
        (v2, b)
    } else {
        (b, v2)
    };
    let (a, b) = if a.y > b.y {
        (b, a)
    } else {
        (a, b)
    };
    (a, b, c)
}

/// The number of steps from `from` up to `to`.
fn steps(from: i64, to: i64) -> (n: u64)
    requires
        from <= to,
    ensures
        n == to - from,
{
    (to as i128 - from as i128) as u64
}

/// Computes the span of row `y`.
fn span_of(top: Vec4, mid: Vec4, bottom: Vec4, y: i64) -> (s: (i64, i64, i64, i64))
    requires
        top.y <= mid.y <= bottom.y,
        top.y <= y < bottom.y,
    ensures
        row_span(top, mid, bottom, y as int) == Some(
            (s.0 as int, s.1 as int, s.2 as int, s.3 as int),
        ),
{
    let (xa, za, xb, zb) = if y < mid.y {
        let n: u64 = steps(top.y, y);
        let short: u64 = steps(top.y, mid.y);
        let long: u64 = steps(top.y, bottom.y);
        (
            lerp(top.x, mid.x, n, short),
            lerp(top.z, mid.z, n, short),
            lerp(top.x, bottom.x, n, long),
            lerp(top.z, bottom.z, n, long),
        )
    } else {
        let n: u64 = steps(y, bottom.y);
        let short: u64 = steps(mid.y, bottom.y);
        let long: u64 = steps(top.y, bottom.y);
        (
            lerp(bottom.x, mid.x, n, short),
            lerp(bottom.z, mid.z, n, short),
            lerp(bottom.x, top.x, n, long),
            lerp(bottom.z, top.z, n, long),
        )
    };
    if xa <= xb {
        (xa, za, xb, zb)
    } else {
        (xb, zb, xa, za)
    }
}

/// Fills the span of row `y`, testing each fragment against the stored depth.
fn fill_row(
    top: Vec4,
    mid: Vec4,
    bottom: Vec4,
    y: usize,
    color: Color,
    img: &mut Image,
    z_buffer: &mut Vec<i64>,
)
    requires
        matches_grid(*old(img), old(z_buffer)@),
        top.y <= mid.y <= bottom.y,
        top.y <= y < bottom.y,
        y < old(img).height,
    ensures
        matches_grid(*final(img), final(z_buffer)@),
        final(img).width == old(img).width,
        final(img).height == old(img).height,
        forall|px: int, py: int| #[trigger]
            final(img).contains(px, py) ==> pixel_state(*final(img), final(z_buffer)@, px, py)
                == if py == y {
                scan_state(
                    pixel_state(*old(img), old(z_buffer)@, px, py),
                    row_fragment(top, mid, bottom, px, py),
                    color,
                )
            } else {
                pixel_state(*old(img), old(z_buffer)@, px, py)
            },
{
    let ghost img0 = *img;
    let ghost z0 = z_buffer@;
    let (left, left_z, right, right_z) = span_of(top, mid, bottom, y as i64);
    let first: usize = index_within(left, img.width);
    let last: usize = index_within(right, img.width);
    let mut x: usize = first;
    while x < last
        invariant
            matches_grid(*img, z_buffer@),
            img.width == img0.width,
            img.height == img0.height,
            y < img.height,
            row_span(top, mid, bottom, y as int) == Some(
                (left as int, left_z as int, right as int, right_z as int),
            ),
            first == clamp_index(left as int, img.width as int),
            last == clamp_index(right as int, img.width as int),
            left <= right,
            first <= x <= last,
            forall|px: int, py: int| #[trigger]
                img.contains(px, py) ==> pixel_state(*img, z_buffer@, px, py) == if py == y
                    && first <= px < x {
                    scan_state(
                        pixel_state(img0, z0, px, py),
                        row_fragment(top, mid, bottom, px, py),
                        color,
                    )
                } else {
                    pixel_state(img0, z0, px, py)
                },
        decreases last - x,
    {
        let ghost prev = *img;
        let z: i64 = lerp(left_z, right_z, steps(left, x as i64), steps(left, right));
        assert(row_fragment(top, mid, bottom, x as int, y as int) == Some(z as int));
        if z > depth_at(img, z_buffer, x, y) {
            store(img, z_buffer, x, y, color, z);
        }
        assert forall|px: int, py: int| #[trigger] img.contains(px, py) implies pixel_state(
            *img,
            z_buffer@,
            px,
            py,
        ) == if py == y && first <= px < x + 1 {
            scan_state(
                pixel_state(img0, z0, px, py),
                row_fragment(top, mid, bottom, px, py),
                color,
            )
        } else {
            pixel_state(img0, z0, px, py)
        } by {
            assert(prev.contains(px, py));
        }
        x = x + 1;
    }
}

/// Fills the triangle `v0`, `v1`, `v2`, given in pixel coordinates with a
/// depth each, in one color. Every pixel of the grid that the triangle covers
/// and whose interpolated depth is above the stored one takes the color, and
/// its depth cell takes the new depth; every other pixel and cell keeps its
/// value. The depth of each vertex is above `FARTHEST`, the depth of a fresh
/// cell, so that every fragment passes where nothing was drawn.
pub fn fill_triangle_scanline(
    v0: Vec4,
    v1: Vec4,
    v2: Vec4,
    color: Color,
    img: &mut Image,
    z_buffer: &mut Vec<i64>,
)
    requires
        matches_grid(*old(img), old(z_buffer)@),
        v0.z > FARTHEST,
        v1.z > FARTHEST,
        v2.z > FARTHEST,
    ensures
        drawn_scanline(v0, v1, v2, color, *old(img), old(z_buffer)@, *final(img), final(z_buffer)@),
{
    let ghost img0 = *img;
    let ghost z0 = z_buffer@;
    let (top, mid, bottom) = sort3(v0, v1, v2);
    let first: usize = index_within(top.y, img.height);
    let last: usize = index_within(bottom.y, img.height);
    let mut y: usize = first;
    while y < last
        invariant
            matches_grid(*img, z_buffer@),
            img.width == img0.width,
            img.height == img0.height,
            (top, mid, bottom) == sort_by_y(v0, v1, v2),
            top.y <= mid.y <= bottom.y,
            first == clamp_index(top.y as int, img.height as int),
            last == clamp_index(bottom.y as int, img.height as int),
            first <= y <= last,
            forall|px: int, py: int| #[trigger]
                img.contains(px, py) ==> pixel_state(*img, z_buffer@, px, py) == if first <= py
                    < y {
                    scan_state(
                        pixel_state(img0, z0, px, py),
                        scan_fragment(v0, v1, v2, px, py),
                        color,
                    )
                } else {
                    pixel_state(img0, z0, px, py)
                },
        decreases last - y,
    {
        let ghost prev = *img;
        fill_row(top, mid, bottom, y, color, img, z_buffer);
        assert forall|px: int, py: int| #[trigger] img.contains(px, py) implies pixel_state(
            *img,
            z_buffer@,
            px,
            py,
        ) == if first <= py < y + 1 {
            scan_state(pixel_state(img0, z0, px, py), scan_fragment(v0, v1, v2, px, py), color)
        } else {
            pixel_state(img0, z0, px, py)
        } by {
            assert(prev.contains(px, py));
        }
        y = y + 1;
    }
}

/// Where nothing was drawn, every fragment of a triangle whose vertices have
/// depths above `FARTHEST` passes the depth test.
pub proof fn lemma_scanline_first_fragment_passes(
    v0: Vec4,
    v1: Vec4,
    v2: Vec4,
    color: Color,
    prev: Color,
    x: int,
    y: int,
)
    requires
        v0.z > FARTHEST,
        v1.z > FARTHEST,
        v2.z > FARTHEST,
        scan_fragment(v0, v1, v2, x, y) is Some,
    ensures
        scan_state((prev, FARTHEST), scan_fragment(v0, v1, v2, x, y), color) == (
            color,
            scan_fragment(v0, v1, v2, x, y).unwrap() as i64,
        ),
{
    lemma_scan_fragment_in_box(v0, v1, v2, x, y);
}

/// Filling a triangle leaves every pixel outside the bounding box of its
/// vertices as it was, color and depth.
pub proof fn lemma_scanline_stays_in_box(
    v0: Vec4,
    v1: Vec4,
    v2: Vec4,
    color: Color,
    before: Image,
    before_z: Seq<i64>,
    after: Image,
    after_z: Seq<i64>,
    x: int,
    y: int,
)
    requires
        drawn_scanline(v0, v1, v2, color, before, before_z, after, after_z),
        after.contains(x, y),
        !(min3(v0.x as int, v1.x as int, v2.x as int) <= x <= max3(
            v0.x as int,
            v1.x as int,
            v2.x as int,
        ) && min3(v0.y as int, v1.y as int, v2.y as int) <= y <= max3(
            v0.y as int,
            v1.y as int,
            v2.y as int,
        )),
    ensures
        pixel_state(after, after_z, x, y) == pixel_state(before, before_z, x, y),
{
    if scan_fragment(v0, v1, v2, x, y) is Some {
        lemma_scan_fragment_in_box(v0, v1, v2, x, y);
    }
}

/// Filling a triangle a second time over its own result changes nothing:
/// neither a byte of the pixel grid nor a depth.
pub proof fn lemma_scanline_idempotent(
    v0: Vec4,
    v1: Vec4,
    v2: Vec4,
    color: Color,
    start: Image,
    start_z: Seq<i64>,
    once: Image,
    once_z: Seq<i64>,
    twice: Image,
    twice_z: Seq<i64>,
)
    requires
        drawn_scanline(v0, v1, v2, color, start, start_z, once, once_z),
        drawn_scanline(v0, v1, v2, color, once, once_z, twice, twice_z),
    ensures
        twice.pixels@ == once.pixels@,
        twice_z == once_z,
{
    assert forall|x: int, y: int| #[trigger] twice.contains(x, y) implies pixel_state(
        twice,
        twice_z,
        x,
        y,
    ) == pixel_state(once, once_z, x, y) by {
        assert(once.contains(x, y));
        if scan_fragment(v0, v1, v2, x, y) is Some {
            lemma_scan_fragment_in_box(v0, v1, v2, x, y);
        }
    }
    lemma_same_states(twice, twice_z, once, once_z);
}

/// Two triangles whose fragments differ in depth wherever both cover a pixel
/// leave the same pixel grid and the same depths in either order of filling.
pub proof fn lemma_scanline_order(
    a0: Vec4,
    a1: Vec4,
    a2: Vec4,
    a_color: Color,
    b0: Vec4,
    b1: Vec4,
    b2: Vec4,
    b_color: Color,
    start: Image,
    start_z: Seq<i64>,
    first_a: Image,
    first_a_z: Seq<i64>,
    a_then_b: Image,
    a_then_b_z: Seq<i64>,
    first_b: Image,
    first_b_z: Seq<i64>,
    b_then_a: Image,
    b_then_a_z: Seq<i64>,
)
    requires
        drawn_scanline(a0, a1, a2, a_color, start, start_z, first_a, first_a_z),
        drawn_scanline(b0, b1, b2, b_color, first_a, first_a_z, a_then_b, a_then_b_z),
        drawn_scanline(b0, b1, b2, b_color, start, start_z, first_b, first_b_z),
        drawn_scanline(a0, a1, a2, a_color, first_b, first_b_z, b_then_a, b_then_a_z),
        forall|x: int, y: int| #[trigger]
            start.contains(x, y) && scan_fragment(a0, a1, a2, x, y) is Some ==> scan_fragment(
                a0,
                a1,
                a2,
                x,
                y,
            ) != scan_fragment(b0, b1, b2, x, y),
    ensures
        a_then_b.pixels@ == b_then_a.pixels@,
        a_then_b_z == b_then_a_z,
{
    assert forall|x: int, y: int| #[trigger] a_then_b.contains(x, y) implies pixel_state(
        a_then_b,
        a_then_b_z,
        x,
        y,
    ) == pixel_state(b_then_a, b_then_a_z, x, y) by {
        assert(start.contains(x, y));
        assert(first_a.contains(x, y));
        assert(first_b.contains(x, y));
        assert(b_then_a.contains(x, y));
        if scan_fragment(a0, a1, a2, x, y) is Some {
            lemma_scan_fragment_in_box(a0, a1, a2, x, y);
        }
        if scan_fragment(b0, b1, b2, x, y) is Some {
            lemma_scan_fragment_in_box(b0, b1, b2, x, y);
        }
    }
    lemma_same_states(a_then_b, a_then_b_z, b_then_a, b_then_a_z);
}

/// Where two triangles cover a pixel, the one with the larger depth there
/// gives the pixel its color in either order of filling, unless the pixel
/// already held a depth that is not below it.
pub proof fn lemma_scanline_nearer_visible(
    a0: Vec4,
    a1: Vec4,
    a2: Vec4,
    a_color: Color,
    b0: Vec4,
    b1: Vec4,
    b2: Vec4,
    b_color: Color,
    start: Image,
    start_z: Seq<i64>,
    first_a: Image,
    first_a_z: Seq<i64>,
    a_then_b: Image,
    a_then_b_z: Seq<i64>,
    first_b: Image,
    first_b_z: Seq<i64>,
    b_then_a: Image,
    b_then_a_z: Seq<i64>,
    x: int,
    y: int,
)
    requires
        drawn_scanline(a0, a1, a2, a_color, start, start_z, first_a, first_a_z),
        drawn_scanline(b0, b1, b2, b_color, first_a, first_a_z, a_then_b, a_then_b_z),
        drawn_scanline(b0, b1, b2, b_color, start, start_z, first_b, first_b_z),
        drawn_scanline(a0, a1, a2, a_color, first_b, first_b_z, b_then_a, b_then_a_z),
        start.contains(x, y),
        scan_fragment(a0, a1, a2, x, y) is Some,
        scan_fragment(b0, b1, b2, x, y) is Some,
        scan_fragment(a0, a1, a2, x, y).unwrap() > scan_fragment(b0, b1, b2, x, y).unwrap(),
        scan_fragment(a0, a1, a2, x, y).unwrap() > pixel_state(start, start_z, x, y).1,
    ensures
        a_then_b.color_at(x, y) == a_color,
        b_then_a.color_at(x, y) == a_color,
        pixel_state(a_then_b, a_then_b_z, x, y).1 == scan_fragment(a0, a1, a2, x, y).unwrap(),
        pixel_state(b_then_a, b_then_a_z, x, y).1 == scan_fragment(a0, a1, a2, x, y).unwrap(),
{
    assert(first_a.contains(x, y));
    assert(first_b.contains(x, y));
    assert(a_then_b.contains(x, y));
    assert(b_then_a.contains(x, y));
    lemma_scan_fragment_in_box(a0, a1, a2, x, y);
    lemma_scan_fragment_in_box(b0, b1, b2, x, y);
}

} // verus!
