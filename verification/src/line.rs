//! The line drawer: a single-color segment between two pixel positions.
//!
//! The segment is walked along its longer axis, one pixel for each position
//! of that axis from the smaller end up to, and not including, the larger
//! end. The position on the other axis is interpolated between the ends.

use vstd::prelude::*;
use crate::arith::{abs, interpolate, lerp};
use crate::image::{Color, Image};

verus! {

/// Whether the segment is longer along `y` than along `x`, so that it is
/// walked along `y`.
pub open spec fn steep(x0: int, y0: int, x1: int, y1: int) -> bool {
    abs(x1 - x0) < abs(y1 - y0)
}

/// The segment as it is walked: `(m0, n0, m1, n1)` with the coordinate on the
/// walked axis first in each end, and the ends ordered so that `m0 <= m1`.
pub open spec fn walk(x0: int, y0: int, x1: int, y1: int) -> (int, int, int, int) {
    let (a0, b0, a1, b1) = if steep(x0, y0, x1, y1) {
        (y0, x0, y1, x1)
    } else {
        (x0, y0, x1, y1)
    };
    if a0 > a1 {
        (a1, b1, a0, b0)
    } else {
        (a0, b0, a1, b1)
    }
}

/// Whether the line from `(x0, y0)` to `(x1, y1)` touches the pixel `(px, py)`.
pub open spec fn on_line(x0: int, y0: int, x1: int, y1: int, px: int, py: int) -> bool {
    let (m0, n0, m1, n1) = walk(x0, y0, x1, y1);
    let (m, n) = if steep(x0, y0, x1, y1) {
        (py, px)
    } else {
        (px, py)
    };
    m0 <= m < m1 && n == interpolate(n0, n1, m - m0, m1 - m0)
}

/// A line touches the same pixels whichever end it is drawn from.
pub proof fn lemma_line_symmetric(x0: int, y0: int, x1: int, y1: int, px: int, py: int)
    ensures
        on_line(x0, y0, x1, y1, px, py) == on_line(x1, y1, x0, y0, px, py),
{
}

/// A line whose ends share the position on the walked axis touches no pixel.
pub proof fn lemma_point_line_empty(x0: int, y0: int, px: int, py: int)
    ensures
        !on_line(x0, y0, x0, y0, px, py),
{
}

/// Draws the line from `(x0, y0)` to `(x1, y1)` in `color`: every pixel of the
/// grid that the line touches takes the color, every other pixel keeps its own.
pub fn line(x0: i64, y0: i64, x1: i64, y1: i64, color: Color, img: &mut Image)
    requires
        old(img).wf(),
    ensures
        final(img).wf(),
        final(img).width == old(img).width,
        final(img).height == old(img).height,
        forall|px: int, py: int| #[trigger]
            final(img).contains(px, py) ==> final(img).color_at(px, py) == if on_line(
                x0 as int,
                y0 as int,
                x1 as int,
                y1 as int,
                px,
                py,
            ) {
                color
            } else {
                old(img).color_at(px, py)
            },
{
    let ghost img0 = *img;
    let delta_x: i128 = x1 as i128 - x0 as i128;
    let delta_y: i128 = y1 as i128 - y0 as i128;
    let abs_x: i128 = if delta_x < 0 {
        -delta_x
    } else {
        delta_x
    };
    let abs_y: i128 = if delta_y < 0 {
        -delta_y
    } else {
        delta_y
    };
    let is_steep: bool = abs_x < abs_y;
    let (a0, b0, a1, b1) = if is_steep {
        (y0, x0, y1, x1)
    } else {
        (x0, y0, x1, y1)
    };
    let (m0, n0, m1, n1) = if a0 > a1 {
        (a1, b1, a0, b0)
    } else {
        (a0, b0, a1, b1)
    };
    assert((m0 as int, n0 as int, m1 as int, n1 as int) == walk(
        x0 as int,
        y0 as int,
        x1 as int,
        y1 as int,
    ));
    let (major_len, minor_len) = if is_steep {
        (img.height, img.width)
    } else {
        (img.width, img.height)
    };
    // Only positions of the walked axis inside the grid can yield a pixel.
    let first: i64 = if m0 < 0 {
        0
    } else {
        m0
    };
    let last: i64 = if m1 as i128 > major_len as i128 {
        major_len as i64
    } else {
        m1
    };
    let mut m: i64 = first;
    while m < last
        invariant
            img.wf(),
            img.width == img0.width,
            img.height == img0.height,
            is_steep == steep(x0 as int, y0 as int, x1 as int, y1 as int),
            (m0 as int, n0 as int, m1 as int, n1 as int) == walk(
                x0 as int,
                y0 as int,
                x1 as int,
                y1 as int,
            ),
            major_len == if is_steep {
                img.height
            } else {
                img.width
            },
            minor_len == if is_steep {
                img.width
            } else {
                img.height
            },
            0 <= first <= m,
            m0 <= first,
            last <= m1,
            last <= major_len,
            first >= last || m <= last,
            forall|px: int, py: int| #[trigger]
                img.contains(px, py) ==> img.color_at(px, py) == if on_line(
                    x0 as int,
                    y0 as int,
                    x1 as int,
                    y1 as int,
                    px,
                    py,
                ) && (if is_steep {
                    py
                } else {
                    px
                }) < m {
                    color
                } else {
                    img0.color_at(px, py)
                },
        decreases last - m,
    {
        let ghost prev = *img;
        let n: i64 = lerp(
            n0,
            n1,
            (m as i128 - m0 as i128) as u64,
            (m1 as i128 - m0 as i128) as u64,
        );
        if n >= 0 && (n as i128) < (minor_len as i128) {
            if is_steep {
                img.set(n as usize, m as usize, color);
            } else {
                img.set(m as usize, n as usize, color);
            }
        }
        assert forall|px: int, py: int| #[trigger] img.contains(px, py) implies img.color_at(px, py)
            == if on_line(x0 as int, y0 as int, x1 as int, y1 as int, px, py) && (if is_steep {
            py
        } else {
            px
        }) < m + 1 {
            color
        } else {
            img0.color_at(px, py)
        } by {
            assert(prev.contains(px, py));
        }
        m = m + 1;
    }
    assert forall|px: int, py: int| #[trigger] img.contains(px, py) implies img.color_at(px, py)
        == if on_line(x0 as int, y0 as int, x1 as int, y1 as int, px, py) {
        color
    } else {
        img0.color_at(px, py)
    } by {}
}

} // verus!
