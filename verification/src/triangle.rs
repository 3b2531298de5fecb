//! The edge-function triangle filler with per-pixel shading and depth test.
//!
//! A pixel belongs to the triangle when the three edge values of its position
//! are all at most zero. The edge values, taken over the edge value of the
//! whole triangle, are the barycentric weights of the pixel; they are handed
//! to the shader as numerators with their common denominator.

use vstd::prelude::*;
use crate::arith::{clamp_index, index_within, lemma_mul_bound, max3, min3, quotient};
use crate::depth::{depth_at, lemma_same_states, matches_grid, pixel_state, store, FARTHEST};
use crate::image::{Color, Image};
use crate::vectors::{Vec2, Vec4};

verus! {

/// Largest magnitude of a screen coordinate or depth that the filler accepts.
/// It keeps the depth quotient of every pixel inside 128 bits.
pub const COORD_LIMIT: i64 = 0x100_0000;

/// Largest magnitude of an edge value between positions within `COORD_LIMIT`.
pub const WEIGHT_LIMIT: i64 = 0x8_0000_0000_0000;

/// Whether the screen coordinates and the depth of `v` are within `COORD_LIMIT`.
pub open spec fn in_range(v: Vec4) -> bool {
    &&& -COORD_LIMIT <= v.x <= COORD_LIMIT
    &&& -COORD_LIMIT <= v.y <= COORD_LIMIT
    &&& -COORD_LIMIT <= v.z <= COORD_LIMIT
}

/// The edge function of the point `(px, py)` against the directed edge from `a` to `b`.
pub open spec fn edge_value(px: int, py: int, a: Vec4, b: Vec4) -> int {
    (px - a.x) * (b.y - a.y) - (py - a.y) * (b.x - a.x)
}

/// The edge value of the whole triangle: the common denominator of the weights.
pub open spec fn area(v0: Vec4, v1: Vec4, v2: Vec4) -> int {
    edge_value(v0.x as int, v0.y as int, v1, v2)
}

/// Numerator of the barycentric weight of `v0` at `(x, y)`.
pub open spec fn weight0(v0: Vec4, v1: Vec4, v2: Vec4, x: int, y: int) -> int {
    edge_value(x, y, v1, v2)
}

/// Numerator of the barycentric weight of `v1` at `(x, y)`.
pub open spec fn weight1(v0: Vec4, v1: Vec4, v2: Vec4, x: int, y: int) -> int {
    edge_value(x, y, v2, v0)
}

/// Numerator of the barycentric weight of `v2` at `(x, y)`.
pub open spec fn weight2(v0: Vec4, v1: Vec4, v2: Vec4, x: int, y: int) -> int {
    edge_value(x, y, v0, v1)
}

/// Whether the pixel `(x, y)` lies inside the triangle or on its border.
pub open spec fn covers(v0: Vec4, v1: Vec4, v2: Vec4, x: int, y: int) -> bool {
    &&& weight0(v0, v1, v2, x, y) <= 0
    &&& weight1(v0, v1, v2, x, y) <= 0
    &&& weight2(v0, v1, v2, x, y) <= 0
}

/// Numerator of the depth `1 / (w0/z0 + w1/z1 + w2/z2)` once the fractions
/// are cleared: `area * z0 * z1 * z2`.
pub open spec fn depth_num(v0: Vec4, v1: Vec4, v2: Vec4) -> int {
    area(v0, v1, v2) * v0.z * v1.z * v2.z
}

/// Denominator of the same depth: `e0 * z1 * z2 + e1 * z0 * z2 + e2 * z0 * z1`.
pub open spec fn depth_den(v0: Vec4, v1: Vec4, v2: Vec4, x: int, y: int) -> int {
    weight0(v0, v1, v2, x, y) * v1.z * v2.z + weight1(v0, v1, v2, x, y) * v0.z * v2.z + weight2(
        v0,
        v1,
        v2,
        x,
        y,
    ) * v0.z * v1.z
}

/// A depth quotient brought into the range of a depth cell.
pub open spec fn clamp_depth(q: int) -> i64 {
    if q < i64::MIN {
        i64::MIN
    } else if q > i64::MAX {
        i64::MAX
    } else {
        q as i64
    }
}

/// The depth at a pixel: `depth_num` over `depth_den`, cut toward zero and
/// brought into the range of a depth cell, and zero where the denominator
/// is zero.
pub open spec fn depth_value(v0: Vec4, v1: Vec4, v2: Vec4, x: int, y: int) -> i64 {
    if depth_den(v0, v1, v2, x, y) != 0 {
        clamp_depth(quotient(depth_num(v0, v1, v2), depth_den(v0, v1, v2, x, y)))
    } else {
        0i64
    }
}

/// The depth of the fragment that the triangle produces at `(x, y)`, if any.
/// Every covered pixel of a triangle whose edge value is below zero produces
/// one; a triangle without area produces none.
pub open spec fn fragment(v0: Vec4, v1: Vec4, v2: Vec4, x: int, y: int) -> Option<i64> {
    if covers(v0, v1, v2, x, y) && area(v0, v1, v2) < 0 {
        Some(depth_value(v0, v1, v2, x, y))
    } else {
        None
    }
}

/// Whether `(e0, e1, e2)` can be the weights of a pixel that yields a
/// fragment, over the common denominator `whole`: none is above zero, and
/// they sum to `whole`, which is below zero and within `WEIGHT_LIMIT`.
pub open spec fn fragment_weights(e0: i64, e1: i64, e2: i64, whole: i64) -> bool {
    e0 <= 0 && e1 <= 0 && e2 <= 0 && e0 + e1 + e2 == whole && -WEIGHT_LIMIT <= whole < 0
}

/// Whether the shader can be called on the weights of every fragment.
pub open spec fn accepts_fragments<F: Fn(i64, i64, i64, i64) -> Color>(shader: F) -> bool {
    forall|e0: i64, e1: i64, e2: i64, whole: i64|
        fragment_weights(e0, e1, e2, whole) ==> #[trigger] call_requires(
            shader,
            (e0, e1, e2, whole),
        )
}

/// Whether the shader is a function of the weights: equal weights give one color.
pub open spec fn pure_shader<F: Fn(i64, i64, i64, i64) -> Color>(shader: F) -> bool {
    forall|args: (i64, i64, i64, i64), c1: Color, c2: Color|
        #[trigger] call_ensures(shader, args, c1) && #[trigger] call_ensures(shader, args, c2)
            ==> c1 == c2
}

/// The weights that the shader is called with at `(x, y)`: the three edge
/// values and the edge value of the whole triangle.
pub open spec fn shader_input(v0: Vec4, v1: Vec4, v2: Vec4, x: int, y: int) -> (
    i64,
    i64,
    i64,
    i64,
) {
    (
        weight0(v0, v1, v2, x, y) as i64,
        weight1(v0, v1, v2, x, y) as i64,
        weight2(v0, v1, v2, x, y) as i64,
        area(v0, v1, v2) as i64,
    )
}

/// Whether `next` is the state of pixel `(x, y)` after the triangle has been
/// drawn over `prev`: a fragment whose depth is above the stored one
/// replaces the depth by its own and the color by what the shader returns
/// for the weights of the pixel; otherwise the state stays.
pub open spec fn shaded<F: Fn(i64, i64, i64, i64) -> Color>(
    v0: Vec4,
    v1: Vec4,
    v2: Vec4,
    shader: F,
    prev: (Color, i64),
    next: (Color, i64),
    x: int,
    y: int,
) -> bool {
    match fragment(v0, v1, v2, x, y) {
        Some(z) => if z > prev.1 {
            next.1 == z && call_ensures(shader, shader_input(v0, v1, v2, x, y), next.0)
        } else {
            next == prev
        },
        None => next == prev,
    }
}

/// Whether `after` and `after_z` are what drawing the triangle over `before`
/// and `before_z` leaves: the same grid, every pixel in its shaded state.
pub open spec fn drawn_shaded<F: Fn(i64, i64, i64, i64) -> Color>(
    v0: Vec4,
    v1: Vec4,
    v2: Vec4,
    shader: F,
    before: Image,
    before_z: Seq<i64>,
    after: Image,
    after_z: Seq<i64>,
) -> bool {
    &&& matches_grid(after, after_z)
    &&& after.width == before.width
    &&& after.height == before.height
    &&& forall|x: int, y: int| #[trigger]
        after.contains(x, y) ==> shaded(
            v0,
            v1,
            v2,
            shader,
            pixel_state(before, before_z, x, y),
            pixel_state(after, after_z, x, y),
            x,
            y,
        )
}

/// Evaluates the edge function of `p` against the edge from `e0` to `e1`.
pub fn edge(p: Vec2, e0: Vec4, e1: Vec4) -> (e: i64)
    requires
        -COORD_LIMIT <= p.x <= COORD_LIMIT,
        -COORD_LIMIT <= p.y <= COORD_LIMIT,
        in_range(e0),
        in_range(e1),
    ensures
        e == edge_value(p.x as int, p.y as int, e0, e1),
        -WEIGHT_LIMIT <= e <= WEIGHT_LIMIT,
{
    proof {
        lemma_mul_bound(p.x - e0.x, e1.y - e0.y, 0x200_0000, 0x200_0000);
        lemma_mul_bound(p.y - e0.y, e1.x - e0.x, 0x200_0000, 0x200_0000);
    }
    (p.x - e0.x) * (e1.y - e0.y) - (p.y - e0.y) * (e1.x - e0.x)
}

/// An edge value in coordinates relative to the point it is evaluated at.
pub proof fn lemma_edge_relative(px: int, py: int, a: Vec4, b: Vec4)
    ensures
        edge_value(px, py, a, b) == (b.x - px) * (a.y - py) - (a.x - px) * (b.y - py),
{
    let (ax, ay) = (a.x - px, a.y - py);
    let (bx, by) = (b.x - px, b.y - py);
    assert((0 - ax) * (by - ay) - (0 - ay) * (bx - ax) == bx * ay - ax * by) by (nonlinear_arith);
}

/// The three cross terms of three plane vectors, each weighted by a
/// coordinate of the remaining vector, cancel.
pub proof fn lemma_cross_terms_cancel(a0: int, a1: int, a2: int, b0: int, b1: int, b2: int)
    ensures
        (a2 * b1 - a1 * b2) * a0 + (a0 * b2 - a2 * b0) * a1 + (a1 * b0 - a0 * b1) * a2 == 0,
        (a2 * b1 - a1 * b2) * b0 + (a0 * b2 - a2 * b0) * b1 + (a1 * b0 - a0 * b1) * b2 == 0,
{
    assert((a2 * b1 - a1 * b2) * a0 == a2 * b1 * a0 - a1 * b2 * a0) by (nonlinear_arith);
    assert((a0 * b2 - a2 * b0) * a1 == a0 * b2 * a1 - a2 * b0 * a1) by (nonlinear_arith);
    assert((a1 * b0 - a0 * b1) * a2 == a1 * b0 * a2 - a0 * b1 * a2) by (nonlinear_arith);
    assert(a2 * b1 * a0 == a0 * b1 * a2) by (nonlinear_arith);
    assert(a1 * b2 * a0 == a0 * b2 * a1) by (nonlinear_arith);
    assert(a2 * b0 * a1 == a1 * b0 * a2) by (nonlinear_arith);
    assert((a2 * b1 - a1 * b2) * b0 == a2 * b1 * b0 - a1 * b2 * b0) by (nonlinear_arith);
    assert((a0 * b2 - a2 * b0) * b1 == a0 * b2 * b1 - a2 * b0 * b1) by (nonlinear_arith);
    assert((a1 * b0 - a0 * b1) * b2 == a1 * b0 * b2 - a0 * b1 * b2) by (nonlinear_arith);
    assert(a2 * b1 * b0 == a2 * b0 * b1) by (nonlinear_arith);
    assert(a1 * b2 * b0 == a1 * b0 * b2) by (nonlinear_arith);
    assert(a0 * b2 * b1 == a0 * b1 * b2) by (nonlinear_arith);
}

/// The three weights of a position sum to the edge value of the triangle:
/// as fractions of it they sum to one.
pub proof fn lemma_weights_sum(v0: Vec4, v1: Vec4, v2: Vec4, x: int, y: int)
    ensures
        weight0(v0, v1, v2, x, y) + weight1(v0, v1, v2, x, y) + weight2(v0, v1, v2, x, y) == area(
            v0,
            v1,
            v2,
        ),
{
    let (x0, y0) = (v0.x as int, v0.y as int);
    let (x1, y1) = (v1.x as int, v1.y as int);
    let (x2, y2) = (v2.x as int, v2.y as int);
    assert((x - x1) * (y2 - y1) == x * y2 - x * y1 - x1 * y2 + x1 * y1) by (nonlinear_arith);
    assert((y - y1) * (x2 - x1) == y * x2 - y * x1 - y1 * x2 + y1 * x1) by (nonlinear_arith);
    assert((x - x2) * (y0 - y2) == x * y0 - x * y2 - x2 * y0 + x2 * y2) by (nonlinear_arith);
    assert((y - y2) * (x0 - x2) == y * x0 - y * x2 - y2 * x0 + y2 * x2) by (nonlinear_arith);
    assert((x - x0) * (y1 - y0) == x * y1 - x * y0 - x0 * y1 + x0 * y0) by (nonlinear_arith);
    assert((y - y0) * (x1 - x0) == y * x1 - y * x0 - y0 * x1 + y0 * x0) by (nonlinear_arith);
    assert((x0 - x1) * (y2 - y1) == x0 * y2 - x0 * y1 - x1 * y2 + x1 * y1) by (nonlinear_arith);
    assert((y0 - y1) * (x2 - x1) == y0 * x2 - y0 * x1 - y1 * x2 + y1 * x1) by (nonlinear_arith);
    assert(x1 * y1 == y1 * x1 && x2 * y2 == y2 * x2 && x0 * y0 == y0 * x0) by (nonlinear_arith);
    assert(x2 * y0 == y0 * x2 && y2 * x0 == x0 * y2 && x0 * y1 == y1 * x0 && y0 * x1 == x1 * y0)
        by (nonlinear_arith);
}

/// A position is the combination of the three vertices by its weights.
pub proof fn lemma_weights_locate(v0: Vec4, v1: Vec4, v2: Vec4, x: int, y: int)
    ensures
        area(v0, v1, v2) * x == weight0(v0, v1, v2, x, y) * v0.x + weight1(v0, v1, v2, x, y) * v1.x
            + weight2(v0, v1, v2, x, y) * v2.x,
        area(v0, v1, v2) * y == weight0(v0, v1, v2, x, y) * v0.y + weight1(v0, v1, v2, x, y) * v1.y
            + weight2(v0, v1, v2, x, y) * v2.y,
{
    let e0 = weight0(v0, v1, v2, x, y);
    let e1 = weight1(v0, v1, v2, x, y);
    let e2 = weight2(v0, v1, v2, x, y);
    let s = area(v0, v1, v2);
    let (a0, b0) = (v0.x - x, v0.y - y);
    let (a1, b1) = (v1.x - x, v1.y - y);
    let (a2, b2) = (v2.x - x, v2.y - y);
    lemma_weights_sum(v0, v1, v2, x, y);
    lemma_edge_relative(x, y, v1, v2);
    lemma_edge_relative(x, y, v2, v0);
    lemma_edge_relative(x, y, v0, v1);
    lemma_cross_terms_cancel(a0, a1, a2, b0, b1, b2);
    assert(e0 * a0 + e1 * a1 + e2 * a2 == 0);
    assert(e0 * b0 + e1 * b1 + e2 * b2 == 0);
    assert(e0 * (a0 + x) == e0 * a0 + e0 * x && e1 * (a1 + x) == e1 * a1 + e1 * x && e2 * (a2 + x)
        == e2 * a2 + e2 * x && (e0 + e1 + e2) * x == e0 * x + e1 * x + e2 * x) by (nonlinear_arith);
    assert(e0 * (b0 + y) == e0 * b0 + e0 * y && e1 * (b1 + y) == e1 * b1 + e1 * y && e2 * (b2 + y)
        == e2 * b2 + e2 * y && (e0 + e1 + e2) * y == e0 * y + e1 * y + e2 * y) by (nonlinear_arith);
    assert(a0 + x == v0.x && a1 + x == v1.x && a2 + x == v2.x);
    assert(b0 + y == v0.y && b1 + y == v1.y && b2 + y == v2.y);
}

/// A combination of three values by weights of one sign, not all zero, lies
/// between the smallest and the largest of the values.
pub proof fn lemma_combination_between(s: int, e0: int, e1: int, e2: int, p: int, a: int, b: int, c: int)
    by (nonlinear_arith)
    requires
        e0 <= 0,
        e1 <= 0,
        e2 <= 0,
        e0 + e1 + e2 == s,
        s != 0,
        s * p == e0 * a + e1 * b + e2 * c,
    ensures
        min3(a, b, c) <= p <= max3(a, b, c),
{
    let lo = min3(a, b, c);
    let hi = max3(a, b, c);
    assert(e0 * a <= e0 * lo && e1 * b <= e1 * lo && e2 * c <= e2 * lo);
    assert(e0 * a >= e0 * hi && e1 * b >= e1 * hi && e2 * c >= e2 * hi);
    assert(s * p <= s * lo);
    assert(s * p >= s * hi);
    assert(s < 0);
}

/// A pixel that yields a fragment lies in the bounding box of the vertices.
pub proof fn lemma_fragment_in_box(v0: Vec4, v1: Vec4, v2: Vec4, x: int, y: int)
    requires
        fragment(v0, v1, v2, x, y) is Some,
    ensures
        min3(v0.x as int, v1.x as int, v2.x as int) <= x <= max3(
            v0.x as int,
            v1.x as int,
            v2.x as int,
        ),
        min3(v0.y as int, v1.y as int, v2.y as int) <= y <= max3(
            v0.y as int,
            v1.y as int,
            v2.y as int,
        ),
{
    let e0 = weight0(v0, v1, v2, x, y);
    let e1 = weight1(v0, v1, v2, x, y);
    let e2 = weight2(v0, v1, v2, x, y);
    let s = area(v0, v1, v2);
    lemma_weights_sum(v0, v1, v2, x, y);
    lemma_weights_locate(v0, v1, v2, x, y);
    lemma_combination_between(s, e0, e1, e2, x, v0.x as int, v1.x as int, v2.x as int);
    lemma_combination_between(s, e0, e1, e2, y, v0.y as int, v1.y as int, v2.y as int);
}

fn min_of(a: i64, b: i64, c: i64) -> (m: i64)
    ensures
        m == min3(a as int, b as int, c as int),
{
    let bc: i64 = if b <= c {
        b
    } else {
        c
    };
    if a <= bc {
        a
    } else {
        bc
    }
}

fn max_of(a: i64, b: i64, c: i64) -> (m: i64)
    ensures
        m == max3(a as int, b as int, c as int),
{
    let bc: i64 = if b >= c {
        b
    } else {
        c
    };
    if a >= bc {
        a
    } else {
        bc
    }
}

fn clamp(q: i128) -> (z: i64)
    ensures
        z == clamp_depth(q as int),
{
    if q < i64::MIN as i128 {
        i64::MIN
    } else if q > i64::MAX as i128 {
        i64::MAX
    } else {
        q as i64
    }
}

/// Shades the pixel `(i, j)`: evaluates the three edge values, and where the
/// pixel yields a fragment that passes the depth test, stores its color and depth.
fn shade_pixel<F: Fn(i64, i64, i64, i64) -> Color>(
    v0: Vec4,
    v1: Vec4,
    v2: Vec4,
    whole: i64,
    num: i128,
    i: usize,
    j: usize,
    img: &mut Image,
    z_buffer: &mut Vec<i64>,
    shader: &F,
)
    requires
        matches_grid(*old(img), old(z_buffer)@),
        in_range(v0),
        in_range(v1),
        in_range(v2),
        old(img).contains(i as int, j as int),
        i <= COORD_LIMIT,
        j <= COORD_LIMIT,
        whole == area(v0, v1, v2),
        -WEIGHT_LIMIT <= whole <= WEIGHT_LIMIT,
        num == depth_num(v0, v1, v2),
        -0x800_0000_0000_0000_0000_0000_0000_0000 <= num <= 0x800_0000_0000_0000_0000_0000_0000_0000,
        accepts_fragments(*shader),
    ensures
        matches_grid(*final(img), final(z_buffer)@),
        final(img).width == old(img).width,
        final(img).height == old(img).height,
        forall|x: int, y: int| #[trigger]
            final(img).contains(x, y) ==> if x == i && y == j {
                shaded(
                    v0,
                    v1,
                    v2,
                    *shader,
                    pixel_state(*old(img), old(z_buffer)@, x, y),
                    pixel_state(*final(img), final(z_buffer)@, x, y),
                    x,
                    y,
                )
            } else {
                pixel_state(*final(img), final(z_buffer)@, x, y) == pixel_state(
                    *old(img),
                    old(z_buffer)@,
                    x,
                    y,
                )
            },
{
    let p = Vec2::new(i as i64, j as i64);
    let e0: i64 = edge(p, v1, v2);
    let e1: i64 = edge(p, v2, v0);
    let e2: i64 = edge(p, v0, v1);
    if e0 <= 0 && e1 <= 0 && e2 <= 0 && whole < 0 {
        proof {
            let l = COORD_LIMIT as int;
            lemma_mul_bound(e0 as int, v1.z as int, WEIGHT_LIMIT as int, l);
            lemma_mul_bound(e0 * v1.z, v2.z as int, WEIGHT_LIMIT * l, l);
            lemma_mul_bound(e1 as int, v0.z as int, WEIGHT_LIMIT as int, l);
            lemma_mul_bound(e1 * v0.z, v2.z as int, WEIGHT_LIMIT * l, l);
            lemma_mul_bound(e2 as int, v0.z as int, WEIGHT_LIMIT as int, l);
            lemma_mul_bound(e2 * v0.z, v1.z as int, WEIGHT_LIMIT * l, l);
        }
        let t0: i128 = (e0 as i128) * (v1.z as i128) * (v2.z as i128);
        let t1: i128 = (e1 as i128) * (v0.z as i128) * (v2.z as i128);
        let t2: i128 = (e2 as i128) * (v0.z as i128) * (v1.z as i128);
        let den: i128 = t0 + t1 + t2;
        assert(den == depth_den(v0, v1, v2, i as int, j as int));
        let z: i64 = if den > 0 {
            clamp(num / den)
        } else if den < 0 {
            clamp((-num) / (-den))
        } else {
            0
        };
        assert(fragment(v0, v1, v2, i as int, j as int) == Some(z));
        if z > depth_at(img, z_buffer, i, j) {
            proof {
                lemma_weights_sum(v0, v1, v2, i as int, j as int);
            }
            let color = shader(e0, e1, e2, whole);
            store(img, z_buffer, i, j, color, z);
        }
    }
}

/// Fills the triangle `v0`, `v1`, `v2`, given in pixel coordinates with a
/// depth each, into the pixel grid and its depth grid. Every pixel of the
/// grid that the triangle covers and whose depth is above the stored one
/// takes the color that the shader returns for its weights, and the depth
/// cell takes the new depth; every other pixel and cell keeps its value.
pub fn rasterize<F: Fn(i64, i64, i64, i64) -> Color>(
    v0: Vec4,
    v1: Vec4,
    v2: Vec4,
    img: &mut Image,
    z_buffer: &mut Vec<i64>,
    fragment_shader: F,
)
    requires
        matches_grid(*old(img), old(z_buffer)@),
        in_range(v0),
        in_range(v1),
        in_range(v2),
        accepts_fragments(fragment_shader),
    ensures
        drawn_shaded(
            v0,
            v1,
            v2,
            fragment_shader,
            *old(img),
            old(z_buffer)@,
            *final(img),
            final(z_buffer)@,
        ),
{
    let ghost img0 = *img;
    let ghost z0 = z_buffer@;
    let min_x: usize = index_within(min_of(v0.x, v1.x, v2.x), img.width);
    let max_x: usize = index_within(max_of(v0.x, v1.x, v2.x) + 1, img.width);
    let min_y: usize = index_within(min_of(v0.y, v1.y, v2.y), img.height);
    let max_y: usize = index_within(max_of(v0.y, v1.y, v2.y) + 1, img.height);
    let whole: i64 = edge(v0.xy(), v1, v2);
    proof {
        let l = COORD_LIMIT as int;
        lemma_mul_bound(whole as int, v0.z as int, WEIGHT_LIMIT as int, l);
        lemma_mul_bound(whole * v0.z, v1.z as int, WEIGHT_LIMIT * l, l);
        lemma_mul_bound(whole * v0.z * v1.z, v2.z as int, WEIGHT_LIMIT * l * l, l);
    }
    let num: i128 = (whole as i128) * (v0.z as i128) * (v1.z as i128) * (v2.z as i128);
    let mut i: usize = min_x;
    while i < max_x
        invariant
            matches_grid(*img, z_buffer@),
            img.width == img0.width,
            img.height == img0.height,
            in_range(v0),
            in_range(v1),
            in_range(v2),
            accepts_fragments(fragment_shader),
            whole == area(v0, v1, v2),
            -WEIGHT_LIMIT <= whole <= WEIGHT_LIMIT,
            num == depth_num(v0, v1, v2),
            -0x800_0000_0000_0000_0000_0000_0000_0000 <= num
                <= 0x800_0000_0000_0000_0000_0000_0000_0000,
            min_x == clamp_index(min3(v0.x as int, v1.x as int, v2.x as int), img.width as int),
            max_x == clamp_index(max3(v0.x as int, v1.x as int, v2.x as int) + 1, img.width as int),
            min_y == clamp_index(min3(v0.y as int, v1.y as int, v2.y as int), img.height as int),
            max_y == clamp_index(max3(v0.y as int, v1.y as int, v2.y as int) + 1, img.height as int),
            min_x <= i <= max_x,
            min_y <= max_y,
            forall|x: int, y: int| #[trigger]
                img.contains(x, y) ==> if min_x <= x < i && min_y <= y < max_y {
                    shaded(
                        v0,
                        v1,
                        v2,
                        fragment_shader,
                        pixel_state(img0, z0, x, y),
                        pixel_state(*img, z_buffer@, x, y),
                        x,
                        y,
                    )
                } else {
                    pixel_state(*img, z_buffer@, x, y) == pixel_state(img0, z0, x, y)
                },
        decreases max_x - i,
    {
        let mut j: usize = min_y;
        while j < max_y
            invariant
                matches_grid(*img, z_buffer@),
                img.width == img0.width,
                img.height == img0.height,
                in_range(v0),
                in_range(v1),
                in_range(v2),
                accepts_fragments(fragment_shader),
                whole == area(v0, v1, v2),
                -WEIGHT_LIMIT <= whole <= WEIGHT_LIMIT,
                num == depth_num(v0, v1, v2),
                -0x800_0000_0000_0000_0000_0000_0000_0000 <= num
                    <= 0x800_0000_0000_0000_0000_0000_0000_0000,
                min_x == clamp_index(min3(v0.x as int, v1.x as int, v2.x as int), img.width as int),
                max_x == clamp_index(
                    max3(v0.x as int, v1.x as int, v2.x as int) + 1,
                    img.width as int,
                ),
                min_y == clamp_index(
                    min3(v0.y as int, v1.y as int, v2.y as int),
                    img.height as int,
                ),
                max_y == clamp_index(
                    max3(v0.y as int, v1.y as int, v2.y as int) + 1,
                    img.height as int,
                ),
                min_x <= i < max_x,
                min_y <= j <= max_y,
                forall|x: int, y: int| #[trigger]
                    img.contains(x, y) ==> if (min_x <= x < i && min_y <= y < max_y) || (x == i
                        && min_y <= y < j) {
                        shaded(
                            v0,
                            v1,
                            v2,
                            fragment_shader,
                            pixel_state(img0, z0, x, y),
                            pixel_state(*img, z_buffer@, x, y),
                            x,
                            y,
                        )
                    } else {
                        pixel_state(*img, z_buffer@, x, y) == pixel_state(img0, z0, x, y)
                    },
            decreases max_y - j,
        {
            let ghost prev = *img;
            shade_pixel(v0, v1, v2, whole, num, i, j, img, z_buffer, &fragment_shader);
            assert forall|x: int, y: int| #[trigger] img.contains(x, y) implies if (min_x <= x < i
                && min_y <= y < max_y) || (x == i && min_y <= y < j + 1) {
                shaded(
                    v0,
                    v1,
                    v2,
                    fragment_shader,
                    pixel_state(img0, z0, x, y),
                    pixel_state(*img, z_buffer@, x, y),
                    x,
                    y,
                )
            } else {
                pixel_state(*img, z_buffer@, x, y) == pixel_state(img0, z0, x, y)
            } by {
                assert(prev.contains(x, y));
            }
            j = j + 1;
        }
        i = i + 1;
    }
    proof {
        assert forall|x: int, y: int| #[trigger] img.contains(x, y) implies shaded(
            v0,
            v1,
            v2,
            fragment_shader,
            pixel_state(img0, z0, x, y),
            pixel_state(*img, z_buffer@, x, y),
            x,
            y,
        ) by {
            if fragment(v0, v1, v2, x, y) is Some {
                lemma_fragment_in_box(v0, v1, v2, x, y);
            }
        }
    }
}

/// Where nothing was drawn, every fragment whose depth is above `FARTHEST`
/// passes the depth test: the pixel takes the depth of the fragment and a
/// color that the shader returns.
pub proof fn lemma_rasterize_first_fragment_passes<F: Fn(i64, i64, i64, i64) -> Color>(
    v0: Vec4,
    v1: Vec4,
    v2: Vec4,
    shader: F,
    prev: Color,
    next: (Color, i64),
    x: int,
    y: int,
)
    requires
        fragment(v0, v1, v2, x, y) is Some,
        fragment(v0, v1, v2, x, y).unwrap() > FARTHEST,
        shaded(v0, v1, v2, shader, (prev, FARTHEST), next, x, y),
    ensures
        next.1 == fragment(v0, v1, v2, x, y).unwrap(),
        call_ensures(shader, shader_input(v0, v1, v2, x, y), next.0),
{
}

/// Drawing a triangle leaves every pixel outside the bounding box of its
/// vertices as it was, color and depth.
pub proof fn lemma_rasterize_stays_in_box<F: Fn(i64, i64, i64, i64) -> Color>(
    v0: Vec4,
    v1: Vec4,
    v2: Vec4,
    shader: F,
    before: Image,
    before_z: Seq<i64>,
    after: Image,
    after_z: Seq<i64>,
    x: int,
    y: int,
)
    requires
        drawn_shaded(v0, v1, v2, shader, before, before_z, after, after_z),
        after.contains(x, y),
        !(min3(v0.x as int, v1.x as int, v2.x as int) <= x <= max3(
            v0.x as int,
            v1.x as int,
            v2.x as int,
        ) && min3(v0.y as int, v1.y as int, v2.y as int) <= y <= max3(
            v0.y as int,
            v1.y as int,
            v2.y as int,
        )),
    ensures
        pixel_state(after, after_z, x, y) == pixel_state(before, before_z, x, y),
{
    if fragment(v0, v1, v2, x, y) is Some {
        lemma_fragment_in_box(v0, v1, v2, x, y);
    }
}

/// At each vertex of the triangle the weight of that vertex is the whole
/// edge value and the other two weights are zero: as fractions, one and zero.
pub proof fn lemma_weights_at_vertices(v0: Vec4, v1: Vec4, v2: Vec4)
    ensures
        weight0(v0, v1, v2, v0.x as int, v0.y as int) == area(v0, v1, v2),
        weight1(v0, v1, v2, v0.x as int, v0.y as int) == 0,
        weight2(v0, v1, v2, v0.x as int, v0.y as int) == 0,
        weight0(v0, v1, v2, v1.x as int, v1.y as int) == 0,
        weight1(v0, v1, v2, v1.x as int, v1.y as int) == area(v0, v1, v2),
        weight2(v0, v1, v2, v1.x as int, v1.y as int) == 0,
        weight0(v0, v1, v2, v2.x as int, v2.y as int) == 0,
        weight1(v0, v1, v2, v2.x as int, v2.y as int) == 0,
        weight2(v0, v1, v2, v2.x as int, v2.y as int) == area(v0, v1, v2),
{
    lemma_weights_sum(v0, v1, v2, v0.x as int, v0.y as int);
    lemma_weights_sum(v0, v1, v2, v1.x as int, v1.y as int);
    lemma_weights_sum(v0, v1, v2, v2.x as int, v2.y as int);
    assert((v0.x - v2.x) * (v0.y - v2.y) == (v0.y - v2.y) * (v0.x - v2.x)) by (nonlinear_arith);
    assert((v1.x - v0.x) * (v1.y - v0.y) == (v1.y - v0.y) * (v1.x - v0.x)) by (nonlinear_arith);
    assert((v2.x - v1.x) * (v2.y - v1.y) == (v2.y - v1.y) * (v2.x - v1.x)) by (nonlinear_arith);
}

/// Drawing a triangle a second time over its own result changes nothing:
/// neither a byte of the pixel grid nor a depth.
pub proof fn lemma_rasterize_idempotent<F: Fn(i64, i64, i64, i64) -> Color>(
    v0: Vec4,
    v1: Vec4,
    v2: Vec4,
    shader: F,
    start: Image,
    start_z: Seq<i64>,
    once: Image,
    once_z: Seq<i64>,
    twice: Image,
    twice_z: Seq<i64>,
)
    requires
        drawn_shaded(v0, v1, v2, shader, start, start_z, once, once_z),
        drawn_shaded(v0, v1, v2, shader, once, once_z, twice, twice_z),
    ensures
        twice.pixels@ == once.pixels@,
        twice_z == once_z,
{
    assert forall|x: int, y: int| #[trigger] twice.contains(x, y) implies pixel_state(
        twice,
        twice_z,
        x,
        y,
    ) == pixel_state(once, once_z, x, y) by {
        assert(once.contains(x, y));
    }
    lemma_same_states(twice, twice_z, once, once_z);
}

/// Two triangles, each with a shader that is a function of the weights,
/// whose fragments differ in depth wherever both cover a pixel, leave the
/// same pixel grid and the same depths in either order of drawing.
pub proof fn lemma_rasterize_order<A: Fn(i64, i64, i64, i64) -> Color, B: Fn(
    i64,
    i64,
    i64,
    i64,
) -> Color>(
    a0: Vec4,
    a1: Vec4,
    a2: Vec4,
    a_shader: A,
    b0: Vec4,
    b1: Vec4,
    b2: Vec4,
    b_shader: B,
    start: Image,
    start_z: Seq<i64>,
    first_a: Image,
    first_a_z: Seq<i64>,
    a_then_b: Image,
    a_then_b_z: Seq<i64>,
    first_b: Image,
    first_b_z: Seq<i64>,
    b_then_a: Image,
    b_then_a_z: Seq<i64>,
)
    requires
        pure_shader(a_shader),
        pure_shader(b_shader),
        drawn_shaded(a0, a1, a2, a_shader, start, start_z, first_a, first_a_z),
        drawn_shaded(b0, b1, b2, b_shader, first_a, first_a_z, a_then_b, a_then_b_z),
        drawn_shaded(b0, b1, b2, b_shader, start, start_z, first_b, first_b_z),
        drawn_shaded(a0, a1, a2, a_shader, first_b, first_b_z, b_then_a, b_then_a_z),
        forall|x: int, y: int| #[trigger]
            start.contains(x, y) && fragment(a0, a1, a2, x, y) is Some ==> fragment(a0, a1, a2, x, y)
                != fragment(b0, b1, b2, x, y),
    ensures
        a_then_b.pixels@ == b_then_a.pixels@,
        a_then_b_z == b_then_a_z,
{
    assert forall|x: int, y: int| #[trigger] a_then_b.contains(x, y) implies pixel_state(
        a_then_b,
        a_then_b_z,
        x,
        y,
    ) == pixel_state(b_then_a, b_then_a_z, x, y) by {
        assert(start.contains(x, y));
        assert(first_a.contains(x, y));
        assert(first_b.contains(x, y));
        assert(b_then_a.contains(x, y));
    }
    lemma_same_states(a_then_b, a_then_b_z, b_then_a, b_then_a_z);
}

/// Where two triangles cover a pixel, the one with the larger depth there
/// gives the pixel its color and its depth in either order of drawing,
/// unless the pixel already held a depth that is not below it.
pub proof fn lemma_nearer_visible<A: Fn(i64, i64, i64, i64) -> Color, B: Fn(
    i64,
    i64,
    i64,
    i64,
) -> Color>(
    a0: Vec4,
    a1: Vec4,
    a2: Vec4,
    a_shader: A,
    b0: Vec4,
    b1: Vec4,
    b2: Vec4,
    b_shader: B,
    start: Image,
    start_z: Seq<i64>,
    first_a: Image,
    first_a_z: Seq<i64>,
    a_then_b: Image,
    a_then_b_z: Seq<i64>,
    first_b: Image,
    first_b_z: Seq<i64>,
    b_then_a: Image,
    b_then_a_z: Seq<i64>,
    x: int,
    y: int,
)
    requires
        drawn_shaded(a0, a1, a2, a_shader, start, start_z, first_a, first_a_z),
        drawn_shaded(b0, b1, b2, b_shader, first_a, first_a_z, a_then_b, a_then_b_z),
        drawn_shaded(b0, b1, b2, b_shader, start, start_z, first_b, first_b_z),
        drawn_shaded(a0, a1, a2, a_shader, first_b, first_b_z, b_then_a, b_then_a_z),
        start.contains(x, y),
        fragment(a0, a1, a2, x, y) is Some,
        fragment(b0, b1, b2, x, y) is Some,
        fragment(a0, a1, a2, x, y).unwrap() > fragment(b0, b1, b2, x, y).unwrap(),
        fragment(a0, a1, a2, x, y).unwrap() > pixel_state(start, start_z, x, y).1,
    ensures
        call_ensures(a_shader, shader_input(a0, a1, a2, x, y), a_then_b.color_at(x, y)),
        call_ensures(a_shader, shader_input(a0, a1, a2, x, y), b_then_a.color_at(x, y)),
        pixel_state(a_then_b, a_then_b_z, x, y).1 == fragment(a0, a1, a2, x, y).unwrap(),
        pixel_state(b_then_a, b_then_a_z, x, y).1 == fragment(a0, a1, a2, x, y).unwrap(),
{
    assert(first_a.contains(x, y));
    assert(first_b.contains(x, y));
    assert(a_then_b.contains(x, y));
    assert(b_then_a.contains(x, y));
}

} // verus!
