//! The step of the render pass that handles one face: the light on the face,
//! the culling of faces that look away from it, and the call of the filler.

use vstd::prelude::*;
use crate::arith::{is_sqrt, lemma_mul_bound, trunc_div};
use crate::depth::matches_grid;
use crate::image::{Color, Image};
use crate::triangle::{accepts_fragments, drawn_shaded, in_range, rasterize, COORD_LIMIT};
use crate::vectors::{row_times, Mat4, Vec3, Vec4, SMALL, WIDE};

verus! {

/// Largest magnitude of a coordinate of a vertex whose face is lit: half of
/// `SMALL`, so that the edges of the face are within `SMALL`.
pub const REACH: i64 = 0x2000_0000;

/// The normal of the face `w0`, `w1`, `w2`, not scaled to any length: the
/// cross product of the edges from `w0` to `w1` and from `w0` to `w2`.
pub open spec fn face_normal(w0: Vec4, w1: Vec4, w2: Vec4) -> (int, int, int) {
    (
        (w1.y - w0.y) * (w2.z - w0.z) - (w1.z - w0.z) * (w2.y - w0.y),
        (w1.z - w0.z) * (w2.x - w0.x) - (w1.x - w0.x) * (w2.z - w0.z),
        (w1.x - w0.x) * (w2.y - w0.y) - (w1.y - w0.y) * (w2.x - w0.x),
    )
}

/// The normal of the face times the direction of the light. It has the sign
/// of the light intensity on the face: above zero where the face looks
/// toward the light.
pub open spec fn facing(w0: Vec4, w1: Vec4, w2: Vec4, light: Vec3) -> int {
    let n = face_normal(w0, w1, w2);
    n.0 * light.x + n.1 * light.y + n.2 * light.z
}

/// The square of the length of the normal of the face.
pub open spec fn normal_square(w0: Vec4, w1: Vec4, w2: Vec4) -> int {
    let n = face_normal(w0, w1, w2);
    n.0 * n.0 + n.1 * n.1 + n.2 * n.2
}

/// Computes the normal of a face.
pub fn normal_of(w0: Vec4, w1: Vec4, w2: Vec4) -> (n: Vec3)
    requires
        w0.within(REACH as int),
        w1.within(REACH as int),
        w2.within(REACH as int),
    ensures
        (n.x as int, n.y as int, n.z as int) == face_normal(w0, w1, w2),
        n.within(WIDE as int),
{
    let e0 = w1.sub(w0);
    let e1 = w2.sub(w0);
    e0.xyz().cross(e1.xyz())
}

/// The light intensity on a face as a fraction `(num, den)`: the normal of
/// the face times the direction of the light, over the length of the normal
/// times `unit`, the length of the direction, the length of the normal being
/// rounded down to an integer. A face without area has the
/// intensity `(0, 0)`, which is not above zero.
pub fn intensity(w0: Vec4, w1: Vec4, w2: Vec4, light: Vec3, unit: i64) -> (r: (i128, i128))
    requires
        w0.within(REACH as int),
        w1.within(REACH as int),
        w2.within(REACH as int),
        light.within(SMALL as int),
        0 < unit <= SMALL,
    ensures
        r.0 == facing(w0, w1, w2, light),
        r.1 >= 0,
        r.1 % (unit as i128) == 0,
        is_sqrt(normal_square(w0, w1, w2), r.1 / (unit as i128)),
        r.0 > 0 ==> r.1 > 0,
{
    let n = normal_of(w0, w1, w2);
    let num: i128 = n.mul(light);
    let length: i64 = n.norm();
    proof {
        lemma_mul_bound(length as int, unit as int, 0x8000_0000_0000_0000, SMALL as int);
        assert(length * unit >= 0 && (length * unit) / (unit as int) == length && (length * unit)
            % (unit as int) == 0) by (nonlinear_arith)
            requires
                length >= 0,
                unit > 0,
        ;
        assert(n.dot_spec(n) == normal_square(w0, w1, w2));
        if length == 0 {
            assert((length + 1) * (length + 1) == 1) by (nonlinear_arith)
                requires
                    length == 0,
            ;
            assert(n.x * n.x + n.y * n.y + n.z * n.z < 1);
            assert(n.x == 0 && n.y == 0 && n.z == 0) by (nonlinear_arith)
                requires
                    n.x * n.x + n.y * n.y + n.z * n.z < 1,
            ;
            assert(n.x * light.x + n.y * light.y + n.z * light.z == 0) by (nonlinear_arith)
                requires
                    n.x == 0 && n.y == 0 && n.z == 0,
            ;
        } else {
            assert(length * unit > 0) by (nonlinear_arith)
                requires
                    length > 0,
                    unit > 0,
            ;
        }
    }
    (num, (length as i128) * (unit as i128))
}

/// Whether the face looks toward the light.
pub fn faces_light(w0: Vec4, w1: Vec4, w2: Vec4, light: Vec3) -> (lit: bool)
    requires
        w0.within(REACH as int),
        w1.within(REACH as int),
        w2.within(REACH as int),
        light.within(WIDE as int),
    ensures
        lit == (facing(w0, w1, w2, light) > 0),
{
    normal_of(w0, w1, w2).mul(light) > 0
}

/// Draws one face of a mesh. `w0`, `w1`, `w2` are its vertices in the space
/// of the light, `s0`, `s1`, `s2` the same vertices on the screen. A face
/// that looks toward the light is filled by `rasterize`; any other face is
/// skipped, and leaves the pixel grid and the depths as they were.
pub fn draw_face<F: Fn(i64, i64, i64, i64) -> Color>(
    w0: Vec4,
    w1: Vec4,
    w2: Vec4,
    light: Vec3,
    s0: Vec4,
    s1: Vec4,
    s2: Vec4,
    img: &mut Image,
    z_buffer: &mut Vec<i64>,
    fragment_shader: F,
)
    requires
        w0.within(REACH as int),
        w1.within(REACH as int),
        w2.within(REACH as int),
        light.within(WIDE as int),
        matches_grid(*old(img), old(z_buffer)@),
        in_range(s0),
        in_range(s1),
        in_range(s2),
        accepts_fragments(fragment_shader),
    ensures
        facing(w0, w1, w2, light) > 0 ==> drawn_shaded(
            s0,
            s1,
            s2,
            fragment_shader,
            *old(img),
            old(z_buffer)@,
            *final(img),
            final(z_buffer)@,
        ),
        facing(w0, w1, w2, light) <= 0 ==> *final(img) == *old(img) && final(z_buffer)@ == old(
            z_buffer,
        )@,
{
    if faces_light(w0, w1, w2, light) {
        rasterize(s0, s1, s2, img, z_buffer, fragment_shader);
    }
}

/// Where the transform puts a vertex on the screen: the product of the
/// matrix and the vertex, with `x` and `y` divided by the `w` of the
/// product, rounded toward zero. The depth `z` is kept as it is.
pub open spec fn projected(cam: Mat4, v: Vec4) -> Vec4 {
    let x = row_times(cam.m00, cam.m01, cam.m02, cam.m03, v);
    let y = row_times(cam.m10, cam.m11, cam.m12, cam.m13, v);
    let z = row_times(cam.m20, cam.m21, cam.m22, cam.m23, v);
    let w = row_times(cam.m30, cam.m31, cam.m32, cam.m33, v);
    Vec4 { x: trunc_div(x, w) as i64, y: trunc_div(y, w) as i64, z: z as i64, w: w as i64 }
}

/// Whether the transform gives the vertex a `w` above zero, so that the
/// vertex has a place on the screen.
pub open spec fn in_front(cam: Mat4, v: Vec4) -> bool {
    row_times(cam.m30, cam.m31, cam.m32, cam.m33, v) > 0
}

/// Transforms a vertex to the screen. A vertex whose `w` is not above zero
/// after the transform has no place there.
pub fn project(cam: Mat4, v: Vec4) -> (r: Option<Vec4>)
    requires
        cam.within(SMALL as int),
        v.within(SMALL as int),
    ensures
        match r {
            Some(s) => in_front(cam, v) && s == projected(cam, v),
            None => !in_front(cam, v),
        },
{
    let p = cam.mul(v);
    if p.w <= 0 {
        return None;
    }
    proof {
        assert(p.x >= 0 ==> 0 <= p.x / p.w <= p.x) by (nonlinear_arith)
            requires
                p.w > 0,
        ;
        assert(p.x < 0 ==> 0 <= (-p.x) / (p.w as int) <= -p.x) by (nonlinear_arith)
            requires
                p.w > 0,
        ;
        assert(p.y >= 0 ==> 0 <= p.y / p.w <= p.y) by (nonlinear_arith)
            requires
                p.w > 0,
        ;
        assert(p.y < 0 ==> 0 <= (-p.y) / (p.w as int) <= -p.y) by (nonlinear_arith)
            requires
                p.w > 0,
        ;
    }
    Some(Vec4 { x: p.x / p.w, y: p.y / p.w, z: p.z, w: p.w })
}

/// Whether the vertex is one that `rasterize` accepts.
pub fn on_screen(v: Vec4) -> (r: bool)
    ensures
        r == in_range(v),
{
    -COORD_LIMIT <= v.x && v.x <= COORD_LIMIT && -COORD_LIMIT <= v.y && v.y <= COORD_LIMIT
        && -COORD_LIMIT <= v.z && v.z <= COORD_LIMIT
}

} // verus!
