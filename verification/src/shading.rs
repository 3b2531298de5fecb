//! The shading of one fragment: an attribute interpolated by the weights of
//! the pixel, the nearest texel of a texture, and the light on its color.
//!
//! A shader for `rasterize` is a closure over the attributes of one triangle
//! that calls `shade` with the weights it is given.

use vstd::prelude::*;
use crate::arith::{lemma_mul_bound, lemma_trunc_div_bounds, max3, min3, trunc_div};
use crate::image::{scaled_channel, Color, Image, FACTOR_LIMIT};
use crate::triangle::{fragment_weights, WEIGHT_LIMIT};
use crate::vectors::Vec2;

verus! {

/// The factor that scales the color of a surface that faces away from the
/// light: one hundredth, so that no surface turns fully black.
pub const AMBIENT_DEN: i128 = 100;

/// The attribute interpolated between the values `t0`, `t1`, `t2` of the
/// three vertices by the weights `e0 / whole`, `e1 / whole`, `e2 / whole`,
/// rounded toward zero.
pub open spec fn blended(t0: int, t1: int, t2: int, e0: int, e1: int, e2: int, whole: int) -> int
    recommends
        whole < 0,
{
    trunc_div(-(t0 * e0 + t1 * e1 + t2 * e2), -whole)
}

/// The weighted sum that `blended` divides lies between `-whole` times the
/// smallest and `-whole` times the largest of the three values.
pub proof fn lemma_blend_sum_bounds(t0: int, t1: int, t2: int, e0: int, e1: int, e2: int, whole: int)
    by (nonlinear_arith)
    requires
        e0 <= 0,
        e1 <= 0,
        e2 <= 0,
        e0 + e1 + e2 == whole,
    ensures
        min3(t0, t1, t2) * (-whole) <= -(t0 * e0 + t1 * e1 + t2 * e2) <= max3(t0, t1, t2) * (
        -whole),
{
    let lo = min3(t0, t1, t2);
    let hi = max3(t0, t1, t2);
    assert(t0 * (-e0) >= lo * (-e0) && t1 * (-e1) >= lo * (-e1) && t2 * (-e2) >= lo * (-e2));
    assert(t0 * (-e0) <= hi * (-e0) && t1 * (-e1) <= hi * (-e1) && t2 * (-e2) <= hi * (-e2));
}

/// An interpolated attribute lies between the smallest and the largest of
/// the values of the three vertices.
pub proof fn lemma_blended_between(t0: int, t1: int, t2: int, e0: int, e1: int, e2: int, whole: int)
    requires
        e0 <= 0,
        e1 <= 0,
        e2 <= 0,
        e0 + e1 + e2 == whole,
        whole < 0,
    ensures
        min3(t0, t1, t2) <= blended(t0, t1, t2, e0, e1, e2, whole) <= max3(t0, t1, t2),
{
    lemma_blend_sum_bounds(t0, t1, t2, e0, e1, e2, whole);
    lemma_trunc_div_bounds(
        -(t0 * e0 + t1 * e1 + t2 * e2),
        -whole,
        min3(t0, t1, t2),
        max3(t0, t1, t2),
    );
}

/// Interpolates an attribute of the three vertices at a fragment.
pub fn blend(t0: i64, t1: i64, t2: i64, e0: i64, e1: i64, e2: i64, whole: i64) -> (t: i64)
    requires
        fragment_weights(e0, e1, e2, whole),
    ensures
        t == blended(t0 as int, t1 as int, t2 as int, e0 as int, e1 as int, e2 as int, whole as int),
        min3(t0 as int, t1 as int, t2 as int) <= t <= max3(t0 as int, t1 as int, t2 as int),
{
    proof {
        lemma_mul_bound(t0 as int, e0 as int, 0x8000_0000_0000_0000, WEIGHT_LIMIT as int);
        lemma_mul_bound(t1 as int, e1 as int, 0x8000_0000_0000_0000, WEIGHT_LIMIT as int);
        lemma_mul_bound(t2 as int, e2 as int, 0x8000_0000_0000_0000, WEIGHT_LIMIT as int);
        lemma_blended_between(
            t0 as int,
            t1 as int,
            t2 as int,
            e0 as int,
            e1 as int,
            e2 as int,
            whole as int,
        );
    }
    let sum: i128 = (t0 as i128) * (e0 as i128) + (t1 as i128) * (e1 as i128) + (t2 as i128) * (
    e2 as i128);
    ((-sum) / (-(whole as i128))) as i64
}

/// The index along an axis of `size` texels of the texel nearest below the
/// coordinate `coord / unit`: the coordinate times `size`, rounded toward zero.
pub open spec fn texel(coord: int, unit: int, size: int) -> int
    recommends
        unit > 0,
{
    trunc_div(coord * size, unit)
}

/// Whether the coordinate `coord / unit` names a texel of an axis of `size` texels.
pub open spec fn on_axis(coord: int, unit: int, size: int) -> bool {
    0 <= texel(coord, unit, size) < size
}

fn texel_of(coord: i64, unit: i64, size: usize) -> (t: usize)
    requires
        unit > 0,
        on_axis(coord as int, unit as int, size as int),
    ensures
        t == texel(coord as int, unit as int, size as int),
{
    proof {
        lemma_mul_bound(
            coord as int,
            size as int,
            0x8000_0000_0000_0000,
            0xffff_ffff_ffff_ffff,
        );
    }
    let product: i128 = (coord as i128) * (size as i128);
    (product / (unit as i128)) as usize
}

/// Whether the coordinates `uv`, each a multiple of `1 / unit`, name a texel
/// of `texture`.
pub fn reaches(texture: &Image, uv: Vec2, unit: i64) -> (r: bool)
    requires
        unit > 0,
    ensures
        r == (on_axis(uv.x as int, unit as int, texture.width as int) && on_axis(
            uv.y as int,
            unit as int,
            texture.height as int,
        )),
{
    proof {
        lemma_mul_bound(
            uv.x as int,
            texture.width as int,
            0x8000_0000_0000_0000,
            0xffff_ffff_ffff_ffff,
        );
        lemma_mul_bound(
            uv.y as int,
            texture.height as int,
            0x8000_0000_0000_0000,
            0xffff_ffff_ffff_ffff,
        );
    }
    let x: i128 = (uv.x as i128) * (texture.width as i128) / (unit as i128);
    let y: i128 = (uv.y as i128) * (texture.height as i128) / (unit as i128);
    0 <= x && x < texture.width as i128 && 0 <= y && y < texture.height as i128
}

/// The color of the texel of `texture` at the coordinates `uv`, each a
/// multiple of `1 / unit`: column `uv.x / unit` times the width and row
/// `uv.y / unit` times the height, both rounded toward zero.
pub fn sample(texture: &Image, uv: Vec2, unit: i64) -> (c: Color)
    requires
        texture.wf(),
        unit > 0,
        on_axis(uv.x as int, unit as int, texture.width as int),
        on_axis(uv.y as int, unit as int, texture.height as int),
    ensures
        c == texture.color_at(
            texel(uv.x as int, unit as int, texture.width as int),
            texel(uv.y as int, unit as int, texture.height as int),
        ),
{
    let x: usize = texel_of(uv.x, unit, texture.width);
    let y: usize = texel_of(uv.y, unit, texture.height);
    texture.read(x, y)
}

/// The color of a surface under a light of intensity `num / den`: scaled by
/// the intensity where that is above zero, and by the ambient factor where
/// the surface faces away from the light.
pub open spec fn lit_color(color: Color, num: int, den: int) -> Color {
    if num > 0 {
        Color {
            r: scaled_channel(color.r, num, den),
            g: scaled_channel(color.g, num, den),
            b: scaled_channel(color.b, num, den),
        }
    } else {
        Color {
            r: scaled_channel(color.r, 1, AMBIENT_DEN as int),
            g: scaled_channel(color.g, 1, AMBIENT_DEN as int),
            b: scaled_channel(color.b, 1, AMBIENT_DEN as int),
        }
    }
}

/// Applies a light of intensity `num / den` to a color.
pub fn lit(color: Color, num: i128, den: i128) -> (c: Color)
    requires
        num > 0 ==> den > 0,
        num <= FACTOR_LIMIT,
    ensures
        c == lit_color(color, num as int, den as int),
{
    if num > 0 {
        color.mul(num, den)
    } else {
        color.mul(1, AMBIENT_DEN)
    }
}

/// Whether the texture coordinates interpolated at the weights name a texel.
pub open spec fn texel_in_reach(
    texture: Image,
    t0: Vec2,
    t1: Vec2,
    t2: Vec2,
    unit: int,
    e0: int,
    e1: int,
    e2: int,
    whole: int,
) -> bool {
    &&& on_axis(
        blended(t0.x as int, t1.x as int, t2.x as int, e0, e1, e2, whole),
        unit,
        texture.width as int,
    )
    &&& on_axis(
        blended(t0.y as int, t1.y as int, t2.y as int, e0, e1, e2, whole),
        unit,
        texture.height as int,
    )
}

/// The color that `shade` gives a fragment.
pub open spec fn shaded_color(
    texture: Image,
    t0: Vec2,
    t1: Vec2,
    t2: Vec2,
    unit: int,
    num: int,
    den: int,
    e0: int,
    e1: int,
    e2: int,
    whole: int,
) -> Color {
    lit_color(
        texture.color_at(
            texel(
                blended(t0.x as int, t1.x as int, t2.x as int, e0, e1, e2, whole),
                unit,
                texture.width as int,
            ),
            texel(
                blended(t0.y as int, t1.y as int, t2.y as int, e0, e1, e2, whole),
                unit,
                texture.height as int,
            ),
        ),
        num,
        den,
    )
}

/// Shades one fragment of a textured triangle: interpolates the texture
/// coordinates `t0`, `t1`, `t2` of the vertices by the weights, reads the
/// nearest texel, and applies a light of intensity `num / den`.
pub fn shade(
    texture: &Image,
    t0: Vec2,
    t1: Vec2,
    t2: Vec2,
    unit: i64,
    num: i128,
    den: i128,
    e0: i64,
    e1: i64,
    e2: i64,
    whole: i64,
) -> (c: Color)
    requires
        texture.wf(),
        unit > 0,
        num > 0 ==> den > 0,
        num <= FACTOR_LIMIT,
        fragment_weights(e0, e1, e2, whole),
        texel_in_reach(
            *texture,
            t0,
            t1,
            t2,
            unit as int,
            e0 as int,
            e1 as int,
            e2 as int,
            whole as int,
        ),
    ensures
        c == shaded_color(
            *texture,
            t0,
            t1,
            t2,
            unit as int,
            num as int,
            den as int,
            e0 as int,
            e1 as int,
            e2 as int,
            whole as int,
        ),
{
    let u: i64 = blend(t0.x, t1.x, t2.x, e0, e1, e2, whole);
    let v: i64 = blend(t0.y, t1.y, t2.y, e0, e1, e2, whole);
    let texel_color = sample(texture, Vec2::new(u, v), unit);
    lit(texel_color, num, den)
}

} // verus!
