//! A small software rasterizer over exact integer arithmetic.
//!
//! The crate keeps a dense truecolor pixel grid and a matching depth grid,
//! draws lines and depth-tested triangles into them, reads a triangle mesh
//! from its text, and frames the grid as an uncompressed truecolor
//! container. Every coordinate, edge value and depth is an integer, and
//! every division rounds toward zero, so each contract states the drawn
//! pixels exactly.
//!
//! - `image`: the pixel grid and its colors (`create`, `Image::read`, `Image::set`).
//! - `depth`: the depth grid (`create_depth_buffer`).
//! - `line`: the line drawer (`line`).
//! - `scanline`: the flat triangle filler with linear depth (`fill_triangle_scanline`).
//! - `triangle`: the edge-function triangle filler with a shader (`rasterize`).
//! - `shading`: interpolated attributes, texels and light for a shader.
//! - `pipeline`: the light on a face, culling, and the transform to the screen.
//! - `vectors`: points and a 4x4 transform.
//! - `mesh`, `text`: the mesh and its text format.
//! - `tga`: the image container.
//! - `arith`: rounding division, interpolation and square roots.
//!
//! Vertices on the screen are whole pixels with an integer depth, and a
//! larger depth is nearer. Coordinates of a mesh are counted in millionths.

pub mod arith;
pub mod depth;
pub mod image;
pub mod line;
pub mod mesh;
pub mod pipeline;
pub mod scanline;
pub mod shading;
pub mod text;
pub mod tga;
pub mod triangle;
pub mod vectors;
