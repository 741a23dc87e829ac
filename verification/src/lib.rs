//! A 2D vector-graphics scene library: shape geometry, an SVG-style path
//! parser, triangle-mesh tessellation with a per-shape cache, a scene graph
//! with dirty tracking and hit testing, and frame planning for a GPU backend.
//!
//! All coordinates are fixed-point numbers: an `i64` counts micro-units, so
//! one drawing unit is `FX_ONE == 1_000_000`. Arithmetic saturates at the
//! representable coordinate range instead of overflowing.

pub mod fixed;
pub mod geom;
pub mod text;
pub mod color;
pub mod transform;
pub mod mesh;
pub mod ids;
pub mod shape;
pub mod path;
pub mod points;
pub mod layer;
pub mod graph;
pub mod tess;
pub mod interaction;
pub mod render;
pub mod version;
pub mod legacy;
