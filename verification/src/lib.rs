//! Exact 2D geometry primitives and a point-region quadtree.
//!
//! All coordinates live on the integer grid and every operation is exact:
//! intersection tests, closest-point projection, oriented-box fitting and
//! the quadtree's subdivision geometry are specified and verified down to
//! the arithmetic.

pub mod aabb;
pub mod circle;
pub mod matrix;
pub mod obb;
pub mod quadtree;
pub mod sphere;
pub mod vector2;
pub mod video;
