//! Interactive Bézier curves and splines over exact integer geometry.
//!
//! Control points have integer coordinates and the curve parameter is a
//! rational number, so every point on a curve is an exact rational point.
//! Evaluation returns it as integer coordinates over a common scale.

pub mod geometry;
pub mod kernel;
pub mod bounds;
pub mod handles;
pub mod segment;
pub mod cubic;
pub mod curve;
pub mod spline;
pub mod editor;
pub mod palette;
pub mod themes;
