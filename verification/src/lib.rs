//! Shape rasterization onto a pixel surface, plus Chaikin-style polyline
//! subdivision and the animation state machine that drives it.

pub mod geometry;
pub mod rasterizer;
pub mod subdivision;
pub mod color;
pub mod surface;
pub mod drawable;
pub mod animation;
