//! A CPU-side rasterization core: a stride-aware 32-bit pixel buffer with
//! alpha-blended pixel writes, whole-buffer clears, clamped rectangle fills,
//! and antialiased circle drawing, together with the saturating pixel-space
//! vector arithmetic the drawing routines rely on.
//!
//! All coordinates here are discrete screen-space pixel coordinates with the
//! origin at the top left. Continuous world-space geometry (the camera
//! transform and the cubic Bézier curve engine) lives outside this crate and
//! hands these routines plain integer coordinates and packed `0xAARRGGBB`
//! colors.

pub mod buffer;
pub mod color;
pub mod frame;
pub mod geometry;
pub mod raster;
