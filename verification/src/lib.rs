//! Elevation profiles along georeferenced tracks, in fixed-point arithmetic.
//!
//! Angles are whole multiples of 1e-7 degree, lengths and elevations are whole
//! millimetres, and raster cells are addressed by integer pixel indices.

pub mod rounding;
pub mod error;
pub mod transform;
pub mod raster;
pub mod track;
pub mod profile;
