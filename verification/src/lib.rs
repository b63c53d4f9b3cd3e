//! A 2D image resampling engine for interleaved 8-bit RGBA rasters.
//!
//! The engine offers nearest-neighbor sampling and separable convolution
//! resampling (bilinear, Catmull-Rom, Mitchell, Lanczos3), computed in
//! fixed-point arithmetic with clamp-to-edge boundary handling.

pub mod filter;
pub mod conv;
pub mod engine;
pub mod kernel;
pub mod laws;
pub mod raster;

pub use engine::resize;
pub use engine::resize_image;
pub use filter::FilterKind;
pub use filter::get_algorithms;
pub use filter::parse_filter;
pub use raster::Raster;
pub use raster::ResizeError;
