//! Palette reduction and Floyd–Steinberg error-diffusion dithering.
//!
//! The library reduces a raster image, held as a flat row-major buffer of
//! 8-bit RGB colors, to a small palette.  The palette either comes from a
//! plain-text file of hex colors or is derived from the image itself by
//! k-means clustering.  Quantization error is diffused to forward neighbors
//! so that detail survives the reduced palette.

pub mod cluster;
pub mod color;
pub mod dither;
pub mod palette;
pub mod pipeline;
