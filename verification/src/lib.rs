//! Verified core of a Mandelbrot-set renderer.
//!
//! The library holds the parts of the renderer that decide and compute on
//! plain values: the rendering parameters and their validation, the colour
//! encoder that turns an averaged escape count into a packed RGB word, and
//! the raster pipeline that assembles per-pixel colours into the output
//! buffer. The floating-point escape-time evaluation and the device and I/O
//! plumbing live outside the library and feed it escape counts.

pub mod bits;
pub mod colour;
pub mod device;
pub mod laws;
pub mod params;
pub mod raster;
