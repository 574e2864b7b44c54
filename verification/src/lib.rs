//! Pixel packing for an escape-time fractal rasterizer.
//!
//! The escape-time count of every pixel of a grid is written into a packed
//! RGBA8 buffer: the count in red, green and blue, full opacity in alpha.
//! `escape` decides how long a trajectory is followed and what it counts
//! to, `layout` holds the geometry of the buffer, `raster` the packing
//! itself and `image` the image that the buffer is wrapped into.
//!
//! The trajectories themselves run in floating point and are the caller's:
//! the caller hands in one count for each pixel.

use vstd::prelude::*;

pub mod escape;
pub mod image;
pub mod layout;
pub mod raster;

verus! {

} // verus!
