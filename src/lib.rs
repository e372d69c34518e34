//! Voxel-space terrain rendering onto a 1-bit display: a terrain grid of colour and
//! altitude stored in Morton order, a front-to-back column renderer with a skyline for
//! occlusion, and ordered dithering fused into the writes to a packed bitmap.
use vstd::prelude::*;

pub mod morton;
pub mod texel;
pub mod wrap;
pub mod grid;
pub mod dither;
pub mod framebuffer;
pub mod render;
pub mod camera;
pub mod image;

verus! {

} // verus!
