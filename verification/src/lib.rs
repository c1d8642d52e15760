//! A raster renderer for escape-time images of the Mandelbrot set.
//!
//! The renderer owns an RGBA pixel buffer and fills it pass by pass. The
//! arithmetic on plane coordinates is the caller's: how a pixel gets its
//! colour is handed in as function values. What this crate fixes, and proves,
//! is everything around that arithmetic: which pixels a pass touches, in what
//! order the stages of the per-pixel pipeline run, how an escape time is
//! counted, how the hue circle is laid out over the channels, and what ends
//! up in the buffer.

pub mod buffer;
pub mod color;
pub mod escape;
pub mod frame;
pub mod interlace;
pub mod render;

pub use crate::buffer::Mandelbrot;
pub use crate::frame::Frame;
pub use crate::frame::Rgba;
pub use crate::render::Pipeline;
