//! Escape-time rendering of the Mandelbrot set and its relatives.
//!
//! The library follows the pipeline that turns a pixel grid into colors:
//! `escape` iterates an update rule until the orbit leaves a bounded region,
//! `color` turns an escape result into a grayscale color, `grid` walks every
//! pixel of an image in parallel and lays the results out in row-major order,
//! and `render` composes the three into a grayscale image.
//!
//! The value type of the orbit, the update rule, the escape test and the map from
//! pixels to samples are parameters, so that the same verified pipeline serves
//! complex numbers of any precision and both Mandelbrot-style and Julia-style
//! iteration.
use vstd::prelude::*;

pub mod color;
pub mod escape;
pub mod grid;
pub mod render;

pub use color::{escape_time_to_grayscale, Color};
pub use escape::{escape_time, escape_time_and_path};
pub use grid::{pixel_index, pixel_position, render_with, RenderError};
pub use render::render_grayscale;

verus! {

} // verus!
