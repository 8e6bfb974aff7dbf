//! Escape-time fractal evaluator over a viewport of the complex plane.
//!
//! Plane coordinates are fixed-point numbers: an `i64` raw value stands for
//! `raw / SCALE` with `SCALE = 2^32`. All arithmetic on them is exact integer
//! arithmetic, so every contract below pins the result down to the bit.
//!
//! The evaluator partitions the pixel grid into row bands (one per worker),
//! runs the escape-time recurrence on every sampled pixel, and returns one
//! result per sample; `mandel::frame_ok` states the exact contents. A caller
//! that wants real parallelism can run `mandelbrod_band` once per band on its
//! own threads and concatenate the results in band order.

pub mod fixed;
pub mod complex;
pub mod escape;
pub mod viewport;
pub mod mandel;
pub mod color;

pub use fixed::SCALE;
pub use complex::Complex;
pub use escape::{Pixel, belongs_to_set};
pub use viewport::ScreenInfo;
pub use mandel::{EvalConfig, mandelbrod, mandelbrod_band, can_evaluate};
pub use color::{shade_of, log2_floor_of};
