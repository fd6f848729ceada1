//! The verified core of a Mandelbrot escape-time renderer.
//!
//! The library holds everything that is decided in integers: how an orbit is
//! counted until it escapes, how the pixel grid is walked by one scan, by
//! partitions of rows or by a grid of threads, how the counts become text or
//! a picture, and how the run is configured and timed. The arithmetic on
//! points of the plane is the caller's and comes in as functions.

pub mod config;
pub mod escape;
pub mod grid;
pub mod picture;
pub mod render;
pub mod schedule;
pub mod strategy;
pub mod timing;

pub use config::config_iter_from_quality;
pub use render::draw;
pub use timing::format_time;
