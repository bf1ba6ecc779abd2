//! Animation-timing and interpolation toolkit.
//!
//! The crate provides four small numeric subsystems for driving real-time
//! animation parameters:
//!
//! - [`misc::SinkExtrapolator`]: smooths a coarsely updating playback clock
//!   into a continuous wall-clock-tracked time signal;
//! - [`keyframe`]: easing curves (shape and direction composition) and
//!   time-ordered keyframe tracks with interpolated sampling;
//! - [`custom_splines`]: a weighted local-support spline sampler over
//!   discrete point sequences;
//! - [`stopwatch`] and [`termbuf`]: small helpers for frame timing and
//!   grid-sized uniform data.
//!
//! All quantities are exact: times are integer ticks or nanoseconds, and
//! curve parameters are exact fractions ([`frac::Frac`]), so every contract
//! below states the returned value precisely.

pub mod custom_splines;
pub mod ext;
pub mod frac;
pub mod keyframe;
pub mod misc;
pub mod stopwatch;
pub mod termbuf;

pub use frac::Frac;
