//! Streaming prediction intervals over integer samples.
//!
//! A [`forecast::Predictor`] keeps a bounded window of recent samples and a
//! capacity that it tunes to the variance of that window. Each sample after
//! the first yields an interval around a point prediction, which averages
//! the mean of the window without its outliers and the median of the whole
//! window.
//!
//! Every quantity is held exactly, in integers: a variance is a whole number
//! and a fraction, a truncating division is spelled out, and no sum can
//! overflow, however long the window.

pub mod controller;
pub mod forecast;
pub mod input;
pub mod outliers;
pub mod sorting;
pub mod stats;
pub mod trace;
pub mod window;
