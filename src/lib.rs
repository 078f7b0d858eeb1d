//! Equalization correction curves from repeated frequency-response measurements.
//!
//! Frequencies are held in millihertz and gains in millidecibels, so every
//! curve operation is exact integer arithmetic. The conversion between
//! decibels and linear power is supplied by the caller as an averaging
//! function over a column of gains.
//!
//! - `curve`: the curve type, interpolation with clamping, peak, transforms.
//! - `grid`: the perceptually weighted analysis grid.
//! - `resample`: windowed resampling onto a grid.
//! - `combine`: point-by-point combination of curves on a shared grid.
//! - `pipeline`: from measurements and a target to a normalized correction.
//! - `parse`, `text`: the spectrum input format and the equalizer output format.
pub mod curve;
pub mod grid;
pub mod resample;
pub mod combine;
pub mod pipeline;
pub mod text;
pub mod parse;
