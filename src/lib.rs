//! A small arcade shooter: a player square that moves, turns and fires
//! projectiles at stationary targets, drawn into a row-major pixel buffer.
//!
//! Positions are fixed-point: one pixel is `UNIT` sub-pixel steps, so that
//! motion and collision are exact integer arithmetic.
use vstd::prelude::*;

pub mod config;
pub mod geometry;
pub mod entity;
pub mod raster;
pub mod game;

verus! {

} // verus!
