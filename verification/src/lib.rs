//! A deterministic 2D flocking ("boids") simulation core.
//!
//! A swarm of autonomous agents and one player-controlled agent share a
//! toroidal plane.  Each tick, every autonomous agent advances along its
//! heading and then steers toward emergent group behaviour by blending three
//! social forces (alignment, separation, cohesion) computed from nearby
//! agents.
//!
//! All geometry is carried out in fixed-point arithmetic: one pixel is
//! `SCALE` (1000) units, angles are given in milliradians.  Every operation
//! is specified exactly over mathematical integers, so the whole simulation
//! is reproducible bit for bit.

use vstd::prelude::*;

pub mod bird;
pub mod bots;
pub mod math;
pub mod trig;
pub mod vec2;

verus! {

/// Number of fixed-point units per pixel.
pub const SCALE: i64 = 1000;

} // verus!
