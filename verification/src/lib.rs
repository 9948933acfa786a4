//! A planar-approximation geodesy toolkit over fixed-point coordinates.
//!
//! A [`ruler::CheapRuler`] holds two scale factors `kx` and `ky` that turn
//! longitude/latitude differences into distances in a chosen unit.  All
//! geometry here works on integer microdegree coordinates and fixed-point
//! scale factors, so every operation has an exact arithmetic specification.

pub mod math;
pub mod points;
pub mod units;
pub mod ruler;
pub mod lines;
pub mod project;
pub mod boxes;
pub mod area;
