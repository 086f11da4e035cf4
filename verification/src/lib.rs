//! An arcade-style shooter whose simulation can be driven either by direct
//! commands or by a tabular Q-learning trainer.
//!
//! Coordinates are fixed-point integers in thousandths of a pixel, so every
//! rule of the simulation (motion, collision, spawning, scoring) is exact
//! integer arithmetic. Q-values are fixed-point integers in thousandths of a
//! point for the same reason.

pub mod codec;
pub mod field;
pub mod geometry;
pub mod laws;
pub mod model;
pub mod object;
mod rng;
pub mod schedule;
pub mod statekey;
pub mod trainer;
mod sweeps;
