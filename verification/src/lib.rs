//! A verified core for a small 2D "black hole" arcade simulation.
//!
//! A player-controlled attractor moves over a plane; planet-like objects
//! spawn on a repeating timer at random positions, are pulled toward the
//! player while their circular sensors overlap, and are consumed (removed)
//! once they come within a square proximity threshold of the player.
//!
//! All geometry is integer-valued: positions and velocities are plain `i64`
//! units, time is counted in caller-chosen integer units, and the attraction
//! direction is normalized with an integer square root, rounding each
//! velocity component toward zero.

pub mod geom;
pub mod motion;
mod rng;
pub mod timer;
pub mod world;
