//! A verified core for a 2D flocking ("boids") simulation.
//!
//! Agents move in a circular arena under weighted steering signals
//! (separation, alignment, cohesion, arena containment, and
//! predator/prey chase and flight), turn at a bounded angular rate, and
//! a predator that closes within the kill radius removes its prey. All
//! quantities are fixed-point integers: milli-units for lengths and
//! milli-radians for angles, so every step of a tick has an exact
//! contract.

pub mod boi;
pub mod fix;
pub mod game;
pub mod nest;
pub mod spatial;
pub mod strategy;
pub mod vec;
