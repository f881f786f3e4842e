//! A real-time 2D particle simulation core: a uniform spatial grid that owns
//! all particles, elastic pairwise collision resolution, a time-windowed
//! force schedule, and the per-tick driver that advances the whole system.
//!
//! All quantities are integers: positions and velocities in arena units,
//! masses as positive integers, and elasticity / friction as per-mille
//! fractions (0..=1000).  Rendering, randomness seeding and the event loop
//! live outside; the library exposes the committed particle state after each
//! tick.

pub mod animation;
pub mod force;
pub mod grid;
pub mod math;
pub mod particle;
pub mod position;
pub mod rng;
