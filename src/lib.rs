//! A flocking ("boids") simulation on a bounded wrap-around plane, in fixed-point
//! arithmetic: a neighbor query, the separation, alignment and cohesion stages, an
//! integration step with random perturbations, and a projector that turns each
//! agent into a triangle.

pub mod flock;
pub mod geometry;
pub mod integrator;
pub mod laws;
pub mod projector;
pub mod random;
pub mod steering;
