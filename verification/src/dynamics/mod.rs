//! Balls, the container, and what happens when they meet.
use vstd::prelude::*;

pub mod maths;
pub mod ball;
pub mod centre;
pub mod collide;

verus! {

/// Why the dynamics could not go on.
#[derive(Clone, Copy, Debug, PartialEq, Eq, Structural)]
pub enum DynamicsError {
    /// The bodies are at rest relative to each other.
    StationaryCollision,
    /// Both bodies are points.
    PointParticleCollision,
    /// The centres of the bodies coincide, so that no line joins them.
    IntersectingParticles,
    /// The simulation cannot go on: no fresh collision is scheduled, or the
    /// next one lies in the past, or its participants cannot collide.
    SimulationFailure,
}

} // verus!
