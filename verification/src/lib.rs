//! Event-driven simulation of elastic hard disks inside a circular container.
//!
//! The simulation jumps from one collision to the next. Every pair of bodies
//! that will meet has an event in a priority queue; when a collision changes
//! the course of a ball, the events of that ball are scheduled anew and the
//! old ones are left in the queue, to be recognised as stale and dropped when
//! they come up.
//!
//! - [`binary64`]: doubles as bit patterns. Sum, difference, product,
//!   quotient and square root are computed on the bits and proved to be
//!   correctly rounded.
//! - [`dynamics`]: vectors, balls, the container, the time until two bodies
//!   are in contact and their velocities after it.
//! - [`simulation`]: the events and their queue, the simulation as a
//!   mathematical value ([`simulation::state::State`]) and as a running
//!   program ([`simulation::simulate::Simulation`]), what is observed of its
//!   collisions, and what holds of every step.
use vstd::prelude::*;

pub mod binary64;
pub mod dynamics;
pub mod simulation;

verus! {

} // verus!
