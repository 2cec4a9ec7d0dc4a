//! The event-driven simulation: scheduled collisions, their queue and the loop.
use vstd::prelude::*;

pub mod collision;
pub mod queue;
pub mod state;
pub mod simulate;
pub mod data;
pub mod histogram;
pub mod observe;
pub mod laws;
pub mod agreement;
pub mod frame;

verus! {

} // verus!
