//! Scheduled collisions.
use vstd::prelude::*;
use crate::binary64::Float;
use crate::dynamics::maths::FloatVec;

verus! {

/// What a ball collides with: another ball, by its index, or the container.
#[derive(Clone, Copy, Debug, PartialEq, Eq, Structural)]
pub enum CollisionPartner {
    Ball(usize),
    Container,
}

/// A collision that was scheduled: the ball `i` meets the partner `j` at the
/// time `t`. `old_vels` holds the velocities that the two had when the
/// collision was computed, the witness by which it is later known whether
/// either has changed its course since; for the container the second
/// velocity is the origin.
#[derive(Clone, Copy, Debug)]
pub struct CollisionEvent {
    pub i: usize,
    pub j: CollisionPartner,
    pub t: Float,
    pub old_vels: (FloatVec, FloatVec),
}

impl CollisionEvent {
    /// The scheduled collision with the given fields.
    pub fn new(i: usize, j: CollisionPartner, t: Float, old_vels: (FloatVec, FloatVec)) -> (e:
        CollisionEvent)
        ensures
            e == (CollisionEvent { i, j, t, old_vels }),
    {
        CollisionEvent { i, j, t, old_vels }
    }

    /// The fields, as a tuple.
    pub fn into_parts(self) -> (r: (usize, CollisionPartner, Float, (FloatVec, FloatVec)))
        ensures
            r == (self.i, self.j, self.t, self.old_vels),
    {
        (self.i, self.j, self.t, self.old_vels)
    }

    /// The place of the event in the order of the queue: that of its time in
    /// the total order of doubles.
    pub open spec fn key(self) -> int {
        self.t.total_key()
    }

    /// The place of the event in the order of the queue.
    pub fn key_exec(&self) -> (r: i64)
        ensures
            r == self.key(),
    {
        self.t.total_key_exec()
    }

    /// Whether this event is due before `other`.
    pub fn precedes(&self, other: &CollisionEvent) -> (r: bool)
        ensures
            r == (self.key() < other.key()),
    {
        self.key_exec() < other.key_exec()
    }
}

} // verus!
