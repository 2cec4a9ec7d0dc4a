//! What a step leaves as it is.
use vstd::prelude::*;
use crate::dynamics::collide::Collide;
use crate::simulation::collision::CollisionEvent;
use crate::simulation::collision::CollisionPartner;
use crate::simulation::state::State;

verus! {

/// Whether the ball `k` takes part in the collision `e`.
pub open spec fn takes_part(e: CollisionEvent, k: int) -> bool {
    k == e.i || e.j == CollisionPartner::Ball(k as usize)
}

/// A step that applies a collision changes the velocities of the
/// participants and of no other ball: a collision with the container
/// changes one velocity, a collision of two balls two. Every ball, the
/// participants too, is where the free flight to the time of the collision
/// has put it, and has the radius that it had.
pub proof fn lemma_step_frame(pre: State, post: State, e: CollisionEvent, k: int)
    requires
        pre.applies(post, e),
        0 <= k < pre.balls.len() <= usize::MAX,
    ensures
        post.balls.len() == pre.balls.len(),
        post.balls[k].pos == pre.balls[k].step_spec(pre.flight(e.t.sub_spec(pre.time))).pos,
        post.balls[k].r == pre.balls[k].r,
        !takes_part(e, k) ==> post.balls[k].vel == pre.balls[k].vel,
{
}

} // verus!
