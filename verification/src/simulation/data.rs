//! What is observed of a collision.
use vstd::prelude::*;
use vstd::pervasive::unreached;
use crate::binary64::Float;
use crate::binary64::HALF_BITS;
use crate::binary64::laws::half;
use crate::dynamics::ball::Ball;
use crate::dynamics::ball::Container;
use crate::dynamics::maths::FloatVec;
use crate::simulation::collision::CollisionPartner;
use crate::simulation::simulate::Simulation;
use crate::simulation::state::State;

verus! {

/// The participants of a collision as they are just before it.
#[derive(Clone, Copy, Debug)]
pub enum PreData {
    BallCollision { time: Float, indices: (usize, usize), pres: (Ball, Ball) },
    ContainerCollision { time: Float, index: usize, pre: Ball },
}

/// The participants of a collision as they are just after it.
#[derive(Clone, Copy, Debug)]
pub enum PostData {
    BallCollision { posts: (Ball, Ball) },
    ContainerCollision { post: Ball },
}

/// A collision that took place: when, between whom, and the participants
/// before and after.
#[derive(Clone, Copy, Debug)]
pub enum DataEvent {
    BallCollision { time: Float, indices: (usize, usize), pres: (Ball, Ball), posts: (Ball, Ball) },
    ContainerCollision { time: Float, index: usize, pre: Ball, post: Ball },
}

/// The ball `i` and its partner `j`, as they are in `s` at its time.
pub open spec fn pre_data(s: State, i: int, j: CollisionPartner) -> PreData {
    match j {
        CollisionPartner::Ball(j) => PreData::BallCollision {
            time: s.time,
            indices: (i as usize, j),
            pres: (s.balls[i], s.balls[j as int]),
        },
        CollisionPartner::Container => PreData::ContainerCollision {
            time: s.time,
            index: i as usize,
            pre: s.balls[i],
        },
    }
}

/// The ball `i` and its partner `j`, as they are in `s`.
pub open spec fn post_data(s: State, i: int, j: CollisionPartner) -> PostData {
    match j {
        CollisionPartner::Ball(j) => PostData::BallCollision {
            posts: (s.balls[i], s.balls[j as int]),
        },
        CollisionPartner::Container => PostData::ContainerCollision { post: s.balls[i] },
    }
}

/// The record made of the two halves. They are of the same kind.
pub open spec fn joined(pre: PreData, post: PostData) -> DataEvent
    recommends
        pre is BallCollision <==> post is BallCollision,
{
    match pre {
        PreData::BallCollision { time, indices, pres } => DataEvent::BallCollision {
            time,
            indices,
            pres,
            posts: post->posts,
        },
        PreData::ContainerCollision { time, index, pre } => DataEvent::ContainerCollision {
            time,
            index,
            pre,
            post: post->post,
        },
    }
}

impl PreData {
    /// The ball `i` and its partner `j` as they are now, with the time.
    pub fn from_indices(sim: &Simulation, i: usize, j: CollisionPartner) -> (r: PreData)
        requires
            i < sim@.balls.len(),
            j matches CollisionPartner::Ball(k) ==> k < sim@.balls.len(),
        ensures
            r == pre_data(sim@, i as int, j),
    {
        let time = sim.global_time();
        let ball = sim.ball(i);
        match j {
            CollisionPartner::Ball(j) => {
                let other = sim.ball(j);
                PreData::BallCollision { time, indices: (i, j), pres: (ball, other) }
            },
            CollisionPartner::Container => PreData::ContainerCollision {
                time,
                index: i,
                pre: ball,
            },
        }
    }
}

impl PostData {
    /// The ball `i` and its partner `j` as they are now.
    pub fn from_indices(sim: &Simulation, i: usize, j: CollisionPartner) -> (r: PostData)
        requires
            i < sim@.balls.len(),
            j matches CollisionPartner::Ball(k) ==> k < sim@.balls.len(),
        ensures
            r == post_data(sim@, i as int, j),
    {
        let ball = sim.ball(i);
        match j {
            CollisionPartner::Ball(j) => {
                let other = sim.ball(j);
                PostData::BallCollision { posts: (ball, other) }
            },
            CollisionPartner::Container => PostData::ContainerCollision { post: ball },
        }
    }
}

impl DataEvent {
    /// The record made of what was before and what was after a collision.
    /// The two are of the same kind: both of a collision of two balls, or
    /// both of one with the container.
    pub fn from(value: (PreData, PostData)) -> (r: DataEvent)
        requires
            value.0 is BallCollision <==> value.1 is BallCollision,
        ensures
            r == joined(value.0, value.1),
    {
        match value {
            (
                PreData::BallCollision { time, indices, pres },
                PostData::BallCollision { posts },
            ) => DataEvent::BallCollision { time, indices, pres, posts },
            (
                PreData::ContainerCollision { time, index, pre },
                PostData::ContainerCollision { post },
            ) => DataEvent::ContainerCollision { time, index, pre, post },
            (PreData::BallCollision { .. }, PostData::ContainerCollision { .. }) => unreached(),
            (PreData::ContainerCollision { .. }, PostData::BallCollision { .. }) => unreached(),
        }
    }

    /// The momentum that the collision gave to the container, for a ball of
    /// unit mass: the length of the change of the ball's velocity. A
    /// collision of two balls gives it none.
    pub open spec fn container_pressure_spec(self) -> Option<Float> {
        match self {
            DataEvent::BallCollision { .. } => None,
            DataEvent::ContainerCollision { pre, post, .. } => Some(
                pre.vel.sub_spec(post.vel).magnitude_spec(),
            ),
        }
    }

    /// The momentum that the collision gave to the container.
    pub fn container_pressure(&self) -> (r: Option<Float>)
        ensures
            r == self.container_pressure_spec(),
    {
        match self {
            DataEvent::BallCollision { .. } => None,
            DataEvent::ContainerCollision { pre, post, .. } => {
                let delta_v = pre.vel - post.vel;
                Some(delta_v.magnitude())
            },
        }
    }

    /// The time of the collision.
    pub open spec fn time_spec(self) -> Float {
        match self {
            DataEvent::BallCollision { time, .. } => time,
            DataEvent::ContainerCollision { time, .. } => time,
        }
    }

    /// The time of the collision.
    pub fn time(&self) -> (r: Float)
        ensures
            r == self.time_spec(),
    {
        match self {
            DataEvent::BallCollision { time, .. } => *time,
            DataEvent::ContainerCollision { time, .. } => *time,
        }
    }

    /// The point of contact: midway between the centres of two balls; for
    /// the container, where the ray from the origin through the ball's
    /// centre meets it.
    pub open spec fn contact_point_spec(self, container: Container) -> FloatVec {
        match self {
            DataEvent::BallCollision { pres, .. } => pres.0.pos.add_spec(pres.1.pos).mul_spec(half()),
            DataEvent::ContainerCollision { pre, .. } => pre.pos.normalize_spec().mul_spec(
                container.r,
            ),
        }
    }

    /// The point of contact.
    pub fn contact_point(&self, container: &Container) -> (r: FloatVec)
        ensures
            r == self.contact_point_spec(*container),
    {
        match self {
            DataEvent::BallCollision { pres, .. } => (pres.0.pos + pres.1.pos) * Float::from_bits(
                HALF_BITS,
            ),
            DataEvent::ContainerCollision { pre, .. } => pre.pos.normalize() * container.r,
        }
    }
}

} // verus!
