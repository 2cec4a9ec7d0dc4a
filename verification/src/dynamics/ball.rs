//! The ball and the container.
use vstd::prelude::*;
use crate::binary64::Float;
use crate::binary64::HALF_BITS;
use crate::binary64::laws::half;
use crate::dynamics::maths::FloatVec;
use crate::dynamics::maths::approx_eq_f64;
use crate::dynamics::maths::ulp_distance;

verus! {

/// A disk: where its centre is, how it moves, and its radius.
#[derive(Clone, Copy, Debug, PartialEq, Eq, Structural)]
pub struct Ball {
    pub pos: FloatVec,
    pub vel: FloatVec,
    pub r: Float,
}

impl Ball {
    /// The radius is a finite number above zero.
    pub open spec fn wf(self) -> bool {
        self.r.is_positive_spec() && self.r.is_finite_spec()
    }

    /// The ball with the given position, velocity and radius.
    pub fn new(pos: FloatVec, vel: FloatVec, r: Float) -> (b: Ball)
        requires
            r.is_positive_spec(),
            r.is_finite_spec(),
        ensures
            b == (Ball { pos, vel, r }),
            b.wf(),
    {
        Ball { pos, vel, r }
    }

    /// The position of the centre.
    pub fn pos(&self) -> (r: &FloatVec)
        ensures
            *r == self.pos,
    {
        &self.pos
    }

    /// The velocity.
    pub fn vel(&self) -> (r: &FloatVec)
        ensures
            *r == self.vel,
    {
        &self.vel
    }

    /// The radius.
    pub fn r(&self) -> (r: Float)
        ensures
            r == self.r,
    {
        self.r
    }

    /// Gives the ball another velocity.
    pub fn set_vel(&mut self, new_vel: FloatVec)
        ensures
            *final(self) == (Ball { vel: new_vel, ..*old(self) }),
    {
        self.vel = new_vel;
    }

    /// The ball after a free flight of `t`: moved by `vel * t`.
    pub open spec fn step_spec(self, t: Float) -> Ball {
        Ball { pos: self.pos.add_spec(self.vel.mul_spec(t)), ..self }
    }

    /// Lets the ball fly freely for the time `t`.
    pub fn step(&mut self, t: Float)
        ensures
            *final(self) == old(self).step_spec(t),
    {
        self.pos = self.pos + self.vel * t;
    }

    /// The velocity of the centre of mass of two balls of equal mass.
    pub open spec fn com_velocity_spec(a: Ball, b: Ball) -> FloatVec {
        a.vel.add_spec(b.vel).mul_spec(half())
    }

    /// The velocity of the centre of mass of two balls of equal mass.
    pub fn com_velocity(a: &Ball, b: &Ball) -> (r: FloatVec)
        ensures
            r == Ball::com_velocity_spec(*a, *b),
    {
        (a.vel + b.vel) * Float::from_bits(HALF_BITS)
    }

    /// Whether the balls touch: whether the square of the distance of the
    /// centres is the square of the sum of the radii, up to one unit in the
    /// last place.
    pub open spec fn touching_spec(self, other: Ball) -> bool {
        let reach = self.r.add_spec(other.r);
        let apart = self.pos.sub_spec(other.pos);
        ulp_distance(reach.mul_spec(reach), apart.dot_spec(apart)) <= 1
    }

    /// Whether the balls touch.
    pub fn touching(&self, other: &Ball) -> (r: bool)
        ensures
            r == self.touching_spec(*other),
    {
        let centres_distance_squared = (self.r + other.r) * (self.r + other.r);
        let relative_displacement = self.pos - other.pos;
        let distance_squared = relative_displacement.dot(&relative_displacement);
        approx_eq_f64(centres_distance_squared, distance_squared, 1)
    }
}

/// The disk, centred at the origin, that holds the balls.
#[derive(Clone, Copy, Debug, PartialEq, Eq, Structural)]
pub struct Container {
    pub r: Float,
}

impl Container {
    /// The radius is a finite number above zero.
    pub open spec fn wf(self) -> bool {
        self.r.is_positive_spec() && self.r.is_finite_spec()
    }

    /// The container with the given radius.
    pub fn new(r: Float) -> (c: Container)
        requires
            r.is_positive_spec(),
            r.is_finite_spec(),
        ensures
            c.r == r,
            c.wf(),
    {
        Container { r }
    }

    /// The radius.
    pub fn r(&self) -> (r: Float)
        ensures
            r == self.r,
    {
        self.r
    }
}

} // verus!
