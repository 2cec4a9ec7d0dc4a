//! When two bodies meet, and how they part.
use vstd::prelude::*;
use crate::binary64::Float;
use crate::dynamics::DynamicsError;
use crate::dynamics::ball::Ball;
use crate::dynamics::ball::Container;
use crate::dynamics::centre::normalised_difference;
use crate::dynamics::centre::unit_between;
use crate::dynamics::maths::FloatVec;

verus! {

/// The smaller of the two numbers that are above zero; the one that is, if
/// only one is; nothing, if neither is. A zero is not above zero.
pub open spec fn smallest_positive_spec(a: Float, b: Float) -> Option<Float> {
    if a.is_positive_spec() && b.is_positive_spec() {
        if b.lt_spec(a) {
            Some(b)
        } else {
            Some(a)
        }
    } else if a.is_positive_spec() {
        Some(a)
    } else if b.is_positive_spec() {
        Some(b)
    } else {
        None
    }
}

/// The smaller of the two numbers that are above zero.
pub fn smallest_positive(a: Float, b: Float) -> (r: Option<Float>)
    ensures
        r == smallest_positive_spec(a, b),
        r is Some <==> a.is_positive_spec() || b.is_positive_spec(),
        r matches Some(t) ==> {
            &&& t.is_positive_spec()
            &&& t == a || t == b
            &&& a.is_positive_spec() ==> t.le_spec(a)
            &&& b.is_positive_spec() ==> t.le_spec(b)
        },
{
    let pa = a.is_positive();
    let pb = b.is_positive();
    if pa && pb {
        if b.lt(a) {
            Some(b)
        } else {
            Some(a)
        }
    } else if pa {
        Some(a)
    } else if pb {
        Some(b)
    } else {
        None
    }
}

/// The time until two bodies are in contact, from their relative position
/// `dr`, their relative velocity `dv` and the distance `reach` of their
/// centres at contact: the smallest positive root `t` of
/// `|dr + t * dv|^2 = reach^2`.
///
/// With `A = dv . dv` and `B = dv . dr`, the discriminant of the quadratic
/// is `A * reach^2 - (dr x dv)^2`. Where it is negative there is no contact.
/// Else the roots are `-(B + s) / A` and `-(B - s) / A`, with `s` the root
/// of the discriminant.
pub open spec fn contact_time(dr: FloatVec, dv: FloatVec, reach: Float) -> Option<Float> {
    let dv_squared = dv.dot_spec(dv);
    let lhs = dv_squared.mul_spec(reach).mul_spec(reach);
    let rhs = dr.cross_squared_spec(dv);
    if lhs.lt_spec(rhs) {
        None
    } else {
        let s = lhs.sub_spec(rhs).sqrt_spec();
        let b = dv.dot_spec(dr);
        smallest_positive_spec(
            b.add_spec(s).neg_spec().div_spec(dv_squared),
            b.sub_spec(s).neg_spec().div_spec(dv_squared),
        )
    }
}

/// The time until two bodies are in contact.
pub fn time_to_contact(dr: FloatVec, dv: FloatVec, reach: Float) -> (r: Option<Float>)
    ensures
        r == contact_time(dr, dv, reach),
        r matches Some(t) ==> t.is_positive_spec(),
{
    let dv_squared = dv.dot(&dv);
    let lhs = dv_squared * reach * reach;
    let rhs = dr.cross_squared(&dv);
    if lhs.lt(rhs) {
        // the discriminant is below zero
        None
    } else {
        // find the smallest positive solution
        let disc = lhs - rhs;
        let r1 = (dv.dot(&dr) + disc.sqrt()).neg() / dv_squared;
        let r2 = (dv.dot(&dr) - disc.sqrt()).neg() / dv_squared;
        smallest_positive(r1, r2)
    }
}

/// The tangent that belongs to the unit vector `normal`: the normal turned
/// by a quarter turn anticlockwise.
pub open spec fn tangent_of(normal: FloatVec) -> FloatVec {
    normal.anti_clockwise_perpendicular_spec()
}

/// The velocities of two balls of equal mass after an elastic collision
/// along the unit vector `normal` of the line of centres: each keeps its
/// part along the tangent and takes the other's part along the normal.
pub open spec fn exchanged(v1: FloatVec, v2: FloatVec, normal: FloatVec) -> (FloatVec, FloatVec) {
    let tangent = tangent_of(normal);
    let alpha_1 = v1.dot_spec(tangent);
    let beta_1 = v1.dot_spec(normal);
    let alpha_2 = v2.dot_spec(tangent);
    let beta_2 = v2.dot_spec(normal);
    (
        tangent.mul_spec(alpha_1).add_spec(normal.mul_spec(beta_2)),
        tangent.mul_spec(alpha_2).add_spec(normal.mul_spec(beta_1)),
    )
}

/// The velocity of a ball after it is reflected by a wall with the unit
/// normal `normal`: it keeps its part along the tangent, and its part along
/// the normal is reversed.
pub open spec fn reflected(v: FloatVec, normal: FloatVec) -> FloatVec {
    let tangent = tangent_of(normal);
    let alpha = v.dot_spec(tangent);
    let beta = v.dot_spec(normal);
    tangent.mul_spec(alpha).sub_spec(normal.mul_spec(beta))
}

/// What can collide with a `T`.
pub trait Collide<T>: Sized {
    /// The time until `self` and `other` are in contact, if they ever are.
    spec fn contact(&self, other: &T) -> Option<Float>;

    /// `self` and `other` after their collision, or why they cannot collide.
    spec fn rebound(&self, other: &T) -> Result<(Self, T), DynamicsError>;

    /// The time until `self` and `other` are in contact, if they ever are.
    /// A time of contact is above zero.
    fn time_to_collision(&self, other: &T) -> (r: Option<Float>)
        ensures
            r == self.contact(other),
            r matches Some(t) ==> t.is_positive_spec(),
    ;

    /// Gives `self` and `other` the velocities that they have after their
    /// collision. Where they cannot collide, both stay as they are.
    fn collide(&mut self, other: &mut T) -> (r: Result<(), DynamicsError>)
        ensures
            match old(self).rebound(old(other)) {
                Ok((a, b)) => r is Ok && *final(self) == a && *final(other) == b,
                Err(e) => {
                    &&& r == Err::<(), DynamicsError>(e)
                    &&& *final(self) == *old(self)
                    &&& *final(other) == *old(other)
                },
            },
    ;
}

impl Collide<Ball> for Ball {
    /// Two balls are in contact where their centres are the sum of their
    /// radii apart.
    open spec fn contact(&self, other: &Ball) -> Option<Float> {
        contact_time(
            self.pos.sub_spec(other.pos),
            self.vel.sub_spec(other.vel),
            self.r.add_spec(other.r),
        )
    }

    /// Two balls exchange the parts of their velocities along the line of
    /// centres.
    open spec fn rebound(&self, other: &Ball) -> Result<(Ball, Ball), DynamicsError> {
        match unit_between(self.pos, other.pos) {
            Ok(normal) => {
                let (v1, v2) = exchanged(self.vel, other.vel, normal);
                Ok((Ball { vel: v1, ..*self }, Ball { vel: v2, ..*other }))
            },
            Err(e) => Err(e),
        }
    }

    fn time_to_collision(&self, other: &Ball) -> (r: Option<Float>) {
        let dr = self.pos - other.pos;
        let dv = self.vel - other.vel;
        time_to_contact(dr, dv, self.r + other.r)
    }

    fn collide(&mut self, other: &mut Ball) -> (r: Result<(), DynamicsError>) {
        let normed_normal = match normalised_difference(&*self, &*other) {
            Ok(n) => n,
            Err(e) => {
                return Err(e);
            },
        };
        let loc = normed_normal.anti_clockwise_perpendicular();
        let alpha_1 = self.vel.dot(&loc);
        let beta_1 = self.vel.dot(&normed_normal);
        let alpha_2 = other.vel.dot(&loc);
        let beta_2 = other.vel.dot(&normed_normal);
        self.set_vel(alpha_1 * loc + beta_2 * normed_normal);
        other.set_vel(alpha_2 * loc + beta_1 * normed_normal);
        Ok(())
    }
}

impl Ball {
    /// The unit vector that points from the centre of `self` to the centre
    /// of `other`.
    pub fn normalised_difference(&self, other: &Ball) -> (r: Result<FloatVec, DynamicsError>)
        ensures
            r == unit_between(self.pos, other.pos),
    {
        normalised_difference(self, other)
    }

    /// The velocities that `self` and `other` have after their collision,
    /// with neither of them changed.
    pub fn calculate_collision(&self, other: &Ball) -> (r: Result<
        (FloatVec, FloatVec),
        DynamicsError,
    >)
        ensures
            r == match unit_between(self.pos, other.pos) {
                Ok(normal) => Ok::<(FloatVec, FloatVec), DynamicsError>(
                    exchanged(self.vel, other.vel, normal),
                ),
                Err(e) => Err(e),
            },
    {
        let mut a = *self;
        let mut b = *other;
        match a.collide(&mut b) {
            Ok(()) => Ok((a.vel, b.vel)),
            Err(e) => Err(e),
        }
    }
}

impl Collide<Container> for Ball {
    /// A ball is in contact with the container where its centre is the
    /// difference of the radii away from the origin.
    open spec fn contact(&self, other: &Container) -> Option<Float> {
        contact_time(self.pos, self.vel, self.r.sub_spec(other.r))
    }

    /// The container reflects the ball; it stays as it is.
    open spec fn rebound(&self, other: &Container) -> Result<(Ball, Container), DynamicsError> {
        match unit_between(self.pos, FloatVec::origin_spec()) {
            Ok(normal) => Ok((Ball { vel: reflected(self.vel, normal), ..*self }, *other)),
            Err(e) => Err(e),
        }
    }

    fn time_to_collision(&self, other: &Container) -> (r: Option<Float>) {
        time_to_contact(self.pos, self.vel, self.r - other.r)
    }

    fn collide(&mut self, other: &mut Container) -> (r: Result<(), DynamicsError>) {
        let normed_normal = match normalised_difference(&*self, &*other) {
            Ok(n) => n,
            Err(e) => {
                return Err(e);
            },
        };
        let loc = normed_normal.anti_clockwise_perpendicular();
        let alpha = self.vel.dot(&loc);
        let beta = self.vel.dot(&normed_normal);
        self.set_vel(alpha * loc - beta * normed_normal);
        Ok(())
    }
}

} // verus!
