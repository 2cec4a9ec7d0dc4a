//! Centres, and the unit vector from one to another.
use vstd::prelude::*;
use crate::dynamics::DynamicsError;
use crate::dynamics::ball::Ball;
use crate::dynamics::ball::Container;
use crate::dynamics::maths::FloatVec;

verus! {

/// What has a centre.
pub trait Centre {
    /// The centre.
    spec fn centre(&self) -> FloatVec;

    /// The centre.
    fn get_centre(&self) -> (r: FloatVec)
        ensures
            r == self.centre(),
    ;
}

impl Centre for Ball {
    open spec fn centre(&self) -> FloatVec {
        self.pos
    }

    fn get_centre(&self) -> (r: FloatVec) {
        self.pos
    }
}

impl Centre for Container {
    open spec fn centre(&self) -> FloatVec {
        FloatVec::origin_spec()
    }

    fn get_centre(&self) -> (r: FloatVec) {
        FloatVec::origin()
    }
}

/// The unit vector that points from the centre `from` to the centre `to`,
/// or the error where the two centres coincide up to one unit in the last
/// place.
pub open spec fn unit_between(from: FloatVec, to: FloatVec) -> Result<FloatVec, DynamicsError> {
    if from.approx_eq_spec(to, 1) {
        Err(DynamicsError::IntersectingParticles)
    } else {
        Ok(to.sub_spec(from).normalize_spec())
    }
}

/// The unit vector that points from the centre of `a` to the centre of `b`.
/// Where the centres coincide up to one unit in the last place no line joins
/// them, and the result is `IntersectingParticles`.
pub fn normalised_difference<T, U>(a: &T, b: &U) -> (r: Result<FloatVec, DynamicsError>) where
    T: Centre,
    U: Centre,

    ensures
        r == unit_between(a.centre(), b.centre()),
{
    let centre_a = a.get_centre();
    let centre_b = b.get_centre();
    if centre_a.approx_eq(&centre_b, 1) {
        Err(DynamicsError::IntersectingParticles)
    } else {
        let diff = centre_b - centre_a;
        let diff_squared = diff.dot(&diff);
        Ok(diff / diff_squared.sqrt())
    }
}

} // verus!
