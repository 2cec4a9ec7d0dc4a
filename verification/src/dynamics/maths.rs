//! Plane vectors of doubles, and equality up to units in the last place.
use vstd::prelude::*;
use crate::binary64::Float;

verus! {

/// The distance between two bit patterns, each read as an unsigned integer.
pub open spec fn ulp_distance(a: Float, b: Float) -> int {
    if a.bits >= b.bits {
        a.bits - b.bits
    } else {
        b.bits - a.bits
    }
}

/// Whether two doubles lie within `ulp` units in the last place of each
/// other: whether their bit patterns, read as unsigned integers, differ by at
/// most `ulp`.
pub fn approx_eq_f64(a: Float, b: Float, ulp: u64) -> (r: bool)
    ensures
        r == (ulp_distance(a, b) <= ulp),
{
    let au: u64 = a.to_bits();
    let bu: u64 = b.to_bits();
    if au >= bu {
        au - bu <= ulp
    } else {
        bu - au <= ulp
    }
}

/// Doubles that differ in the last bit only are equal at a tolerance of one
/// unit; doubles two or more units apart are not.
pub proof fn lemma_ulp_equality(a: Float, b: Float)
    ensures
        (a.bits + 1 == b.bits || b.bits + 1 == a.bits) ==> ulp_distance(a, b) <= 1,
        (a.bits + 2 <= b.bits || b.bits + 2 <= a.bits) ==> !(ulp_distance(a, b) <= 1),
        a.bits == b.bits <==> ulp_distance(a, b) <= 0,
{
}

/// A plane vector of two doubles.
#[derive(Clone, Copy, Debug, PartialEq, Eq, Structural)]
pub struct FloatVec {
    pub x: Float,
    pub y: Float,
}

impl FloatVec {
    /// The vector with the given components.
    pub fn new(x: Float, y: Float) -> (r: FloatVec)
        ensures
            r.x == x,
            r.y == y,
    {
        FloatVec { x, y }
    }

    /// The vector of two positive zeros.
    pub open spec fn origin_spec() -> FloatVec {
        FloatVec { x: Float { bits: 0 }, y: Float { bits: 0 } }
    }

    /// The vector of two positive zeros.
    pub fn origin() -> (r: FloatVec)
        ensures
            r == FloatVec::origin_spec(),
    {
        FloatVec { x: Float::zero(), y: Float::zero() }
    }

    /// The sum, component by component.
    pub open spec fn add_spec(self, other: FloatVec) -> FloatVec {
        FloatVec { x: self.x.add_spec(other.x), y: self.y.add_spec(other.y) }
    }

    /// The sum, component by component.
    pub fn add(self, other: FloatVec) -> (r: FloatVec)
        ensures
            r == self.add_spec(other),
    {
        FloatVec { x: self.x + other.x, y: self.y + other.y }
    }

    /// The difference, component by component.
    pub open spec fn sub_spec(self, other: FloatVec) -> FloatVec {
        FloatVec { x: self.x.sub_spec(other.x), y: self.y.sub_spec(other.y) }
    }

    /// The difference, component by component.
    pub fn sub(self, other: FloatVec) -> (r: FloatVec)
        ensures
            r == self.sub_spec(other),
    {
        FloatVec { x: self.x - other.x, y: self.y - other.y }
    }

    /// The vector with each component multiplied by `factor`.
    pub open spec fn mul_spec(self, factor: Float) -> FloatVec {
        FloatVec { x: self.x.mul_spec(factor), y: self.y.mul_spec(factor) }
    }

    /// The vector with each component multiplied by `factor`.
    pub fn mul(self, factor: Float) -> (r: FloatVec)
        ensures
            r == self.mul_spec(factor),
    {
        FloatVec { x: self.x * factor, y: self.y * factor }
    }

    /// The vector with each component divided by `divisor`.
    pub open spec fn div_spec(self, divisor: Float) -> FloatVec {
        FloatVec { x: self.x.div_spec(divisor), y: self.y.div_spec(divisor) }
    }

    /// The vector with each component divided by `divisor`.
    pub fn div(self, divisor: Float) -> (r: FloatVec)
        ensures
            r == self.div_spec(divisor),
    {
        FloatVec { x: self.x / divisor, y: self.y / divisor }
    }

    /// The vector with the sign of each component flipped.
    pub open spec fn neg_spec(self) -> FloatVec {
        FloatVec { x: self.x.neg_spec(), y: self.y.neg_spec() }
    }

    /// The vector with the sign of each component flipped.
    pub fn neg(self) -> (r: FloatVec)
        ensures
            r == self.neg_spec(),
    {
        FloatVec { x: self.x.neg(), y: self.y.neg() }
    }

    /// The scalar product `x1 * x2 + y1 * y2`.
    pub open spec fn dot_spec(self, other: FloatVec) -> Float {
        self.x.mul_spec(other.x).add_spec(self.y.mul_spec(other.y))
    }

    /// The scalar product `x1 * x2 + y1 * y2`.
    pub fn dot(&self, other: &FloatVec) -> (r: Float)
        ensures
            r == self.dot_spec(*other),
    {
        self.x * other.x + self.y * other.y
    }

    /// The square of the plane cross product, `(x1 * y2 - y1 * x2)^2`.
    pub open spec fn cross_squared_spec(self, other: FloatVec) -> Float {
        let c = self.x.mul_spec(other.y).sub_spec(self.y.mul_spec(other.x));
        c.mul_spec(c)
    }

    /// The square of the plane cross product, `(x1 * y2 - y1 * x2)^2`.
    pub fn cross_squared(&self, other: &FloatVec) -> (r: Float)
        ensures
            r == self.cross_squared_spec(*other),
    {
        let x = self.x * other.y - self.y * other.x;
        x * x
    }

    /// The vector turned by a quarter turn anticlockwise, `(-y, x)`.
    pub open spec fn anti_clockwise_perpendicular_spec(self) -> FloatVec {
        FloatVec { x: self.y.neg_spec(), y: self.x }
    }

    /// The vector turned by a quarter turn anticlockwise, `(-y, x)`.
    pub fn anti_clockwise_perpendicular(&self) -> (r: FloatVec)
        ensures
            r == self.anti_clockwise_perpendicular_spec(),
    {
        FloatVec { x: self.y.neg(), y: self.x }
    }

    /// The length, the root of the scalar product with itself.
    pub open spec fn magnitude_spec(self) -> Float {
        self.dot_spec(self).sqrt_spec()
    }

    /// The length, the root of the scalar product with itself.
    pub fn magnitude(&self) -> (r: Float)
        ensures
            r == self.magnitude_spec(),
    {
        self.dot(self).sqrt()
    }

    /// The vector divided by its length.
    pub open spec fn normalize_spec(self) -> FloatVec {
        self.div_spec(self.magnitude_spec())
    }

    /// The vector divided by its length.
    pub fn normalize(&self) -> (r: FloatVec)
        ensures
            r == self.normalize_spec(),
    {
        *self / self.magnitude()
    }

    /// Whether both components lie within `ulp` units in the last place of
    /// those of `other`.
    pub open spec fn approx_eq_spec(self, other: FloatVec, ulp: u64) -> bool {
        ulp_distance(self.x, other.x) <= ulp && ulp_distance(self.y, other.y) <= ulp
    }

    /// Whether both components lie within `ulp` units in the last place of
    /// those of `other`.
    pub fn approx_eq(&self, other: &FloatVec, ulp: u64) -> (r: bool)
        ensures
            r == self.approx_eq_spec(*other, ulp),
    {
        approx_eq_f64(self.x, other.x, ulp) && approx_eq_f64(self.y, other.y, ulp)
    }

    /// Whether the two vectors have the same bits.
    pub fn same_bits(&self, other: &FloatVec) -> (r: bool)
        ensures
            r == (*self == *other),
    {
        self.x.to_bits() == other.x.to_bits() && self.y.to_bits() == other.y.to_bits()
    }
}

/// Flipping a sign twice gives the number back.
pub proof fn lemma_neg_twice(a: Float)
    ensures
        a.neg_spec().neg_spec() == a,
{
}

/// Two quarter turns are a half turn: turning a vector twice gives its
/// negative, bit for bit.
pub proof fn lemma_perpendicular_twice(v: FloatVec)
    ensures
        v.anti_clockwise_perpendicular_spec().anti_clockwise_perpendicular_spec() == v.neg_spec(),
{
}

impl From<(Float, Float)> for FloatVec {
    fn from(value: (Float, Float)) -> (r: FloatVec) {
        let (x, y) = value;
        FloatVec { x, y }
    }
}

impl vstd::std_specs::convert::FromSpecImpl<(Float, Float)> for FloatVec {
    open spec fn obeys_from_spec() -> bool {
        true
    }

    open spec fn from_spec(value: (Float, Float)) -> FloatVec {
        FloatVec { x: value.0, y: value.1 }
    }
}

/// `a + b` is the sum, component by component.
impl core::ops::Add<FloatVec> for FloatVec {
    type Output = FloatVec;

    fn add(self, other: FloatVec) -> (r: FloatVec) {
        self.add(other)
    }
}

impl vstd::std_specs::ops::AddSpecImpl<FloatVec> for FloatVec {
    open spec fn obeys_add_spec() -> bool {
        true
    }

    open spec fn add_req(self, other: FloatVec) -> bool {
        true
    }

    open spec fn add_spec(self, other: FloatVec) -> FloatVec {
        self.add_spec(other)
    }
}

/// `a - b` is the difference, component by component.
impl core::ops::Sub<FloatVec> for FloatVec {
    type Output = FloatVec;

    fn sub(self, other: FloatVec) -> (r: FloatVec) {
        self.sub(other)
    }
}

impl vstd::std_specs::ops::SubSpecImpl<FloatVec> for FloatVec {
    open spec fn obeys_sub_spec() -> bool {
        true
    }

    open spec fn sub_req(self, other: FloatVec) -> bool {
        true
    }

    open spec fn sub_spec(self, other: FloatVec) -> FloatVec {
        self.sub_spec(other)
    }
}

/// `v * s` is the vector with each component multiplied by `s`.
impl core::ops::Mul<Float> for FloatVec {
    type Output = FloatVec;

    fn mul(self, factor: Float) -> (r: FloatVec) {
        self.mul(factor)
    }
}

impl vstd::std_specs::ops::MulSpecImpl<Float> for FloatVec {
    open spec fn obeys_mul_spec() -> bool {
        true
    }

    open spec fn mul_req(self, factor: Float) -> bool {
        true
    }

    open spec fn mul_spec(self, factor: Float) -> FloatVec {
        self.mul_spec(factor)
    }
}

/// `s * v` is `v * s`.
impl core::ops::Mul<FloatVec> for Float {
    type Output = FloatVec;

    fn mul(self, other: FloatVec) -> (r: FloatVec) {
        other.mul(self)
    }
}

impl vstd::std_specs::ops::MulSpecImpl<FloatVec> for Float {
    open spec fn obeys_mul_spec() -> bool {
        true
    }

    open spec fn mul_req(self, other: FloatVec) -> bool {
        true
    }

    open spec fn mul_spec(self, other: FloatVec) -> FloatVec {
        other.mul_spec(self)
    }
}

/// `v / s` is the vector with each component divided by `s`.
impl core::ops::Div<Float> for FloatVec {
    type Output = FloatVec;

    fn div(self, divisor: Float) -> (r: FloatVec) {
        self.div(divisor)
    }
}

impl vstd::std_specs::ops::DivSpecImpl<Float> for FloatVec {
    open spec fn obeys_div_spec() -> bool {
        true
    }

    open spec fn div_req(self, divisor: Float) -> bool {
        true
    }

    open spec fn div_spec(self, divisor: Float) -> FloatVec {
        self.div_spec(divisor)
    }
}

} // verus!
