use eight_ball::binary64::Float;
use eight_ball::dynamics::ball::{Ball, Container};
use eight_ball::dynamics::centre::{normalised_difference, Centre};
use eight_ball::dynamics::collide::{smallest_positive, time_to_contact, Collide};
use eight_ball::dynamics::maths::{approx_eq_f64, FloatVec};
use eight_ball::dynamics::DynamicsError;

fn fl(x: f64) -> Float {
    Float::from_bits(x.to_bits())
}

fn num(x: Float) -> f64 {
    f64::from_bits(x.to_bits())
}

fn vec2(x: f64, y: f64) -> FloatVec {
    FloatVec::new(fl(x), fl(y))
}

fn xy(v: FloatVec) -> (f64, f64) {
    (num(v.x), num(v.y))
}

fn ball(pos: (f64, f64), vel: (f64, f64), r: f64) -> Ball {
    Ball::new(vec2(pos.0, pos.1), vec2(vel.0, vel.1), fl(r))
}

#[test]
fn time_to_collision() {
    let b1 = Ball::new((fl(0.), fl(0.)).into(), (fl(1.), fl(0.)).into(), fl(0.1));
    let b2 = Ball::new((fl(1.), fl(0.)).into(), (fl(0.), fl(0.)).into(), fl(0.1));
    let ttc = b1.time_to_collision(&b2).unwrap();
    println!("{}", num(ttc));

    assert!(approx_eq_f64(ttc, fl(0.8), 1));
}

#[test]
fn operators_are_the_named_operations() {
    let a = vec2(0.1, -0.7);
    let b = vec2(3.3, 1e-3);
    let s = fl(1.7);
    assert!((a + b).same_bits(&a.add(b)));
    assert!((a - b).same_bits(&a.sub(b)));
    assert!((a * s).same_bits(&a.mul(s)));
    assert!((s * a).same_bits(&a.mul(s)));
    assert!((a / s).same_bits(&a.div(s)));
    assert_eq!(xy(a + b), (0.1 + 3.3, -0.7 + 1e-3));
    let x = fl(0.3);
    assert_eq!(num(x + s), 0.3 + 1.7);
    assert_eq!(num(x - s), 0.3 - 1.7);
    assert_eq!(num(x * s), 0.3 * 1.7);
    assert_eq!(num(x / s), 0.3 / 1.7);
    assert_eq!(xy(FloatVec::from((x, s))), (0.3, 1.7));
}

#[test]
fn head_on_collision_takes_gap_over_speed_and_swaps_velocities() {
    let d = 0.5;
    let v = 1.0;
    let r = 0.1;
    let mut a = ball((-d, 0.), (v, 0.), r);
    let mut b = ball((d, 0.), (-v, 0.), r);
    let ttc = num(a.time_to_collision(&b).unwrap());
    assert!((ttc - (d - r) / v).abs() <= 1e-15, "{}", ttc);
    let back = num(b.time_to_collision(&a).unwrap());
    assert_eq!(ttc, back);
    assert_eq!(a.collide(&mut b), Ok(()));
    assert_eq!(xy(*a.vel()), (-v, 0.));
    assert_eq!(xy(*b.vel()), (v, 0.));
    assert_eq!(xy(*a.pos()), (-d, 0.));
    assert_eq!(xy(*b.pos()), (d, 0.));
}

#[test]
fn glancing_balls_meet_only_within_reach() {
    // radius one half each: the centres are one apart at contact
    let a = ball((0., 0.), (1., 0.), 0.5);
    let inside = ball((3., 0.75), (0., 0.), 0.5);
    let t = num(a.time_to_collision(&inside).unwrap());
    assert!(t.is_finite() && t > 0.0);
    // |dr + t dv| = 1 with dr = (-3, -0.75), dv = (1, 0): t = 3 - sqrt(1 - 0.5625)
    assert!((t - (3.0 - (1.0f64 - 0.5625).sqrt())).abs() <= 1e-15, "{}", t);
    let grazing = ball((3., 1.), (0., 0.), 0.5);
    assert_eq!(num(a.time_to_collision(&grazing).unwrap()), 3.0);
    let outside = ball((3., 1.25), (0., 0.), 0.5);
    assert!(a.time_to_collision(&outside).is_none());
}

#[test]
fn balls_that_part_or_rest_never_meet() {
    let a = ball((0., 0.), (-1., 0.), 0.1);
    let b = ball((1., 0.), (1., 0.), 0.1);
    assert!(a.time_to_collision(&b).is_none());
    let still = ball((0., 0.), (0., 0.), 0.1);
    let other = ball((1., 0.), (0., 0.), 0.1);
    assert!(still.time_to_collision(&other).is_none());
    let same = ball((0., 0.), (2., 1.), 0.1);
    let pace = ball((1., 0.), (2., 1.), 0.1);
    assert!(same.time_to_collision(&pace).is_none());
}

#[test]
fn container_reflects_a_ball_from_the_centre() {
    let mut b = ball((0., 0.), (1., 0.), 0.1);
    let mut c = Container::new(fl(1.0));
    let ttc = num(b.time_to_collision(&c).unwrap());
    assert!((ttc - 0.9).abs() <= 1e-15, "{}", ttc);
    // at the origin no normal exists
    assert_eq!(b.collide(&mut c), Err(DynamicsError::IntersectingParticles));
    assert_eq!(xy(*b.vel()), (1., 0.));
    b.step(fl(ttc));
    assert_eq!(b.collide(&mut c), Ok(()));
    assert_eq!(xy(*b.vel()), (-1., 0.));
    assert_eq!(num(c.r()), 1.0);
}

#[test]
fn container_reflection_keeps_the_tangential_part() {
    let mut b = ball((0., 0.5), (1., 1.), 0.1);
    let mut c = Container::new(fl(1.0));
    // normal (0, -1): the part along y is reversed
    assert_eq!(b.collide(&mut c), Ok(()));
    assert_eq!(xy(*b.vel()), (1., -1.));
}

#[test]
fn oblique_collision_swaps_only_the_normal_parts() {
    // line of centres along y
    let mut a = ball((0., 0.), (1., 2.), 0.5);
    let mut b = ball((0., 1.), (3., -4.), 0.5);
    assert_eq!(a.collide(&mut b), Ok(()));
    assert_eq!(xy(*a.vel()), (1., -4.));
    assert_eq!(xy(*b.vel()), (3., 2.));
}

#[test]
fn calculated_collision_leaves_the_balls_alone() {
    let a = ball((0., 0.), (1., 2.), 0.5);
    let b = ball((0., 1.), (3., -4.), 0.5);
    let (va, vb) = a.calculate_collision(&b).unwrap();
    assert_eq!(xy(va), (1., -4.));
    assert_eq!(xy(vb), (3., 2.));
    assert_eq!(xy(*a.vel()), (1., 2.));
    assert_eq!(xy(*b.vel()), (3., -4.));
    assert_eq!(xy(a.normalised_difference(&b).unwrap()), (0., 1.));
    assert_eq!(a.calculate_collision(&a), Err(DynamicsError::IntersectingParticles));
    assert_eq!(a.normalised_difference(&a), Err(DynamicsError::IntersectingParticles));
}

#[test]
fn coincident_centres_cannot_collide() {
    let mut a = ball((0.25, 0.25), (1., 0.), 0.1);
    let mut b = ball((0.25, 0.25), (-1., 0.), 0.1);
    assert_eq!(a.collide(&mut b), Err(DynamicsError::IntersectingParticles));
    assert_eq!(xy(*a.vel()), (1., 0.));
    assert_eq!(xy(*b.vel()), (-1., 0.));
    // one unit in the last place apart is still too close
    let next = f64::from_bits(0.25f64.to_bits() + 1);
    let mut c = ball((next, 0.25), (-1., 0.), 0.1);
    assert_eq!(a.collide(&mut c), Err(DynamicsError::IntersectingParticles));
    let two = f64::from_bits(0.25f64.to_bits() + 2);
    let d = ball((two, 0.25), (-1., 0.), 0.1);
    assert!(normalised_difference(&a, &d).is_ok());
}

#[test]
fn normalised_difference_points_from_the_first_to_the_second() {
    let a = ball((1., 1.), (0., 0.), 0.1);
    let b = ball((4., 5.), (0., 0.), 0.1);
    let n = normalised_difference(&a, &b).unwrap();
    assert_eq!(xy(n), (3. / 5., 4. / 5.));
    let c = Container::new(fl(10.0));
    let to_origin = normalised_difference(&b, &c).unwrap();
    let len = (4.0f64 * 4.0 + 5.0 * 5.0).sqrt();
    assert_eq!(xy(to_origin), (-4. / len, -5. / len));
    assert_eq!(xy(a.get_centre()), (1., 1.));
    assert_eq!(xy(c.get_centre()), (0., 0.));
}

#[test]
fn smallest_positive_ignores_zero_and_below() {
    assert_eq!(smallest_positive(fl(2.0), fl(3.0)).map(num), Some(2.0));
    assert_eq!(smallest_positive(fl(3.0), fl(2.0)).map(num), Some(2.0));
    assert_eq!(smallest_positive(fl(-1.0), fl(2.0)).map(num), Some(2.0));
    assert_eq!(smallest_positive(fl(2.0), fl(-1.0)).map(num), Some(2.0));
    assert_eq!(smallest_positive(fl(0.0), fl(2.0)).map(num), Some(2.0));
    assert_eq!(smallest_positive(fl(0.0), fl(0.0)).map(num), None);
    assert_eq!(smallest_positive(fl(-0.0), fl(-3.0)).map(num), None);
    assert_eq!(smallest_positive(fl(f64::NAN), fl(f64::NAN)).map(num), None);
    assert_eq!(smallest_positive(fl(f64::NAN), fl(1.5)).map(num), Some(1.5));
}

#[test]
fn time_to_contact_solves_the_quadratic() {
    // dr = (-5, 0), dv = (2, 0), reach 1: contact at t = 2 and t = 3
    let t = time_to_contact(vec2(-5., 0.), vec2(2., 0.), fl(1.0)).unwrap();
    assert_eq!(num(t), 2.0);
    // already inside and leaving: only the later root is ahead
    let t = time_to_contact(vec2(0.5, 0.), vec2(2., 0.), fl(1.0)).unwrap();
    assert_eq!(num(t), 0.25);
    // a negative reach stands for the container and squares to the same
    let t = time_to_contact(vec2(0.5, 0.), vec2(2., 0.), fl(-1.0)).unwrap();
    assert_eq!(num(t), 0.25);
}

#[test]
fn vector_algebra_agrees_with_the_hardware() {
    let a = (0.1f64, -0.7f64);
    let b = (3.3f64, 1e-3f64);
    let va = vec2(a.0, a.1);
    let vb = vec2(b.0, b.1);
    assert_eq!(xy(va.add(vb)), (a.0 + b.0, a.1 + b.1));
    assert_eq!(xy(va.sub(vb)), (a.0 - b.0, a.1 - b.1));
    assert_eq!(xy(va.mul(fl(1.7))), (a.0 * 1.7, a.1 * 1.7));
    assert_eq!(xy(va.div(fl(1.7))), (a.0 / 1.7, a.1 / 1.7));
    assert_eq!(num(va.dot(&vb)), a.0 * b.0 + a.1 * b.1);
    let c = a.0 * b.1 - a.1 * b.0;
    assert_eq!(num(va.cross_squared(&vb)), c * c);
    let len = (a.0 * a.0 + a.1 * a.1).sqrt();
    assert_eq!(num(va.magnitude()), len);
    assert_eq!(xy(va.normalize()), (a.0 / len, a.1 / len));
    assert_eq!(xy(va.neg()), (-a.0, -a.1));
    assert_eq!(xy(FloatVec::origin()), (0.0, 0.0));
    assert!(va.same_bits(&vec2(a.0, a.1)));
    assert!(!va.same_bits(&vb));
}

#[test]
fn perpendicular_twice_is_the_negative() {
    for &(x, y) in [(1.0f64, 2.0f64), (0.0, -0.0), (-3.5, 1e300), (f64::INFINITY, 5e-324)].iter() {
        let v = vec2(x, y);
        let p = v.anti_clockwise_perpendicular();
        assert_eq!(p.x.to_bits(), (-y).to_bits());
        assert_eq!(p.y.to_bits(), x.to_bits());
        let pp = p.anti_clockwise_perpendicular();
        assert_eq!(pp.x.to_bits(), (-x).to_bits());
        assert_eq!(pp.y.to_bits(), (-y).to_bits());
        assert!(pp.same_bits(&v.neg()));
    }
}

#[test]
fn ulp_equality_counts_units_in_the_last_place() {
    let a = 0.8f64;
    let next = f64::from_bits(a.to_bits() + 1);
    let after = f64::from_bits(a.to_bits() + 2);
    assert!(approx_eq_f64(fl(a), fl(a), 0));
    assert!(approx_eq_f64(fl(a), fl(next), 1));
    assert!(approx_eq_f64(fl(next), fl(a), 1));
    assert!(!approx_eq_f64(fl(a), fl(next), 0));
    assert!(!approx_eq_f64(fl(a), fl(after), 1));
    assert!(!approx_eq_f64(fl(after), fl(a), 1));
    assert!(approx_eq_f64(fl(a), fl(after), 2));
    // the two zeros are far apart as bit patterns
    assert!(!approx_eq_f64(fl(0.0), fl(-0.0), 1));
    let v = vec2(a, 1.0);
    assert!(v.approx_eq(&vec2(next, 1.0), 1));
    assert!(!v.approx_eq(&vec2(after, 1.0), 1));
    assert!(!v.approx_eq(&vec2(a, f64::from_bits(1.0f64.to_bits() + 2)), 1));
}

#[test]
fn ball_steps_along_its_velocity() {
    let mut b = ball((0.25, -0.5), (2., 4.), 0.1);
    b.step(fl(0.125));
    assert_eq!(xy(*b.pos()), (0.5, 0.0));
    assert_eq!(xy(*b.vel()), (2., 4.));
    assert_eq!(num(b.r()), 0.1);
    b.set_vel(vec2(-1., 0.));
    assert_eq!(xy(*b.vel()), (-1., 0.));
}

#[test]
fn centre_of_mass_velocity_is_the_mean() {
    let a = ball((0., 0.), (1., 3.), 0.1);
    let b = ball((1., 0.), (2., -1.), 0.1);
    assert_eq!(xy(Ball::com_velocity(&a, &b)), (1.5, 1.0));
}

#[test]
fn touching_balls_are_a_sum_of_radii_apart() {
    let a = ball((0., 0.), (0., 0.), 0.25);
    let b = ball((0.5, 0.), (0., 0.), 0.25);
    assert!(a.touching(&b));
    let c = ball((0.75, 0.), (0., 0.), 0.25);
    assert!(!a.touching(&c));
}
