use eight_ball::binary64::Float;
use eight_ball::dynamics::ball::Ball;
use eight_ball::dynamics::maths::FloatVec;
use eight_ball::dynamics::DynamicsError;
use eight_ball::simulation::data::{DataEvent, PostData, PreData};
use eight_ball::simulation::collision::CollisionPartner;
use eight_ball::simulation::histogram::Histogram;
use eight_ball::simulation::observe::{
    any_escaped, collision_times, nth_collision_times, track_positions, windowed_pressure,
};
use eight_ball::simulation::simulate::Simulation;

fn fl(x: f64) -> Float {
    Float::from_bits(x.to_bits())
}

fn num(x: Float) -> f64 {
    f64::from_bits(x.to_bits())
}

fn nums(v: &Vec<Float>) -> Vec<f64> {
    v.iter().map(|x| num(*x)).collect()
}

fn ball(pos: (f64, f64), vel: (f64, f64), r: f64) -> Ball {
    Ball::new(
        FloatVec::new(fl(pos.0), fl(pos.1)),
        FloatVec::new(fl(vel.0), fl(vel.1)),
        fl(r),
    )
}

fn bouncing() -> Simulation {
    let mut sim = Simulation::new(fl(1.0));
    sim.add_ball(ball((0.125, 0.), (1., 0.), 0.125));
    sim.initialise();
    sim
}

fn pair() -> Simulation {
    let mut sim = Simulation::new(fl(1.0));
    sim.add_ball(ball((-0.5, 0.), (1., 0.25), 0.1));
    sim.add_ball(ball((0.5, 0.125), (-1., 0.5), 0.1));
    sim.initialise();
    sim
}

#[test]
fn histogram_counts_values_in_their_bins() {
    let data: Vec<Float> =
        [0.0, 0.1, 0.25, 0.3, 0.5, 0.74, 0.75, 0.99, 1.0, -0.1, 2.0, f64::NAN]
            .iter()
            .map(|x| fl(*x))
            .collect();
    let h = Histogram::bin(fl(0.0), fl(1.0), 4, &data);
    assert_eq!(h.counts(), vec![2, 2, 2, 2]);
    assert_eq!(num(h.width()), 0.25);
    assert_eq!(nums(&h.edges()), vec![0.0, 0.25, 0.5, 0.75, 1.0]);
    assert_eq!(nums(&h.centres()), vec![0.125, 0.375, 0.625, 0.875]);
    let shifted = Histogram::bin(fl(-1.0), fl(2.0), 3, &data);
    assert_eq!(shifted.counts(), vec![1, 8, 1]);
    let none = Histogram::bin(fl(0.0), fl(1.0), 0, &data);
    assert_eq!(none.counts(), Vec::<usize>::new());
    assert_eq!(none.edges().len(), 1);
    let empty = Histogram::bin(fl(0.0), fl(1.0), 2, &Vec::new());
    assert_eq!(empty.counts(), vec![0, 0]);
}

#[test]
fn histogram_puts_the_right_edge_into_the_last_bin() {
    // the quotient of the largest value below the right edge by the width
    // rounds up to the number of bins
    let below = f64::from_bits(0.9f64.to_bits() - 1);
    let width = 0.9 / 3.0;
    assert!(below < 0.9);
    assert_eq!((below / width) as usize, 3);
    let h = Histogram::bin(fl(0.0), fl(0.9), 3, &vec![fl(below)]);
    assert_eq!(h.counts(), vec![0, 0, 1]);
}

#[test]
fn collision_times_are_the_steps_of_the_clock() {
    let mut sim = pair();
    let mut twin = pair();
    let times = nums(&collision_times(&mut sim, 40).unwrap());
    assert_eq!(times.len(), 40);
    let mut last = 0.0;
    for k in 0..40 {
        assert_eq!(twin.step_through_collision(), Ok(()));
        let now = num(twin.global_time());
        assert_eq!(times[k], now - last);
        last = now;
    }
    assert_eq!(num(sim.global_time()), last);
    assert_eq!(sim.balls(), twin.balls());
}

#[test]
fn nth_collision_times_add_up_groups() {
    let mut sim = pair();
    let mut twin = pair();
    let single = nums(&collision_times(&mut twin, 12).unwrap());
    let sums = nums(&nth_collision_times(&mut sim, 4, 14).unwrap());
    assert_eq!(sums.len(), 3);
    for g in 0..3 {
        let mut want = 0.0;
        for s in 0..4 {
            want += single[4 * g + s];
        }
        assert_eq!(sums[g], want);
    }
    assert_eq!(num(sim.global_time()), num(twin.global_time()));
}

#[test]
fn observing_an_empty_simulation_fails() {
    let mut sim = Simulation::new(fl(1.0));
    sim.initialise();
    assert_eq!(collision_times(&mut sim, 0).map(|v| v.len()), Ok(0));
    assert_eq!(collision_times(&mut sim, 1), Err(DynamicsError::SimulationFailure));
    assert_eq!(nth_collision_times(&mut sim, 2, 1).map(|v| v.len()), Ok(0));
    assert_eq!(nth_collision_times(&mut sim, 2, 2), Err(DynamicsError::SimulationFailure));
    assert_eq!(track_positions(&mut sim, 1), Err(DynamicsError::SimulationFailure));
    assert_eq!(track_positions(&mut sim, 0), Ok(None));
}

#[test]
fn balls_in_the_unit_disk_never_escape() {
    let mut sim = pair();
    assert!(!any_escaped(&sim));
    assert_eq!(track_positions(&mut sim, 200), Ok(None));
    assert!(num(sim.global_time()) > 0.0);
}

#[test]
fn a_ball_in_a_larger_container_escapes_the_unit_disk() {
    let mut sim = Simulation::new(fl(2.0));
    sim.add_ball(ball((0., 0.), (1., 0.), 0.5));
    sim.initialise();
    // the first wall is at 1.5 from the origin
    let found = track_positions(&mut sim, 3).unwrap().unwrap();
    assert_eq!(found.0, 0);
    assert!((num(found.1) - 1.5).abs() <= 1e-15);
    assert!(any_escaped(&sim));
}

#[test]
fn pressure_window_slides_over_the_samples() {
    let samples: Vec<(Float, Float)> = [
        (1.0, 0.5),
        (2.0, 0.25),
        (4.0, 1.0),
        (7.0, 2.0),
        (8.0, 0.125),
        (10.0, 4.0),
    ]
    .iter()
    .map(|(t, p)| (fl(*t), fl(*p)))
    .collect();
    let (times, pressures) = windowed_pressure(&samples, 3);
    // each window is left by its first sample and spans from its second
    assert_eq!(nums(&times), vec![7.0 - 2.0, 8.0 - 4.0, 10.0 - 7.0]);
    assert_eq!(nums(&pressures), vec![3.25, 3.125, 6.125]);
    let (times, pressures) = windowed_pressure(&samples, 6);
    assert!(times.is_empty() && pressures.is_empty());
    let (times, pressures) = windowed_pressure(&samples, 2);
    assert_eq!(nums(&times), vec![4.0 - 2.0, 7.0 - 4.0, 8.0 - 7.0, 10.0 - 8.0]);
    assert_eq!(nums(&pressures), vec![1.25, 3.0, 2.125, 4.125]);
}

#[test]
fn a_bouncing_ball_presses_on_the_wall() {
    let mut sim = bouncing();
    let mut samples = Vec::new();
    for _ in 0..5 {
        let record = sim.step_with_data().unwrap();
        samples.push((record.time(), record.container_pressure().unwrap()));
    }
    for (_, p) in samples.iter() {
        assert_eq!(num(*p), 2.0);
    }
    let (times, pressures) = windowed_pressure(&samples, 2);
    assert_eq!(nums(&pressures), vec![4.0, 4.0, 4.0]);
    for t in nums(&times) {
        // from wall to wall the centre has 1.75 to go
        assert!((t - 1.75).abs() <= 1e-5);
    }
}

#[test]
fn records_are_made_of_what_was_before_and_after() {
    let mut sim = pair();
    let pre = PreData::from_indices(&sim, 0, CollisionPartner::Ball(1));
    let post = PostData::from_indices(&sim, 0, CollisionPartner::Ball(1));
    match DataEvent::from((pre, post)) {
        DataEvent::BallCollision { time, indices, pres, posts } => {
            assert_eq!(num(time), 0.0);
            assert_eq!(indices, (0, 1));
            assert_eq!(pres.0, sim.ball(0));
            assert_eq!(pres.1, sim.ball(1));
            assert_eq!(posts, pres);
        }
        _ => panic!("two balls were asked for"),
    }
    sim.step(fl(0.125));
    let pre = PreData::from_indices(&sim, 1, CollisionPartner::Container);
    let post = PostData::from_indices(&sim, 1, CollisionPartner::Container);
    let record = DataEvent::from((pre, post));
    match record {
        DataEvent::ContainerCollision { time, index, pre, post } => {
            assert_eq!(num(time), 0.125);
            assert_eq!(index, 1);
            assert_eq!(pre, sim.ball(1));
            assert_eq!(post, sim.ball(1));
        }
        _ => panic!("the container was asked for"),
    }
    assert_eq!(num(record.time()), 0.125);
    assert_eq!(num(record.container_pressure().unwrap()), 0.0);
}
