use eight_ball::binary64::Float;
use eight_ball::dynamics::ball::Ball;
use eight_ball::dynamics::collide::Collide;
use eight_ball::dynamics::maths::FloatVec;
use eight_ball::dynamics::DynamicsError;
use eight_ball::simulation::collision::{CollisionEvent, CollisionPartner};
use eight_ball::simulation::data::DataEvent;
use eight_ball::simulation::simulate::{Simulation, DEFAULT_DELTA_BITS};

fn fl(x: f64) -> Float {
    Float::from_bits(x.to_bits())
}

fn num(x: Float) -> f64 {
    f64::from_bits(x.to_bits())
}

fn vec2(x: f64, y: f64) -> FloatVec {
    FloatVec::new(fl(x), fl(y))
}

fn xy(v: FloatVec) -> (f64, f64) {
    (num(v.x), num(v.y))
}

fn ball(pos: (f64, f64), vel: (f64, f64), r: f64) -> Ball {
    Ball::new(vec2(pos.0, pos.1), vec2(vel.0, vel.1), fl(r))
}

fn two_balls() -> Simulation {
    let mut sim = Simulation::new(fl(1.0));
    sim.add_ball(ball((-0.5, 0.), (1., 0.), 0.1));
    sim.add_ball(ball((0.5, 0.), (-1., 0.), 0.1));
    sim
}

/// Twenty balls on a grid, with velocities from a fixed generator.
fn gas(seed: u64) -> Simulation {
    let mut sim = Simulation::new(fl(1.0));
    let mut state = seed;
    let mut next = move || {
        state = state.wrapping_mul(6364136223846793005).wrapping_add(1442695040888963407);
        ((state >> 11) as f64) / 9007199254740992.0 * 2.0 - 1.0
    };
    let mut placed = 0;
    for row in 0..5 {
        for col in 0..5 {
            if placed == 20 {
                break;
            }
            let x = -0.5 + 0.25 * (col as f64);
            let y = -0.5 + 0.25 * (row as f64);
            if (x * x + y * y).sqrt() + 0.05 >= 0.95 {
                continue;
            }
            sim.add_ball(ball((x, y), (next(), next()), 0.05));
            placed += 1;
        }
    }
    assert_eq!(placed, 20);
    sim
}

fn energy(sim: &Simulation) -> f64 {
    sim.balls().iter().map(|b| {
        let (vx, vy) = xy(*b.vel());
        0.5 * (vx * vx + vy * vy)
    }).sum()
}

#[test]
fn default_margin_is_a_millionth() {
    assert_eq!(f64::from_bits(DEFAULT_DELTA_BITS), 1e-6);
    let sim = Simulation::new(fl(2.0));
    assert_eq!(num(sim.delta()), 1e-6);
    assert_eq!(num(sim.global_time()), 0.0);
    assert_eq!(num(sim.container().r()), 2.0);
    assert_eq!(sim.ball_count(), 0);
    assert_eq!(sim.pending(), 0);
}

#[test]
fn initialise_schedules_pairs_and_walls() {
    let mut sim = two_balls();
    assert!(!sim.is_initialised());
    sim.initialise();
    assert!(sim.is_initialised());
    // the pair, and each ball with the container
    assert_eq!(sim.pending(), 3);
    // once is enough
    sim.initialise();
    assert_eq!(sim.pending(), 3);
    // three balls in a row that close in on the middle one: two pairs
    // meet, the outer two only reach the middle one
    let mut row = Simulation::new(fl(1.0));
    row.add_ball(ball((-0.5, 0.), (1., 0.), 0.1));
    row.add_ball(ball((0., 0.), (0., 0.), 0.1));
    row.add_ball(ball((0.5, 0.), (-1., 0.), 0.1));
    row.initialise();
    // pairs (0,1), (0,2), (1,2) and the two moving balls with the wall
    assert_eq!(row.pending(), 5);
    let mut still = Simulation::new(fl(1.0));
    still.add_ball(ball((-0.5, 0.), (0., 0.), 0.1));
    still.add_ball(ball((0.5, 0.), (0., 0.), 0.1));
    still.add_ball(ball((0., 0.5), (0., 0.), 0.1));
    still.initialise();
    assert_eq!(still.pending(), 0);
    let mut many = gas(7);
    many.initialise();
    assert!(many.pending() <= 20 * 19 / 2 + 20);
    assert!(many.pending() >= 20);
}

#[test]
fn two_balls_meet_then_reach_the_wall() {
    let mut sim = two_balls();
    sim.initialise();
    let first = sim.step_with_data().unwrap();
    match first {
        DataEvent::BallCollision { time, indices, pres, posts } => {
            assert!((num(time) - 0.4).abs() <= 1e-15);
            assert_eq!(indices, (0, 1));
            assert_eq!(xy(*pres.0.vel()), (1., 0.));
            assert_eq!(xy(*pres.1.vel()), (-1., 0.));
            assert_eq!(xy(*posts.0.vel()), (-1., 0.));
            assert_eq!(xy(*posts.1.vel()), (1., 0.));
        }
        _ => panic!("the first event is between the balls"),
    }
    assert!(first.container_pressure().is_none());
    assert_eq!(num(first.time()), num(sim.global_time()));
    assert_eq!(energy(&sim), 1.0);
    let second = sim.step_with_data().unwrap();
    match second {
        DataEvent::ContainerCollision { time, index, pre, post } => {
            // from the contact at 0.4 the ball has 0.8 to go to the wall
            assert!((num(time) - 1.2).abs() <= 1e-6);
            assert!(index == 0 || index == 1);
            let sign = if index == 0 { -1.0 } else { 1.0 };
            assert_eq!(xy(*pre.vel()), (sign, 0.));
            assert_eq!(xy(*post.vel()), (-sign, 0.));
        }
        _ => panic!("the second event is at the wall"),
    }
    assert_eq!(num(second.container_pressure().unwrap()), 2.0);
    assert_eq!(energy(&sim), 1.0);
}

#[test]
fn balls_must_fit_the_container() {
    let sim = Simulation::new(fl(1.0));
    assert!(sim.fits(&ball((0., 0.), (0., 0.), 1.0)));
    assert!(sim.fits(&ball((0.5, 0.), (0., 0.), 0.5)));
    assert!(!sim.fits(&ball((0.5, 0.), (0., 0.), 0.75)));
    assert!(!sim.fits(&ball((0.75, 0.75), (0., 0.), 0.1)));
    assert!(sim.fits(&ball((0.3, 0.4), (9., 9.), 0.5)));
}

#[test]
fn step_moves_balls_short_of_the_full_time() {
    let mut sim = Simulation::new(fl(1.0));
    sim.add_ball(ball((0., 0.), (1., 0.5), 0.1));
    sim.step(fl(0.5));
    assert_eq!(num(sim.global_time()), 0.5);
    let b = sim.ball(0);
    let flight = 0.5 * (1.0 - 1e-6);
    assert_eq!(xy(*b.pos()), (0.0 + 1.0 * flight, 0.0 + 0.5 * flight));
    assert_eq!(xy(*b.vel()), (1., 0.5));
    sim.set_delta(fl(0.0));
    sim.step(fl(0.25));
    assert_eq!(num(sim.global_time()), 0.75);
    assert_eq!(num(sim.ball(0).pos().x), 1.0 * flight + 0.25);
}

#[test]
fn step_until_refuses_to_go_back() {
    let mut sim = two_balls();
    assert_eq!(sim.step_until(fl(0.25)), Ok(()));
    assert_eq!(num(sim.global_time()), 0.25);
    let before = sim.balls();
    assert_eq!(sim.step_until(fl(0.125)), Err(DynamicsError::SimulationFailure));
    assert_eq!(num(sim.global_time()), 0.25);
    assert_eq!(sim.balls(), before);
    assert_eq!(sim.step_until(fl(f64::NAN)), Err(DynamicsError::SimulationFailure));
    assert_eq!(sim.step_until(fl(0.25)), Ok(()));
    assert_eq!(num(sim.global_time()), 0.25);
}

#[test]
fn empty_queue_is_a_failure() {
    let mut sim = two_balls();
    assert_eq!(sim.step_through_collision(), Err(DynamicsError::SimulationFailure));
    assert_eq!(sim.run_collisions(3), Err(DynamicsError::SimulationFailure));
    assert_eq!(sim.run_collisions(0), Ok(()));
    assert_eq!(num(sim.global_time()), 0.0);
}

#[test]
fn degenerate_geometry_fails_the_step() {
    let mut sim = Simulation::new(fl(1.0));
    sim.add_ball(ball((0.25, 0.), (1., 0.), 0.1));
    sim.add_ball(ball((0.25, 0.), (-1., 0.), 0.1));
    let witness = (vec2(1., 0.), vec2(-1., 0.));
    let event = CollisionEvent::new(0, CollisionPartner::Ball(1), fl(0.0), witness);
    assert_eq!(sim.schedule(event), Ok(()));
    assert_eq!(sim.step_through_collision(), Err(DynamicsError::SimulationFailure));
    assert_eq!(xy(*sim.ball(0).vel()), (1., 0.));
    assert_eq!(xy(*sim.ball(1).vel()), (-1., 0.));
    assert_eq!(sim.pending(), 0);
    // the kernel itself names the cause
    let mut a = sim.ball(0);
    let mut b = sim.ball(1);
    assert_eq!(a.collide(&mut b), Err(DynamicsError::IntersectingParticles));
}

#[test]
fn events_in_the_past_fail_the_step() {
    let mut sim = two_balls();
    sim.step(fl(0.125));
    let witness = (vec2(1., 0.), FloatVec::origin());
    let event = CollisionEvent::new(0, CollisionPartner::Container, fl(0.0625), witness);
    assert_eq!(sim.schedule(event), Ok(()));
    let before = sim.balls();
    assert_eq!(sim.step_through_collision(), Err(DynamicsError::SimulationFailure));
    assert_eq!(sim.balls(), before);
    assert_eq!(num(sim.global_time()), 0.125);
}

#[test]
fn schedule_refuses_events_without_balls() {
    let mut sim = two_balls();
    let w = (FloatVec::origin(), FloatVec::origin());
    let e = |i, j| CollisionEvent::new(i, j, fl(1.0), w);
    assert_eq!(sim.schedule(e(2, CollisionPartner::Container)), Err(DynamicsError::SimulationFailure));
    assert_eq!(sim.schedule(e(0, CollisionPartner::Ball(2))), Err(DynamicsError::SimulationFailure));
    assert_eq!(sim.schedule(e(1, CollisionPartner::Ball(1))), Err(DynamicsError::SimulationFailure));
    assert_eq!(sim.pending(), 0);
    assert_eq!(sim.schedule(e(1, CollisionPartner::Ball(0))), Ok(()));
    assert_eq!(sim.pending(), 1);
}

#[test]
fn stale_events_are_dropped_unseen() {
    let mut plain = gas(11);
    let mut noisy = gas(11);
    plain.initialise();
    noisy.initialise();
    // stale: no ball has these velocities
    let witness = (vec2(9., 9.), vec2(9., 9.));
    for k in 0..50 {
        let t = 0.001 * (k as f64);
        let e = CollisionEvent::new(k % 20, CollisionPartner::Ball((k + 1) % 20), fl(t), witness);
        assert_eq!(noisy.schedule(e), Ok(()));
        let e = CollisionEvent::new(k % 20, CollisionPartner::Container, fl(t), witness);
        assert_eq!(noisy.schedule(e), Ok(()));
    }
    for step in 0..300 {
        assert_eq!(plain.step_through_collision(), Ok(()));
        assert_eq!(noisy.step_through_collision(), Ok(()));
        assert_eq!(num(plain.global_time()), num(noisy.global_time()), "step {}", step);
        assert_eq!(plain.balls(), noisy.balls(), "step {}", step);
        if step == 100 {
            let t = num(noisy.global_time());
            let e = CollisionEvent::new(3, CollisionPartner::Ball(4), fl(t), witness);
            assert_eq!(noisy.schedule(e), Ok(()));
        }
    }
}

#[test]
fn time_never_runs_backwards() {
    let mut sim = gas(3);
    sim.initialise();
    let mut last = num(sim.global_time());
    for _ in 0..500 {
        let record = sim.step_with_data().unwrap();
        let now = num(sim.global_time());
        assert!(now >= last);
        assert_eq!(num(record.time()), now);
        last = now;
    }
    assert!(last > 0.0);
}

#[test]
fn applied_events_start_from_the_scheduled_velocities() {
    let mut sim = gas(5);
    sim.initialise();
    for _ in 0..200 {
        let before = sim.balls();
        match sim.step_with_data().unwrap() {
            DataEvent::BallCollision { indices, pres, posts, .. } => {
                assert_ne!(indices.0, indices.1);
                assert_eq!(pres.0.vel(), before[indices.0].vel());
                assert_eq!(pres.1.vel(), before[indices.1].vel());
                let after = sim.balls();
                assert_eq!(posts.0, after[indices.0]);
                assert_eq!(posts.1, after[indices.1]);
                for (k, b) in after.iter().enumerate() {
                    if k != indices.0 && k != indices.1 {
                        assert_eq!(b.vel(), before[k].vel());
                    }
                }
            }
            DataEvent::ContainerCollision { index, pre, post, .. } => {
                assert_eq!(pre.vel(), before[index].vel());
                let after = sim.balls();
                assert_eq!(post, after[index]);
                for (k, b) in after.iter().enumerate() {
                    if k != index {
                        assert_eq!(b.vel(), before[k].vel());
                    }
                }
            }
        }
    }
}

#[test]
fn energy_and_momentum_are_conserved() {
    let mut sim = gas(1);
    sim.initialise();
    let start = energy(&sim);
    let n = 10000;
    for _ in 0..n {
        match sim.step_with_data().unwrap() {
            DataEvent::BallCollision { pres, posts, .. } => {
                let (a, b) = (xy(*pres.0.vel()), xy(*pres.1.vel()));
                let (c, d) = (xy(*posts.0.vel()), xy(*posts.1.vel()));
                assert!((a.0 + b.0 - c.0 - d.0).abs() <= 1e-14);
                assert!((a.1 + b.1 - c.1 - d.1).abs() <= 1e-14);
            }
            DataEvent::ContainerCollision { pre, post, .. } => {
                let (a, c) = (xy(*pre.vel()), xy(*post.vel()));
                let before = a.0 * a.0 + a.1 * a.1;
                let after = c.0 * c.0 + c.1 * c.1;
                assert!((before - after).abs() <= 1e-14 * before.max(1.0));
            }
        }
    }
    let end = energy(&sim);
    assert!(((end - start) / start).abs() <= (n as f64) * f64::EPSILON, "{} {}", start, end);
}

#[test]
fn balls_stay_inside_the_container() {
    let mut sim = gas(2);
    sim.initialise();
    let radius = num(sim.container().r());
    let margin = num(sim.delta()) * radius;
    for _ in 0..2000 {
        assert_eq!(sim.step_through_collision(), Ok(()));
        for b in sim.balls().iter() {
            let (x, y) = xy(*b.pos());
            assert!((x * x + y * y).sqrt() + num(b.r()) <= radius + margin);
        }
    }
}

#[test]
fn run_collisions_is_that_many_steps() {
    let mut stepped = gas(4);
    let mut run = gas(4);
    stepped.initialise();
    run.initialise();
    for _ in 0..50 {
        assert_eq!(stepped.step_through_collision(), Ok(()));
    }
    assert_eq!(run.run_collisions(50), Ok(()));
    assert_eq!(num(stepped.global_time()), num(run.global_time()));
    assert_eq!(stepped.balls(), run.balls());
    assert_eq!(stepped.pending(), run.pending());
}

#[test]
fn contact_points_lie_between_the_bodies() {
    let mut sim = two_balls();
    sim.initialise();
    let first = sim.step_with_data().unwrap();
    let p = xy(first.contact_point(&sim.container()));
    assert!(p.0.abs() <= 1e-15 && p.1 == 0.0);
    let second = sim.step_with_data().unwrap();
    let p = xy(second.contact_point(&sim.container()));
    assert_eq!(p.0.abs(), 1.0);
    assert_eq!(p.1, 0.0);
}
