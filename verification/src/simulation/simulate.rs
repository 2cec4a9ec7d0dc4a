//! The simulation and its event loop.
use vstd::prelude::*;
use vstd::multiset::Multiset;
use itertools::Itertools;
use crate::binary64::Float;
use crate::binary64::laws::zero;
use crate::binary64::laws::lemma_sum_grows;
use crate::binary64::laws::lemma_difference_sign;
use crate::dynamics::DynamicsError;
use crate::dynamics::ball::Ball;
use crate::dynamics::ball::Container;
use crate::dynamics::collide::Collide;
use crate::dynamics::maths::FloatVec;
use crate::simulation::collision::CollisionEvent;
use crate::simulation::collision::CollisionPartner;
use crate::simulation::queue::EventQueue;
use crate::simulation::data::DataEvent;
use crate::simulation::data::PreData;
use crate::simulation::data::PostData;
use crate::simulation::state::State;
use crate::simulation::state::valid_event;
use crate::simulation::state::fresh;
use crate::simulation::state::ball_event;
use crate::simulation::state::container_event;
use crate::simulation::state::with_event;
use crate::simulation::state::with_ball_events;
use crate::simulation::state::with_pair_events;
use crate::simulation::state::with_container_events;
use crate::simulation::state::is_pair_list;
use crate::simulation::state::earliest_fresh;
use crate::simulation::state::popped;
use crate::simulation::state::runs;
use crate::simulation::state::run_fails;
use crate::simulation::state::lemma_step;
use crate::simulation::state::only_stale_dropped;

verus! {

/// The bit pattern of the default safety margin, `1e-6`.
pub const DEFAULT_DELTA_BITS: u64 = 0x3EB0_C6F7_A0B5_ED8D;

/// What can be set of a simulation.
pub struct Params {
    /// The safety margin: a free flight stops short of the time it is given
    /// by this fraction, so that rounding leaves no two bodies overlapping.
    pub delta: Float,
}

/// Hard disks in a circular container, advanced from collision to
/// collision.
pub struct Simulation {
    global_time: Float,
    params: Params,
    container: Container,
    balls: Vec<Ball>,
    collisions: EventQueue,
    initialised: bool,
}

impl View for Simulation {
    type V = State;

    /// The simulation as a mathematical value.
    closed spec fn view(&self) -> State {
        State {
            time: self.global_time,
            delta: self.params.delta,
            container: self.container,
            balls: self.balls@,
            scheduled: self.collisions@,
            initialised: self.initialised,
        }
    }
}

/// `Itertools::combinations`, on the indices below `n` and with the length
/// two: the pairs `(i, j)` with `i < j < n`, each once. They come in the
/// order in which the indices of a combination are incremented, the first
/// index slowest: `(0, 1), (0, 2), .., (1, 2), ..`.
#[verifier::external_body]
fn index_pairs(n: usize) -> (pairs: Vec<(usize, usize)>)
    ensures
        is_pair_list(pairs@, n as nat),
{
    (0..n).combinations(2).map(|pair| (pair[0], pair[1])).collect()
}

/// Adding a valid event to valid events leaves valid events.
proof fn lemma_insert_valid(m: Multiset<CollisionEvent>, e: Option<CollisionEvent>, n: nat)
    requires
        forall|x: CollisionEvent| #[trigger] m.contains(x) ==> valid_event(x, n),
        e matches Some(x) ==> valid_event(x, n),
    ensures
        forall|x: CollisionEvent| #[trigger] with_event(m, e).contains(x) ==> valid_event(x, n),
{
    assert forall|x: CollisionEvent| #[trigger] with_event(m, e).contains(x) implies valid_event(
        x,
        n,
    ) by {
        if let Some(y) = e {
            if x != y {
                assert(m.contains(x));
            }
        }
    }
}

impl Simulation {
    /// The queue is in order, and the state is well formed.
    pub closed spec fn wf(&self) -> bool {
        self.collisions.wf() && self@.wf()
    }

    /// A well-formed simulation has a well-formed state.
    pub proof fn lemma_wf_state(&self)
        requires
            self.wf(),
        ensures
            self@.wf(),
    {
    }

    /// The empty simulation in a container of the given radius, at time
    /// zero, with the default safety margin.
    pub fn new(radius: Float) -> (sim: Simulation)
        requires
            radius.is_positive_spec(),
            radius.is_finite_spec(),
        ensures
            sim.wf(),
            sim@ == (State {
                time: zero(),
                delta: Float { bits: DEFAULT_DELTA_BITS },
                container: Container { r: radius },
                balls: Seq::empty(),
                scheduled: Multiset::empty(),
                initialised: false,
            }),
    {
        let global_time = Float::zero();
        let container = Container::new(radius);
        let balls = Vec::new();
        let collisions = EventQueue::new();
        let params = Params { delta: Float::from_bits(DEFAULT_DELTA_BITS) };
        Simulation { global_time, params, container, balls, collisions, initialised: false }
    }

    /// Sets the safety margin.
    pub fn set_delta(&mut self, delta: Float)
        requires
            old(self).wf(),
        ensures
            final(self).wf(),
            final(self)@ == (State { delta, ..old(self)@ }),
    {
        self.params.delta = delta;
    }

    /// The time that the simulation has reached.
    pub fn global_time(&self) -> (t: Float)
        ensures
            t == self@.time,
    {
        self.global_time
    }

    /// The safety margin.
    pub fn delta(&self) -> (d: Float)
        ensures
            d == self@.delta,
    {
        self.params.delta
    }

    /// The container.
    pub fn container(&self) -> (c: Container)
        ensures
            c == self@.container,
    {
        self.container
    }

    /// The balls, as they are now.
    pub fn balls(&self) -> (balls: Vec<Ball>)
        ensures
            balls@ == self@.balls,
    {
        let mut out: Vec<Ball> = Vec::new();
        let n = self.balls.len();
        let mut k: usize = 0;
        while k < n
            invariant
                n == self.balls.len(),
                k <= n,
                out@ == self.balls@.subrange(0, k as int),
            decreases n - k,
        {
            out.push(self.balls[k]);
            k = k + 1;
        }
        out
    }

    /// The ball with the index `i`, as it is now.
    pub fn ball(&self, i: usize) -> (b: Ball)
        requires
            i < self@.balls.len(),
        ensures
            b == self@.balls[i as int],
    {
        self.balls[i]
    }

    /// The number of balls.
    pub fn ball_count(&self) -> (n: usize)
        ensures
            n == self@.balls.len(),
    {
        self.balls.len()
    }

    /// The number of scheduled collisions, the stale ones among them.
    pub fn pending(&self) -> (n: usize)
        ensures
            n == self@.scheduled.len(),
    {
        self.collisions.len()
    }

    /// Whether the first collisions have been scheduled. From then on no
    /// ball can be added.
    pub fn is_initialised(&self) -> (r: bool)
        ensures
            r == self@.initialised,
    {
        self.initialised
    }

    /// Whether the ball lies inside the container.
    pub fn fits(&self, ball: &Ball) -> (r: bool)
        ensures
            r == self@.fits(*ball),
    {
        (ball.pos.magnitude() + ball.r).le(self.container.r)
    }

    /// Puts a ball into the container. Its index is the number of balls
    /// before it. The ball lies inside the container, and the first
    /// collisions have not been scheduled yet.
    pub fn add_ball(&mut self, ball: Ball)
        requires
            old(self).wf(),
            ball.wf(),
            old(self)@.fits(ball),
            !old(self)@.initialised,
        ensures
            final(self).wf(),
            final(self)@ == (State { balls: old(self)@.balls.push(ball), ..old(self)@ }),
    {
        self.balls.push(ball);
        proof {
            assert(self.balls@.len() == self.balls.len());
        }
    }

    /// Schedules a collision as it is given: whether it is fresh is asked
    /// when it comes up, not now. An event that names a ball that does not
    /// exist, or one ball twice, is refused.
    pub fn schedule(&mut self, event: CollisionEvent) -> (r: Result<(), DynamicsError>)
        requires
            old(self).wf(),
        ensures
            final(self).wf(),
            valid_event(event, old(self)@.balls.len()) ==> r is Ok && final(self)@ == (State {
                scheduled: old(self)@.scheduled.insert(event),
                ..old(self)@
            }),
            !valid_event(event, old(self)@.balls.len()) ==> r == Err::<(), DynamicsError>(
                DynamicsError::SimulationFailure,
            ) && final(self)@ == old(self)@,
    {
        let n = self.balls.len();
        let valid = event.i < n && match event.j {
            CollisionPartner::Ball(j) => j < n && j != event.i,
            CollisionPartner::Container => true,
        };
        if !valid {
            return Err(DynamicsError::SimulationFailure);
        }
        self.push_event(Some(event));
        Ok(())
    }

    /// The collision of the balls `i` and `j`, if they ever meet: at the
    /// time that the simulation has reached plus their time to contact, and
    /// with their velocities as the witness.
    fn calculate_collision_event(&self, i: usize, j: usize) -> (r: Option<CollisionEvent>)
        requires
            i < self@.balls.len(),
            j < self@.balls.len(),
        ensures
            r == ball_event(self@.balls, self@.time, i as int, j as int),
    {
        let p = &self.balls[i];
        let q = &self.balls[j];
        let time_to_collision_relative = match p.time_to_collision(q) {
            Some(dt) => dt,
            None => {
                return None;
            },
        };
        let t = self.global_time + time_to_collision_relative;
        let old_vels = (p.vel, q.vel);
        Some(CollisionEvent::new(i, CollisionPartner::Ball(j), t, old_vels))
    }

    /// The collision of the ball `i` with the container, if it ever reaches
    /// it.
    fn calculate_container_collision(&self, i: usize) -> (r: Option<CollisionEvent>)
        requires
            i < self@.balls.len(),
        ensures
            r == container_event(self@.balls, self@.container, self@.time, i as int),
    {
        let ball = &self.balls[i];
        let time_to_collision_relative = match ball.time_to_collision(&self.container) {
            Some(dt) => dt,
            None => {
                return None;
            },
        };
        let t = self.global_time + time_to_collision_relative;
        let old_vels = (ball.vel, FloatVec::origin());
        Some(CollisionEvent::new(i, CollisionPartner::Container, t, old_vels))
    }

    /// Schedules the event, if there is one.
    fn push_event(&mut self, event: Option<CollisionEvent>)
        requires
            old(self).wf(),
            event matches Some(e) ==> valid_event(e, old(self)@.balls.len()),
        ensures
            final(self).wf(),
            final(self)@ == (State {
                scheduled: with_event(old(self)@.scheduled, event),
                ..old(self)@
            }),
    {
        proof {
            lemma_insert_valid(self@.scheduled, event, self@.balls.len());
        }
        if let Some(e) = event {
            self.collisions.push(e);
        }
    }

    /// Schedules the collisions of every pair of balls.
    fn generate_collision_queue(&mut self) -> (pairs: Ghost<Seq<(usize, usize)>>)
        requires
            old(self).wf(),
        ensures
            final(self).wf(),
            is_pair_list(pairs@, old(self)@.balls.len()),
            final(self)@ == (State {
                scheduled: with_pair_events(
                    old(self)@.scheduled,
                    old(self)@.balls,
                    old(self)@.time,
                    pairs@,
                    pairs@.len() as int,
                ),
                ..old(self)@
            }),
    {
        let n = self.balls.len();
        let pairs = index_pairs(n);
        let m = pairs.len();
        let mut k: usize = 0;
        while k < m
            invariant
                self.wf(),
                k <= m,
                m == pairs.len(),
                n == self@.balls.len(),
                is_pair_list(pairs@, n as nat),
                self@ == (State {
                    scheduled: with_pair_events(
                        old(self)@.scheduled,
                        old(self)@.balls,
                        old(self)@.time,
                        pairs@,
                        k as int,
                    ),
                    ..old(self)@
                }),
            decreases m - k,
        {
            let (i, j) = pairs[k];
            let event = self.calculate_collision_event(i, j);
            self.push_event(event);
            k = k + 1;
        }
        Ghost(pairs@)
    }

    /// Schedules the collision of every ball with the container.
    fn generate_container_collisions(&mut self)
        requires
            old(self).wf(),
        ensures
            final(self).wf(),
            final(self)@ == (State {
                scheduled: with_container_events(
                    old(self)@.scheduled,
                    old(self)@.balls,
                    old(self)@.container,
                    old(self)@.time,
                    old(self)@.balls.len() as int,
                ),
                ..old(self)@
            }),
    {
        let n = self.balls.len();
        let mut i: usize = 0;
        while i < n
            invariant
                self.wf(),
                i <= n,
                n == self@.balls.len(),
                self@ == (State {
                    scheduled: with_container_events(
                        old(self)@.scheduled,
                        old(self)@.balls,
                        old(self)@.container,
                        old(self)@.time,
                        i as int,
                    ),
                    ..old(self)@
                }),
            decreases n - i,
        {
            let event = self.calculate_container_collision(i);
            self.push_event(event);
            i = i + 1;
        }
    }

    /// Schedules the first collisions: those of every pair of balls, in the
    /// order of the pairs, then those of every ball with the container.
    /// Where that has been done before, nothing is done.
    pub fn initialise(&mut self)
        requires
            old(self).wf(),
        ensures
            final(self).wf(),
            old(self)@.initialised ==> final(self)@ == old(self)@,
            !old(self)@.initialised ==> exists|pairs: Seq<(usize, usize)>| #[trigger]
                is_pair_list(pairs, old(self)@.balls.len()) && final(self)@ == old(
                    self,
                )@.with_first_events(pairs),
    {
        if self.initialised {
            return ;
        }
        let pairs = self.generate_collision_queue();
        self.generate_container_collisions();
        let ghost scheduled = self@;
        self.initialised = true;
        proof {
            assert(self@ == (State { initialised: true, ..scheduled }));
            assert(is_pair_list(pairs@, old(self)@.balls.len()) && self@ == old(
                self,
            )@.with_first_events(pairs@));
        }
    }

    /// Schedules every collision of the ball `i` anew: with each other
    /// ball, then with the container.
    fn push_collisions(&mut self, i: usize)
        requires
            old(self).wf(),
            i < old(self)@.balls.len(),
        ensures
            final(self).wf(),
            final(self)@ == old(self)@.rescheduled(i as int),
    {
        let n = self.balls.len();
        let mut j: usize = 0;
        while j < n
            invariant
                self.wf(),
                j <= n,
                i < n,
                n == self@.balls.len(),
                self@ == (State {
                    scheduled: with_ball_events(
                        old(self)@.scheduled,
                        old(self)@.balls,
                        old(self)@.time,
                        i as int,
                        j as int,
                    ),
                    ..old(self)@
                }),
            decreases n - j,
        {
            if j != i {
                let event = self.calculate_collision_event(i, j);
                self.push_event(event);
            }
            j = j + 1;
        }
        let event = self.calculate_container_collision(i);
        self.push_event(event);
    }

    /// Moves the simulation forward by the time `t`: the clock by `t`, each
    /// ball by its velocity times `t * (1 - delta)`. The time is not below
    /// zero, and so the clock does not run backwards.
    pub fn step(&mut self, t: Float)
        requires
            old(self).wf(),
            zero().le_spec(t),
        ensures
            final(self).wf(),
            final(self)@ == old(self)@.flown(t),
            old(self)@.time.le_spec(final(self)@.time),
    {
        let flight = t * (Float::one() - self.params.delta);
        let n = self.balls.len();
        let mut k: usize = 0;
        while k < n
            invariant
                k <= n,
                n == self.balls.len(),
                n == old(self).balls.len(),
                self.global_time == old(self).global_time,
                self.params == old(self).params,
                self.initialised == old(self).initialised,
                self.container == old(self).container,
                self.collisions == old(self).collisions,
                forall|j: int| 0 <= j < k ==> self.balls@[j] == old(self).balls@[j].step_spec(flight),
                forall|j: int| k <= j < n ==> self.balls@[j] == old(self).balls@[j],
            decreases n - k,
        {
            let mut ball = self.balls[k];
            ball.step(flight);
            self.balls.set(k, ball);
            k = k + 1;
        }
        proof {
            lemma_sum_grows(self.global_time, t);
            assert(self.balls@ =~= old(self)@.flown(t).balls);
        }
        self.global_time = self.global_time + t;
    }

    /// Moves the simulation forward to the time `t`, by the difference of
    /// `t` and the time that it has reached. Where that difference is below
    /// zero, or not a number, nothing moves and the result is
    /// `SimulationFailure`: for finite times, where `t` lies before the time
    /// that the simulation has reached.
    pub fn step_until(&mut self, t: Float) -> (r: Result<(), DynamicsError>)
        requires
            old(self).wf(),
        ensures
            final(self).wf(),
            old(self)@.time.le_spec(final(self)@.time),
            t.is_finite_spec() && old(self)@.time.is_finite_spec() ==> (r is Ok <==> old(
                self,
            )@.time.le_spec(t)),
            match r {
                Ok(()) => {
                    &&& zero().le_spec(t.sub_spec(old(self)@.time))
                    &&& final(self)@ == old(self)@.flown(t.sub_spec(old(self)@.time))
                },
                Err(e) => {
                    &&& e == DynamicsError::SimulationFailure
                    &&& !zero().le_spec(t.sub_spec(old(self)@.time))
                    &&& final(self)@ == old(self)@
                },
            },
    {
        let delta = t - self.global_time;
        proof {
            if t.is_finite_spec() && self.global_time.is_finite_spec() {
                lemma_difference_sign(t, self.global_time);
            }
        }
        if Float::zero().le(delta) {
            self.step(delta);
            Ok(())
        } else {
            Err(DynamicsError::SimulationFailure)
        }
    }

    /// Gives the balls `i` and `j` the velocities that they have after
    /// their collision.
    fn collide_by_index(&mut self, i: usize, j: usize) -> (r: Result<(), DynamicsError>)
        requires
            old(self).wf(),
            i < old(self)@.balls.len(),
            j < old(self)@.balls.len(),
            i != j,
        ensures
            final(self).wf(),
            match old(self)@.collided(i as int, CollisionPartner::Ball(j)) {
                Ok(balls) => r is Ok && final(self)@ == (State { balls, ..old(self)@ }),
                Err(e) => r == Err::<(), DynamicsError>(e) && final(self)@ == old(self)@,
            },
    {
        let mut ball_i = self.balls[i];
        let mut ball_j = self.balls[j];
        match ball_i.collide(&mut ball_j) {
            Ok(()) => {},
            Err(e) => {
                return Err(e);
            },
        }
        self.balls.set(i, ball_i);
        self.balls.set(j, ball_j);
        Ok(())
    }

    /// Gives the ball `i` and its partner the velocities that they have
    /// after their collision.
    fn collide_members(&mut self, i: usize, j: CollisionPartner) -> (r: Result<(), DynamicsError>)
        requires
            old(self).wf(),
            i < old(self)@.balls.len(),
            j matches CollisionPartner::Ball(k) ==> k < old(self)@.balls.len() && k != i,
        ensures
            final(self).wf(),
            match old(self)@.collided(i as int, j) {
                Ok(balls) => r is Ok && final(self)@ == (State { balls, ..old(self)@ }),
                Err(e) => r == Err::<(), DynamicsError>(e) && final(self)@ == old(self)@,
            },
    {
        match j {
            CollisionPartner::Ball(j) => self.collide_by_index(i, j),
            CollisionPartner::Container => {
                let mut ball = self.balls[i];
                let mut container = self.container;
                match ball.collide(&mut container) {
                    Ok(()) => {},
                    Err(e) => {
                        return Err(e);
                    },
                }
                self.balls.set(i, ball);
                Ok(())
            },
        }
    }

    /// Takes the next collision from the queue. It is handed out if it is
    /// fresh, and dropped if it is stale.
    fn next_collision(&mut self) -> (r: Option<CollisionEvent>)
        requires
            old(self).wf(),
        ensures
            final(self).wf(),
            final(self)@ == (State { scheduled: final(self)@.scheduled, ..old(self)@ }),
            old(self)@.scheduled.len() == 0 ==> r is None && final(self)@ == old(self)@,
            old(self)@.scheduled.len() > 0 ==> exists|e: CollisionEvent| #[trigger]
                popped(old(self)@.scheduled, e, final(self)@.scheduled) && r == (if fresh(
                    old(self)@.balls,
                    e,
                ) {
                    Some(e)
                } else {
                    None
                }),
    {
        let collision_info = match self.collisions.pop() {
            Some(e) => e,
            None => {
                return None;
            },
        };
        proof {
            let before = old(self)@.scheduled;
            assert forall|x: CollisionEvent| #[trigger] self@.scheduled.contains(x) implies valid_event(
                x,
                self@.balls.len(),
            ) by {
                assert(before.contains(x));
            }
            assert(popped(before, collision_info, self@.scheduled));
        }
        let (i, j, t, old_vels) = collision_info.into_parts();
        let p = &self.balls[i];
        let q_vel = match j {
            CollisionPartner::Ball(j) => self.balls[j].vel,
            CollisionPartner::Container => FloatVec::origin(),
        };
        if p.vel.same_bits(&old_vels.0) && q_vel.same_bits(&old_vels.1) {
            Some(CollisionEvent::new(i, j, t, old_vels))
        } else {
            None
        }
    }

    /// Takes collisions from the queue until one is fresh, and hands that
    /// one out: the earliest of the fresh events. The stale ones before it
    /// are dropped. Where no event is fresh the queue is emptied and the
    /// result is `SimulationFailure`.
    fn next_collision_or_err(&mut self) -> (r: Result<CollisionEvent, DynamicsError>)
        requires
            old(self).wf(),
        ensures
            final(self).wf(),
            final(self)@ == (State { scheduled: final(self)@.scheduled, ..old(self)@ }),
            match r {
                Ok(e) => {
                    &&& valid_event(e, old(self)@.balls.len())
                    &&& earliest_fresh(old(self)@.balls, old(self)@.scheduled, e)
                    &&& only_stale_dropped(
                        old(self)@.balls,
                        old(self)@.scheduled,
                        final(self)@.scheduled,
                        e,
                    )
                },
                Err(err) => {
                    &&& err == DynamicsError::SimulationFailure
                    &&& forall|x: CollisionEvent| #[trigger]
                        old(self)@.scheduled.contains(x) ==> !fresh(old(self)@.balls, x)
                    &&& final(self)@.scheduled == Multiset::<CollisionEvent>::empty()
                },
            },
    {
        let ghost start = self@.scheduled;
        let ghost balls = self@.balls;
        loop
            invariant
                self.wf(),
                self@ == (State { scheduled: self@.scheduled, ..old(self)@ }),
                start == old(self)@.scheduled,
                balls == old(self)@.balls,
                self@.scheduled.subset_of(start),
                forall|x: CollisionEvent| #[trigger]
                    self@.scheduled.count(x) < start.count(x) ==> !fresh(balls, x),
                forall|x: CollisionEvent, y: CollisionEvent|
                    self@.scheduled.count(x) < #[trigger] start.count(x)
                        && #[trigger] self@.scheduled.contains(y) ==> x.key() <= y.key(),
            decreases self@.scheduled.len(),
        {
            let ghost now = self@.scheduled;
            if self.collisions.is_empty() {
                proof {
                    assert(now =~= Multiset::<CollisionEvent>::empty());
                }
                return Err(DynamicsError::SimulationFailure);
            }
            let next = self.next_collision();
            proof {
                let e = choose|e: CollisionEvent| #[trigger]
                    popped(now, e, self@.scheduled) && next == (if fresh(balls, e) {
                        Some(e)
                    } else {
                        None
                    });
                let rest = self@.scheduled;
                if fresh(balls, e) {
                    assert forall|x: CollisionEvent| #[trigger]
                        start.contains(x) && fresh(balls, x) implies e.key() <= x.key() by {
                        if now.count(x) >= start.count(x) {
                            assert(now.contains(x));
                        }
                    }
                } else {
                    assert(rest.subset_of(start));
                    assert forall|x: CollisionEvent, y: CollisionEvent|
                        rest.count(x) < #[trigger] start.count(x) && #[trigger] rest.contains(
                            y,
                        ) implies x.key() <= y.key() by {
                        assert(now.contains(y));
                    }
                }
            }
            match next {
                Some(e) => {
                    return Ok(e);
                },
                None => {},
            }
        }
    }

    /// Runs the simulation to and through the next collision: the earliest
    /// fresh event is taken from the queue, the balls fly until its time,
    /// its participants take their new velocities, and the collisions of
    /// each of them are scheduled anew. Where no event is fresh, where the
    /// earliest fresh one lies in the past, and where its participants have
    /// one centre and cannot collide, the result is `SimulationFailure`.
    pub fn step_through_collision(&mut self) -> (r: Result<(), DynamicsError>)
        requires
            old(self).wf(),
        ensures
            final(self).wf(),
            old(self)@.time.le_spec(final(self)@.time),
            final(self)@.balls.len() == old(self)@.balls.len(),
            r matches Err(err) ==> err == DynamicsError::SimulationFailure,
            match r {
                Ok(()) => exists|e: CollisionEvent| #[trigger] old(self)@.applies(final(self)@, e),
                Err(err) => old(self)@.fails(final(self)@, err),
            },
    {
        match self.step_with_data() {
            Ok(_) => Ok(()),
            Err(err) => Err(err),
        }
    }

    /// Runs the simulation to and through the next collision, as
    /// `step_through_collision` does, and hands out the record of it: the
    /// time, the participants, and each of them just before and just after.
    pub fn step_with_data(&mut self) -> (r: Result<DataEvent, DynamicsError>)
        requires
            old(self).wf(),
        ensures
            final(self).wf(),
            old(self)@.time.le_spec(final(self)@.time),
            final(self)@.balls.len() == old(self)@.balls.len(),
            r matches Err(err) ==> err == DynamicsError::SimulationFailure,
            match r {
                Ok(record) => exists|e: CollisionEvent| #[trigger]
                    old(self)@.applies(final(self)@, e) && record == old(self)@.record(
                        final(self)@,
                        e,
                    ),
                Err(err) => old(self)@.fails(final(self)@, err),
            },
    {
        let next_collision = match self.next_collision_or_err() {
            Ok(e) => e,
            Err(err) => {
                return Err(err);
            },
        };
        let (i, j, t, _) = next_collision.into_parts();
        match self.step_until(t) {
            Ok(()) => {},
            Err(err) => {
                return Err(err);
            },
        }
        let pre = PreData::from_indices(self, i, j);
        match self.collide_members(i, j) {
            Ok(()) => {},
            Err(_) => {
                return Err(DynamicsError::SimulationFailure);
            },
        }
        let post = PostData::from_indices(self, i, j);
        self.push_collisions(i);
        if let CollisionPartner::Ball(j) = j {
            self.push_collisions(j);
        }
        proof {
            assert(old(self)@.applies(self@, next_collision));
        }
        Ok(DataEvent::from((pre, post)))
    }

    /// Runs the simulation through `n` collisions, one after the other, and
    /// stops at the first that fails, with `SimulationFailure`.
    pub fn run_collisions(&mut self, n: usize) -> (r: Result<(), DynamicsError>)
        requires
            old(self).wf(),
        ensures
            final(self).wf(),
            old(self)@.time.le_spec(final(self)@.time),
            final(self)@.balls.len() == old(self)@.balls.len(),
            r matches Err(err) ==> err == DynamicsError::SimulationFailure,
            match r {
                Ok(()) => exists|trace: Seq<State>| #[trigger]
                    runs(trace, old(self)@, final(self)@, n as nat),
                Err(err) => run_fails(old(self)@, final(self)@, n as nat, err),
            },
    {
        let ghost mut trace: Seq<State> = seq![self@];
        let mut k: usize = 0;
        while k < n
            invariant
                self.wf(),
                k <= n,
                old(self)@.time.le_spec(self@.time),
                self@.balls.len() == old(self)@.balls.len(),
                runs(trace, old(self)@, self@, k as nat),
            decreases n - k,
        {
            let ghost before = self@;
            match self.step_through_collision() {
                Ok(()) => {},
                Err(err) => {
                    return Err(err);
                },
            }
            proof {
                lemma_step(before, self@);
                trace = trace.push(self@);
            }
            k = k + 1;
        }
        Ok(())
    }
}

} // verus!
