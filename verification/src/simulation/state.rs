//! The simulation as a mathematical value, and the steps it can take.
use vstd::prelude::*;
use vstd::multiset::Multiset;
use crate::binary64::Float;
use crate::binary64::laws::zero;
use crate::binary64::laws::one;
use crate::dynamics::DynamicsError;
use crate::dynamics::ball::Ball;
use crate::dynamics::ball::Container;
use crate::dynamics::collide::Collide;
use crate::dynamics::maths::FloatVec;
use crate::simulation::collision::CollisionEvent;
use crate::simulation::collision::CollisionPartner;
use crate::simulation::data::DataEvent;
use crate::simulation::data::joined;
use crate::simulation::data::pre_data;
use crate::simulation::data::post_data;

verus! {

/// What a simulation is: the time, the safety margin `delta`, the
/// container, the balls by their index, the collisions that are
/// scheduled, and whether the first of them have been.
pub struct State {
    pub time: Float,
    pub delta: Float,
    pub container: Container,
    pub balls: Seq<Ball>,
    pub scheduled: Multiset<CollisionEvent>,
    pub initialised: bool,
}

/// The event names balls that exist, and no ball twice.
pub open spec fn valid_event(e: CollisionEvent, n: nat) -> bool {
    &&& e.i < n
    &&& e.j matches CollisionPartner::Ball(j) ==> j < n && j != e.i
}

/// The velocity that the partner `j` has: that of the ball, or none for the
/// container.
pub open spec fn partner_velocity(balls: Seq<Ball>, j: CollisionPartner) -> FloatVec {
    match j {
        CollisionPartner::Ball(j) => balls[j as int].vel,
        CollisionPartner::Container => FloatVec::origin_spec(),
    }
}

/// The event is fresh: both participants still have, bit for bit, the
/// velocities that they had when the event was computed.
pub open spec fn fresh(balls: Seq<Ball>, e: CollisionEvent) -> bool {
    balls[e.i as int].vel == e.old_vels.0 && partner_velocity(balls, e.j) == e.old_vels.1
}

/// The collision of the balls `i` and `j`, if they ever meet.
pub open spec fn ball_event(balls: Seq<Ball>, now: Float, i: int, j: int) -> Option<
    CollisionEvent,
> {
    match balls[i].contact(&balls[j]) {
        Some(dt) => Some(
            CollisionEvent {
                i: i as usize,
                j: CollisionPartner::Ball(j as usize),
                t: now.add_spec(dt),
                old_vels: (balls[i].vel, balls[j].vel),
            },
        ),
        None => None,
    }
}

/// The collision of the ball `i` with the container, if it ever reaches it.
pub open spec fn container_event(balls: Seq<Ball>, container: Container, now: Float, i: int) -> Option<
    CollisionEvent,
> {
    match balls[i].contact(&container) {
        Some(dt) => Some(
            CollisionEvent {
                i: i as usize,
                j: CollisionPartner::Container,
                t: now.add_spec(dt),
                old_vels: (balls[i].vel, FloatVec::origin_spec()),
            },
        ),
        None => None,
    }
}

/// The multiset with the event added, if there is one.
pub open spec fn with_event(m: Multiset<CollisionEvent>, e: Option<CollisionEvent>) -> Multiset<
    CollisionEvent,
> {
    match e {
        Some(x) => m.insert(x),
        None => m,
    }
}

/// The multiset with the collisions of the ball `i` with every other ball
/// below the index `upto` added.
pub open spec fn with_ball_events(
    m: Multiset<CollisionEvent>,
    balls: Seq<Ball>,
    now: Float,
    i: int,
    upto: int,
) -> Multiset<CollisionEvent>
    decreases upto,
{
    if upto <= 0 {
        m
    } else {
        let rest = with_ball_events(m, balls, now, i, upto - 1);
        if upto - 1 == i {
            rest
        } else {
            with_event(rest, ball_event(balls, now, i, upto - 1))
        }
    }
}

/// The multiset with the collisions of the first `upto` pairs added.
pub open spec fn with_pair_events(
    m: Multiset<CollisionEvent>,
    balls: Seq<Ball>,
    now: Float,
    pairs: Seq<(usize, usize)>,
    upto: int,
) -> Multiset<CollisionEvent>
    decreases upto,
{
    if upto <= 0 {
        m
    } else {
        with_event(
            with_pair_events(m, balls, now, pairs, upto - 1),
            ball_event(balls, now, pairs[upto - 1].0 as int, pairs[upto - 1].1 as int),
        )
    }
}

/// The multiset with the collisions of the balls below the index `upto`
/// with the container added.
pub open spec fn with_container_events(
    m: Multiset<CollisionEvent>,
    balls: Seq<Ball>,
    container: Container,
    now: Float,
    upto: int,
) -> Multiset<CollisionEvent>
    decreases upto,
{
    if upto <= 0 {
        m
    } else {
        with_event(
            with_container_events(m, balls, container, now, upto - 1),
            container_event(balls, container, now, upto - 1),
        )
    }
}

/// Whether `a` comes before `b` in the order of pairs: by the first index,
/// then by the second.
pub open spec fn pair_before(a: (usize, usize), b: (usize, usize)) -> bool {
    a.0 < b.0 || (a.0 == b.0 && a.1 < b.1)
}

/// Whether `s` lists the pairs `(i, j)` with `i < j < n`: each of them
/// once, in the order of pairs.
pub open spec fn is_pair_list(s: Seq<(usize, usize)>, n: nat) -> bool {
    &&& 2 * s.len() == n * (n - 1)
    &&& forall|k: int| 0 <= k < s.len() ==> (#[trigger] s[k]).0 < s[k].1 < n
    &&& forall|k: int, l: int| 0 <= k < l < s.len() ==> pair_before(#[trigger] s[k], #[trigger] s[l])
}

/// `e` is taken out of `m`, in which nothing is due before it, and `rest`
/// is left.
pub open spec fn popped(m: Multiset<CollisionEvent>, e: CollisionEvent, rest: Multiset<
    CollisionEvent,
>) -> bool {
    &&& m.contains(e)
    &&& rest == m.remove(e)
    &&& rest.len() + 1 == m.len()
    &&& forall|x: CollisionEvent| #[trigger] m.contains(x) ==> e.key() <= x.key()
}

/// `e` is the earliest of the fresh events in `m`.
pub open spec fn earliest_fresh(balls: Seq<Ball>, m: Multiset<CollisionEvent>, e: CollisionEvent) -> bool {
    &&& m.contains(e)
    &&& fresh(balls, e)
    &&& forall|x: CollisionEvent| #[trigger] m.contains(x) && fresh(balls, x) ==> e.key() <= x.key()
}

/// `after` is `before` without `e` and without some stale events, none of
/// them due after `e`.
pub open spec fn only_stale_dropped(
    balls: Seq<Ball>,
    before: Multiset<CollisionEvent>,
    after: Multiset<CollisionEvent>,
    e: CollisionEvent,
) -> bool {
    &&& after.subset_of(before.remove(e))
    &&& forall|x: CollisionEvent| #[trigger]
        after.count(x) < before.remove(e).count(x) ==> !fresh(balls, x) && x.key() <= e.key()
}

impl State {
    /// Time has not run backwards, radii are positive, the balls can be
    /// counted, and the scheduled events name balls that exist.
    pub open spec fn wf(self) -> bool {
        &&& zero().le_spec(self.time)
        &&& self.balls.len() <= usize::MAX
        &&& self.container.wf()
        &&& forall|k: int| 0 <= k < self.balls.len() ==> (#[trigger] self.balls[k]).wf()
        &&& forall|e: CollisionEvent| #[trigger]
            self.scheduled.contains(e) ==> valid_event(e, self.balls.len())
    }

    /// The distance in time that the balls fly when the clock advances by
    /// `dt`: a little less, by the safety margin.
    pub open spec fn flight(self, dt: Float) -> Float {
        dt.mul_spec(one().sub_spec(self.delta))
    }

    /// The state after a free flight: the clock advanced by `dt`, each ball
    /// moved by its velocity times `dt * (1 - delta)`.
    pub open spec fn flown(self, dt: Float) -> State {
        State {
            time: self.time.add_spec(dt),
            balls: Seq::new(self.balls.len(), |k: int| self.balls[k].step_spec(self.flight(dt))),
            ..self
        }
    }

    /// The balls after the collision of the ball `i` with the partner `j`,
    /// or why it cannot take place.
    pub open spec fn collided(self, i: int, j: CollisionPartner) -> Result<Seq<Ball>, DynamicsError> {
        let a = self.balls[i];
        match j {
            CollisionPartner::Ball(j) => match a.rebound(&self.balls[j as int]) {
                Ok((a2, b2)) => Ok(self.balls.update(i, a2).update(j as int, b2)),
                Err(err) => Err(err),
            },
            CollisionPartner::Container => match a.rebound(&self.container) {
                Ok((a2, c2)) => Ok(self.balls.update(i, a2)),
                Err(err) => Err(err),
            },
        }
    }

    /// The state with every collision of the ball `i` scheduled anew:
    /// with each other ball, in the order of the indices, then with the
    /// container.
    pub open spec fn rescheduled(self, i: int) -> State {
        State {
            scheduled: with_event(
                with_ball_events(self.scheduled, self.balls, self.time, i, self.balls.len() as int),
                container_event(self.balls, self.container, self.time, i),
            ),
            ..self
        }
    }

    /// The state with the collisions of both participants of `e` scheduled
    /// anew.
    pub open spec fn rescheduled_for(self, e: CollisionEvent) -> State {
        match e.j {
            CollisionPartner::Ball(j) => self.rescheduled(e.i as int).rescheduled(j as int),
            CollisionPartner::Container => self.rescheduled(e.i as int),
        }
    }

    /// Whether the ball lies inside the container: whether the distance of
    /// its centre from the origin and its radius together are not above the
    /// radius of the container.
    pub open spec fn fits(self, ball: Ball) -> bool {
        ball.pos.magnitude_spec().add_spec(ball.r).le_spec(self.container.r)
    }

    /// The state with the first collisions scheduled: those of the pairs
    /// `pairs`, then those of every ball with the container.
    pub open spec fn with_first_events(self, pairs: Seq<(usize, usize)>) -> State {
        State {
            initialised: true,
            scheduled: with_container_events(
                with_pair_events(self.scheduled, self.balls, self.time, pairs, pairs.len() as int),
                self.balls,
                self.container,
                self.time,
                self.balls.len() as int,
            ),
            ..self
        }
    }

    /// The step from `self` to `post` applies the collision `e`: `e` is the
    /// earliest fresh event; the clock advances to its time and the balls
    /// fly; the participants of `e` take their new velocities; and their
    /// collisions are scheduled anew, in a queue that has lost `e` and some
    /// stale events.
    pub open spec fn applies(self, post: State, e: CollisionEvent) -> bool {
        let dt = e.t.sub_spec(self.time);
        let moved = self.flown(dt);
        &&& valid_event(e, self.balls.len())
        &&& earliest_fresh(self.balls, self.scheduled, e)
        &&& zero().le_spec(dt)
        &&& moved.collided(e.i as int, e.j) matches Ok(balls)
        &&& exists|mid: Multiset<CollisionEvent>| #[trigger]
            only_stale_dropped(self.balls, self.scheduled, mid, e) && post == (State {
                balls,
                scheduled: mid,
                ..moved
            }).rescheduled_for(e)
    }

    /// The record of the collision `e` that the step from `self` to `post`
    /// applies: the time of the collision, the participants, each of them
    /// as the flight left it, and each as the collision left it.
    pub open spec fn record(self, post: State, e: CollisionEvent) -> DataEvent {
        let moved = self.flown(e.t.sub_spec(self.time));
        joined(pre_data(moved, e.i as int, e.j), post_data(post, e.i as int, e.j))
    }

    /// The step from `self` to `post` fails with `err`, which is always
    /// `SimulationFailure`: no event is fresh and the queue is left empty;
    /// or the earliest fresh event lies in the past, and only the queue has
    /// changed; or its participants cannot collide, and the balls have flown
    /// to its time and kept their velocities.
    pub open spec fn fails(self, post: State, err: DynamicsError) -> bool {
        ||| {
            &&& err == DynamicsError::SimulationFailure
            &&& forall|x: CollisionEvent| #[trigger]
                self.scheduled.contains(x) ==> !fresh(self.balls, x)
            &&& post == (State { scheduled: Multiset::empty(), ..self })
        }
        ||| exists|e: CollisionEvent|
            {
                &&& #[trigger] earliest_fresh(self.balls, self.scheduled, e)
                &&& only_stale_dropped(self.balls, self.scheduled, post.scheduled, e)
                &&& {
                    let dt = e.t.sub_spec(self.time);
                    if zero().le_spec(dt) {
                        &&& self.flown(dt).collided(e.i as int, e.j) is Err
                        &&& err == DynamicsError::SimulationFailure
                        &&& post == (State { scheduled: post.scheduled, ..self.flown(dt) })
                    } else {
                        &&& err == DynamicsError::SimulationFailure
                        &&& post == (State { scheduled: post.scheduled, ..self })
                    }
                }
            }
    }
}

/// The simulation can step from `a` to `b` by applying one collision.
#[verifier::opaque]
pub open spec fn steps_to(a: State, b: State) -> bool {
    a.wf() && exists|e: CollisionEvent| #[trigger] a.applies(b, e)
}

/// The states are those of a run: each is reached from the one before it
/// by applying one collision.
pub open spec fn is_run(trace: Seq<State>) -> bool {
    &&& trace.len() > 0
    &&& forall|k: int| 0 <= k < trace.len() - 1 ==> steps_to(#[trigger] trace[k], trace[k + 1])
}

/// The run goes from `from` to `to` through `n` collisions.
pub open spec fn runs(trace: Seq<State>, from: State, to: State, n: nat) -> bool {
    &&& is_run(trace)
    &&& trace.len() == n + 1
    &&& trace[0] == from
    &&& trace.last() == to
}

/// The run that stopped when a step failed: it went from `from` through
/// fewer than `n` collisions, and the next step failed with `err` and left
/// `to`.
pub open spec fn run_fails(from: State, to: State, n: nat, err: DynamicsError) -> bool {
    exists|trace: Seq<State>|
        #![trigger is_run(trace)]
        {
            &&& is_run(trace)
            &&& trace.len() <= n
            &&& trace[0] == from
            &&& trace.last().wf()
            &&& trace.last().fails(to, err)
        }
}

/// A step that applies a collision is a step of a run.
pub proof fn lemma_step(a: State, b: State)
    requires
        a.wf(),
        exists|e: CollisionEvent| #[trigger] a.applies(b, e),
    ensures
        steps_to(a, b),
{
    reveal(steps_to);
}

/// A step of a run applies a collision.
pub proof fn lemma_step_applies(a: State, b: State)
    requires
        steps_to(a, b),
    ensures
        a.wf(),
        exists|e: CollisionEvent| #[trigger] a.applies(b, e),
{
    reveal(steps_to);
}

/// A stale event in the queue does not change which event is the earliest
/// fresh one.
pub proof fn lemma_stale_event_inert(
    balls: Seq<Ball>,
    m: Multiset<CollisionEvent>,
    stale: CollisionEvent,
    e: CollisionEvent,
)
    requires
        !fresh(balls, stale),
    ensures
        earliest_fresh(balls, m.insert(stale), e) == earliest_fresh(balls, m, e),
{
    if earliest_fresh(balls, m, e) {
        assert forall|x: CollisionEvent| #[trigger]
            m.insert(stale).contains(x) && fresh(balls, x) implies e.key() <= x.key() by {
            assert(m.contains(x));
        }
    }
    if earliest_fresh(balls, m.insert(stale), e) {
        assert forall|x: CollisionEvent| #[trigger] m.contains(x) && fresh(balls, x) implies e.key()
            <= x.key() by {
            assert(m.insert(stale).contains(x));
        }
    }
}

/// A free flight changes no velocity, so it keeps fresh what is fresh:
/// at the instant at which an event is applied, its participants have the
/// velocities of its witness.
pub proof fn lemma_flight_keeps_freshness(s: State, dt: Float, e: CollisionEvent)
    requires
        valid_event(e, s.balls.len()),
    ensures
        fresh(s.flown(dt).balls, e) == fresh(s.balls, e),
{
}

} // verus!
