//! What holds of every step of a simulation: time does not run backwards, a
//! well-formed state stays well formed, and stale events are inert.
use vstd::prelude::*;
use vstd::multiset::Multiset;
use crate::binary64::Float;
use crate::dynamics::ball::Ball;
use crate::simulation::collision::CollisionEvent;
use crate::simulation::collision::CollisionPartner;
use crate::simulation::state::State;
use crate::simulation::state::valid_event;
use crate::simulation::state::fresh;
use crate::simulation::state::with_ball_events;
use crate::simulation::state::container_event;
use crate::simulation::state::only_stale_dropped;
use crate::simulation::state::steps_to;
use crate::simulation::state::is_run;
use crate::simulation::state::lemma_stale_event_inert;
use crate::simulation::state::lemma_step;
use crate::simulation::state::lemma_step_applies;
use crate::simulation::state::ball_event;
use crate::binary64::laws::zero;
use crate::binary64::laws::lemma_sum_grows;
use crate::dynamics::collide::Collide;

verus! {

impl State {
    /// The state with one more event in the queue.
    pub open spec fn with_scheduled(self, s: CollisionEvent) -> State {
        State { scheduled: self.scheduled.insert(s), ..self }
    }
}

/// The run with one more event in the queue of each of its states.
pub open spec fn run_with_scheduled(trace: Seq<State>, s: CollisionEvent) -> Seq<State> {
    Seq::new(trace.len(), |k: int| trace[k].with_scheduled(s))
}

/// An event that is in the queue before the collisions of a ball are
/// scheduled anew is in it after, beside the same new events.
proof fn lemma_ball_events_carry(
    m: Multiset<CollisionEvent>,
    s: CollisionEvent,
    balls: Seq<Ball>,
    now: Float,
    i: int,
    upto: int,
)
    ensures
        with_ball_events(m.insert(s), balls, now, i, upto) == with_ball_events(
            m,
            balls,
            now,
            i,
            upto,
        ).insert(s),
    decreases upto,
{
    if upto > 0 {
        lemma_ball_events_carry(m, s, balls, now, i, upto - 1);
    }
}

/// An event that is in the queue of a state is in the queue of the state
/// with the collisions of a ball scheduled anew, beside the same new events.
proof fn lemma_rescheduled_carries(t: State, s: CollisionEvent, i: int)
    ensures
        t.with_scheduled(s).rescheduled(i) == t.rescheduled(i).with_scheduled(s),
{
    lemma_ball_events_carry(t.scheduled, s, t.balls, t.time, i, t.balls.len() as int);
    let rest = with_ball_events(t.scheduled, t.balls, t.time, i, t.balls.len() as int);
    if let Some(x) = container_event(t.balls, t.container, t.time, i) {
        assert(rest.insert(s).insert(x) =~= rest.insert(x).insert(s));
    }
}

/// The events of a ball that are scheduled anew name balls that exist.
proof fn lemma_ball_events_valid(
    m: Multiset<CollisionEvent>,
    balls: Seq<Ball>,
    now: Float,
    i: int,
    upto: int,
)
    requires
        0 <= i < balls.len() <= usize::MAX,
        upto <= balls.len(),
        forall|x: CollisionEvent| #[trigger] m.contains(x) ==> valid_event(x, balls.len()),
    ensures
        forall|x: CollisionEvent| #[trigger]
            with_ball_events(m, balls, now, i, upto).contains(x) ==> valid_event(x, balls.len()),
    decreases upto,
{
    if upto > 0 {
        lemma_ball_events_valid(m, balls, now, i, upto - 1);
        let rest = with_ball_events(m, balls, now, i, upto - 1);
        if upto - 1 != i {
            if let Some(y) = ball_event(balls, now, i, upto - 1) {
                assert forall|x: CollisionEvent| #[trigger]
                    rest.insert(y).contains(x) implies valid_event(x, balls.len()) by {
                    if x != y {
                        assert(rest.contains(x));
                    }
                }
            }
        }
    }
}

/// Scheduling the collisions of a ball anew keeps a state well formed.
proof fn lemma_rescheduled_wf(t: State, i: int)
    requires
        t.wf(),
        0 <= i < t.balls.len(),
    ensures
        t.rescheduled(i).wf(),
{
    lemma_ball_events_valid(t.scheduled, t.balls, t.time, i, t.balls.len() as int);
    let rest = with_ball_events(t.scheduled, t.balls, t.time, i, t.balls.len() as int);
    if let Some(y) = container_event(t.balls, t.container, t.time, i) {
        assert forall|x: CollisionEvent| #[trigger] rest.insert(y).contains(x) implies valid_event(
            x,
            t.balls.len(),
        ) by {
            if x != y {
                assert(rest.contains(x));
            }
        }
    }
}

/// Time does not run backwards: a step that applies a collision leaves the
/// clock where it was or later.
pub proof fn lemma_step_time(pre: State, post: State, e: CollisionEvent)
    requires
        pre.wf(),
        pre.applies(post, e),
    ensures
        pre.time.le_spec(post.time),
        zero().le_spec(post.time),
{
    lemma_sum_grows(pre.time, e.t.sub_spec(pre.time));
}

/// A step that applies a collision keeps a state well formed.
pub proof fn lemma_step_keeps_wf(pre: State, post: State, e: CollisionEvent)
    requires
        pre.wf(),
        pre.applies(post, e),
    ensures
        post.wf(),
{
    lemma_step_time(pre, post, e);
    let dt = e.t.sub_spec(pre.time);
    let moved = pre.flown(dt);
    let balls = moved.collided(e.i as int, e.j)->Ok_0;
    let mid = choose|mid: Multiset<CollisionEvent>| #[trigger]
        only_stale_dropped(pre.balls, pre.scheduled, mid, e) && post == (State {
            balls,
            scheduled: mid,
            ..moved
        }).rescheduled_for(e);
    let struck = State { balls, scheduled: mid, ..moved };
    assert forall|x: CollisionEvent| #[trigger] mid.contains(x) implies valid_event(
        x,
        struck.balls.len(),
    ) by {
        assert(pre.scheduled.contains(x));
    }
    lemma_rescheduled_wf(struck, e.i as int);
    if let CollisionPartner::Ball(j) = e.j {
        lemma_rescheduled_wf(struck.rescheduled(e.i as int), j as int);
    }
}

/// Time does not run backwards in a run, and every state of it is well
/// formed.
pub proof fn lemma_run_time(trace: Seq<State>, k: int, l: int)
    requires
        is_run(trace),
        trace[0].wf(),
        0 <= k <= l < trace.len(),
    ensures
        trace[k].time.le_spec(trace[l].time),
        trace[l].wf(),
    decreases l,
{
    if l > 0 {
        lemma_step_applies(trace[l - 1], trace[l]);
        let e = choose|e: CollisionEvent| #[trigger] trace[l - 1].applies(trace[l], e);
        lemma_step_time(trace[l - 1], trace[l], e);
        lemma_step_keeps_wf(trace[l - 1], trace[l], e);
        if k < l {
            lemma_run_time(trace, k, l - 1);
        }
    }
}

/// A step keeps the number of balls.
pub proof fn lemma_step_keeps_balls(pre: State, post: State, e: CollisionEvent)
    requires
        pre.applies(post, e),
    ensures
        post.balls.len() == pre.balls.len(),
        post.container == pre.container,
        post.delta == pre.delta,
        post.initialised == pre.initialised,
{
}

/// A stale event is carried through a step: the simulation with the stale
/// event in its queue can take the step that it takes without, applying
/// the same collision, and is then where it is without, with the stale event
/// still in its queue.
pub proof fn lemma_stale_event_carried(
    pre: State,
    post: State,
    e: CollisionEvent,
    stale: CollisionEvent,
)
    requires
        pre.applies(post, e),
        !fresh(pre.balls, stale),
    ensures
        pre.with_scheduled(stale).applies(post.with_scheduled(stale), e),
{
    let dt = e.t.sub_spec(pre.time);
    let moved = pre.flown(dt);
    let balls = moved.collided(e.i as int, e.j)->Ok_0;
    let mid = choose|mid: Multiset<CollisionEvent>| #[trigger]
        only_stale_dropped(pre.balls, pre.scheduled, mid, e) && post == (State {
            balls,
            scheduled: mid,
            ..moved
        }).rescheduled_for(e);
    let pre2 = pre.with_scheduled(stale);
    let moved2 = pre2.flown(dt);
    lemma_stale_event_inert(pre.balls, pre.scheduled, stale, e);
    let mid2 = mid.insert(stale);
    let struck = State { balls, scheduled: mid, ..moved };
    lemma_rescheduled_carries(struck, stale, e.i as int);
    if let CollisionPartner::Ball(j) = e.j {
        lemma_rescheduled_carries(struck.rescheduled(e.i as int), stale, j as int);
    }
    assert(only_stale_dropped(pre2.balls, pre2.scheduled, mid2, e) && post.with_scheduled(stale)
        == (State { balls, scheduled: mid2, ..moved2 }).rescheduled_for(e));
}

/// Stale events are inert: where an event is stale in every state of a run
/// but the last, the simulation with that event in its queue can run
/// through the same states, applying the same collisions, with the event
/// in its queue all along.
pub proof fn lemma_stale_event_carried_along(trace: Seq<State>, stale: CollisionEvent)
    requires
        is_run(trace),
        valid_event(stale, trace[0].balls.len()),
        forall|k: int| 0 <= k < trace.len() - 1 ==> !fresh(#[trigger] trace[k].balls, stale),
    ensures
        is_run(run_with_scheduled(trace, stale)),
        trace.last().balls.len() == trace[0].balls.len(),
    decreases trace.len(),
{
    let with = run_with_scheduled(trace, stale);
    if trace.len() > 1 {
        let shorter = trace.drop_last();
        lemma_stale_event_carried_along(shorter, stale);
        let n = trace.len() - 1;
        let pre = trace[n - 1];
        let post = trace[n];
        lemma_step_applies(pre, post);
        let e = choose|e: CollisionEvent| #[trigger] pre.applies(post, e);
        lemma_stale_event_carried(pre, post, e, stale);
        assert(pre.with_scheduled(stale).wf()) by {
            assert forall|x: CollisionEvent| #[trigger]
                pre.with_scheduled(stale).scheduled.contains(x) implies valid_event(
                x,
                pre.balls.len(),
            ) by {
                if x != stale {
                    assert(pre.scheduled.contains(x));
                }
            }
        }
        lemma_step(pre.with_scheduled(stale), post.with_scheduled(stale));
        let with_shorter = run_with_scheduled(shorter, stale);
        assert forall|k: int| 0 <= k < with.len() - 1 implies steps_to(
            #[trigger] with[k],
            with[k + 1],
        ) by {
            if k < n - 1 {
                assert(with[k] == with_shorter[k]);
            }
        }
    }
}

} // verus!
