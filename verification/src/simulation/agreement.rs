//! Two simulations that differ only in the stale events of their queues
//! take the same steps.
//!
//! This holds as long as no two fresh events are due at the same time, for
//! then the queue may hand out either, and as long as no stale event comes
//! back to life: an event is fresh again as soon as its participants have
//! the velocities of its witness again.
use vstd::prelude::*;
use vstd::multiset::Multiset;
use crate::binary64::Float;
use crate::dynamics::ball::Ball;
use crate::dynamics::collide::Collide;
use crate::simulation::collision::CollisionEvent;
use crate::simulation::collision::CollisionPartner;
use crate::simulation::state::State;
use crate::simulation::state::fresh;
use crate::simulation::state::ball_event;
use crate::simulation::state::container_event;
use crate::simulation::state::with_event;
use crate::simulation::state::with_ball_events;
use crate::simulation::state::only_stale_dropped;
use crate::simulation::state::steps_to;
use crate::simulation::state::is_run;
use crate::simulation::state::lemma_step_applies;

verus! {

/// The two states are the same but for the stale events in their queues:
/// they have the same time, balls and container, and each fresh event is
/// in both queues equally often.
pub open spec fn agree(a: State, b: State) -> bool {
    &&& a.time == b.time
    &&& a.delta == b.delta
    &&& a.container == b.container
    &&& a.balls == b.balls
    &&& a.initialised == b.initialised
    &&& forall|x: CollisionEvent|
        fresh(a.balls, x) ==> #[trigger] a.scheduled.count(x) == b.scheduled.count(x)
}

/// No two fresh events in the queue are due at the same time.
pub open spec fn no_ties(s: State) -> bool {
    forall|x: CollisionEvent, y: CollisionEvent|
        #[trigger] s.scheduled.contains(x) && #[trigger] s.scheduled.contains(y) && fresh(
            s.balls,
            x,
        ) && fresh(s.balls, y) && x.key() == y.key() ==> x == y
}

/// No stale event in the queue of `pre` is fresh in `post`.
pub open spec fn stays_stale(pre: State, post: State) -> bool {
    forall|x: CollisionEvent| #[trigger]
        pre.scheduled.contains(x) && !fresh(pre.balls, x) ==> !fresh(post.balls, x)
}

/// Scheduling the collisions of a ball anew adds the same events to any
/// queue.
proof fn lemma_ball_events_added(
    m1: Multiset<CollisionEvent>,
    m2: Multiset<CollisionEvent>,
    balls: Seq<Ball>,
    now: Float,
    i: int,
    upto: int,
    x: CollisionEvent,
)
    ensures
        with_ball_events(m1, balls, now, i, upto).count(x) + m2.count(x) == with_ball_events(
            m2,
            balls,
            now,
            i,
            upto,
        ).count(x) + m1.count(x),
    decreases upto,
{
    if upto > 0 {
        lemma_ball_events_added(m1, m2, balls, now, i, upto - 1, x);
        let r1 = with_ball_events(m1, balls, now, i, upto - 1);
        let r2 = with_ball_events(m2, balls, now, i, upto - 1);
        if upto - 1 != i {
            lemma_event_added(r1, r2, ball_event(balls, now, i, upto - 1), x);
        }
    }
}

/// An event, if there is one, is added to any queue alike.
proof fn lemma_event_added(
    m1: Multiset<CollisionEvent>,
    m2: Multiset<CollisionEvent>,
    e: Option<CollisionEvent>,
    x: CollisionEvent,
)
    ensures
        with_event(m1, e).count(x) - m1.count(x) == with_event(m2, e).count(x) - m2.count(x),
{
    broadcast use vstd::multiset::group_multiset_axioms;

}

/// Scheduling the collisions of a ball anew adds the same events to the
/// queues of two states that are the same but for their queues.
proof fn lemma_rescheduled_added(s1: State, s2: State, i: int, x: CollisionEvent)
    requires
        s2 == (State { scheduled: s2.scheduled, ..s1 }),
    ensures
        s1.rescheduled(i).scheduled.count(x) + s2.scheduled.count(x) == s2.rescheduled(
            i,
        ).scheduled.count(x) + s1.scheduled.count(x),
        s2.rescheduled(i) == (State { scheduled: s2.rescheduled(i).scheduled, ..s1.rescheduled(i) }),
{
    let n = s1.balls.len() as int;
    lemma_ball_events_added(s1.scheduled, s2.scheduled, s1.balls, s1.time, i, n, x);
    lemma_event_added(
        with_ball_events(s1.scheduled, s1.balls, s1.time, i, n),
        with_ball_events(s2.scheduled, s1.balls, s1.time, i, n),
        container_event(s1.balls, s1.container, s1.time, i),
        x,
    );
}

/// Scheduling the collisions of the participants of an event anew adds the
/// same events to the queues of two states that are the same but for their
/// queues.
proof fn lemma_rescheduled_for_added(s1: State, s2: State, e: CollisionEvent, x: CollisionEvent)
    requires
        s2 == (State { scheduled: s2.scheduled, ..s1 }),
    ensures
        s1.rescheduled_for(e).scheduled.count(x) + s2.scheduled.count(x) == s2.rescheduled_for(
            e,
        ).scheduled.count(x) + s1.scheduled.count(x),
        s2.rescheduled_for(e) == (State {
            scheduled: s2.rescheduled_for(e).scheduled,
            ..s1.rescheduled_for(e)
        }),
{
    lemma_rescheduled_added(s1, s2, e.i as int, x);
    if let CollisionPartner::Ball(j) = e.j {
        lemma_rescheduled_added(s1.rescheduled(e.i as int), s2.rescheduled(e.i as int), j as int, x);
    }
}

/// What is left of a queue after a step holds each event that was fresh
/// before the step as often as the queue without the applied event did.
proof fn lemma_fresh_events_kept(
    balls: Seq<Ball>,
    before: Multiset<CollisionEvent>,
    after: Multiset<CollisionEvent>,
    e: CollisionEvent,
    x: CollisionEvent,
)
    requires
        only_stale_dropped(balls, before, after, e),
    ensures
        fresh(balls, x) ==> after.count(x) == before.remove(e).count(x),
        after.count(x) > 0 ==> before.contains(x),
{
    broadcast use vstd::multiset::group_multiset_axioms;

    assert(after.count(x) <= before.remove(e).count(x));
}

/// A state agrees with itself with a stale event put into its queue.
pub proof fn lemma_stale_event_agrees(a: State, stale: CollisionEvent)
    requires
        !fresh(a.balls, stale),
    ensures
        agree(a, a.with_scheduled(stale)),
{
    broadcast use vstd::multiset::group_multiset_axioms;

}

/// Two states that agree take the same step: they apply the same
/// collision and agree again after it.
pub proof fn lemma_steps_agree(
    a: State,
    b: State,
    post_a: State,
    post_b: State,
    ea: CollisionEvent,
    eb: CollisionEvent,
)
    requires
        agree(a, b),
        no_ties(a),
        a.applies(post_a, ea),
        b.applies(post_b, eb),
        stays_stale(a, post_a),
        stays_stale(b, post_b),
    ensures
        ea == eb,
        agree(post_a, post_b),
{
    broadcast use vstd::multiset::group_multiset_axioms;

    assert(a.scheduled.count(ea) == b.scheduled.count(ea));
    assert(a.scheduled.count(eb) == b.scheduled.count(eb));
    assert(b.scheduled.contains(ea) && a.scheduled.contains(eb));
    assert(ea.key() <= eb.key() && eb.key() <= ea.key());
    assert(ea == eb);
    let e = ea;
    let dt = e.t.sub_spec(a.time);
    let moved_a = a.flown(dt);
    let moved_b = b.flown(dt);
    assert(moved_a.balls =~= moved_b.balls);
    let balls = moved_a.collided(e.i as int, e.j)->Ok_0;
    assert(moved_b.collided(e.i as int, e.j) == moved_a.collided(e.i as int, e.j));
    let mid_a = choose|mid: Multiset<CollisionEvent>| #[trigger]
        only_stale_dropped(a.balls, a.scheduled, mid, e) && post_a == (State {
            balls,
            scheduled: mid,
            ..moved_a
        }).rescheduled_for(e);
    let mid_b = choose|mid: Multiset<CollisionEvent>| #[trigger]
        only_stale_dropped(b.balls, b.scheduled, mid, e) && post_b == (State {
            balls,
            scheduled: mid,
            ..moved_b
        }).rescheduled_for(e);
    let struck_a = State { balls, scheduled: mid_a, ..moved_a };
    let struck_b = State { balls, scheduled: mid_b, ..moved_b };
    assert(struck_b == (State { scheduled: mid_b, ..struck_a }));
    assert forall|x: CollisionEvent| fresh(post_a.balls, x) implies #[trigger]
        post_a.scheduled.count(x) == post_b.scheduled.count(x) by {
        lemma_rescheduled_for_added(struck_a, struck_b, e, x);
        lemma_fresh_events_kept(a.balls, a.scheduled, mid_a, e, x);
        lemma_fresh_events_kept(b.balls, b.scheduled, mid_b, e, x);
        if mid_a.count(x) > 0 || mid_b.count(x) > 0 {
            if !fresh(a.balls, x) {
                if mid_a.count(x) > 0 {
                    assert(a.scheduled.contains(x));
                } else {
                    assert(b.scheduled.contains(x));
                }
            }
            assert(a.scheduled.count(x) == b.scheduled.count(x));
        }
    }
    lemma_rescheduled_for_added(struck_a, struck_b, e, e);
}

/// Stale events are inert over a run: two runs of the same length that
/// start from states that agree go through states that agree, one by one,
/// so that the same collisions are applied and the balls and the clock are
/// the same all along. No two fresh events are due at the same time in any
/// state of the first run, and no event that is stale in a state of either
/// run is fresh in the next.
pub proof fn lemma_runs_agree(ta: Seq<State>, tb: Seq<State>, k: int)
    requires
        is_run(ta),
        is_run(tb),
        ta.len() == tb.len(),
        agree(ta[0], tb[0]),
        forall|j: int| 0 <= j < ta.len() - 1 ==> no_ties(#[trigger] ta[j]),
        forall|j: int| 0 <= j < ta.len() - 1 ==> stays_stale(#[trigger] ta[j], ta[j + 1]),
        forall|j: int| 0 <= j < tb.len() - 1 ==> stays_stale(#[trigger] tb[j], tb[j + 1]),
        0 <= k < ta.len(),
    ensures
        agree(ta[k], tb[k]),
    decreases k,
{
    if k > 0 {
        lemma_runs_agree(ta, tb, k - 1);
        assert(steps_to(ta[k - 1], ta[k - 1 + 1]));
        assert(steps_to(tb[k - 1], tb[k - 1 + 1]));
        lemma_step_applies(ta[k - 1], ta[k]);
        lemma_step_applies(tb[k - 1], tb[k]);
        let ea = choose|e: CollisionEvent| #[trigger] ta[k - 1].applies(ta[k], e);
        let eb = choose|e: CollisionEvent| #[trigger] tb[k - 1].applies(tb[k], e);
        assert(no_ties(ta[k - 1]));
        assert(stays_stale(ta[k - 1], ta[k - 1 + 1]));
        assert(stays_stale(tb[k - 1], tb[k - 1 + 1]));
        lemma_steps_agree(ta[k - 1], tb[k - 1], ta[k], tb[k], ea, eb);
    }
}

} // verus!
