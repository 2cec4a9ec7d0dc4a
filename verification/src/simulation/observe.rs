//! What is measured on a running simulation: the times between collisions,
//! the pressure on the container, and whether a ball has left it.
use vstd::prelude::*;
use crate::binary64::Float;
use crate::binary64::laws::zero;
use crate::binary64::laws::one;
use crate::dynamics::DynamicsError;
use crate::simulation::simulate::Simulation;
use crate::simulation::state::State;
use crate::simulation::state::steps_to;
use crate::simulation::state::is_run;
use crate::simulation::state::runs;
use crate::simulation::state::run_fails;
use crate::simulation::state::lemma_step;

verus! {

/// The time of the collision number `k` of the run, counted from one, and
/// zero for `k == 0`: the intervals are measured from time zero.
pub open spec fn collision_time(trace: Seq<State>, k: int) -> Float {
    if k <= 0 {
        zero()
    } else {
        trace[k].time
    }
}

/// The time between the collisions `k` and `k + 1` of the run.
pub open spec fn interval(trace: Seq<State>, k: int) -> Float {
    collision_time(trace, k + 1).sub_spec(collision_time(trace, k))
}

/// The sum of `count` intervals of the run from the interval `from` on,
/// added up from zero in their order.
pub open spec fn interval_sum(trace: Seq<State>, from: int, count: int) -> Float
    decreases count,
{
    if count <= 0 {
        zero()
    } else {
        interval_sum(trace, from, count - 1).add_spec(interval(trace, from + count - 1))
    }
}

/// The sum of the intervals of the group `g` of `n` collisions.
pub open spec fn group_sum(trace: Seq<State>, n: int, g: int) -> Float {
    interval_sum(trace, g * n, n)
}

/// Whether a ball of `s` has its centre outside the unit disk.
pub open spec fn escaped(s: State) -> bool {
    exists|b: int|
        0 <= b < s.balls.len() && one().lt_spec(
            #[trigger] s.balls[b].pos.dot_spec(s.balls[b].pos),
        )
}

/// The sum of intervals of a run is that of the run extended.
proof fn lemma_interval_sum_extends(trace: Seq<State>, next: State, from: int, count: int)
    requires
        is_run(trace),
        steps_to(trace.last(), next),
        0 <= from,
        from + count <= trace.len() - 1,
    ensures
        interval_sum(trace.push(next), from, count) == interval_sum(trace, from, count),
    decreases count,
{
    if count > 0 {
        lemma_interval_sum_extends(trace, next, from, count - 1);
    }
}

/// Runs the simulation through `no_collisions` collisions and hands out the
/// times between them. The first is measured from time zero.
pub fn collision_times(sim: &mut Simulation, no_collisions: usize) -> (r: Result<
    Vec<Float>,
    DynamicsError,
>)
    requires
        old(sim).wf(),
    ensures
        final(sim).wf(),
        r matches Err(err) ==> err == DynamicsError::SimulationFailure,
        match r {
            Ok(times) => exists|trace: Seq<State>|
                #![trigger is_run(trace)]
                {
                    &&& runs(trace, old(sim)@, final(sim)@, no_collisions as nat)
                    &&& times@.len() == no_collisions
                    &&& forall|k: int|
                        0 <= k < no_collisions ==> times@[k] == interval(trace, k)
                },
            Err(err) => run_fails(old(sim)@, final(sim)@, no_collisions as nat, err),
        },
{
    let mut times: Vec<Float> = Vec::new();
    let mut current_time = Float::zero();
    let ghost mut trace: Seq<State> = seq![sim@];
    let mut i: usize = 0;
    while i < no_collisions
        invariant
            sim.wf(),
            i <= no_collisions,
            runs(trace, old(sim)@, sim@, i as nat),
            current_time == collision_time(trace, i as int),
            times@.len() == i,
            forall|k: int| 0 <= k < i ==> times@[k] == interval(trace, k),
        decreases no_collisions - i,
    {
        let ghost before = sim@;
        proof {
            sim.lemma_wf_state();
        }
        match sim.step_through_collision() {
            Ok(()) => {},
            Err(err) => {
                return Err(err);
            },
        }
        let ghost shorter = trace;
        proof {
            lemma_step(before, sim@);
            trace = trace.push(sim@);
        }
        let global_time = sim.global_time();
        let collision_delta_t = global_time - current_time;
        current_time = global_time;
        times.push(collision_delta_t);
        proof {
            assert forall|k: int| 0 <= k < i + 1 implies times@[k] == interval(trace, k) by {
                if k < i {
                    assert(interval(trace, k) == interval(shorter, k));
                }
            }
        }
        i = i + 1;
    }
    Ok(times)
}

/// Runs the simulation through `no_collisions / n` groups of `n`
/// collisions and hands out, for each group, the sum of the times between
/// its collisions.
pub fn nth_collision_times(sim: &mut Simulation, n: usize, no_collisions: usize) -> (r: Result<
    Vec<Float>,
    DynamicsError,
>)
    requires
        old(sim).wf(),
        n > 0,
    ensures
        final(sim).wf(),
        r matches Err(err) ==> err == DynamicsError::SimulationFailure,
        match r {
            Ok(sums) => exists|trace: Seq<State>|
                #![trigger is_run(trace)]
                {
                    &&& runs(trace, old(sim)@, final(sim)@, ((no_collisions / n) * n) as nat)
                    &&& sums@.len() == no_collisions / n
                    &&& forall|g: int|
                        0 <= g < no_collisions / n ==> sums@[g] == group_sum(
                            trace,
                            n as int,
                            g,
                        )
                },
            Err(err) => run_fails(old(sim)@, final(sim)@, no_collisions as nat, err),
        },
{
    let groups = no_collisions / n;
    let mut sums: Vec<Float> = Vec::new();
    let mut current_time = Float::zero();
    let ghost mut trace: Seq<State> = seq![sim@];
    let mut g: usize = 0;
    proof {
        assert(groups * n <= no_collisions) by (nonlinear_arith)
            requires
                groups == no_collisions / n,
                n > 0,
        ;
    }
    while g < groups
        invariant
            sim.wf(),
            n > 0,
            g <= groups,
            groups * n <= no_collisions,
            runs(trace, old(sim)@, sim@, (g * n) as nat),
            current_time == collision_time(trace, g * n),
            sums@.len() == g,
            forall|h: int| 0 <= h < g ==> sums@[h] == group_sum(trace, n as int, h),
        decreases groups - g,
    {
        let mut local_sum = Float::zero();
        let mut s: usize = 0;
        proof {
            assert(g * n + n == (g + 1) * n) by (nonlinear_arith);
            assert((g + 1) * n <= groups * n) by (nonlinear_arith)
                requires
                    g + 1 <= groups,
                    n > 0,
            ;
        }
        while s < n
            invariant
                sim.wf(),
                n > 0,
                s <= n,
                g < groups,
                g * n + n <= no_collisions,
                runs(trace, old(sim)@, sim@, (g * n + s) as nat),
                current_time == collision_time(trace, g * n + s),
                local_sum == interval_sum(trace, g * n, s as int),
                sums@.len() == g,
                forall|h: int| 0 <= h < g ==> sums@[h] == group_sum(trace, n as int, h),
            decreases n - s,
        {
            let ghost before = sim@;
            proof {
                sim.lemma_wf_state();
            }
            match sim.step_through_collision() {
                Ok(()) => {},
                Err(err) => {
                    return Err(err);
                },
            }
            proof {
                lemma_step(before, sim@);
                lemma_interval_sum_extends(trace, sim@, g * n, s as int);
                assert forall|h: int| 0 <= h < g implies #[trigger] group_sum(
                    trace.push(sim@),
                    n as int,
                    h,
                ) == group_sum(trace, n as int, h) by {
                    assert(h * n + n <= g * n) by (nonlinear_arith)
                        requires
                            0 <= h < g,
                            n > 0,
                    ;
                    lemma_interval_sum_extends(trace, sim@, h * n, n as int);
                }
                trace = trace.push(sim@);
            }
            let global_time = sim.global_time();
            let collision_delta_t = global_time - current_time;
            current_time = global_time;
            local_sum = local_sum + collision_delta_t;
            s = s + 1;
        }
        sums.push(local_sum);
        g = g + 1;
    }
    Ok(sums)
}

/// Whether a ball has its centre outside the unit disk.
pub fn any_escaped(sim: &Simulation) -> (r: bool)
    ensures
        r == escaped(sim@),
{
    let n = sim.ball_count();
    let mut b: usize = 0;
    while b < n
        invariant
            b <= n,
            n == sim@.balls.len(),
            forall|c: int|
                0 <= c < b ==> !one().lt_spec(
                    #[trigger] sim@.balls[c].pos.dot_spec(sim@.balls[c].pos),
                ),
        decreases n - b,
    {
        let ball = sim.ball(b);
        let r_squared = ball.pos.dot(&ball.pos);
        if Float::one().lt(r_squared) {
            return true;
        }
        b = b + 1;
    }
    false
}

/// Runs the simulation through `no_collisions` collisions and tells after
/// which of them, counted from zero, a ball first had its centre outside
/// the unit disk, with the time of that collision.
pub fn track_positions(sim: &mut Simulation, no_collisions: usize) -> (r: Result<
    Option<(usize, Float)>,
    DynamicsError,
>)
    requires
        old(sim).wf(),
    ensures
        final(sim).wf(),
        r matches Err(err) ==> err == DynamicsError::SimulationFailure,
        match r {
            Ok(found) => exists|trace: Seq<State>|
                #![trigger is_run(trace)]
                {
                    &&& runs(trace, old(sim)@, final(sim)@, no_collisions as nat)
                    &&& match found {
                        Some((i, time)) => {
                            &&& i < no_collisions
                            &&& escaped(trace[i + 1])
                            &&& time == trace[i + 1].time
                            &&& forall|k: int| 0 <= k < i ==> !escaped(#[trigger] trace[k + 1])
                        },
                        None => forall|k: int|
                            0 <= k < no_collisions ==> !escaped(#[trigger] trace[k + 1]),
                    }
                },
            Err(err) => run_fails(old(sim)@, final(sim)@, no_collisions as nat, err),
        },
{
    let mut found: Option<(usize, Float)> = None;
    let ghost mut trace: Seq<State> = seq![sim@];
    let mut i: usize = 0;
    while i < no_collisions
        invariant
            sim.wf(),
            i <= no_collisions,
            runs(trace, old(sim)@, sim@, i as nat),
            match found {
                Some((j, time)) => {
                    &&& j < i
                    &&& escaped(trace[j + 1])
                    &&& time == trace[j + 1].time
                    &&& forall|k: int| 0 <= k < j ==> !escaped(#[trigger] trace[k + 1])
                },
                None => forall|k: int| 0 <= k < i ==> !escaped(#[trigger] trace[k + 1]),
            },
        decreases no_collisions - i,
    {
        let ghost before = sim@;
        proof {
            sim.lemma_wf_state();
        }
        match sim.step_through_collision() {
            Ok(()) => {},
            Err(err) => {
                return Err(err);
            },
        }
        proof {
            lemma_step(before, sim@);
            trace = trace.push(sim@);
        }
        if found.is_none() && any_escaped(sim) {
            found = Some((i, sim.global_time()));
        }
        i = i + 1;
    }
    Ok(found)
}

/// The sum of the first `count` pressures of the samples, added up from
/// zero in their order.
pub open spec fn pressure_sum(samples: Seq<(Float, Float)>, count: int) -> Float
    decreases count,
{
    if count <= 0 {
        zero()
    } else {
        pressure_sum(samples, count - 1).add_spec(samples[count - 1].1)
    }
}

/// The running sum of the pressures in the window of `width` samples that
/// ends before the sample `width + m`: the sum of the first window, with
/// the sample that leaves taken off and the sample that enters added on
/// for each step that the window has moved.
pub open spec fn window_sum(samples: Seq<(Float, Float)>, width: int, m: int) -> Float
    decreases m,
{
    if m <= 0 {
        pressure_sum(samples, width)
    } else {
        window_sum(samples, width, m - 1).sub_spec(samples[m - 1].1).add_spec(
            samples[width + m - 1].1,
        )
    }
}

/// The pressure on the container over a sliding window. The samples are
/// pairs of a time and a pressure. For each sample after the first `width`
/// the result holds the time that the window spans, from the second sample
/// in it to the sample that enters, and the running sum of the pressures
/// in the window.
pub fn windowed_pressure(samples: &Vec<(Float, Float)>, width: usize) -> (r: (
    Vec<Float>,
    Vec<Float>,
))
    requires
        2 <= width <= samples.len(),
    ensures
        r.0@.len() == samples.len() - width,
        r.1@.len() == samples.len() - width,
        forall|m: int|
            0 <= m < samples.len() - width ==> {
                &&& r.0@[m] == samples@[width + m].0.sub_spec(samples@[m + 1].0)
                &&& r.1@[m] == window_sum(samples@, width as int, m + 1)
            },
{
    let mut pressure_sum_now = Float::zero();
    let mut k: usize = 0;
    while k < width
        invariant
            k <= width <= samples.len(),
            pressure_sum_now == pressure_sum(samples@, k as int),
        decreases width - k,
    {
        pressure_sum_now = pressure_sum_now + samples[k].1;
        k = k + 1;
    }
    let n = samples.len() - width;
    let mut times: Vec<Float> = Vec::new();
    let mut pressures: Vec<Float> = Vec::new();
    let mut m: usize = 0;
    while m < n
        invariant
            m <= n,
            2 <= width,
            n + width == samples.len(),
            pressure_sum_now == window_sum(samples@, width as int, m as int),
            times@.len() == m,
            pressures@.len() == m,
            forall|j: int|
                0 <= j < m ==> {
                    &&& times@[j] == samples@[width + j].0.sub_spec(samples@[j + 1].0)
                    &&& pressures@[j] == window_sum(samples@, width as int, j + 1)
                },
        decreases n - m,
    {
        let (time, pressure) = samples[width + m];
        let old_pressure = samples[m].1;
        pressure_sum_now = pressure_sum_now - old_pressure;
        pressure_sum_now = pressure_sum_now + pressure;
        let t_start = samples[m + 1].0;
        times.push(time - t_start);
        pressures.push(pressure_sum_now);
        m = m + 1;
    }
    (times, pressures)
}

} // verus!
