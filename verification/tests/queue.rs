use eight_ball::binary64::Float;
use eight_ball::dynamics::maths::FloatVec;
use eight_ball::simulation::collision::{CollisionEvent, CollisionPartner};
use eight_ball::simulation::queue::EventQueue;

fn fl(x: f64) -> Float {
    Float::from_bits(x.to_bits())
}

fn event(i: usize, t: f64) -> CollisionEvent {
    CollisionEvent::new(
        i,
        CollisionPartner::Container,
        fl(t),
        (FloatVec::origin(), FloatVec::origin()),
    )
}

#[test]
fn queue_hands_out_the_earliest_first() {
    let mut q = EventQueue::new();
    assert!(q.is_empty());
    assert!(q.pop().is_none());
    let times = [5.0, 1.0, 4.0, 1.5, 0.25, 9.0, 3.0, 0.5, 7.0, 2.0, 8.0, 6.0];
    for (i, &t) in times.iter().enumerate() {
        q.push(event(i, t));
        assert_eq!(q.len(), i + 1);
    }
    let mut sorted = times.to_vec();
    sorted.sort_by(|a, b| a.partial_cmp(b).unwrap());
    for &want in sorted.iter() {
        let e = q.pop().unwrap();
        assert_eq!(f64::from_bits(e.t.to_bits()), want);
        assert_eq!(times[e.i], want);
    }
    assert!(q.is_empty());
    assert!(q.pop().is_none());
}

#[test]
fn queue_keeps_events_of_equal_time() {
    let mut q = EventQueue::new();
    q.push(event(0, 1.0));
    q.push(event(1, 1.0));
    q.push(event(2, 0.5));
    q.push(event(3, 1.0));
    assert_eq!(q.pop().unwrap().i, 2);
    let mut rest = vec![q.pop().unwrap().i, q.pop().unwrap().i, q.pop().unwrap().i];
    rest.sort();
    assert_eq!(rest, vec![0, 1, 3]);
    assert!(q.pop().is_none());
}

#[test]
fn queue_orders_by_the_total_order_of_doubles() {
    let mut q = EventQueue::new();
    let times = [0.0, -0.0, f64::INFINITY, -1.0, f64::NEG_INFINITY, 1e-300];
    for (i, &t) in times.iter().enumerate() {
        q.push(event(i, t));
    }
    let order: Vec<usize> = (0..times.len()).map(|_| q.pop().unwrap().i).collect();
    assert_eq!(order, vec![4, 3, 1, 0, 5, 2]);
}

#[test]
fn queue_sorts_many_events() {
    let mut q = EventQueue::new();
    let mut state: u64 = 12345;
    let mut times = Vec::new();
    for i in 0..2000 {
        state = state.wrapping_mul(6364136223846793005).wrapping_add(1442695040888963407);
        let t = ((state >> 11) as f64) / 9007199254740992.0;
        times.push(t);
        q.push(event(i, t));
    }
    let mut last = f64::NEG_INFINITY;
    for _ in 0..2000 {
        let e = q.pop().unwrap();
        let t = f64::from_bits(e.t.to_bits());
        assert!(t >= last);
        assert_eq!(times[e.i], t);
        last = t;
    }
    assert!(q.is_empty());
}

#[test]
fn events_compare_by_their_time() {
    let a = event(0, 1.0);
    let b = event(1, 2.0);
    assert!(a.precedes(&b));
    assert!(!b.precedes(&a));
    assert!(!a.precedes(&a));
    assert!(a.key_exec() < b.key_exec());
    let (i, j, t, w) = b.into_parts();
    assert_eq!(i, 1);
    assert_eq!(j, CollisionPartner::Container);
    assert_eq!(t.to_bits(), 2.0f64.to_bits());
    assert!(w.0.same_bits(&FloatVec::origin()));
}
