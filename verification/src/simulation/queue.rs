//! The queue of scheduled collisions: a binary heap with the earliest on top.
use vstd::prelude::*;
use vstd::multiset::Multiset;
use vstd::seq_lib::to_multiset_remove;
use vstd::seq_lib::to_multiset_insert;
use vstd::seq_lib::to_multiset_build;
use vstd::seq_lib::to_multiset_len;
use crate::simulation::collision::CollisionEvent;

verus! {

/// The index above `c` in the heap.
pub open spec fn parent(c: int) -> int {
    (c - 1) / 2
}

/// Every entry but the root is due no earlier than the one above it, with
/// the links into `hole` (from below, if `down`; from above, if not) left
/// out.
spec fn ordered_but(s: Seq<CollisionEvent>, hole: int, down: bool) -> bool {
    forall|c: int|
        1 <= c < s.len() && (if down { parent(c) != hole } else { c != hole })
            ==> s[parent(c)].key() <= (#[trigger] s[c]).key()
}

/// Every entry but the root is due no earlier than the one above it.
spec fn ordered(s: Seq<CollisionEvent>) -> bool {
    forall|c: int| 1 <= c < s.len() ==> s[parent(c)].key() <= (#[trigger] s[c]).key()
}

/// The entries below `hole` are due no earlier than the one above it.
spec fn bridged(s: Seq<CollisionEvent>, hole: int) -> bool {
    hole > 0 ==> forall|c: int|
        1 <= c < s.len() && parent(c) == hole ==> s[parent(hole)].key() <= (#[trigger] s[c]).key()
}

/// In an ordered heap nothing is due before the root.
proof fn lemma_root_first(s: Seq<CollisionEvent>, k: int)
    requires
        ordered(s),
        0 <= k < s.len(),
    ensures
        s[0].key() <= s[k].key(),
    decreases k,
{
    if k > 0 {
        lemma_root_first(s, parent(k));
    }
}

/// Replacing an entry replaces it in the multiset.
proof fn lemma_update_multiset(s: Seq<CollisionEvent>, i: int, e: CollisionEvent)
    requires
        0 <= i < s.len(),
    ensures
        s.update(i, e).to_multiset() == s.to_multiset().remove(s[i]).insert(e),
{
    assert(s.update(i, e) =~= s.remove(i).insert(i, e));
    to_multiset_remove(s, i);
    to_multiset_insert(s.remove(i), i, e);
}

/// Exchanging two entries leaves the multiset as it is.
proof fn lemma_swap_multiset(s: Seq<CollisionEvent>, i: int, j: int)
    requires
        0 <= i < s.len(),
        0 <= j < s.len(),
    ensures
        s.update(i, s[j]).update(j, s[i]).to_multiset() == s.to_multiset(),
{
    let s1 = s.update(i, s[j]);
    lemma_update_multiset(s, i, s[j]);
    lemma_update_multiset(s1, j, s[i]);
    s.to_multiset_ensures();
}

/// Exchanges two entries.
fn swap(v: &mut Vec<CollisionEvent>, i: usize, j: usize)
    requires
        i < old(v).len(),
        j < old(v).len(),
    ensures
        final(v)@ == old(v)@.update(i as int, old(v)@[j as int]).update(j as int, old(v)@[i as int]),
        final(v)@.to_multiset() == old(v)@.to_multiset(),
        final(v).len() == old(v).len(),
{
    let a = v[i];
    let b = v[j];
    proof {
        lemma_swap_multiset(v@, i as int, j as int);
    }
    v.set(i, b);
    v.set(j, a);
}

/// Lets the entry at `start` rise until the one above it is due no later.
fn sift_up(v: &mut Vec<CollisionEvent>, start: usize)
    requires
        start < old(v).len(),
        ordered_but(old(v)@, start as int, false),
        bridged(old(v)@, start as int),
    ensures
        ordered(final(v)@),
        final(v)@.to_multiset() == old(v)@.to_multiset(),
{
    let mut i = start;
    while i > 0
        invariant
            i < v.len(),
            ordered_but(v@, i as int, false),
            bridged(v@, i as int),
            v@.to_multiset() == old(v)@.to_multiset(),
        ensures
            ordered(v@),
            v@.to_multiset() == old(v)@.to_multiset(),
        decreases i,
    {
        let p = (i - 1) / 2;
        if v[i].precedes(&v[p]) {
            swap(v, i, p);
            i = p;
        } else {
            break ;
        }
    }
}

/// Lets the entry at the root sink until those below it are due no earlier.
fn sift_down(v: &mut Vec<CollisionEvent>)
    requires
        ordered_but(old(v)@, 0, true),
    ensures
        ordered(final(v)@),
        final(v)@.to_multiset() == old(v)@.to_multiset(),
{
    let n = v.len();
    let mut i: usize = 0;
    loop
        invariant
            n == v.len(),
            i < n || n == 0,
            ordered_but(v@, i as int, true),
            bridged(v@, i as int),
            v@.to_multiset() == old(v)@.to_multiset(),
        ensures
            ordered(v@),
            v@.to_multiset() == old(v)@.to_multiset(),
        decreases n - i,
    {
        if n < 2 || i > (n - 2) / 2 {
            // no entry below
            break ;
        }
        let left = 2 * i + 1;
        let right = left + 1;
        let m = if right < n && v[right].precedes(&v[left]) { right } else { left };
        if v[m].precedes(&v[i]) {
            swap(v, i, m);
            i = m;
        } else {
            break ;
        }
    }
}

/// The queue of scheduled collisions. It hands out the earliest first, and
/// among those due at the same time any one.
pub struct EventQueue {
    heap: Vec<CollisionEvent>,
}

impl View for EventQueue {
    type V = Multiset<CollisionEvent>;

    /// What the queue holds.
    closed spec fn view(&self) -> Multiset<CollisionEvent> {
        self.heap@.to_multiset()
    }
}

impl EventQueue {
    /// The entries are in heap order.
    pub closed spec fn wf(&self) -> bool {
        ordered(self.heap@)
    }

    /// The empty queue.
    pub fn new() -> (q: EventQueue)
        ensures
            q.wf(),
            q@ == Multiset::<CollisionEvent>::empty(),
    {
        let q = EventQueue { heap: Vec::new() };
        proof {
            assert(q.heap@.to_multiset() =~= Multiset::<CollisionEvent>::empty()) by {
                to_multiset_len(q.heap@);
                vstd::multiset::lemma_multiset_empty_len(q.heap@.to_multiset());
            }
        }
        q
    }

    /// The number of scheduled collisions.
    pub fn len(&self) -> (n: usize)
        ensures
            n == self@.len(),
    {
        proof {
            to_multiset_len(self.heap@);
        }
        self.heap.len()
    }

    /// Whether nothing is scheduled.
    pub fn is_empty(&self) -> (r: bool)
        ensures
            r == (self@.len() == 0),
    {
        proof {
            to_multiset_len(self.heap@);
        }
        self.heap.len() == 0
    }

    /// Schedules a collision.
    pub fn push(&mut self, event: CollisionEvent)
        requires
            old(self).wf(),
        ensures
            final(self).wf(),
            final(self)@ == old(self)@.insert(event),
    {
        let ghost before = self.heap@;
        self.heap.push(event);
        proof {
            to_multiset_build(before, event);
        }
        let last = self.heap.len() - 1;
        sift_up(&mut self.heap, last);
    }

    /// Takes out a collision that is due no later than any other, if there
    /// is one.
    pub fn pop(&mut self) -> (r: Option<CollisionEvent>)
        requires
            old(self).wf(),
        ensures
            final(self).wf(),
            match r {
                None => old(self)@.len() == 0 && final(self)@ == old(self)@,
                Some(e) => {
                    &&& old(self)@.contains(e)
                    &&& final(self)@ == old(self)@.remove(e)
                    &&& final(self)@.len() + 1 == old(self)@.len()
                    &&& forall|x: CollisionEvent| #[trigger]
                        old(self)@.contains(x) ==> e.key() <= x.key()
                },
            },
    {
        let ghost before = self.heap@;
        proof {
            before.to_multiset_ensures();
        }
        let n = self.heap.len();
        if n == 0 {
            return None;
        }
        let top = self.heap[0];
        let last = self.heap.pop().unwrap();
        proof {
            to_multiset_remove(before, n - 1);
            assert forall|x: CollisionEvent| #[trigger]
                before.to_multiset().contains(x) implies top.key() <= x.key() by {
                let k = choose|k: int| 0 <= k < before.len() && before[k] == x;
                lemma_root_first(before, k);
            }
        }
        if n == 1 {
            return Some(top);
        }
        let ghost short = self.heap@;
        self.heap.set(0, last);
        proof {
            lemma_update_multiset(short, 0, last);
            assert(short.to_multiset().remove(short[0]).insert(last) =~= before.to_multiset().remove(
                top,
            )) by {
                short.to_multiset_ensures();
            }
        }
        sift_down(&mut self.heap);
        Some(top)
    }
}

} // verus!
