use vstd::prelude::*;

use priority_queue::PriorityQueue;
use vstd::multiset::Multiset;

verus! {

#[verifier::external_type_specification]
#[verifier::external_body]
#[verifier::reject_recursive_types(I)]
#[verifier::reject_recursive_types(P)]
#[verifier::reject_recursive_types(H)]
pub struct ExPriorityQueue<I, P, H>(PriorityQueue<I, P, H>);

/// What a queue of index items and integer priorities holds, as a multiset
/// of (item, priority) pairs.
pub uninterp spec fn queue_entries(q: PriorityQueue<u64, u64>) -> Multiset<(u64, u64)>;

/// Relies on `PriorityQueue::new`: an empty queue.
#[verifier::external_body]
pub(crate) fn pq_new() -> (q: PriorityQueue<u64, u64>)
    ensures
        queue_entries(q) == Multiset::<(u64, u64)>::empty(),
{
    PriorityQueue::new()
}

/// Relies on `PriorityQueue::push`: an item not yet in the queue is inserted
/// with the given priority, and the rest of the queue stands as it was.
#[verifier::external_body]
pub(crate) fn pq_push(q: &mut PriorityQueue<u64, u64>, item: u64, priority: u64)
    requires
        forall|p: u64| !queue_entries(*old(q)).contains((item, p)),
    ensures
        queue_entries(*final (q)) == queue_entries(*old(q)).insert((item, priority)),
{
    q.push(item, priority);
}

/// Relies on `PriorityQueue::pop`: removes and returns a pair whose priority
/// no other pair in the queue exceeds, or nothing when the queue is empty.
#[verifier::external_body]
pub(crate) fn pq_pop(q: &mut PriorityQueue<u64, u64>) -> (r: Option<(u64, u64)>)
    ensures
        match r {
            None => queue_entries(*old(q)).len() == 0 && queue_entries(*final (q)) == queue_entries(
                *old(q),
            ),
            Some(e) => queue_entries(*old(q)).contains(e) && queue_entries(*final (q))
                == queue_entries(*old(q)).remove(e) && forall|x: (u64, u64)|
                queue_entries(*old(q)).contains(x) ==> x.1 <= e.1,
        },
{
    q.pop()
}

} // verus!
