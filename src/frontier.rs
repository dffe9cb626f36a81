use vstd::prelude::*;
use priority_queue::PriorityQueue;

verus! {

#[verifier::external_type_specification]
#[verifier::external_body]
#[verifier::reject_recursive_types(I)]
#[verifier::reject_recursive_types(P)]
#[verifier::reject_recursive_types(H)]
pub struct ExPriorityQueue<I, P, H>(PriorityQueue<I, P, H>);

/// A queue of state indices ordered by priority.
pub type Frontier = PriorityQueue<usize, i128>;

/// What a queue of state indices holds: each index with its priority.
pub uninterp spec fn queue_entries(q: Frontier) -> Map<usize, i128>;

/// Relies on `PriorityQueue::new`: the new queue is empty.
#[verifier::external_body]
pub(crate) fn queue_new() -> (r: Frontier)
    ensures
        queue_entries(r).dom() == Set::<usize>::empty(),
{
    PriorityQueue::new()
}

/// Relies on `PriorityQueue::push`: the item is stored with the given priority,
/// replacing the priority of an equal item, whose old priority is returned.
#[verifier::external_body]
pub(crate) fn queue_push(q: &mut Frontier, item: usize, priority: i128) -> (r:
    Option<i128>)
    ensures
        queue_entries(*final(q)) == queue_entries(*old(q)).insert(item, priority),
        r == (if queue_entries(*old(q)).contains_key(item) {
            Some(queue_entries(*old(q))[item])
        } else {
            None
        }),
{
    q.push(item, priority)
}

/// Relies on `PriorityQueue::pop`: removes and returns an item of greatest
/// priority, or `None` when the queue is empty.
#[verifier::external_body]
pub(crate) fn queue_pop(q: &mut Frontier) -> (r: Option<(usize, i128)>)
    ensures
        queue_entries(*old(q)).dom().finite(),
        queue_entries(*final(q)).dom().finite(),
        match r {
            None => queue_entries(*old(q)).dom() == Set::<usize>::empty() && queue_entries(*final(q))
                == queue_entries(*old(q)),
            Some((item, priority)) => {
                &&& queue_entries(*old(q)).contains_key(item)
                &&& queue_entries(*old(q))[item] == priority
                &&& forall|other: usize| #[trigger]
                    queue_entries(*old(q)).contains_key(other) ==> queue_entries(*old(q))[other]
                        <= priority
                &&& queue_entries(*final(q)) == queue_entries(*old(q)).remove(item)
            },
        },
{
    q.pop()
}

} // verus!
