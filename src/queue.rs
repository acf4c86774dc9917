//! The `queues` crate's queue and circular buffer of input events, as the input state sees
//! them.

use vstd::prelude::*;

use queues::IsQueue;

use crate::input::Event;

verus! {

#[verifier::external_type_specification]
#[verifier::external_body]
#[verifier::reject_recursive_types(T)]
pub struct ExQueue<T: Clone>(queues::Queue<T>);

#[verifier::external_type_specification]
#[verifier::external_body]
#[verifier::reject_recursive_types(T)]
pub struct ExCircularBuffer<T: Clone>(queues::CircularBuffer<T>);

/// The events in an unbounded queue, oldest first.
pub uninterp spec fn queue_events(q: queues::Queue<Event>) -> Seq<Event>;

/// The events in a circular buffer, oldest first.
pub uninterp spec fn ring_events(q: queues::CircularBuffer<Event>) -> Seq<Event>;

/// The capacity that a circular buffer was made with.
pub uninterp spec fn ring_capacity(q: queues::CircularBuffer<Event>) -> nat;

/// Whether a circular buffer refills itself with a default value when an event is removed.
pub uninterp spec fn ring_refills(q: queues::CircularBuffer<Event>) -> bool;

/// Relies on `queues::Queue::new`: an empty queue.
#[verifier::external_body]
pub(crate) fn queue_new() -> (q: queues::Queue<Event>)
    ensures
        queue_events(q) == Seq::<Event>::empty(),
{
    queues::Queue::new()
}

/// Relies on `queues::CircularBuffer::new`: an empty buffer of the given capacity, without a
/// default value.
#[verifier::external_body]
pub(crate) fn ring_new(capacity: usize) -> (q: queues::CircularBuffer<Event>)
    ensures
        ring_events(q) == Seq::<Event>::empty(),
        ring_capacity(q) == capacity,
        !ring_refills(q),
{
    queues::CircularBuffer::new(capacity)
}

/// Relies on `IsQueue::add` of `queues::Queue`: the event goes to the back (it always
/// succeeds).
#[verifier::external_body]
pub(crate) fn queue_add(q: &mut queues::Queue<Event>, e: Event)
    ensures
        queue_events(*final(q)) == queue_events(*old(q)).push(e),
{
    let _ = q.add(e);
}

/// Relies on `IsQueue::add` of `queues::CircularBuffer`: the event goes to the back, and
/// where the buffer already held as many events as its capacity, the oldest leaves.
#[verifier::external_body]
pub(crate) fn ring_add(q: &mut queues::CircularBuffer<Event>, e: Event)
    ensures
        ring_events(*final(q)) == (if ring_events(*old(q)).len() < ring_capacity(*old(q)) {
            ring_events(*old(q)).push(e)
        } else {
            ring_events(*old(q)).push(e).drop_first()
        }),
        ring_capacity(*final(q)) == ring_capacity(*old(q)),
        ring_refills(*final(q)) == ring_refills(*old(q)),
{
    let _ = q.add(e);
}

/// Relies on `IsQueue::remove` of `queues::Queue`: takes the oldest event, if any.
#[verifier::external_body]
pub(crate) fn queue_remove(q: &mut queues::Queue<Event>) -> (r: Option<Event>)
    ensures
        queue_events(*old(q)).len() > 0 ==> r == Some(queue_events(*old(q))[0]) && queue_events(
            *final(q),
        ) == queue_events(*old(q)).drop_first(),
        queue_events(*old(q)).len() == 0 ==> r is None && queue_events(*final(q)) == queue_events(
            *old(q),
        ),
{
    q.remove().ok()
}

/// Relies on `IsQueue::remove` of `queues::CircularBuffer`: takes the oldest event, if any
/// (a buffer without a default value is not refilled).
#[verifier::external_body]
pub(crate) fn ring_remove(q: &mut queues::CircularBuffer<Event>) -> (r: Option<Event>)
    ensures
        ring_events(*old(q)).len() > 0 ==> r == Some(ring_events(*old(q))[0]),
        ring_events(*old(q)).len() > 0 && !ring_refills(*old(q)) ==> ring_events(*final(q))
            == ring_events(*old(q)).drop_first(),
        ring_events(*old(q)).len() == 0 ==> r is None && ring_events(*final(q)) == ring_events(
            *old(q),
        ),
        ring_capacity(*final(q)) == ring_capacity(*old(q)),
        ring_refills(*final(q)) == ring_refills(*old(q)),
{
    q.remove().ok()
}

} // verus!
