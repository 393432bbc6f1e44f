//! The per-actor mailbox: a multi-producer, single-consumer lock-free queue.
//!
//! The queue itself comes from the `lockfree` crate; this module is the
//! trusted boundary around it.  Its contents are modelled as the sequence of
//! events it holds, oldest first; `lockfree` documents that FIFO semantics
//! are fully respected, which is what the contracts below state.  The
//! consumer side is single: an actor's own processing loop, which holds the
//! mailbox exclusively while it drains it.

use vstd::prelude::*;

use lockfree::queue::Queue;

use crate::runtime::EventInstance;

verus! {

#[verifier::external_type_specification]
#[verifier::external_body]
#[verifier::reject_recursive_types(T)]
pub struct ExQueue<T>(Queue<T>);

/// The events a mailbox holds, oldest first.
pub uninterp spec fn mailbox_events(q: Queue<EventInstance>) -> Seq<EventInstance>;

/// Relies on `lockfree::queue::Queue::new`: a freshly created queue is
/// empty.
#[verifier::external_body]
pub fn mailbox_new() -> (q: Queue<EventInstance>)
    ensures
        mailbox_events(q) == Seq::<EventInstance>::empty(),
{
    Queue::new()
}

/// Relies on `lockfree::queue::Queue::push`: the value is appended at the
/// back of the queue, which fully respects FIFO order.
#[verifier::external_body]
pub fn mailbox_push(q: &mut Queue<EventInstance>, event: EventInstance)
    ensures
        mailbox_events(*final(q)) == mailbox_events(*old(q)).push(event),
{
    q.push(event);
}

/// Relies on `lockfree::queue::Queue::pop`: the oldest value is taken from
/// the front of the queue, and an empty queue yields `None`.
#[verifier::external_body]
pub fn mailbox_pop(q: &mut Queue<EventInstance>) -> (r: Option<EventInstance>)
    ensures
        match r {
            Some(e) => mailbox_events(*old(q)).len() > 0
                && e == mailbox_events(*old(q)).first()
                && mailbox_events(*final(q)) == mailbox_events(*old(q)).drop_first(),
            None => mailbox_events(*old(q)).len() == 0
                && mailbox_events(*final(q)) == mailbox_events(*old(q)),
        },
{
    q.pop()
}

} // verus!
