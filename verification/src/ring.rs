//! Trusted boundary around the `ringbuf` crate.
//!
//! A [`RingQueue`] owns both ends of one split `ringbuf::RingBuffer`: the producer
//! and the consumer alias the same fixed-capacity buffer, so they are held together
//! in a single opaque value. Its contents and its construction-time capacity are
//! named by the two uninterpreted functions below, and the wrappers state, against
//! the crate's source, how each call moves samples through the queue: used
//! single-threaded, the buffer is an exact bounded FIFO.

use vstd::prelude::*;

verus! {

/// Both halves of one split `ringbuf::RingBuffer<i64>`.
#[verifier::external_body]
pub struct RingQueue {
    tx: ringbuf::Producer<i64>,
    rx: ringbuf::Consumer<i64>,
}

/// The samples currently queued, oldest first.
pub uninterp spec fn ring_items(q: RingQueue) -> Seq<i64>;

/// The fixed capacity the queue was created with.
pub uninterp spec fn ring_cap(q: RingQueue) -> nat;

/// Relies on `ringbuf::RingBuffer::new` and `split`: a buffer of the given
/// capacity is created empty, and `split` hands out its two ends.
#[verifier::external_body]
pub(crate) fn ring_new(capacity: usize) -> (q: RingQueue)
    ensures
        ring_items(q) == Seq::<i64>::empty(),
        ring_cap(q) == capacity as nat,
{
    let (tx, rx) = ringbuf::RingBuffer::new(capacity).split();
    RingQueue { tx, rx }
}

/// Relies on `ringbuf::Producer::push`: appends the element at the newest end
/// and returns `Ok` whenever the buffer is not full.
#[verifier::external_body]
pub(crate) fn ring_push(q: &mut RingQueue, x: i64)
    requires
        ring_items(*old(q)).len() < ring_cap(*old(q)),
    ensures
        ring_items(*final(q)) == ring_items(*old(q)).push(x),
        ring_cap(*final(q)) == ring_cap(*old(q)),
{
    q.tx.push(x).unwrap();
}

/// Relies on `ringbuf::Consumer::pop`: removes and returns the oldest element
/// whenever the buffer is not empty.
#[verifier::external_body]
pub(crate) fn ring_pop(q: &mut RingQueue) -> (r: i64)
    requires
        ring_items(*old(q)).len() > 0,
    ensures
        r == ring_items(*old(q))[0],
        ring_items(*final(q)) == ring_items(*old(q)).drop_first(),
        ring_cap(*final(q)) == ring_cap(*old(q)),
{
    q.rx.pop().unwrap()
}

/// Relies on `ringbuf::Producer::is_full`: true exactly when the number of
/// queued elements equals the capacity.
#[verifier::external_body]
pub(crate) fn ring_is_full(q: &RingQueue) -> (r: bool)
    ensures
        r == (ring_items(*q).len() == ring_cap(*q)),
{
    q.tx.is_full()
}

} // verus!
