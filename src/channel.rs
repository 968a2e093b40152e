//! A bounded single-producer single-consumer queue between a control thread
//! and the audio thread, on top of ringbuf's lock-free ring.

use ringbuf::{HeapConsumer, HeapProducer, HeapRb};
use std::sync::Arc;
use vstd::prelude::*;

verus! {

/// The writing half of a ringbuf heap ring.
#[verifier::external_body]
#[verifier::reject_recursive_types(T)]
pub struct RingProducer<T> {
    inner: HeapProducer<T>,
}

/// The reading half of a ringbuf heap ring.
#[verifier::external_body]
#[verifier::reject_recursive_types(T)]
pub struct RingConsumer<T> {
    inner: HeapConsumer<T>,
}

/// Relies on ringbuf's `HeapRb::new` and `split`: a ring of `capacity` slots
/// cut into its two halves. `new` panics on a zero capacity.
#[verifier::external_body]
fn ring<T>(capacity: usize) -> (RingProducer<T>, RingConsumer<T>)
    requires
        capacity > 0,
{
    let (inner_p, inner_c) = HeapRb::new(capacity).split();
    (RingProducer { inner: inner_p }, RingConsumer { inner: inner_c })
}

/// Relies on ringbuf's `Producer::push`: on a full ring the item comes back
/// in the error.
#[verifier::external_body]
fn ring_push<T>(p: &mut RingProducer<T>, x: T) -> (r: Result<(), T>)
    ensures
        r matches Err(y) ==> y == x,
{
    p.inner.push(x)
}

/// Relies on ringbuf's `Consumer::pop`: the oldest item, if any. What is there
/// depends on the other thread.
#[verifier::external_body]
fn ring_pop<T>(c: &mut RingConsumer<T>) -> Option<T> {
    c.inner.pop()
}

/// Relies on ringbuf's `Consumer::is_empty`, which the other thread may make
/// stale at once.
#[verifier::external_body]
fn ring_is_empty<T>(c: &RingConsumer<T>) -> bool {
    c.inner.is_empty()
}

/// Relies on std's `Arc::strong_count`: how many `Arc`s share the value at
/// this moment, which other threads may change at once.
#[verifier::external_body]
pub(crate) fn handle_count<T>(a: &Arc<T>) -> usize {
    Arc::strong_count(a)
}

/// The producing end, with the log of what it has handed over.
#[verifier::reject_recursive_types(T)]
pub struct Sender<T> {
    ring: RingProducer<T>,
    sent: Ghost<Seq<T>>,
}

/// The consuming end, with the log of what it has taken out.
#[verifier::reject_recursive_types(T)]
pub struct Receiver<T> {
    ring: RingConsumer<T>,
    received: Ghost<Seq<T>>,
    found_empty: Ghost<bool>,
}

/// The queue is full.
#[derive(Clone, Copy, Debug, PartialEq, Eq, Structural)]
pub struct BufferFull;

impl<T> Sender<T> {
    pub closed spec fn sent(&self) -> Seq<T> {
        self.sent@
    }

    /// Hands `x` to the other end, or reports a full queue and keeps nothing.
    pub fn push(&mut self, x: T) -> (r: Result<(), BufferFull>)
        ensures
            r is Ok ==> final(self).sent() == old(self).sent().push(x),
            r is Err ==> final(self).sent() == old(self).sent(),
    {
        let ghost item = x;
        match ring_push(&mut self.ring, x) {
            Ok(()) => {
                self.sent = Ghost(self.sent@.push(item));
                Ok(())
            },
            Err(_) => Err(BufferFull),
        }
    }
}

impl<T> Receiver<T> {
    pub closed spec fn received(&self) -> Seq<T> {
        self.received@
    }

    /// Whether the last `pop` found nothing waiting.
    pub closed spec fn found_empty(&self) -> bool {
        self.found_empty@
    }

    /// Takes the oldest item, if one is there.
    pub fn pop(&mut self) -> (r: Option<T>)
        ensures
            r matches Some(x) ==> final(self).received() == old(self).received().push(x),
            r is None ==> final(self).received() == old(self).received(),
            final(self).found_empty() == r is None,
    {
        let r = ring_pop(&mut self.ring);
        match r {
            Some(x) => {
                self.received = Ghost(self.received@.push(x));
                self.found_empty = Ghost(false);
                Some(x)
            },
            None => {
                self.found_empty = Ghost(true);
                None
            },
        }
    }

    /// Whether nothing was waiting when asked.
    pub fn is_empty(&self) -> bool {
        ring_is_empty(&self.ring)
    }
}

/// A queue of `capacity` slots, with nothing sent or received yet.
pub fn channel<T>(capacity: usize) -> (r: (Sender<T>, Receiver<T>))
    requires
        capacity > 0,
    ensures
        r.0.sent() == Seq::<T>::empty(),
        r.1.received() == Seq::<T>::empty(),
{
    let (p, c) = ring(capacity);
    (Sender { ring: p, sent: Ghost(Seq::empty()) }, Receiver { ring: c, received: Ghost(Seq::empty()), found_empty: Ghost(false) })
}

} // verus!
