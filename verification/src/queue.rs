use vstd::prelude::*;

verus! {

/// Reported to the producer when a push would exceed the queue's capacity.
#[derive(Clone, Copy, Debug, PartialEq, Eq, Structural)]
pub struct QueueFull;

/// The samples currently queued, oldest first.
pub uninterp spec fn queue_contents(q: SampleQueue) -> Seq<i64>;

/// The fixed capacity the queue was created with.
pub uninterp spec fn queue_capacity(q: SampleQueue) -> nat;

/// The Bounded Queue: a fixed-capacity FIFO of samples between one producer
/// and one consumer. It wraps ringbuf's lock-free ring buffer; the producer
/// and consumer handles are held together, so the queue is driven from one
/// thread and its contents can be tracked exactly.
#[verifier::external_body]
pub struct SampleQueue {
    producer: ringbuf::Producer<i64>,
    consumer: ringbuf::Consumer<i64>,
}

impl SampleQueue {
    /// Relies on ringbuf::RingBuffer::new and RingBuffer::split: a fresh
    /// queue is empty and rejects pushes beyond `capacity` samples.
    #[verifier::external_body]
    pub fn with_capacity(capacity: usize) -> (q: SampleQueue)
        requires
            1 <= capacity <= 1048576,
        ensures
            queue_contents(q) == Seq::<i64>::empty(),
            queue_capacity(q) == capacity,
    {
        let (producer, consumer) = ringbuf::RingBuffer::<i64>::new(capacity).split();
        SampleQueue { producer, consumer }
    }

    /// Relies on ringbuf::Producer::push: the sample is appended when the
    /// queue is below capacity; a push at capacity fails and changes nothing.
    #[verifier::external_body]
    pub fn push(&mut self, s: i64) -> (r: Result<(), QueueFull>)
        ensures
            queue_capacity(*final(self)) == queue_capacity(*old(self)),
            queue_contents(*old(self)).len() < queue_capacity(*old(self)) ==> {
                &&& r is Ok
                &&& queue_contents(*final(self)) == queue_contents(*old(self)).push(s)
            },
            queue_contents(*old(self)).len() >= queue_capacity(*old(self)) ==> {
                &&& r is Err
                &&& queue_contents(*final(self)) == queue_contents(*old(self))
            },
    {
        match self.producer.push(s) {
            Ok(()) => Ok(()),
            Err(_) => Err(QueueFull),
        }
    }

    /// Relies on ringbuf::Consumer::pop: removes and returns the oldest
    /// sample, or returns nothing when the queue is empty.
    #[verifier::external_body]
    pub fn pop(&mut self) -> (r: Option<i64>)
        ensures
            queue_capacity(*final(self)) == queue_capacity(*old(self)),
            queue_contents(*old(self)).len() > 0 ==> {
                &&& r == Some(queue_contents(*old(self))[0])
                &&& queue_contents(*final(self)) == queue_contents(*old(self)).drop_first()
            },
            queue_contents(*old(self)).len() == 0 ==> {
                &&& r is None
                &&& queue_contents(*final(self)) == queue_contents(*old(self))
            },
    {
        self.consumer.pop()
    }

    /// Relies on ringbuf::Consumer::len: how many samples are queued.
    #[verifier::external_body]
    pub fn len(&self) -> (n: usize)
        ensures
            n == queue_contents(*self).len(),
    {
        self.consumer.len()
    }

    /// Relies on ringbuf::Consumer::capacity.
    #[verifier::external_body]
    pub fn capacity(&self) -> (n: usize)
        ensures
            n == queue_capacity(*self),
    {
        self.consumer.capacity()
    }
}

} // verus!
