use resampler::queue::{QueueFull, SampleQueue};
use resampler::stream::StreamingSource;

#[test]
fn queue_backpressure() {
    let mut q = SampleQueue::with_capacity(4);
    for i in 0..4i64 {
        assert!(q.push(i + 1).is_ok());
    }
    assert_eq!(q.len(), 4);
    assert_eq!(q.push(99), Err(QueueFull));
    assert_eq!(q.len(), 4);
    assert_eq!(q.pop(), Some(1));
    assert_eq!(q.pop(), Some(2));
    assert_eq!(q.pop(), Some(3));
    assert_eq!(q.pop(), Some(4));
    assert_eq!(q.pop(), None);
}

#[test]
fn queue_capacity_reported() {
    let q = SampleQueue::with_capacity(7);
    assert_eq!(q.capacity(), 7);
    assert_eq!(q.len(), 0);
}

#[test]
fn queue_fifo_round_trip() {
    let mut q = SampleQueue::with_capacity(16);
    q.push(-5).unwrap();
    q.push(0).unwrap();
    q.push(12345).unwrap();
    assert_eq!(q.pop(), Some(-5));
    q.push(7).unwrap();
    assert_eq!(q.pop(), Some(0));
    assert_eq!(q.pop(), Some(12345));
    assert_eq!(q.pop(), Some(7));
    assert_eq!(q.pop(), None);
}

#[test]
fn silence_substitution() {
    let q = SampleQueue::with_capacity(8);
    let mut src = StreamingSource::new(q);
    assert_eq!(src.next(), 0);
    assert_eq!(src.next(), 0);
    src.feed(42).unwrap();
    src.feed(-3).unwrap();
    assert_eq!(src.next(), 42);
    assert_eq!(src.next(), -3);
    assert_eq!(src.next(), 0);
}

#[test]
fn feed_reports_full() {
    let q = SampleQueue::with_capacity(2);
    let mut src = StreamingSource::new(q);
    src.feed(1).unwrap();
    src.feed(2).unwrap();
    assert_eq!(src.feed(3), Err(QueueFull));
    assert_eq!(src.next(), 1);
    assert_eq!(src.next(), 2);
    assert_eq!(src.next(), 0);
}
