use egui_tracing::{ClosedSpan, CollectedTracings, EnterSpan, TransportQueue};

fn close(id: u64) -> CollectedTracings {
    CollectedTracings::ClosedSpan(ClosedSpan::new(id))
}

fn ids(batch: &[CollectedTracings]) -> Vec<u64> {
    batch
        .iter()
        .map(|n| match n {
            CollectedTracings::ClosedSpan(c) => c.id,
            CollectedTracings::EnterSpan(e) => e.id,
            _ => panic!("unexpected notification"),
        })
        .collect()
}

#[test]
fn pushes_within_capacity_drain_once_in_order() {
    let mut q = TransportQueue::new(4);
    for id in 1..=4 {
        assert!(q.push(close(id)).is_none());
    }
    assert_eq!(q.len(), 4);
    let batch = q.drain();
    assert_eq!(ids(&batch), vec![1, 2, 3, 4]);
    assert_eq!(q.len(), 0);
    assert!(q.drain().is_empty());
}

#[test]
fn overflow_keeps_last_capacity_items() {
    let mut q = TransportQueue::new(3);
    let mut displaced = Vec::new();
    for id in 1..=5 {
        if let Some(old) = q.push(close(id)) {
            displaced.push(old);
        }
    }
    assert_eq!(ids(&displaced), vec![1, 2]);
    assert_eq!(q.capacity(), 3);
    assert_eq!(ids(&q.drain()), vec![3, 4, 5]);
}

#[test]
fn queue_keeps_kinds_and_order() {
    let mut q = TransportQueue::new(2);
    q.push(CollectedTracings::EnterSpan(EnterSpan::new(9, 100)));
    q.push(close(9));
    let batch = q.drain();
    assert!(matches!(batch[0], CollectedTracings::EnterSpan(EnterSpan { id: 9, time: 100 })));
    assert!(matches!(batch[1], CollectedTracings::ClosedSpan(ClosedSpan { id: 9 })));
}

#[test]
fn empty_queue_drains_nothing() {
    let mut q = TransportQueue::new(1);
    assert!(q.drain().is_empty());
    assert_eq!(q.capacity(), 1);
}
