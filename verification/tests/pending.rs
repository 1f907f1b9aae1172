use drummr::scheduler::{PendingQueue, PENDING_TRIGGER_CAPACITY};

type Payload = (f32, f32);

#[test]
fn test_pending_queue_starts_empty_and_counter_zero() {
    let engine: PendingQueue<Payload> = PendingQueue::new();
    assert_eq!(engine.len(), 0);
    assert_eq!(engine.samples_processed(), 0);
}

#[test]
fn test_pending_trigger_fires_at_correct_sample() {
    let mut engine: PendingQueue<Payload> = PendingQueue::new();
    let queued = engine.queue_pending(0, (1.0, 120.0), 100);
    assert!(queued, "expected queue to accept entry");
    assert_eq!(engine.len(), 1);

    let mut fired_total = 0;
    for _ in 0..100 {
        fired_total += engine.advance().len();
    }
    assert_eq!(fired_total, 0);
    assert_eq!(engine.len(), 1, "should not have fired yet at 100 samples");

    let fired = engine.advance();
    assert_eq!(engine.len(), 0, "trigger should have fired");
    assert_eq!(fired.len(), 1);
    assert_eq!(fired[0].slot, 0);
    assert_eq!(fired[0].payload, (1.0, 120.0));
}

#[test]
fn test_pending_queue_capacity_cap() {
    let mut engine: PendingQueue<Payload> = PendingQueue::new();
    for _ in 0..PENDING_TRIGGER_CAPACITY {
        assert!(engine.queue_pending(0, (1.0, 120.0), 1000));
    }
    assert!(!engine.queue_pending(0, (1.0, 120.0), 1000));
    assert_eq!(engine.len(), PENDING_TRIGGER_CAPACITY);
}

#[test]
fn test_pending_does_not_fire_when_slot_empty() {
    let mut engine: PendingQueue<Payload> = PendingQueue::new();
    engine.queue_pending(0, (1.0, 120.0), 5);
    for _ in 0..10 {
        engine.advance();
    }
    assert_eq!(engine.len(), 0);
}

#[test]
fn overflow_counter_counts_dropped_requests() {
    let mut q: PendingQueue<u8> = PendingQueue::new();
    for _ in 0..PENDING_TRIGGER_CAPACITY {
        q.queue_pending(1, 0, 0);
    }
    assert_eq!(q.pending_overflows(), 0);
    assert!(!q.queue_pending(1, 0, 0));
    assert!(!q.queue_pending(1, 0, 0));
    assert_eq!(q.pending_overflows(), 2);
}

#[test]
fn zero_offset_fires_on_next_tick() {
    let mut q: PendingQueue<u8> = PendingQueue::new();
    q.queue_pending(3, 7, 0);
    let fired = q.advance();
    assert_eq!(fired.len(), 1);
    assert_eq!(fired[0].slot, 3);
    assert_eq!(fired[0].fire_at_sample, 0);
    assert_eq!(q.samples_processed(), 1);
}

#[test]
fn drain_takes_due_entries_by_swapping_in_the_last() {
    // Entries due now at positions 0 and 2; the drain takes position 0, moves
    // the last entry into its place, and re-examines it.
    let mut q: PendingQueue<u8> = PendingQueue::new();
    q.queue_pending(0, 10, 0);
    q.queue_pending(1, 11, 5);
    q.queue_pending(2, 12, 0);
    q.queue_pending(3, 13, 0);
    let fired = q.drain_pending();
    let fired_payloads: Vec<u8> = fired.iter().map(|e| e.payload).collect();
    assert_eq!(fired_payloads, vec![10, 13, 12]);
    assert_eq!(q.len(), 1);
    let later: Vec<u8> = (0..6).flat_map(|_| q.advance()).map(|e| e.payload).collect();
    assert_eq!(later, vec![11]);
}

#[test]
fn fire_time_wraps_at_u64_max() {
    let mut q: PendingQueue<u8> = PendingQueue::new();
    q.queue_pending(0, 1, u64::MAX);
    // fire_at = 0 + u64::MAX: not due until the clock reaches it.
    assert_eq!(q.advance().len(), 0);
    assert_eq!(q.len(), 1);
}
