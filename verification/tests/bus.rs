use devix_core::bus::{OverflowLog, Subscriptions, OVERFLOW_RING_CAPACITY};

#[test]
fn overflow_ring_keeps_the_most_recent_kinds() {
    let mut log: OverflowLog<u32> = OverflowLog::new();
    for k in 0..24u32 {
        log.record(k);
    }
    let (count, recent) = log.snapshot();
    assert_eq!(count, 24);
    assert_eq!(recent.len(), OVERFLOW_RING_CAPACITY);
    assert_eq!(recent, (8..24u32).collect::<Vec<u32>>());
}

#[test]
fn overflow_ring_remembers_mixed_kinds_in_order() {
    let mut log: OverflowLog<char> = OverflowLog::new();
    log.record('b');
    log.record('c');
    log.record('r');
    assert_eq!(log.snapshot(), (3, vec!['b', 'c', 'r']));
}

#[test]
fn subscription_ids_count_up_and_unsubscribe_is_idempotent() {
    let mut subs: Subscriptions<&str> = Subscriptions::new();
    let a = subs.subscribe("buffer");
    let b = subs.subscribe("cursor");
    let c = subs.subscribe("any");
    assert_eq!((a, b, c), (1, 2, 3));
    subs.unsubscribe(b);
    assert_eq!(subs.len(), 2);
    subs.unsubscribe(b);
    assert_eq!(subs.len(), 2);
    subs.unsubscribe(42);
    assert_eq!(subs.len(), 2);
    // Ids are never reused.
    assert_eq!(subs.subscribe("again"), 4);
}
