use namecast::{ErrorQueue, AUTO_REMOVAL_TIME};

fn ids(q: &ErrorQueue) -> Vec<u64> {
    q.entries().iter().map(|e| e.id).collect()
}

#[test]
fn dismiss_keeps_order() {
    let mut q = ErrorQueue::new();
    assert_eq!(q.next_id(), Some(1));
    assert_eq!(q.publish("one".to_string(), 0), 1);
    assert_eq!(q.publish("two".to_string(), 1), 2);
    assert_eq!(q.publish("three".to_string(), 2), 3);
    q.dismiss(2);
    assert_eq!(ids(&q), vec![1, 3]);
    assert_eq!(q.entries()[1].message, "three");
    q.dismiss(2);
    q.dismiss(42);
    assert_eq!(ids(&q), vec![1, 3]);
    assert_eq!(q.publish("four".to_string(), 3), 4);
    assert_eq!(ids(&q), vec![1, 3, 4]);
}

#[test]
fn messages_expire_after_timeout() {
    let mut q = ErrorQueue::new();
    q.publish("one".to_string(), 1_000);
    q.publish("two".to_string(), 4_000);
    q.expire(1_000 + AUTO_REMOVAL_TIME - 1);
    assert_eq!(ids(&q), vec![1, 2]);
    q.expire(1_000 + AUTO_REMOVAL_TIME);
    assert_eq!(ids(&q), vec![2]);
    q.expire(4_000 + AUTO_REMOVAL_TIME);
    assert!(q.entries().is_empty());
}

#[test]
fn removal_time_is_ten_seconds() {
    assert_eq!(AUTO_REMOVAL_TIME, 10_000);
}

#[test]
fn dismissed_then_expired() {
    let mut q = ErrorQueue::new();
    q.publish("one".to_string(), 0);
    q.dismiss(1);
    q.expire(AUTO_REMOVAL_TIME);
    assert!(q.entries().is_empty());
    assert_eq!(q.next_id(), Some(2));
}
