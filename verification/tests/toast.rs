//! Notifications that go away by themselves.

use camembert::toast::{ToastQueue, SECOND, TTL};

#[test]
fn a_toast_is_active_until_its_ttl_elapses() {
    let mut queue = ToastQueue::new();
    let t0: u64 = 1_000;
    queue.push_at(t0, "dump written: /tmp/x.cmbt");

    assert_eq!(queue.active_at(t0).len(), 1, "just pushed: active");
    assert_eq!(
        queue.active_at(t0 + 3 * SECOND).len(),
        1,
        "still within the TTL"
    );
    assert!(
        queue
            .active_at(t0 + TTL + SECOND / 1000)
            .is_empty(),
        "past the TTL: expired"
    );
}

#[test]
fn expired_toasts_are_pruned_and_do_not_resurrect() {
    let mut queue = ToastQueue::new();
    let t0: u64 = 1_000;
    queue.push_at(t0, "scan finished in 1.2s");
    assert!(queue.active_at(t0 + 10 * SECOND).is_empty());
    assert!(queue.active_at(t0).is_empty(), "pruned, not just filtered");
}

#[test]
fn several_toasts_stack_oldest_first_and_expire_independently() {
    let mut queue = ToastQueue::new();
    let t0: u64 = 1_000;
    queue.push_at(t0, "first");
    queue.push_at(t0 + 2 * SECOND, "second");

    let messages: Vec<&str> = queue
        .active_at(t0 + 3 * SECOND)
        .iter()
        .map(|toast| toast.message.as_str())
        .collect();
    assert_eq!(messages, ["first", "second"], "oldest first, both alive");

    let messages: Vec<&str> = queue
        .active_at(t0 + 5 * SECOND)
        .iter()
        .map(|toast| toast.message.as_str())
        .collect();
    assert_eq!(messages, ["second"], "first expired independently");
}

#[test]
fn is_empty_reflects_unpruned_state() {
    let mut queue = ToastQueue::new();
    assert!(queue.is_empty());
    queue.push_at(0, "x");
    assert!(!queue.is_empty());
}

#[test]
fn an_earlier_question_brings_nothing_back() {
    let mut queue = ToastQueue::new();
    queue.push_at(0, "first");
    queue.push_at(SECOND, "second");
    assert_eq!(queue.active_at(TTL).len(), 1);
    let messages: Vec<&str> = queue
        .active_at(0)
        .iter()
        .map(|toast| toast.message.as_str())
        .collect();
    assert_eq!(messages, ["second"]);
    assert!(queue.active_at(SECOND + TTL).is_empty(), "gone at four seconds");
}
