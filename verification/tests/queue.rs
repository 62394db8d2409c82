use echo_operator::action::Action;
use echo_operator::queue::WorkQueue;
use echo_operator::resource::{Echo, ResourceKey};
use echo_operator::store::Store;

fn key(name: &str) -> ResourceKey {
    ResourceKey { namespace: "default".to_string(), name: name.to_string() }
}

#[test]
fn many_requests_for_one_key_give_one_flight() {
    let mut q = WorkQueue::new(8);
    for at in 0..50u64 {
        q.enqueue(key("a"), at);
    }
    assert_eq!(q.waiting(), 1);
    let mut active = 0usize;
    let mut most = 0usize;
    assert_eq!(q.dequeue(100), Some(key("a")));
    active += 1;
    most = most.max(active);
    for at in 0..50u64 {
        q.enqueue(key("a"), at);
        if q.dequeue(100).is_some() {
            active += 1;
        }
        most = most.max(active);
    }
    assert_eq!(most, 1);
    assert_eq!(q.in_flight(), 1);
    assert_eq!(q.waiting(), 0);
    assert!(q.is_running(&key("a")));
    assert!(!q.is_waiting(&key("a")));
}

#[test]
fn key_in_flight_is_not_handed_out_again_until_completed() {
    let mut q = WorkQueue::new(4);
    q.enqueue(key("a"), 0);
    assert_eq!(q.dequeue(0), Some(key("a")));
    q.enqueue(key("a"), 0);
    assert_eq!(q.dequeue(0), None);
    assert_eq!(q.dequeue(1_000), None);
    assert!(q.complete(&key("a"), Action::NoRequeue, 5));
    assert_eq!(q.dequeue(5), Some(key("a")));
    assert_eq!(q.in_flight(), 1);
}

#[test]
fn dirty_key_goes_to_the_front_whatever_the_action() {
    let mut q = WorkQueue::new(1);
    q.enqueue(key("a"), 0);
    q.enqueue(key("b"), 0);
    assert_eq!(q.dequeue(0), Some(key("a")));
    q.enqueue(key("a"), 0);
    assert!(q.complete(&key("a"), Action::RequeueAfter { secs: 300 }, 7));
    assert_eq!(q.next_wakeup(), Some(0));
    assert_eq!(q.dequeue(7), Some(key("a")));
    assert!(q.complete(&key("a"), Action::NoRequeue, 8));
    assert_eq!(q.dequeue(8), Some(key("b")));
}

#[test]
fn dirty_key_after_await_change_is_still_requeued() {
    let mut q = WorkQueue::new(1);
    q.enqueue(key("a"), 0);
    assert_eq!(q.dequeue(0), Some(key("a")));
    q.enqueue(key("a"), 0);
    assert!(q.complete(&key("a"), Action::AwaitExternalChange, 3));
    assert_eq!(q.next_wakeup(), Some(3));
    assert_eq!(q.dequeue(3), Some(key("a")));
}

#[test]
fn requeue_after_waits_for_the_delay() {
    let mut q = WorkQueue::new(1);
    q.enqueue(key("a"), 10);
    assert_eq!(q.dequeue(9), None);
    assert_eq!(q.dequeue(10), Some(key("a")));
    assert!(q.complete(&key("a"), Action::RequeueAfter { secs: 300 }, 12));
    assert_eq!(q.next_wakeup(), Some(312));
    assert_eq!(q.dequeue(311), None);
    assert_eq!(q.dequeue(312), Some(key("a")));
}

#[test]
fn no_requeue_and_await_change_set_no_timer() {
    let mut q = WorkQueue::new(2);
    q.enqueue(key("a"), 0);
    q.enqueue(key("b"), 0);
    assert_eq!(q.dequeue(0), Some(key("a")));
    assert_eq!(q.dequeue(0), Some(key("b")));
    assert!(q.complete(&key("a"), Action::NoRequeue, 1));
    assert!(q.complete(&key("b"), Action::AwaitExternalChange, 1));
    assert_eq!(q.waiting(), 0);
    assert_eq!(q.in_flight(), 0);
    assert_eq!(q.next_wakeup(), None);
    assert_eq!(q.dequeue(u64::MAX), None);
}

#[test]
fn requests_for_a_waiting_key_collapse_to_the_latest() {
    let mut q = WorkQueue::new(1);
    q.enqueue(key("a"), 500);
    q.enqueue(key("b"), 600);
    q.enqueue(key("a"), 20);
    assert_eq!(q.waiting(), 2);
    assert_eq!(q.next_wakeup(), Some(20));
    q.enqueue(key("a"), 900);
    assert_eq!(q.waiting(), 2);
    assert_eq!(q.next_wakeup(), Some(600));
    assert_eq!(q.dequeue(700), Some(key("b")));
}

#[test]
fn watch_event_pulls_a_timer_forward() {
    let mut q = WorkQueue::new(1);
    q.enqueue(key("a"), 0);
    assert_eq!(q.dequeue(0), Some(key("a")));
    assert!(q.complete(&key("a"), Action::RequeueAfter { secs: 300 }, 0));
    assert_eq!(q.dequeue(10), None);
    q.enqueue(key("a"), 10);
    assert_eq!(q.dequeue(10), Some(key("a")));
}

#[test]
fn first_ready_entry_in_queue_order_is_taken() {
    let mut q = WorkQueue::new(3);
    q.enqueue(key("late"), 50);
    q.enqueue(key("b"), 5);
    q.enqueue(key("c"), 1);
    assert_eq!(q.dequeue(10), Some(key("b")));
    assert_eq!(q.dequeue(10), Some(key("c")));
    assert_eq!(q.dequeue(10), None);
    assert_eq!(q.dequeue(50), Some(key("late")));
}

#[test]
fn pool_size_bounds_the_flights() {
    let mut q = WorkQueue::new(2);
    q.enqueue(key("a"), 0);
    q.enqueue(key("b"), 0);
    q.enqueue(key("c"), 0);
    assert_eq!(q.dequeue(0), Some(key("a")));
    assert_eq!(q.dequeue(0), Some(key("b")));
    assert_eq!(q.dequeue(0), None);
    assert_eq!(q.in_flight(), 2);
    assert!(q.complete(&key("a"), Action::NoRequeue, 0));
    assert_eq!(q.dequeue(0), Some(key("c")));
}

#[test]
fn pool_of_no_workers_hands_out_nothing() {
    let mut q = WorkQueue::new(0);
    q.enqueue(key("a"), 0);
    assert_eq!(q.dequeue(0), None);
    assert_eq!(q.waiting(), 1);
}

#[test]
fn completing_a_key_that_is_not_in_flight_changes_nothing() {
    let mut q = WorkQueue::new(1);
    q.enqueue(key("a"), 0);
    assert!(!q.complete(&key("a"), Action::RequeueAfter { secs: 1 }, 0));
    assert!(!q.complete(&key("zz"), Action::RequeueAfter { secs: 1 }, 0));
    assert_eq!(q.waiting(), 1);
    assert_eq!(q.in_flight(), 0);
    assert_eq!(q.next_wakeup(), Some(0));
}

#[test]
fn cancel_drops_a_waiting_entry() {
    let mut q = WorkQueue::new(1);
    q.enqueue(key("a"), 0);
    q.enqueue(key("b"), 0);
    q.cancel(&key("a"));
    assert!(!q.is_waiting(&key("a")));
    assert_eq!(q.dequeue(0), Some(key("b")));
    q.cancel(&key("nobody"));
    assert_eq!(q.in_flight(), 1);
}

#[test]
fn cancel_clears_the_dirty_mark_of_a_flight() {
    let mut q = WorkQueue::new(1);
    q.enqueue(key("a"), 0);
    assert_eq!(q.dequeue(0), Some(key("a")));
    q.enqueue(key("a"), 0);
    q.cancel(&key("a"));
    assert!(q.is_running(&key("a")));
    assert!(q.complete(&key("a"), Action::AwaitExternalChange, 1));
    assert_eq!(q.waiting(), 0);
    assert_eq!(q.dequeue(100), None);
}

#[test]
fn requeue_time_saturates() {
    let mut q = WorkQueue::new(1);
    q.enqueue(key("a"), 0);
    assert_eq!(q.dequeue(u64::MAX - 1), Some(key("a")));
    assert!(q.complete(&key("a"), Action::RequeueAfter { secs: 10 }, u64::MAX - 1));
    assert_eq!(q.next_wakeup(), Some(u64::MAX));
    assert_eq!(q.dequeue(u64::MAX - 1), None);
    assert_eq!(q.dequeue(u64::MAX), Some(key("a")));
}

#[test]
fn keys_differ_by_namespace() {
    let mut q = WorkQueue::new(2);
    let other = ResourceKey { namespace: "prod".to_string(), name: "a".to_string() };
    q.enqueue(key("a"), 0);
    q.enqueue(other.clone(), 0);
    assert_eq!(q.waiting(), 2);
    assert_eq!(q.dequeue(0), Some(key("a")));
    assert_eq!(q.dequeue(0), Some(other));
}

#[test]
fn retain_withdraws_the_keys_that_are_not_tracked() {
    let mut keep = Store::new();
    keep.upsert(key("a"), Echo::default());
    keep.upsert(key("run"), Echo::default());
    let mut q = WorkQueue::new(4);
    q.enqueue(key("run"), 0);
    q.enqueue(key("lost"), 0);
    assert_eq!(q.dequeue(0), Some(key("run")));
    assert_eq!(q.dequeue(0), Some(key("lost")));
    q.enqueue(key("run"), 0);
    q.enqueue(key("lost"), 0);
    q.enqueue(key("b"), 1);
    q.enqueue(key("a"), 2);
    q.enqueue(key("c"), 3);
    q.retain(&keep);
    assert_eq!(q.waiting(), 1);
    assert!(q.is_waiting(&key("a")));
    assert_eq!(q.in_flight(), 2);
    // The tracked key keeps its dirty mark, the other one lost it.
    assert!(q.complete(&key("lost"), Action::AwaitExternalChange, 5));
    assert!(!q.is_waiting(&key("lost")));
    assert!(q.complete(&key("run"), Action::AwaitExternalChange, 5));
    assert_eq!(q.dequeue(5), Some(key("run")));
    assert_eq!(q.dequeue(5), Some(key("a")));
    assert_eq!(q.dequeue(5), None);
}
