use mt_comms::counter::BroadcastCounter;
use mt_comms::fanout::{consumer_threads, consumer_threads_for, mesh_peers};

#[test]
fn new_counter_is_empty() {
    let counter = BroadcastCounter::new();
    assert!(counter.is_empty());
}

#[test]
fn increment_then_decrement_returns_to_empty() {
    let counter = BroadcastCounter::new();
    counter.increment_by(3);
    assert!(!counter.is_empty());
    counter.decrement();
    counter.decrement();
    assert!(!counter.is_empty());
    counter.decrement();
    assert!(counter.is_empty());
}

#[test]
fn increment_by_zero_keeps_empty() {
    let counter = BroadcastCounter::new();
    counter.increment_by(0);
    assert!(counter.is_empty());
}

#[test]
fn decrement_below_zero_wraps() {
    let counter = BroadcastCounter::new();
    counter.decrement();
    assert!(!counter.is_empty());
    counter.increment_by(1);
    assert!(counter.is_empty());
}

#[test]
fn fanout_keeps_a_core_for_the_producer() {
    assert_eq!(consumer_threads_for(1, 8), 1);
    assert_eq!(consumer_threads_for(10, 8), 7);
    assert_eq!(consumer_threads_for(7, 8), 7);
    assert_eq!(consumer_threads_for(3, 1), 0);
    assert_eq!(consumer_threads_for(3, 0), 0);
    assert_eq!(consumer_threads_for(0, 16), 0);
}

#[test]
fn fanout_on_this_machine_is_bounded_by_request() {
    let threads = consumer_threads(1000);
    assert!(threads <= 1000);
    assert_eq!(consumer_threads(0), 0);
}

#[test]
fn fanout_of_many_uses_the_reported_cores() {
    // The library asks num_cpus; with many consumers asked for, the answer
    // is that count less one.
    let threads = consumer_threads(usize::MAX);
    assert_eq!(threads, num_cpus::get() - 1);
}

#[test]
fn mesh_has_one_more_peer_than_consumers() {
    assert_eq!(mesh_peers(0), 1);
    assert_eq!(mesh_peers(1), 2);
    assert_eq!(mesh_peers(41), 42);
}
