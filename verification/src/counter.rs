use std::sync::atomic::AtomicUsize;
use std::sync::Arc;
use vstd::prelude::*;

verus! {

/// A count, shared between a producer and its consumers, of deliveries that
/// have been announced but not yet processed.
pub struct BroadcastCounter {
    counter: Arc<AtomicUsize>,
}

impl BroadcastCounter {
    /// Creates a new `BroadcastCounter` with an initial value of 0.
    pub fn new() -> (counter: Self) {
        BroadcastCounter { counter: Arc::new(AtomicUsize::new(0)) }
    }

    /// Increments the counter by `val` (wrapping around on overflow).
    /// The producer uses it to announce how many consumers are expected to
    /// process a broadcast message.
    pub fn increment_by(&self, val: usize) {
        let _previous: usize = self.counter.fetch_add(val, std::sync::atomic::Ordering::SeqCst);
    }

    /// Decrements the counter by 1 (wrapping around below 0).
    /// Each consumer calls it after processing a message.
    pub fn decrement(&self) {
        let _previous: usize = self.counter.fetch_sub(1, std::sync::atomic::Ordering::SeqCst);
    }

    /// Checks whether the counter reads zero, that is whether all announced
    /// deliveries have been processed.
    pub fn is_empty(&self) -> (empty: bool) {
        let observed: usize = self.counter.load(std::sync::atomic::Ordering::SeqCst);
        observed == 0
    }
}

} // verus!
