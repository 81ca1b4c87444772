//! The blocking queue primitive.
//!
//! A thread-safe first-in-first-out queue whose `pop` blocks the calling
//! thread until an item is available.  It is the concurrency primitive under
//! the in-process transport: one queue per (sender, receiver) pair, shared
//! between the two threads.
//!
//! The queue's behaviour cannot be captured in contracts here: what `pop`
//! returns depends on what other threads have pushed, so the engine is
//! verified to validate everything it receives instead of trusting it.

use std::collections::VecDeque;
use std::sync::{Condvar, Mutex};

use vstd::prelude::*;

verus! {

/// A shared, blocking first-in-first-out queue.  Cloning yields another
/// handle to the same underlying queue.
///
/// Relies on `std::sync::Mutex` and `std::sync::Condvar` for mutual
/// exclusion and wakeup, which hold the queue's items outside Verus's view.
#[verifier::external_body]
#[verifier::reject_recursive_types(T)]
pub struct BlockingQueue<T> {
    inner: std::sync::Arc<(Mutex<VecDeque<T>>, Condvar)>,
}

impl<T> BlockingQueue<T> {
    /// Builds a new, empty queue.
    ///
    /// Relies on `std::sync::Mutex::new` and `std::sync::Condvar::new`.
    #[verifier::external_body]
    pub fn new() -> (r: Self) {
        BlockingQueue { inner: std::sync::Arc::new((Mutex::new(VecDeque::new()), Condvar::new())) }
    }

    /// Another handle to the same queue.
    ///
    /// Relies on `std::sync::Arc::clone`: both handles reach one queue.
    #[verifier::external_body]
    pub fn handle(&self) -> (r: Self) {
        BlockingQueue { inner: std::sync::Arc::clone(&self.inner) }
    }

    /// Appends an item at the tail of the queue and wakes one waiting `pop`.
    ///
    /// Relies on `std::sync::Mutex::lock`, `VecDeque::push_back` and
    /// `std::sync::Condvar::notify_one`.
    #[verifier::external_body]
    pub fn push(&self, item: T) {
        let mut queue = self.inner.0.lock().unwrap();
        queue.push_back(item);
        self.inner.1.notify_one();
    }

    /// Removes and returns the item at the head of the queue, blocking until
    /// one is available.  Items leave in push order.
    ///
    /// Relies on `std::sync::Mutex::lock`, `std::sync::Condvar::wait` and
    /// `VecDeque::pop_front`.
    #[verifier::external_body]
    pub fn pop(&self) -> (r: T) {
        let mut queue = self.inner.0.lock().unwrap();
        while queue.is_empty() {
            queue = self.inner.1.wait(queue).unwrap();
        }
        queue.pop_front().unwrap()
    }
}

} // verus!
