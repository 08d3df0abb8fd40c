//! The queue that a single lock guards.
//!
//! This is the state that lives behind the lock: a buffer in arrival order.
//! Whoever holds the lock calls `enqueue` or `dequeue`; a consumer that gets
//! `None` has to wait for a producer and ask again.

use crate::queue::Queue;
use std::collections::VecDeque;
use vstd::prelude::*;

verus! {

/// A FIFO buffer whose every operation is meant to run under one lock.
pub struct BlockingQueue<T> {
    queue: VecDeque<T>,
}

impl<T> BlockingQueue<T> {
    /// An empty queue.
    pub fn new() -> (q: Self)
        ensures
            q.wf(),
            q.contents() == Seq::<T>::empty(),
    {
        Self { queue: VecDeque::new() }
    }

    /// The number of items waiting in the queue.
    pub fn len(&self) -> (n: usize)
        ensures
            n == self.contents().len(),
    {
        self.queue.len()
    }

    /// Whether a consumer that asks now has to wait.
    pub fn must_wait(&self) -> (wait: bool)
        ensures
            wait == (self.contents().len() == 0),
    {
        self.queue.len() == 0
    }
}

impl<T> Queue<T> for BlockingQueue<T> {
    closed spec fn contents(&self) -> Seq<T> {
        self.queue@
    }

    closed spec fn wf(&self) -> bool {
        true
    }

    fn enqueue(&mut self, item: T) {
        self.queue.push_back(item);
    }

    fn dequeue(&mut self) -> (item: Option<T>) {
        let front = self.queue.pop_front();
        proof {
            if old(self).queue@.len() > 0 {
                assert(self.queue@ =~= old(self).queue@.drop_first());
            }
        }
        front
    }
}

} // verus!
