//! The contract that every queue of this crate meets, and what follows from it
//! for any run of producers and consumers.
//!
//! A queue is modelled by the sequence of its items, oldest first. Every
//! operation takes effect at one instant, so a run of any number of threads is
//! a sequence of operations in the order in which they took effect.

use vstd::prelude::*;

verus! {

/// The queue after `item` was appended.
pub open spec fn after_enqueue<T>(contents: Seq<T>, item: T) -> Seq<T> {
    contents.push(item)
}

/// What a dequeue returns on a queue with these contents.
pub open spec fn dequeued<T>(contents: Seq<T>) -> Option<T> {
    if contents.len() == 0 {
        None
    } else {
        Some(contents.first())
    }
}

/// The queue after a dequeue.
pub open spec fn after_dequeue<T>(contents: Seq<T>) -> Seq<T> {
    if contents.len() == 0 {
        contents
    } else {
        contents.drop_first()
    }
}

/// An unbounded first-in, first-out queue of items of type `T`.
pub trait Queue<T> {
    /// The items in the queue, oldest first.
    spec fn contents(&self) -> Seq<T>;

    /// The representation invariant of the queue.
    spec fn wf(&self) -> bool;

    /// Appends `item` behind every item already in the queue. Never fails.
    fn enqueue(&mut self, item: T)
        requires
            old(self).wf(),
        ensures
            final(self).wf(),
            final(self).contents() == after_enqueue(old(self).contents(), item),
    ;

    /// Removes and returns the oldest item, or returns `None`, leaving the
    /// queue as it was, when the queue holds no item.
    fn dequeue(&mut self) -> (item: Option<T>)
        requires
            old(self).wf(),
        ensures
            final(self).wf(),
            item == dequeued(old(self).contents()),
            final(self).contents() == after_dequeue(old(self).contents()),
    ;
}

/// One operation of a run, at the instant at which it takes effect.
pub enum Operation<T> {
    /// A producer appends an item.
    Enqueue(T),
    /// A consumer asks for the oldest item.
    Dequeue,
}

/// The contents of a queue that was empty before `ops` ran.
pub open spec fn run<T>(ops: Seq<Operation<T>>) -> Seq<T>
    decreases ops.len(),
{
    if ops.len() == 0 {
        Seq::empty()
    } else {
        match ops.last() {
            Operation::Enqueue(item) => after_enqueue(run(ops.drop_last()), item),
            Operation::Dequeue => after_dequeue(run(ops.drop_last())),
        }
    }
}

/// The items that the producers of `ops` handed in, in that order.
pub open spec fn accepted<T>(ops: Seq<Operation<T>>) -> Seq<T>
    decreases ops.len(),
{
    if ops.len() == 0 {
        Seq::empty()
    } else {
        match ops.last() {
            Operation::Enqueue(item) => accepted(ops.drop_last()).push(item),
            Operation::Dequeue => accepted(ops.drop_last()),
        }
    }
}

/// The items that the consumers of `ops` received, in that order. A dequeue
/// that found the queue empty received nothing.
pub open spec fn delivered<T>(ops: Seq<Operation<T>>) -> Seq<T>
    decreases ops.len(),
{
    if ops.len() == 0 {
        Seq::empty()
    } else {
        match ops.last() {
            Operation::Enqueue(_) => delivered(ops.drop_last()),
            Operation::Dequeue => match dequeued(run(ops.drop_last())) {
                Some(item) => delivered(ops.drop_last()).push(item),
                None => delivered(ops.drop_last()),
            },
        }
    }
}

/// First in, first out: at every instant of every run, what was received,
/// followed by what still waits, is what was handed in, in the same order.
pub proof fn lemma_fifo<T>(ops: Seq<Operation<T>>)
    ensures
        delivered(ops) + run(ops) == accepted(ops),
    decreases ops.len(),
{
    if ops.len() == 0 {
        assert(delivered(ops) + run(ops) =~= accepted(ops));
    } else {
        let before = ops.drop_last();
        lemma_fifo(before);
        let d = delivered(before);
        let r = run(before);
        match ops.last() {
            Operation::Enqueue(item) => {
                assert(d + r.push(item) =~= (d + r).push(item));
            },
            Operation::Dequeue => {
                if r.len() > 0 {
                    assert(d.push(r.first()) + r.drop_first() =~= d + r);
                }
            },
        }
    }
}

/// Conservation: no item is lost and none is made. Whatever the number of
/// producers and consumers, the items received and the items still waiting
/// are, counted with repetition, the items handed in; once the queue is
/// drained, the consumers hold exactly what the producers gave.
pub proof fn lemma_conservation<T>(ops: Seq<Operation<T>>)
    ensures
        delivered(ops).len() + run(ops).len() == accepted(ops).len(),
        delivered(ops).to_multiset().add(run(ops).to_multiset()) == accepted(ops).to_multiset(),
        run(ops).len() == 0 ==> delivered(ops) == accepted(ops),
{
    lemma_fifo(ops);
    vstd::seq_lib::lemma_multiset_commutative(delivered(ops), run(ops));
    if run(ops).len() == 0 {
        assert(delivered(ops) + run(ops) =~= delivered(ops));
    }
}

/// Order within one producer: among the items that `mine` picks out, say those
/// of one producer, consumers receive them in the order in which they were
/// handed in, and none is passed over.
pub proof fn lemma_producer_order<T>(ops: Seq<Operation<T>>, mine: spec_fn(T) -> bool)
    ensures
        delivered(ops).filter(mine).is_prefix_of(accepted(ops).filter(mine)),
{
    lemma_fifo(ops);
    let d = delivered(ops);
    let r = run(ops);
    Seq::filter_distributes_over_add(d, r, mine);
    assert(accepted(ops).filter(mine) =~= d.filter(mine) + r.filter(mine));
}

} // verus!
