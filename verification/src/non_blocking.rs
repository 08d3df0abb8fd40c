//! The queue without a lock: a singly linked chain of nodes with a `head` and
//! a `tail` reference, changed only by compare-and-swap.
//!
//! The nodes live in an arena and a reference is an index into it, so a
//! reference can never dangle and is checked whenever it is followed. The
//! queue is a state machine: every atomic access of the algorithm (a load or
//! a compare-and-swap) is one call of [`NonBlockingQueue::step_enqueue`] or
//! [`NonBlockingQueue::step_dequeue`], which takes the private state of the
//! operation that makes the access. Any number of operations may be under way
//! at once and their steps may interleave in any order: each step asks only
//! that the queue is well formed and that the operation's references fit it,
//! and both survive every step of every other operation.
//! [`Queue::enqueue`] and [`Queue::dequeue`] run one operation to its end.
//!
//! What a step does is written down once, for the memory as a value:
//! [`Memory::enqueue_step`] and [`Memory::dequeue_step`]. The steps of the
//! queue do exactly that.

use crate::queue::{after_dequeue, after_enqueue, dequeued, Queue};
use vstd::prelude::*;

verus! {

/// One node of the chain. A node without an item is a sentinel.
pub struct Node<T> {
    pub item: Option<T>,
    pub next: Option<usize>,
}

impl<T> Node<T> {
    /// A node that holds `item` and is linked to no other.
    pub fn new(item: Option<T>) -> (node: Node<T>)
        ensures
            node == (Node { item, next: None }),
    {
        Node { item, next: None }
    }
}

/// The chain of nodes with its two references.
pub struct NonBlockingQueue<T> {
    nodes: Vec<Node<T>>,
    head: usize,
    tail: usize,
}

/// What the operations share, as a value: the nodes from the oldest one
/// that is still kept to the newest, each at the index by which it is
/// referred to; the reference to the sentinel, the node in front of the
/// oldest item; and the reference to the last node, or to the one before it.
pub struct Memory<T> {
    pub chain: Seq<Node<T>>,
    pub head: usize,
    pub tail: usize,
}

/// An enqueue under way: where it stands, and what it has read so far.
pub enum EnqueueOp<T> {
    /// Holds its new node; reads `tail` next.
    ReadTail { node: Node<T> },
    /// Has read `tail`; reads the `next` of that node next.
    ReadNext { node: Node<T>, tail: usize },
    /// Found no successor; tries to link its node behind `tail` next.
    Link { node: Node<T>, tail: usize },
    /// Found the successor `next`; helps `tail` forward to it, then starts over.
    Help { node: Node<T>, tail: usize, next: usize },
    /// Has linked its node as `linked`; tries to move `tail` onto it next.
    Swing { tail: usize, linked: usize },
    /// The item is in the queue and the operation is over.
    Done,
}

/// A dequeue under way: where it stands, and what it has read so far.
pub enum DequeueOp<T> {
    /// Reads `head` next.
    ReadHead,
    /// Has read `head`; reads `tail` next.
    ReadTail { head: usize },
    /// Has read both; reads the `next` of the head node next.
    ReadNext { head: usize, tail: usize },
    /// Found `tail` still on the sentinel; helps it forward to `next`, then
    /// starts over.
    Help { tail: usize, next: usize },
    /// Tries to move `head` from `head` to `next` and, if that succeeds, takes
    /// the item of `next`.
    Advance { head: usize, next: usize },
    /// The operation is over: `item` is what it returns.
    Done { item: Option<T> },
}

impl<T> Memory<T> {
    /// What the `next` of node `i` holds in a chain of `len` nodes.
    pub open spec fn link_of(i: int, len: int) -> Option<usize> {
        if i + 1 < len {
            Some((i + 1) as usize)
        } else {
            None
        }
    }

    /// The invariant: there is always a sentinel; `tail` is reachable from
    /// `head` and lags at most one node behind the end; every node leads to
    /// the one linked behind it and the last one to none; the sentinel and
    /// the nodes before it hold no item, every node behind it holds one.
    pub open spec fn linked(self) -> bool {
        &&& self.head <= self.tail < self.chain.len() <= self.tail + 2
        &&& self.chain.len() <= usize::MAX
        &&& forall|i: int|
            0 <= i < self.chain.len() ==> (#[trigger] self.chain[i]).next == Self::link_of(
                i,
                self.chain.len() as int,
            )
        &&& forall|i: int|
            0 <= i < self.chain.len() ==> ((#[trigger] self.chain[i]).item is Some <==> self.head
                < i)
    }

    /// The items of the nodes behind the sentinel, oldest first.
    pub open spec fn items(self) -> Seq<T> {
        Seq::new(
            (self.chain.len() - 1 - self.head) as nat,
            |k: int| self.chain[self.head + 1 + k].item.unwrap(),
        )
    }

    /// Whether `later` can have come from `self` by steps of operations: the
    /// chain has not shrunk and neither reference has moved back.
    pub open spec fn grown_to(self, later: Self) -> bool {
        &&& self.chain.len() <= later.chain.len()
        &&& self.head <= later.head
        &&& self.tail <= later.tail
    }

    /// The memory after a compare-and-swap on `tail`, from `expected` to
    /// `new`.
    pub open spec fn swap_tail(self, expected: usize, new: usize) -> Self {
        if self.tail == expected {
            Memory { tail: new, ..self }
        } else {
            self
        }
    }

    /// The memory after `node` was linked behind the last node.
    pub open spec fn with_linked(self, node: Node<T>) -> Self {
        let last = self.chain.len() - 1;
        Memory {
            chain: self.chain.update(
                last,
                Node { item: self.chain[last].item, next: Some(self.chain.len() as usize) },
            ).push(node),
            ..self
        }
    }

    /// The memory after `head` was moved on by one node and the item of the
    /// new sentinel was taken.
    pub open spec fn with_head_advanced(self) -> Self {
        let next = self.head + 1;
        Memory {
            chain: self.chain.update(next, Node { item: None, next: self.chain[next].next }),
            head: next as usize,
            ..self
        }
    }

    /// The memory after the nodes in front of the sentinel were given back
    /// and the rest were renumbered from zero.
    pub open spec fn reclaimed(self) -> Self {
        let len = self.chain.len() - self.head;
        Memory {
            chain: Seq::new(
                len as nat,
                |k: int| Node { item: self.chain[self.head + k].item, next: Self::link_of(k, len) },
            ),
            head: 0,
            tail: (self.tail - self.head) as usize,
        }
    }

    /// One atomic access of the enqueue `op`: the memory and the state of
    /// the operation after it.
    ///
    /// `ReadTail` and `ReadNext` load. `Link` is the compare-and-swap on the
    /// `next` of the node that was read as `tail`, from none to the new node;
    /// it fails if that node has a successor by now. `Help` and `Swing` are
    /// compare-and-swaps on `tail`; whether they succeed makes no difference
    /// to the operation.
    pub open spec fn enqueue_step(self, op: EnqueueOp<T>) -> (Self, EnqueueOp<T>) {
        match op {
            EnqueueOp::ReadTail { node } => (self, EnqueueOp::ReadNext { node, tail: self.tail }),
            EnqueueOp::ReadNext { node, tail } => match self.chain[tail as int].next {
                None => (self, EnqueueOp::Link { node, tail }),
                Some(next) => (self, EnqueueOp::Help { node, tail, next }),
            },
            EnqueueOp::Link { node, tail } => if self.chain[tail as int].next is None {
                (
                    self.with_linked(node),
                    EnqueueOp::Swing { tail, linked: self.chain.len() as usize },
                )
            } else {
                (self, EnqueueOp::ReadTail { node })
            },
            EnqueueOp::Help { node, tail, next } => (
                self.swap_tail(tail, next),
                EnqueueOp::ReadTail { node },
            ),
            EnqueueOp::Swing { tail, linked } => (self.swap_tail(tail, linked), EnqueueOp::Done),
            EnqueueOp::Done => (self, EnqueueOp::Done),
        }
    }

    /// One atomic access of the dequeue `op`: the memory and the state of
    /// the operation after it.
    ///
    /// `ReadHead`, `ReadTail` and `ReadNext` load; a sentinel without
    /// successor ends the operation with nothing. `Help` is a
    /// compare-and-swap on `tail`. `Advance` is the compare-and-swap on
    /// `head`; the operation that succeeds takes the item of the new
    /// sentinel, the one that fails starts over.
    pub open spec fn dequeue_step(self, op: DequeueOp<T>) -> (Self, DequeueOp<T>) {
        match op {
            DequeueOp::ReadHead => (self, DequeueOp::ReadTail { head: self.head }),
            DequeueOp::ReadTail { head } => (self, DequeueOp::ReadNext { head, tail: self.tail }),
            DequeueOp::ReadNext { head, tail } => match self.chain[head as int].next {
                None => (self, DequeueOp::Done { item: None }),
                Some(next) => if head == tail {
                    (self, DequeueOp::Help { tail, next })
                } else {
                    (self, DequeueOp::Advance { head, next })
                },
            },
            DequeueOp::Help { tail, next } => (self.swap_tail(tail, next), DequeueOp::ReadHead),
            DequeueOp::Advance { head, next } => if self.head == head {
                (
                    self.with_head_advanced(),
                    DequeueOp::Done { item: self.chain[self.head + 1].item },
                )
            } else {
                (self, DequeueOp::ReadHead)
            },
            DequeueOp::Done { item } => (self, DequeueOp::Done { item }),
        }
    }
}

impl<T> EnqueueOp<T> {
    /// Whether the new node is as `Node::new` made it: an item, no successor.
    pub open spec fn holds_fresh_node(self) -> bool {
        match self {
            EnqueueOp::ReadTail { node } | EnqueueOp::ReadNext { node, .. } | EnqueueOp::Link {
                node,
                ..
            } | EnqueueOp::Help { node, .. } => node.item is Some && node.next is None,
            _ => true,
        }
    }

    /// Whether the references that the operation holds fit the memory `m`.
    pub open spec fn valid(self, m: Memory<T>) -> bool {
        &&& self.holds_fresh_node()
        &&& match self {
            EnqueueOp::ReadTail { .. } => true,
            EnqueueOp::ReadNext { tail, .. } => tail <= m.tail,
            EnqueueOp::Link { tail, .. } => tail <= m.tail,
            EnqueueOp::Help { tail, next, .. } => tail + 1 == next && next < m.chain.len(),
            EnqueueOp::Swing { tail, linked } => tail + 1 == linked && linked < m.chain.len(),
            EnqueueOp::Done => true,
        }
    }

    /// The item that the operation is still to put into the queue, if any.
    pub open spec fn pending(self) -> Option<T> {
        match self {
            EnqueueOp::ReadTail { node } | EnqueueOp::ReadNext { node, .. } | EnqueueOp::Link {
                node,
                ..
            } | EnqueueOp::Help { node, .. } => node.item,
            _ => None,
        }
    }

    /// Whether the step that the operation makes next on the memory `m` puts
    /// its item into the queue: this is the instant at which the enqueue
    /// takes effect.
    pub open spec fn takes_effect(self, m: Memory<T>) -> bool {
        match self {
            EnqueueOp::Link { tail, .. } => m.chain[tail as int].next is None,
            _ => false,
        }
    }

    /// The operation with what it has read forgotten: it starts over with
    /// the node that it holds, or is over if its item is in the queue.
    pub open spec fn restarted(self) -> Self {
        match self {
            EnqueueOp::ReadTail { node } | EnqueueOp::ReadNext { node, .. } | EnqueueOp::Link {
                node,
                ..
            } | EnqueueOp::Help { node, .. } => EnqueueOp::ReadTail { node },
            _ => EnqueueOp::Done,
        }
    }

    /// The operation as it makes its next step on the memory `m`: as it is
    /// if its references fit, started over if they do not.
    pub open spec fn fitted(self, m: Memory<T>) -> Self {
        if self.valid(m) {
            self
        } else {
            self.restarted()
        }
    }

    /// The first state of an enqueue of `item`: a new node is allocated, and
    /// nothing is read yet.
    pub fn begin(item: T) -> (op: Self)
        ensures
            op == (EnqueueOp::ReadTail { node: Node { item: Some(item), next: None } }),
            op.pending() == Some(item),
            forall|m: Memory<T>| op.valid(m),
    {
        EnqueueOp::ReadTail { node: Node::new(Some(item)) }
    }

    /// Whether the operation is over.
    pub fn is_done(&self) -> (done: bool)
        ensures
            done == (*self is Done),
    {
        match self {
            EnqueueOp::Done => true,
            _ => false,
        }
    }

    /// The operation with what it has read forgotten: it starts over with
    /// the node that it holds, or is over if its item is in the queue. This
    /// is what an operation does whose references fit no longer.
    pub fn restart(self) -> (op: Self)
        requires
            self.holds_fresh_node(),
        ensures
            op == self.restarted(),
            op.pending() == self.pending(),
            forall|m: Memory<T>| op.valid(m),
    {
        match self {
            EnqueueOp::ReadTail { node } => EnqueueOp::ReadTail { node },
            EnqueueOp::ReadNext { node, .. } => EnqueueOp::ReadTail { node },
            EnqueueOp::Link { node, .. } => EnqueueOp::ReadTail { node },
            EnqueueOp::Help { node, .. } => EnqueueOp::ReadTail { node },
            EnqueueOp::Swing { .. } => EnqueueOp::Done,
            EnqueueOp::Done => EnqueueOp::Done,
        }
    }

    /// Tests `valid` at run time.
    pub fn fits(&self, q: &NonBlockingQueue<T>) -> (ok: bool)
        ensures
            ok == self.valid(q.memory()),
    {
        match self {
            EnqueueOp::ReadTail { node } => node.item.is_some() && node.next.is_none(),
            EnqueueOp::ReadNext { node, tail } => node.item.is_some() && node.next.is_none()
                && *tail <= q.tail,
            EnqueueOp::Link { node, tail } => node.item.is_some() && node.next.is_none() && *tail
                <= q.tail,
            EnqueueOp::Help { node, tail, next } => node.item.is_some() && node.next.is_none()
                && *next < q.nodes.len() && *tail < *next && *next - *tail == 1,
            EnqueueOp::Swing { tail, linked } => *linked < q.nodes.len() && *tail < *linked
                && *linked - *tail == 1,
            EnqueueOp::Done => true,
        }
    }

    /// Whether the operation is the only one under way: what it has read is
    /// what the memory still holds.
    pub open spec fn alone_on(self, m: Memory<T>) -> bool {
        match self {
            EnqueueOp::ReadTail { .. } => true,
            EnqueueOp::ReadNext { tail, .. } => tail == m.tail,
            EnqueueOp::Link { tail, .. } => tail == m.tail && tail + 1 == m.chain.len(),
            EnqueueOp::Help { tail, .. } => tail == m.tail,
            EnqueueOp::Swing { tail, .. } => tail == m.tail,
            EnqueueOp::Done => true,
        }
    }

    /// How many steps an operation that runs alone has before it.
    pub open spec fn steps_left(self, m: Memory<T>) -> nat {
        let lag: nat = if m.tail + 1 < m.chain.len() {
            3
        } else {
            0
        };
        match self {
            EnqueueOp::ReadTail { .. } => 4 + lag,
            EnqueueOp::ReadNext { .. } => 3 + lag,
            EnqueueOp::Help { .. } => 5,
            EnqueueOp::Link { .. } => 2,
            EnqueueOp::Swing { .. } => 1,
            EnqueueOp::Done => 0,
        }
    }
}

impl<T> DequeueOp<T> {
    /// Whether the references that the operation holds fit the memory `m`.
    pub open spec fn valid(self, m: Memory<T>) -> bool {
        match self {
            DequeueOp::ReadHead => true,
            DequeueOp::ReadTail { head } => head <= m.head,
            DequeueOp::ReadNext { head, tail } => head <= m.head && head <= tail <= m.tail,
            DequeueOp::Help { tail, next } => tail + 1 == next && next < m.chain.len(),
            DequeueOp::Advance { head, next } => head + 1 == next && head < m.tail,
            DequeueOp::Done { .. } => true,
        }
    }

    /// Whether the step that the operation makes next on the memory `m`
    /// takes an item out of the queue: this is the instant at which a
    /// dequeue that returns an item takes effect.
    pub open spec fn takes_effect(self, m: Memory<T>) -> bool {
        match self {
            DequeueOp::Advance { head, .. } => m.head == head,
            _ => false,
        }
    }

    /// The operation with what it has read forgotten: it starts over, unless
    /// it is over.
    pub open spec fn restarted(self) -> Self {
        match self {
            DequeueOp::Done { item } => DequeueOp::Done { item },
            _ => DequeueOp::ReadHead,
        }
    }

    /// The operation as it makes its next step on the memory `m`: as it is
    /// if its references fit, started over if they do not.
    pub open spec fn fitted(self, m: Memory<T>) -> Self {
        if self.valid(m) {
            self
        } else {
            self.restarted()
        }
    }

    /// The first state of a dequeue: nothing is read yet.
    pub fn begin() -> (op: Self)
        ensures
            op == DequeueOp::<T>::ReadHead,
            forall|m: Memory<T>| op.valid(m),
    {
        DequeueOp::ReadHead
    }

    /// Whether the operation is over.
    pub fn is_done(&self) -> (done: bool)
        ensures
            done == (*self is Done),
    {
        match self {
            DequeueOp::Done { .. } => true,
            _ => false,
        }
    }

    /// What a finished operation returns; `None` too while it is under way.
    pub fn into_item(self) -> (item: Option<T>)
        ensures
            item == (match self {
                DequeueOp::Done { item } => item,
                _ => None,
            }),
    {
        match self {
            DequeueOp::Done { item } => item,
            _ => None,
        }
    }

    /// The operation with what it has read forgotten: it starts over, unless
    /// it is over. This is what an operation does whose references fit no
    /// longer.
    pub fn restart(self) -> (op: Self)
        ensures
            op == self.restarted(),
            forall|m: Memory<T>| op.valid(m),
    {
        match self {
            DequeueOp::Done { item } => DequeueOp::Done { item },
            _ => DequeueOp::ReadHead,
        }
    }

    /// Tests `valid` at run time.
    pub fn fits(&self, q: &NonBlockingQueue<T>) -> (ok: bool)
        ensures
            ok == self.valid(q.memory()),
    {
        match self {
            DequeueOp::ReadHead => true,
            DequeueOp::ReadTail { head } => *head <= q.head,
            DequeueOp::ReadNext { head, tail } => *head <= q.head && *head <= *tail && *tail
                <= q.tail,
            DequeueOp::Help { tail, next } => *next < q.nodes.len() && *tail < *next && *next
                - *tail == 1,
            DequeueOp::Advance { head, next } => *head < q.tail && *head < *next && *next - *head
                == 1,
            DequeueOp::Done { .. } => true,
        }
    }

    /// Whether the operation is the only one under way: what it has read is
    /// what the memory still holds.
    pub open spec fn alone_on(self, m: Memory<T>) -> bool {
        match self {
            DequeueOp::ReadHead => true,
            DequeueOp::ReadTail { head } => head == m.head,
            DequeueOp::ReadNext { head, tail } => head == m.head && tail == m.tail,
            DequeueOp::Help { tail, .. } => tail == m.tail && tail == m.head,
            DequeueOp::Advance { head, .. } => head == m.head,
            DequeueOp::Done { .. } => true,
        }
    }

    /// How many steps an operation that runs alone has before it.
    pub open spec fn steps_left(self, m: Memory<T>) -> nat {
        let lag: nat = if m.tail == m.head && m.tail + 1 < m.chain.len() {
            4
        } else {
            0
        };
        match self {
            DequeueOp::ReadHead => 4 + lag,
            DequeueOp::ReadTail { .. } => 3 + lag,
            DequeueOp::ReadNext { .. } => 2 + lag,
            DequeueOp::Help { .. } => 5,
            DequeueOp::Advance { .. } => 1,
            DequeueOp::Done { .. } => 0,
        }
    }
}

/// A step of an enqueue keeps the memory well formed and the operation
/// fitting; the memory grows; and what the queue holds changes only at the
/// instant at which the enqueue takes effect, by the item of the operation.
/// A node is linked only where the arena has room for it.
pub proof fn lemma_enqueue_step<T>(m: Memory<T>, op: EnqueueOp<T>)
    requires
        m.linked(),
        op.valid(m),
        op.takes_effect(m) ==> m.chain.len() < usize::MAX,
    ensures
        m.enqueue_step(op).0.linked(),
        m.enqueue_step(op).1.valid(m.enqueue_step(op).0),
        m.grown_to(m.enqueue_step(op).0),
        m.enqueue_step(op).0.head == m.head,
        op.takes_effect(m) ==> op.pending() is Some && m.enqueue_step(op).0.items()
            == after_enqueue(m.items(), op.pending().unwrap()) && m.enqueue_step(op).1.pending()
            is None,
        !op.takes_effect(m) ==> m.enqueue_step(op).0.items() == m.items() && m.enqueue_step(
            op,
        ).1.pending() == op.pending(),
{
    let after = m.enqueue_step(op).0;
    match op {
        EnqueueOp::Link { node, tail } => {
            if m.chain[tail as int].next is None {
                assert(tail + 1 == m.chain.len());
                assert(after.items() =~= m.items().push(node.item.unwrap()));
            }
        },
        EnqueueOp::ReadNext { node, tail } => {
            assert(m.chain[tail as int].next == Memory::<T>::link_of(
                tail as int,
                m.chain.len() as int,
            ));
        },
        EnqueueOp::Help { .. } | EnqueueOp::Swing { .. } => {
            assert(after.items() =~= m.items());
        },
        _ => {},
    }
}

/// A step of a dequeue keeps the memory well formed and the operation
/// fitting; the memory grows; what the queue holds changes only at the
/// instant at which the dequeue takes effect, by its oldest item, which is
/// what the operation returns; and an operation that ends with nothing has
/// found the queue empty.
pub proof fn lemma_dequeue_step<T>(m: Memory<T>, op: DequeueOp<T>)
    requires
        m.linked(),
        op.valid(m),
    ensures
        m.dequeue_step(op).0.linked(),
        m.dequeue_step(op).1.valid(m.dequeue_step(op).0),
        m.grown_to(m.dequeue_step(op).0),
        m.dequeue_step(op).0.chain.len() == m.chain.len(),
        op.takes_effect(m) ==> m.items().len() > 0 && m.dequeue_step(op).0.items()
            == after_dequeue(m.items()) && m.dequeue_step(op).1 == (DequeueOp::Done {
            item: dequeued(m.items()),
        }),
        !op.takes_effect(m) ==> m.dequeue_step(op).0.items() == m.items(),
        !(op is Done) && m.dequeue_step(op).1 == (DequeueOp::<T>::Done { item: None })
            ==> m.items().len() == 0,
{
    let after = m.dequeue_step(op).0;
    match op {
        DequeueOp::Advance { head, next } => {
            if m.head == head {
                assert(after.items() =~= m.items().drop_first());
                assert(m.items()[0] == m.chain[m.head + 1].item.unwrap());
                assert(m.chain[m.head + 1].item is Some);
            }
        },
        DequeueOp::ReadNext { head, tail } => {
            assert(m.chain[head as int].next == Memory::<T>::link_of(
                head as int,
                m.chain.len() as int,
            ));
            if m.chain[head as int].next is None {
                assert(head + 1 == m.chain.len());
            }
        },
        DequeueOp::Help { .. } => {
            assert(after.items() =~= m.items());
        },
        _ => {},
    }
}

/// An enqueue that runs alone comes to its end: while no other operation
/// makes a step, what it has read stays what the memory holds, every step
/// brings it nearer to its end, and it has never more than seven steps
/// before it.
pub proof fn lemma_enqueue_alone_ends<T>(m: Memory<T>, op: EnqueueOp<T>)
    requires
        m.linked(),
        op.valid(m),
        op.alone_on(m),
        !(op is Done),
        op.takes_effect(m) ==> m.chain.len() < usize::MAX,
    ensures
        m.enqueue_step(op).1.alone_on(m.enqueue_step(op).0),
        m.enqueue_step(op).1.steps_left(m.enqueue_step(op).0) < op.steps_left(m),
        op.steps_left(m) <= 7,
{
    lemma_enqueue_step(m, op);
}

/// A dequeue that runs alone comes to its end: while no other operation
/// makes a step, what it has read stays what the memory holds, every step
/// brings it nearer to its end, and it has never more than eight steps
/// before it.
pub proof fn lemma_dequeue_alone_ends<T>(m: Memory<T>, op: DequeueOp<T>)
    requires
        m.linked(),
        op.valid(m),
        op.alone_on(m),
        !(op is Done),
    ensures
        m.dequeue_step(op).1.alone_on(m.dequeue_step(op).0),
        m.dequeue_step(op).1.steps_left(m.dequeue_step(op).0) < op.steps_left(m),
        op.steps_left(m) <= 8,
{
    lemma_dequeue_step(m, op);
}

/// A step of an enqueue changes the memory only by a compare-and-swap that
/// succeeds: either the enqueue takes effect, or `tail` moves forward by one
/// node. So an operation finds the memory changed only where another
/// operation has come nearer to its end or has helped one to.
pub proof fn lemma_enqueue_changes_by_success<T>(m: Memory<T>, op: EnqueueOp<T>)
    requires
        m.linked(),
        op.valid(m),
    ensures
        m.enqueue_step(op).0 == m || op.takes_effect(m) || m.enqueue_step(op).0 == (Memory {
            tail: (m.tail + 1) as usize,
            ..m
        }),
{
}

/// A step of a dequeue changes the memory only by a compare-and-swap that
/// succeeds: either the dequeue takes effect, or `tail` moves forward by one
/// node.
pub proof fn lemma_dequeue_changes_by_success<T>(m: Memory<T>, op: DequeueOp<T>)
    requires
        m.linked(),
        op.valid(m),
    ensures
        m.dequeue_step(op).0 == m || op.takes_effect(m) || m.dequeue_step(op).0 == (Memory {
            tail: (m.tail + 1) as usize,
            ..m
        }),
{
}

/// To give back the retired nodes keeps the memory well formed and leaves
/// the items and their order as they are.
pub proof fn lemma_reclaimed<T>(m: Memory<T>)
    requires
        m.linked(),
    ensures
        m.reclaimed().linked(),
        m.reclaimed().items() == m.items(),
{
    assert(m.reclaimed().items() =~= m.items());
}

/// An operation that starts over holds the item that it held, and its
/// references fit every memory.
pub proof fn lemma_fitted<T>(enqueue: EnqueueOp<T>, dequeue: DequeueOp<T>, m: Memory<T>)
    requires
        enqueue.holds_fresh_node(),
    ensures
        enqueue.fitted(m).valid(m),
        enqueue.fitted(m).pending() == enqueue.pending(),
        enqueue.fitted(m) is Done ==> enqueue.pending() is None,
        dequeue.fitted(m).valid(m),
        dequeue.fitted(m) is Done == dequeue is Done,
{
}

/// An enqueue under way is not disturbed by the steps of other operations:
/// if its references fit a memory, they fit every memory that grows out of
/// it.
pub proof fn lemma_enqueue_stays_valid<T>(op: EnqueueOp<T>, before: Memory<T>, later: Memory<T>)
    requires
        op.valid(before),
        before.grown_to(later),
    ensures
        op.valid(later),
{
}

/// A dequeue under way is not disturbed by the steps of other operations: if
/// its references fit a memory, they fit every memory that grows out of it.
pub proof fn lemma_dequeue_stays_valid<T>(op: DequeueOp<T>, before: Memory<T>, later: Memory<T>)
    requires
        op.valid(before),
        before.grown_to(later),
    ensures
        op.valid(later),
{
}

impl<T> NonBlockingQueue<T> {
    /// The memory of the queue, as a value.
    pub closed spec fn memory(&self) -> Memory<T> {
        Memory { chain: self.nodes@, head: self.head, tail: self.tail }
    }

    /// A queue with no item: one sentinel, to which both references point.
    pub fn new() -> (q: Self)
        ensures
            q.wf(),
            q.contents() == Seq::<T>::empty(),
            q.memory() == (Memory {
                chain: seq![Node { item: None::<T>, next: None }],
                head: 0,
                tail: 0,
            }),
    {
        let mut nodes = Vec::new();
        nodes.push(Node::new(None));
        let q = NonBlockingQueue { nodes, head: 0, tail: 0 };
        assert(q.memory().items() =~= Seq::<T>::empty());
        assert(q.memory().chain =~= seq![Node { item: None::<T>, next: None }]);
        q
    }

    /// The number of nodes in front of the sentinel: unlinked by a dequeue and
    /// not yet given back.
    pub fn retired(&self) -> (n: usize)
        ensures
            n == self.memory().head,
    {
        self.head
    }

    /// Gives back the nodes in front of the sentinel and renumbers the rest
    /// from zero. Returns how many nodes were given back.
    ///
    /// The items and their order stay as they are. An operation that is under
    /// way holds references from before the call: ask `fits` before its next
    /// step, and let it `restart` if they no longer fit.
    pub fn reclaim(&mut self) -> (freed: usize)
        requires
            old(self).wf(),
        ensures
            final(self).memory() == old(self).memory().reclaimed(),
            final(self).wf(),
            final(self).contents() == old(self).contents(),
            freed == old(self).memory().head,
    {
        let freed = self.head;
        let mut kept = self.nodes.split_off(freed);
        let len = kept.len();
        let mut i: usize = 0;
        while i < len
            invariant
                i <= len,
                len == kept@.len(),
                len == old(self).memory().chain.len() - freed,
                forall|k: int|
                    0 <= k < len ==> (#[trigger] kept@[k]).item == old(self).memory().chain[freed
                        + k].item,
                forall|k: int|
                    0 <= k < i ==> (#[trigger] kept@[k]).next == Memory::<T>::link_of(k, len as int),
            decreases len - i,
        {
            kept[i].next = if i + 1 < len {
                Some(i + 1)
            } else {
                None
            };
            i += 1;
        }
        self.nodes = kept;
        self.tail = self.tail - freed;
        self.head = 0;
        proof {
            assert(self.memory().chain =~= old(self).memory().reclaimed().chain);
            lemma_reclaimed(old(self).memory());
        }
        freed
    }

    fn load_head(&self) -> (head: usize)
        ensures
            head == self.memory().head,
    {
        self.head
    }

    fn load_tail(&self) -> (tail: usize)
        ensures
            tail == self.memory().tail,
    {
        self.tail
    }

    fn load_next(&self, node: usize) -> (next: Option<usize>)
        requires
            node < self.memory().chain.len(),
        ensures
            next == self.memory().chain[node as int].next,
    {
        self.nodes[node].next
    }

    /// Compare-and-swap on `tail`: moves it from `expected` to `new`, or
    /// leaves it where another operation has put it meanwhile.
    fn cas_tail(&mut self, expected: usize, new: usize) -> (swapped: bool)
        ensures
            swapped == (old(self).memory().tail == expected),
            final(self).memory() == old(self).memory().swap_tail(expected, new),
    {
        if self.tail == expected {
            self.tail = new;
            true
        } else {
            false
        }
    }

    /// Compare-and-swap on the `next` of node `at`, from none to `node`: links
    /// `node` behind `at` if `at` is still the last node, and hands it back
    /// otherwise.
    fn cas_next(&mut self, at: usize, node: Node<T>) -> (linked: Result<usize, Node<T>>)
        requires
            old(self).wf(),
            at <= old(self).memory().tail,
        ensures
            (linked is Ok) == (old(self).memory().chain[at as int].next is None),
            match linked {
                Ok(index) => {
                    &&& index == old(self).memory().chain.len()
                    &&& final(self).memory() == old(self).memory().with_linked(node)
                },
                Err(back) => back == node && final(self).memory() == old(self).memory(),
            },
    {
        if self.nodes[at].next.is_none() {
            let index = self.nodes.len();
            assert(at + 1 == index);
            self.nodes[at].next = Some(index);
            self.nodes.push(node);
            assert(self.memory().chain =~= old(self).memory().with_linked(node).chain);
            Ok(index)
        } else {
            Err(node)
        }
    }

    /// Compare-and-swap on `head`, from `expected` to its successor. The
    /// operation that succeeds owns the item of the new sentinel and takes it.
    fn cas_head(&mut self, expected: usize) -> (taken: Result<Option<T>, ()>)
        requires
            old(self).wf(),
            expected < old(self).memory().tail,
        ensures
            (taken is Ok) == (old(self).memory().head == expected),
            match taken {
                Ok(item) => {
                    &&& item == old(self).memory().chain[expected + 1].item
                    &&& final(self).memory() == old(self).memory().with_head_advanced()
                },
                Err(_) => final(self).memory() == old(self).memory(),
            },
    {
        if self.head == expected {
            let next = expected + 1;
            self.head = next;
            let taken = self.nodes[next].item.take();
            assert(self.memory().chain =~= old(self).memory().with_head_advanced().chain);
            Ok(taken)
        } else {
            Err(())
        }
    }

    /// One atomic access of the enqueue `op`. Returns the state of the
    /// operation after it.
    ///
    /// The item enters the queue in the one step in which `Link` finds the
    /// node behind its `tail` without a successor; no other step changes what
    /// the queue holds.
    pub fn step_enqueue(&mut self, op: EnqueueOp<T>) -> (after: EnqueueOp<T>)
        requires
            old(self).wf(),
            op.valid(old(self).memory()),
        ensures
            (final(self).memory(), after) == old(self).memory().enqueue_step(op),
            final(self).wf(),
            after.valid(final(self).memory()),
            old(self).memory().grown_to(final(self).memory()),
            final(self).contents() == (if op.takes_effect(old(self).memory()) {
                after_enqueue(old(self).contents(), op.pending().unwrap())
            } else {
                old(self).contents()
            }),
            after.pending() == (if op.takes_effect(old(self).memory()) {
                None
            } else {
                op.pending()
            }),
    {
        let ghost before = self.memory();
        let ghost started = op;
        let after = match op {
            EnqueueOp::ReadTail { node } => {
                let tail = self.load_tail();
                EnqueueOp::ReadNext { node, tail }
            },
            EnqueueOp::ReadNext { node, tail } => {
                match self.load_next(tail) {
                    None => EnqueueOp::Link { node, tail },
                    Some(next) => EnqueueOp::Help { node, tail, next },
                }
            },
            EnqueueOp::Link { node, tail } => {
                match self.cas_next(tail, node) {
                    Ok(linked) => EnqueueOp::Swing { tail, linked },
                    Err(node) => EnqueueOp::ReadTail { node },
                }
            },
            EnqueueOp::Help { node, tail, next } => {
                self.cas_tail(tail, next);
                EnqueueOp::ReadTail { node }
            },
            EnqueueOp::Swing { tail, linked } => {
                self.cas_tail(tail, linked);
                EnqueueOp::Done
            },
            EnqueueOp::Done => EnqueueOp::Done,
        };
        proof {
            assert(self.nodes.len() == self.memory().chain.len());
            lemma_enqueue_step(before, started);
        }
        after
    }

    /// One atomic access of the dequeue `op`. Returns the state of the
    /// operation after it.
    ///
    /// An item leaves the queue in the one step in which `Advance` finds
    /// `head` where it has read it; the operation ends with `None` in the step
    /// in which `ReadNext` finds the sentinel without a successor. No other
    /// step changes what the queue holds.
    pub fn step_dequeue(&mut self, op: DequeueOp<T>) -> (after: DequeueOp<T>)
        requires
            old(self).wf(),
            op.valid(old(self).memory()),
        ensures
            (final(self).memory(), after) == old(self).memory().dequeue_step(op),
            final(self).wf(),
            after.valid(final(self).memory()),
            old(self).memory().grown_to(final(self).memory()),
            final(self).contents() == (if op.takes_effect(old(self).memory()) {
                after_dequeue(old(self).contents())
            } else {
                old(self).contents()
            }),
            op.takes_effect(old(self).memory()) ==> after == (DequeueOp::Done {
                item: dequeued(old(self).contents()),
            }) && old(self).contents().len() > 0,
            !(op is Done) && after == (DequeueOp::<T>::Done { item: None }) ==> old(
                self,
            ).contents().len() == 0,
    {
        proof {
            lemma_dequeue_step(self.memory(), op);
        }
        match op {
            DequeueOp::ReadHead => {
                let head = self.load_head();
                DequeueOp::ReadTail { head }
            },
            DequeueOp::ReadTail { head } => {
                let tail = self.load_tail();
                DequeueOp::ReadNext { head, tail }
            },
            DequeueOp::ReadNext { head, tail } => {
                match self.load_next(head) {
                    None => DequeueOp::Done { item: None },
                    Some(next) => {
                        if head == tail {
                            DequeueOp::Help { tail, next }
                        } else {
                            DequeueOp::Advance { head, next }
                        }
                    },
                }
            },
            DequeueOp::Help { tail, next } => {
                self.cas_tail(tail, next);
                DequeueOp::ReadHead
            },
            DequeueOp::Advance { head, next } => {
                match self.cas_head(head) {
                    Ok(item) => DequeueOp::Done { item },
                    Err(_) => DequeueOp::ReadHead,
                }
            },
            DequeueOp::Done { item } => DequeueOp::Done { item },
        }
    }
}

impl<T> Queue<T> for NonBlockingQueue<T> {
    open spec fn contents(&self) -> Seq<T> {
        self.memory().items()
    }

    open spec fn wf(&self) -> bool {
        self.memory().linked()
    }

    fn enqueue(&mut self, item: T) {
        let mut op = EnqueueOp::begin(item);
        while !op.is_done()
            invariant
                self.wf(),
                op.valid(self.memory()),
                op.alone_on(self.memory()),
                match op.pending() {
                    Some(mine) => mine == item && self.contents() == old(self).contents(),
                    None => self.contents() == after_enqueue(old(self).contents(), item),
                },
                op is Done ==> op.pending() is None,
            decreases op.steps_left(self.memory()),
        {
            op = self.step_enqueue(op);
        }
    }

    fn dequeue(&mut self) -> (item: Option<T>) {
        let mut op = DequeueOp::begin();
        while !op.is_done()
            invariant
                self.wf(),
                op.valid(self.memory()),
                op.alone_on(self.memory()),
                match op {
                    DequeueOp::Done { item } => item == dequeued(old(self).contents())
                        && self.contents() == after_dequeue(old(self).contents()),
                    _ => self.contents() == old(self).contents(),
                },
            decreases op.steps_left(self.memory()),
        {
            op = self.step_dequeue(op);
        }
        op.into_item()
    }
}

} // verus!
