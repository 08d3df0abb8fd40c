use mpmc_queue::blocking::BlockingQueue;
use mpmc_queue::non_blocking::{DequeueOp, EnqueueOp, Node, NonBlockingQueue};
use mpmc_queue::queue::Queue;

#[test]
fn fresh_lock_free_queue_is_empty() {
    let mut q: NonBlockingQueue<u32> = NonBlockingQueue::new();
    assert_eq!(q.dequeue(), None);
    assert_eq!(q.dequeue(), None);
}

#[test]
fn fresh_lock_free_queue_answers_within_three_steps() {
    let mut q: NonBlockingQueue<u32> = NonBlockingQueue::new();
    let mut op = DequeueOp::begin();
    let mut steps = 0;
    while !op.is_done() {
        assert!(op.fits(&q));
        op = q.step_dequeue(op);
        steps += 1;
    }
    assert_eq!(steps, 3);
    assert_eq!(op.into_item(), None);
}

#[test]
fn lock_free_queue_hands_out_in_arrival_order() {
    let mut q: NonBlockingQueue<&str> = NonBlockingQueue::new();
    q.enqueue("a");
    q.enqueue("b");
    assert_eq!(q.dequeue(), Some("a"));
    q.enqueue("c");
    assert_eq!(q.dequeue(), Some("b"));
    assert_eq!(q.dequeue(), Some("c"));
    assert_eq!(q.dequeue(), None);
}

#[test]
fn blocking_queue_hands_out_in_arrival_order() {
    let mut q: BlockingQueue<u32> = BlockingQueue::new();
    q.enqueue(7);
    q.enqueue(8);
    assert_eq!(q.len(), 2);
    assert_eq!(q.dequeue(), Some(7));
    assert_eq!(q.dequeue(), Some(8));
    assert_eq!(q.dequeue(), None);
}

#[test]
fn blocking_consumer_waits_until_an_item_arrives() {
    let mut q: BlockingQueue<u64> = BlockingQueue::new();
    assert!(q.must_wait());
    assert_eq!(q.dequeue(), None);
    q.enqueue(42);
    assert!(!q.must_wait());
    assert_eq!(q.dequeue(), Some(42));
    assert!(q.must_wait());
}

#[test]
fn node_new_holds_item_and_no_successor() {
    let n = Node::new(Some(5u8));
    assert_eq!(n.item, Some(5));
    assert_eq!(n.next, None);
    let s: Node<u8> = Node::new(None);
    assert_eq!(s.item, None);
    assert_eq!(s.next, None);
}

#[test]
fn enqueue_alone_takes_four_steps() {
    let mut q: NonBlockingQueue<u32> = NonBlockingQueue::new();
    let mut op = EnqueueOp::begin(9);
    let mut steps = 0;
    while !op.is_done() {
        assert!(op.fits(&q));
        op = q.step_enqueue(op);
        steps += 1;
    }
    assert_eq!(steps, 4);
    assert_eq!(q.dequeue(), Some(9));
}

#[test]
fn a_lagging_tail_is_helped_forward() {
    let mut q: NonBlockingQueue<u32> = NonBlockingQueue::new();
    // The first enqueue links its node and stops before it moves `tail`.
    let mut first = EnqueueOp::begin(1);
    for _ in 0..3 {
        first = q.step_enqueue(first);
    }
    assert!(matches!(first, EnqueueOp::Swing { tail: 0, linked: 1 }));
    // A dequeue finds the item although `tail` lags: it helps, then takes it.
    assert_eq!(q.dequeue(), Some(1));
    // The late move of `tail` finds it moved and changes nothing.
    assert!(first.fits(&q));
    first = q.step_enqueue(first);
    assert!(first.is_done());
    q.enqueue(2);
    assert_eq!(q.dequeue(), Some(2));
    assert_eq!(q.dequeue(), None);
}

#[test]
fn two_enqueues_race_for_the_same_tail() {
    let mut q: NonBlockingQueue<&str> = NonBlockingQueue::new();
    let mut a = EnqueueOp::begin("a");
    let mut b = EnqueueOp::begin("b");
    // Both read `tail` and find no successor.
    a = q.step_enqueue(a);
    b = q.step_enqueue(b);
    a = q.step_enqueue(a);
    b = q.step_enqueue(b);
    assert!(matches!(a, EnqueueOp::Link { tail: 0, .. }));
    assert!(matches!(b, EnqueueOp::Link { tail: 0, .. }));
    // `b` links first; the compare-and-swap of `a` fails and `a` starts over.
    b = q.step_enqueue(b);
    a = q.step_enqueue(a);
    assert!(matches!(b, EnqueueOp::Swing { tail: 0, linked: 1 }));
    assert!(matches!(a, EnqueueOp::ReadTail { .. }));
    while !a.is_done() {
        assert!(a.fits(&q));
        a = q.step_enqueue(a);
    }
    while !b.is_done() {
        assert!(b.fits(&q));
        b = q.step_enqueue(b);
    }
    assert_eq!(q.dequeue(), Some("b"));
    assert_eq!(q.dequeue(), Some("a"));
    assert_eq!(q.dequeue(), None);
}

#[test]
fn two_dequeues_race_for_the_same_head() {
    let mut q: NonBlockingQueue<u32> = NonBlockingQueue::new();
    q.enqueue(1);
    q.enqueue(2);
    let mut a: DequeueOp<u32> = DequeueOp::begin();
    let mut b: DequeueOp<u32> = DequeueOp::begin();
    for _ in 0..3 {
        a = q.step_dequeue(a);
        b = q.step_dequeue(b);
    }
    assert!(matches!(a, DequeueOp::Advance { head: 0, next: 1 }));
    assert!(matches!(b, DequeueOp::Advance { head: 0, next: 1 }));
    a = q.step_dequeue(a);
    b = q.step_dequeue(b);
    assert_eq!(a.into_item(), Some(1));
    assert!(matches!(b, DequeueOp::ReadHead));
    while !b.is_done() {
        assert!(b.fits(&q));
        b = q.step_dequeue(b);
    }
    assert_eq!(b.into_item(), Some(2));
}

#[test]
fn reclaim_gives_back_the_retired_nodes() {
    let mut q: NonBlockingQueue<u32> = NonBlockingQueue::new();
    for i in 0..10 {
        q.enqueue(i);
    }
    for i in 0..7 {
        assert_eq!(q.dequeue(), Some(i));
    }
    assert_eq!(q.retired(), 7);
    assert_eq!(q.reclaim(), 7);
    assert_eq!(q.retired(), 0);
    assert_eq!(q.reclaim(), 0);
    assert_eq!(q.dequeue(), Some(7));
    q.enqueue(10);
    assert_eq!(q.dequeue(), Some(8));
    assert_eq!(q.dequeue(), Some(9));
    assert_eq!(q.dequeue(), Some(10));
    assert_eq!(q.dequeue(), None);
}

#[test]
fn an_operation_from_before_a_reclaim_starts_over() {
    let mut q: NonBlockingQueue<u32> = NonBlockingQueue::new();
    for i in 0..4 {
        q.enqueue(i);
    }
    for i in 0..3 {
        assert_eq!(q.dequeue(), Some(i));
    }
    let mut op = EnqueueOp::begin(99);
    op = q.step_enqueue(op);
    assert!(matches!(op, EnqueueOp::ReadNext { tail: 4, .. }));
    assert_eq!(q.reclaim(), 3);
    assert!(!op.fits(&q));
    op = op.restart();
    while !op.is_done() {
        assert!(op.fits(&q));
        op = q.step_enqueue(op);
    }
    assert_eq!(q.dequeue(), Some(3));
    assert_eq!(q.dequeue(), Some(99));
    assert_eq!(q.dequeue(), None);
}
