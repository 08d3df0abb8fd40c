//! Any number of threads on the lock-free queue, their atomic accesses in
//! any order: what holds of every such run.
//!
//! A run is a sequence of events. A thread that is idle begins an enqueue or
//! a dequeue; a thread that has an operation under way makes the next atomic
//! access of it. Between two accesses of one thread any other thread may make
//! any number of its own. The memory is that of the queue, and every access
//! is the step that the queue makes. At any instant the retired nodes may be
//! given back; an operation whose references fit no longer starts over with
//! its next access.

use crate::non_blocking::{lemma_dequeue_stays_valid, lemma_dequeue_step,
    lemma_enqueue_stays_valid, lemma_enqueue_step, lemma_fitted, lemma_reclaimed, DequeueOp,
    EnqueueOp, Memory, Node};
use vstd::multiset::Multiset;
use vstd::prelude::*;

verus! {

/// What a thread is doing.
pub enum Thread<T> {
    /// Nothing.
    Idle,
    /// It has an enqueue under way.
    Enqueuing(EnqueueOp<T>),
    /// It has a dequeue under way.
    Dequeuing(DequeueOp<T>),
}

/// What happens in a run.
pub enum Event<T> {
    /// The thread `thread` begins to enqueue `item`.
    Enqueue { thread: int, item: T },
    /// The thread `thread` begins to dequeue.
    Dequeue { thread: int },
    /// The thread `thread` makes the next atomic access of its operation.
    Step { thread: int },
    /// The retired nodes are given back.
    Reclaim,
}

/// The state of a run: the memory of the queue, what every thread is doing,
/// and three records that the threads do not see: the items that producers
/// began to enqueue, in the order in which they began; the items that
/// entered the queue, in the order in which they entered; and the items that
/// consumers took, in the order in which they took them.
pub struct World<T> {
    pub memory: Memory<T>,
    pub threads: Seq<Thread<T>>,
    pub handed_in: Seq<T>,
    pub entered: Seq<T>,
    pub taken: Seq<T>,
}

/// The world before anything happens: an empty queue and `threads` idle
/// threads.
pub open spec fn initial<T>(threads: nat) -> World<T> {
    World {
        memory: Memory { chain: seq![Node { item: None::<T>, next: None }], head: 0, tail: 0 },
        threads: Seq::new(threads, |t: int| Thread::Idle),
        handed_in: Seq::empty(),
        entered: Seq::empty(),
        taken: Seq::empty(),
    }
}

/// The thread after its operation made a step: idle if the operation is
/// over.
pub open spec fn enqueuing<T>(op: EnqueueOp<T>) -> Thread<T> {
    if op is Done {
        Thread::Idle
    } else {
        Thread::Enqueuing(op)
    }
}

/// The thread after its operation made a step: idle if the operation is
/// over.
pub open spec fn dequeuing<T>(op: DequeueOp<T>) -> Thread<T> {
    if op is Done {
        Thread::Idle
    } else {
        Thread::Dequeuing(op)
    }
}

/// The world after the event `e`. An event that cannot happen leaves the
/// world as it is: one of a thread that there is not, the beginning of an
/// operation by a thread that has one under way, a step of an idle thread,
/// and the linking of a node for which the arena has no room. An operation
/// makes its step as it is if its references fit the memory, and started
/// over if they do not.
pub open spec fn after<T>(w: World<T>, e: Event<T>) -> World<T> {
    match e {
        Event::Enqueue { thread, item } => if 0 <= thread < w.threads.len()
            && w.threads[thread] is Idle {
            World {
                threads: w.threads.update(
                    thread,
                    Thread::Enqueuing(
                        EnqueueOp::ReadTail { node: Node { item: Some(item), next: None } },
                    ),
                ),
                handed_in: w.handed_in.push(item),
                ..w
            }
        } else {
            w
        },
        Event::Dequeue { thread } => if 0 <= thread < w.threads.len()
            && w.threads[thread] is Idle {
            World { threads: w.threads.update(thread, Thread::Dequeuing(DequeueOp::ReadHead)), ..w }
        } else {
            w
        },
        Event::Step { thread } => if 0 <= thread < w.threads.len() {
            match w.threads[thread] {
                Thread::Idle => w,
                Thread::Enqueuing(held) => {
                    let op = held.fitted(w.memory);
                    if op.takes_effect(w.memory) {
                        if w.memory.chain.len() < usize::MAX {
                            World {
                                memory: w.memory.enqueue_step(op).0,
                                threads: w.threads.update(
                                    thread,
                                    enqueuing(w.memory.enqueue_step(op).1),
                                ),
                                entered: w.entered.push(op.pending().unwrap()),
                                ..w
                            }
                        } else {
                            w
                        }
                    } else {
                        World {
                            memory: w.memory.enqueue_step(op).0,
                            threads: w.threads.update(
                                thread,
                                enqueuing(w.memory.enqueue_step(op).1),
                            ),
                            ..w
                        }
                    }
                },
                Thread::Dequeuing(held) => {
                    let op = held.fitted(w.memory);
                    World {
                        memory: w.memory.dequeue_step(op).0,
                        threads: w.threads.update(thread, dequeuing(w.memory.dequeue_step(op).1)),
                        taken: if op.takes_effect(w.memory) {
                            w.taken.push(w.memory.items()[0])
                        } else {
                            w.taken
                        },
                        ..w
                    }
                },
            }
        } else {
            w
        },
        Event::Reclaim => World { memory: w.memory.reclaimed(), ..w },
    }
}

/// The world after the events `events`, in their order, with `threads`
/// threads.
pub open spec fn run<T>(threads: nat, events: Seq<Event<T>>) -> World<T>
    decreases events.len(),
{
    if events.len() == 0 {
        initial(threads)
    } else {
        after(run(threads, events.drop_last()), events.last())
    }
}

/// The item that a thread is still to put into the queue, if it has one.
pub open spec fn pending_of<T>(thread: Thread<T>) -> Option<T> {
    match thread {
        Thread::Enqueuing(op) => op.pending(),
        _ => None,
    }
}

/// The items that the threads are still to put into the queue.
pub open spec fn pending_all<T>(threads: Seq<Thread<T>>) -> Multiset<T>
    decreases threads.len(),
{
    if threads.len() == 0 {
        Multiset::empty()
    } else {
        match pending_of(threads.last()) {
            Some(item) => pending_all(threads.drop_last()).insert(item),
            None => pending_all(threads.drop_last()),
        }
    }
}

/// Whether a thread is in order: an operation that it has under way is not
/// over, and an enqueue holds its node as it was made.
pub open spec fn in_order<T>(thread: Thread<T>) -> bool {
    match thread {
        Thread::Idle => true,
        Thread::Enqueuing(op) => op.holds_fresh_node() && !(op is Done),
        Thread::Dequeuing(op) => !(op is Done),
    }
}

/// Whether the references of the operation that a thread has under way fit
/// the memory `m`.
pub open spec fn fits<T>(thread: Thread<T>, m: Memory<T>) -> bool {
    match thread {
        Thread::Idle => true,
        Thread::Enqueuing(op) => op.valid(m),
        Thread::Dequeuing(op) => op.valid(m),
    }
}

/// What holds at every instant of every run: the memory is well formed;
/// every thread is in order; what was taken, followed by what waits, is
/// what entered, in the same order; and what was handed in is, counted with
/// repetition, what entered and what the threads are still to put in.
pub open spec fn sound<T>(w: World<T>) -> bool {
    &&& w.memory.linked()
    &&& forall|t: int| 0 <= t < w.threads.len() ==> in_order(#[trigger] w.threads[t])
    &&& w.taken + w.memory.items() == w.entered
    &&& w.handed_in.to_multiset() == w.entered.to_multiset().add(pending_all(w.threads))
}

/// Whether every thread is idle.
pub open spec fn all_idle<T>(threads: Seq<Thread<T>>) -> bool {
    forall|t: int| 0 <= t < threads.len() ==> #[trigger] threads[t] is Idle
}

proof fn lemma_pending_update<T>(threads: Seq<Thread<T>>, t: int, new: Thread<T>)
    requires
        0 <= t < threads.len(),
    ensures
        match (pending_of(threads[t]), pending_of(new)) {
            (Some(a), Some(b)) => pending_all(threads.update(t, new)).insert(a) == pending_all(
                threads,
            ).insert(b),
            (Some(a), None) => pending_all(threads.update(t, new)).insert(a) == pending_all(
                threads,
            ),
            (None, Some(b)) => pending_all(threads.update(t, new)) == pending_all(threads).insert(
                b,
            ),
            (None, None) => pending_all(threads.update(t, new)) == pending_all(threads),
        },
    decreases threads.len(),
{
    let updated = threads.update(t, new);
    if t == threads.len() - 1 {
        assert(updated.drop_last() =~= threads.drop_last());
        assert(updated.last() == new);
        let rest = pending_all(threads.drop_last());
        match (pending_of(threads[t]), pending_of(new)) {
            (Some(a), Some(b)) => {
                assert(rest.insert(b).insert(a) =~= rest.insert(a).insert(b));
            },
            _ => {},
        }
    } else {
        lemma_pending_update(threads.drop_last(), t, new);
        assert(updated.drop_last() =~= threads.drop_last().update(t, new));
        assert(updated.last() == threads.last());
        assert(threads.drop_last()[t] == threads[t]);
        let before = pending_all(threads.drop_last());
        let now = pending_all(threads.drop_last().update(t, new));
        match pending_of(threads.last()) {
            Some(l) => {
                match (pending_of(threads[t]), pending_of(new)) {
                    (Some(a), Some(b)) => {
                        assert(now.insert(l).insert(a) =~= now.insert(a).insert(l));
                        assert(before.insert(l).insert(b) =~= before.insert(b).insert(l));
                    },
                    (Some(a), None) => {
                        assert(now.insert(l).insert(a) =~= now.insert(a).insert(l));
                    },
                    (None, Some(b)) => {
                        assert(before.insert(l).insert(b) =~= before.insert(b).insert(l));
                    },
                    (None, None) => {},
                }
            },
            None => {},
        }
    }
}

proof fn lemma_cancel<T>(a: Multiset<T>, b: Multiset<T>, x: T)
    requires
        a.insert(x) == b.insert(x),
    ensures
        a == b,
{
    assert forall|y: T| a.count(y) == b.count(y) by {
        assert(a.insert(x).count(y) == b.insert(x).count(y));
        vstd::multiset::lemma_insert_increases_count_by_1(a, x);
        vstd::multiset::lemma_insert_increases_count_by_1(b, x);
        vstd::multiset::lemma_insert_other_elements_unchanged(a, x, y);
        vstd::multiset::lemma_insert_other_elements_unchanged(b, x, y);
    }
    assert(a =~= b);
}

proof fn lemma_idle_threads_hold_nothing<T>(threads: Seq<Thread<T>>)
    requires
        all_idle(threads),
    ensures
        pending_all(threads) == Multiset::<T>::empty(),
    decreases threads.len(),
{
    if threads.len() > 0 {
        assert(threads.last() is Idle);
        assert forall|t: int| 0 <= t < threads.drop_last().len() implies #[trigger] threads.drop_last()[t] is Idle by {
            assert(threads[t] is Idle);
        }
        lemma_idle_threads_hold_nothing(threads.drop_last());
    }
}

/// The world is sound before anything happens.
pub proof fn lemma_initial_sound<T>(threads: nat)
    ensures
        sound(initial::<T>(threads)),
{
    let w = initial::<T>(threads);
    assert(w.memory.items() =~= Seq::<T>::empty());
    assert(w.taken + w.memory.items() =~= w.entered);
    assert(all_idle(w.threads));
    lemma_idle_threads_hold_nothing(w.threads);
    assert(w.entered.to_multiset().add(pending_all(w.threads)) =~= w.handed_in.to_multiset());
}

/// Every event keeps the world sound.
pub proof fn lemma_event_keeps_sound<T>(w: World<T>, e: Event<T>)
    requires
        sound(w),
    ensures
        sound(after(w, e)),
{
    let v = after(w, e);
    match e {
        Event::Enqueue { thread, item } => {
            if 0 <= thread < w.threads.len() && w.threads[thread] is Idle {
                let new = Thread::Enqueuing(
                    EnqueueOp::ReadTail { node: Node { item: Some(item), next: None } },
                );
                lemma_others_unchanged(w.threads, thread, new);
                lemma_pending_update(w.threads, thread, new);
                w.handed_in.to_multiset_ensures();
                assert(pending_of(new) == Some(item));
                assert(pending_all(v.threads) == pending_all(w.threads).insert(item));
                assert(v.handed_in.to_multiset() =~= w.handed_in.to_multiset().insert(item));
                assert(w.entered.to_multiset().add(pending_all(w.threads)).insert(item)
                    =~= w.entered.to_multiset().add(pending_all(w.threads).insert(item)));
            }
        },
        Event::Dequeue { thread } => {
            if 0 <= thread < w.threads.len() && w.threads[thread] is Idle {
                let new = Thread::<T>::Dequeuing(DequeueOp::ReadHead);
                lemma_others_unchanged(w.threads, thread, new);
                lemma_pending_update(w.threads, thread, new);
            }
        },
        Event::Step { thread } => {
            if 0 <= thread < w.threads.len() {
                assert(in_order(w.threads[thread]));
                match w.threads[thread] {
                    Thread::Idle => {},
                    Thread::Enqueuing(held) => {
                        let op = held.fitted(w.memory);
                        lemma_fitted(held, DequeueOp::ReadHead, w.memory);
                        if !op.takes_effect(w.memory) || w.memory.chain.len() < usize::MAX {
                            lemma_enqueue_step(w.memory, op);
                            let stepped = w.memory.enqueue_step(op);
                            let new = enqueuing(stepped.1);
                            assert(pending_of(new) == stepped.1.pending());
                            lemma_others_unchanged(w.threads, thread, new);
                            lemma_pending_update(w.threads, thread, new);
                            assert(v.threads == w.threads.update(thread, new));
                            if op.takes_effect(w.memory) {
                                let item = op.pending().unwrap();
                                assert(v.taken + v.memory.items() =~= (w.taken
                                    + w.memory.items()).push(item));
                                w.entered.to_multiset_ensures();
                                assert(pending_of(w.threads[thread]) == Some(item));
                                assert(pending_of(new) is None);
                                assert(pending_all(v.threads).insert(item) == pending_all(
                                    w.threads,
                                ));
                                assert(v.entered.to_multiset() =~= w.entered.to_multiset().insert(
                                    item,
                                ));
                                assert(w.entered.to_multiset().insert(item).add(
                                    pending_all(v.threads),
                                ) =~= w.entered.to_multiset().add(
                                    pending_all(v.threads).insert(item),
                                ));
                            } else {
                                assert(pending_of(new) == pending_of(w.threads[thread]));
                                match pending_of(new) {
                                    Some(item) => lemma_cancel(
                                        pending_all(v.threads),
                                        pending_all(w.threads),
                                        item,
                                    ),
                                    None => {},
                                }
                            }
                        }
                    },
                    Thread::Dequeuing(held) => {
                        let op = held.fitted(w.memory);
                        lemma_fitted(EnqueueOp::Done, held, w.memory);
                        lemma_dequeue_step(w.memory, op);
                        let stepped = w.memory.dequeue_step(op);
                        let new = dequeuing(stepped.1);
                        lemma_others_unchanged(w.threads, thread, new);
                        lemma_pending_update(w.threads, thread, new);
                        assert(v.threads == w.threads.update(thread, new));
                        assert(pending_of(new) is None);
                        if op.takes_effect(w.memory) {
                            assert(v.taken + v.memory.items() =~= w.taken + w.memory.items());
                        }
                    },
                }
            }
        },
        Event::Reclaim => {
            lemma_reclaimed(w.memory);
        },
    }
}

proof fn lemma_others_unchanged<T>(threads: Seq<Thread<T>>, thread: int, new: Thread<T>)
    requires
        0 <= thread < threads.len(),
        forall|t: int| 0 <= t < threads.len() ==> in_order(#[trigger] threads[t]),
        in_order(new),
    ensures
        forall|t: int| 0 <= t < threads.len() ==> in_order(#[trigger] threads.update(thread, new)[t]),
{
    assert forall|t: int| 0 <= t < threads.len() implies in_order(
        #[trigger] threads.update(thread, new)[t],
    ) by {
        if t != thread {
            assert(in_order(threads[t]));
        }
    }
}

/// The world is sound at every instant of every run, whatever the number
/// of threads and the order of their accesses.
pub proof fn lemma_run_sound<T>(threads: nat, events: Seq<Event<T>>)
    ensures
        sound(run(threads, events)),
    decreases events.len(),
{
    if events.len() == 0 {
        lemma_initial_sound::<T>(threads);
    } else {
        lemma_run_sound(threads, events.drop_last());
        lemma_event_keeps_sound(run(threads, events.drop_last()), events.last());
    }
}

/// First in, first out, under every interleaving: at every instant of every
/// run, what the consumers took, followed by what waits in the queue, is what
/// entered the queue, in the order in which it entered.
pub proof fn lemma_taken_in_order_of_entry<T>(threads: nat, events: Seq<Event<T>>)
    ensures
        run(threads, events).taken + run(threads, events).memory.items() == run(
            threads,
            events,
        ).entered,
        run(threads, events).taken.is_prefix_of(run(threads, events).entered),
{
    lemma_run_sound(threads, events);
}

/// Conservation, under every interleaving: at every instant of every run,
/// what the producers handed in is, counted with repetition, what the
/// consumers took, what waits in the queue, and what enqueues under way
/// still hold. Once every thread is idle and the queue is drained, the
/// consumers have taken exactly what the producers handed in: as many
/// items, none twice and none missing.
pub proof fn lemma_nothing_lost_nothing_made<T>(threads: nat, events: Seq<Event<T>>)
    ensures
        run(threads, events).handed_in.to_multiset() == run(threads, events).taken.to_multiset().add(
            run(threads, events).memory.items().to_multiset(),
        ).add(pending_all(run(threads, events).threads)),
        all_idle(run(threads, events).threads) && run(threads, events).memory.items().len() == 0
            ==> run(threads, events).taken.to_multiset() == run(
            threads,
            events,
        ).handed_in.to_multiset() && run(threads, events).taken.len() == run(
            threads,
            events,
        ).handed_in.len(),
{
    lemma_run_sound(threads, events);
    let w = run(threads, events);
    vstd::seq_lib::lemma_multiset_commutative(w.taken, w.memory.items());
    if all_idle(w.threads) && w.memory.items().len() == 0 {
        lemma_idle_threads_hold_nothing(w.threads);
        assert(w.taken + w.memory.items() =~= w.taken);
        assert(w.taken.to_multiset().add(Multiset::<T>::empty()) =~= w.taken.to_multiset());
        w.taken.to_multiset_ensures();
        w.handed_in.to_multiset_ensures();
    }
}

/// Whether the items that `mine` picks out are those, and only those, that
/// the thread `producer` hands in.
pub open spec fn marks<T>(events: Seq<Event<T>>, producer: int, mine: spec_fn(T) -> bool) -> bool {
    forall|i: int|
        0 <= i < events.len() ==> match #[trigger] events[i] {
            Event::Enqueue { thread, item } => mine(item) == (thread == producer),
            _ => true,
        }
}

/// The item that the thread `producer` is still to put into the queue, as a
/// sequence of one item or none.
pub open spec fn held_by<T>(threads: Seq<Thread<T>>, producer: int) -> Seq<T> {
    if 0 <= producer < threads.len() {
        match pending_of(threads[producer]) {
            Some(item) => seq![item],
            None => Seq::empty(),
        }
    } else {
        Seq::empty()
    }
}

/// What holds of the items of one producer at every instant of a run in
/// which `mine` marks them: those that entered the queue, followed by the one
/// that the producer still holds, are those that it handed in, in the order
/// in which it handed them in; and no other thread holds one of them.
pub open spec fn producer_sound<T>(w: World<T>, producer: int, mine: spec_fn(T) -> bool) -> bool {
    &&& w.entered.filter(mine) + held_by(w.threads, producer) == w.handed_in.filter(mine)
    &&& forall|t: int|
        0 <= t < w.threads.len() ==> match pending_of(#[trigger] w.threads[t]) {
            Some(item) => mine(item) == (t == producer),
            None => true,
        }
}

proof fn lemma_filter_push<T>(s: Seq<T>, x: T, pred: spec_fn(T) -> bool)
    ensures
        s.push(x).filter(pred) == (if pred(x) {
            s.filter(pred).push(x)
        } else {
            s.filter(pred)
        }),
{
    assert(s.push(x).drop_last() =~= s);
    reveal(Seq::filter);
}

proof fn lemma_producer_event<T>(w: World<T>, e: Event<T>, producer: int, mine: spec_fn(T) -> bool)
    requires
        sound(w),
        producer_sound(w, producer, mine),
        match e {
            Event::Enqueue { thread, item } => mine(item) == (thread == producer),
            _ => true,
        },
    ensures
        producer_sound(after(w, e), producer, mine),
{
    let v = after(w, e);
    match e {
        Event::Enqueue { thread, item } => {
            if 0 <= thread < w.threads.len() && w.threads[thread] is Idle {
                lemma_filter_push(w.handed_in, item, mine);
                assert forall|t: int| 0 <= t < v.threads.len() implies match pending_of(
                    #[trigger] v.threads[t],
                ) {
                    Some(x) => mine(x) == (t == producer),
                    None => true,
                } by {
                    if t != thread {
                        assert(v.threads[t] == w.threads[t]);
                    }
                }
                if thread == producer {
                    assert(held_by(w.threads, producer) =~= Seq::<T>::empty());
                    assert(held_by(v.threads, producer) =~= seq![item]);
                    assert(v.entered.filter(mine) + held_by(v.threads, producer)
                        =~= w.handed_in.filter(mine).push(item));
                } else {
                    assert(held_by(v.threads, producer) == held_by(w.threads, producer));
                }
            }
        },
        Event::Dequeue { thread } => {
            if 0 <= thread < w.threads.len() && w.threads[thread] is Idle {
                assert forall|t: int| 0 <= t < v.threads.len() implies match pending_of(
                    #[trigger] v.threads[t],
                ) {
                    Some(x) => mine(x) == (t == producer),
                    None => true,
                } by {
                    if t != thread {
                        assert(v.threads[t] == w.threads[t]);
                    }
                }
                assert(held_by(v.threads, producer) == held_by(w.threads, producer));
            }
        },
        Event::Step { thread } => {
            if 0 <= thread < w.threads.len() {
                assert(in_order(w.threads[thread]));
                match w.threads[thread] {
                    Thread::Idle => {},
                    Thread::Enqueuing(held) => {
                        let op = held.fitted(w.memory);
                        lemma_fitted(held, DequeueOp::ReadHead, w.memory);
                        if !op.takes_effect(w.memory) || w.memory.chain.len() < usize::MAX {
                            lemma_enqueue_step(w.memory, op);
                            let stepped = w.memory.enqueue_step(op);
                            let new = enqueuing(stepped.1);
                            assert(pending_of(new) == stepped.1.pending());
                            assert forall|t: int| 0 <= t < v.threads.len() implies match pending_of(
                                #[trigger] v.threads[t],
                            ) {
                                Some(x) => mine(x) == (t == producer),
                                None => true,
                            } by {
                                if t != thread {
                                    assert(v.threads[t] == w.threads[t]);
                                } else {
                                    assert(pending_of(w.threads[t]) == op.pending());
                                }
                            }
                            if op.takes_effect(w.memory) {
                                let item = op.pending().unwrap();
                                assert(pending_of(w.threads[thread]) == Some(item));
                                lemma_filter_push(w.entered, item, mine);
                                if thread == producer {
                                    assert(held_by(w.threads, producer) =~= seq![item]);
                                    assert(held_by(v.threads, producer) =~= Seq::<T>::empty());
                                    assert(v.entered.filter(mine) + held_by(v.threads, producer)
                                        =~= w.entered.filter(mine) + held_by(w.threads, producer));
                                } else {
                                    assert(held_by(v.threads, producer) == held_by(
                                        w.threads,
                                        producer,
                                    ));
                                }
                            } else {
                                assert(held_by(v.threads, producer) =~= held_by(
                                    w.threads,
                                    producer,
                                ));
                            }
                        }
                    },
                    Thread::Dequeuing(held) => {
                        let op = held.fitted(w.memory);
                        let stepped = w.memory.dequeue_step(op);
                        let new = dequeuing(stepped.1);
                        assert(pending_of(new) is None);
                        assert forall|t: int| 0 <= t < v.threads.len() implies match pending_of(
                            #[trigger] v.threads[t],
                        ) {
                            Some(x) => mine(x) == (t == producer),
                            None => true,
                        } by {
                            if t != thread {
                                assert(v.threads[t] == w.threads[t]);
                            }
                        }
                        assert(held_by(v.threads, producer) =~= held_by(w.threads, producer));
                    },
                }
            }
        },
        Event::Reclaim => {},
    }
}

proof fn lemma_producer_run<T>(
    threads: nat,
    events: Seq<Event<T>>,
    producer: int,
    mine: spec_fn(T) -> bool,
)
    requires
        marks(events, producer, mine),
    ensures
        sound(run(threads, events)),
        producer_sound(run(threads, events), producer, mine),
    decreases events.len(),
{
    lemma_run_sound(threads, events);
    if events.len() == 0 {
        let w = initial::<T>(threads);
        reveal(Seq::filter);
        assert(w.entered.filter(mine) =~= Seq::<T>::empty());
        assert(w.handed_in.filter(mine) =~= Seq::<T>::empty());
        assert(held_by(w.threads, producer) =~= Seq::<T>::empty());
        assert(w.entered.filter(mine) + held_by(w.threads, producer) =~= w.handed_in.filter(mine));
    } else {
        let before = events.drop_last();
        assert forall|i: int| 0 <= i < before.len() implies match #[trigger] before[i] {
            Event::Enqueue { thread, item } => mine(item) == (thread == producer),
            _ => true,
        } by {
            assert(before[i] == events[i]);
        }
        lemma_producer_run(threads, before, producer, mine);
        assert(events.last() == events[events.len() - 1]);
        lemma_producer_event(run(threads, before), events.last(), producer, mine);
    }
}

/// Order within one producer, under every interleaving: in a run in which
/// `mine` marks the items of one producer, consumers take these items in
/// the order in which the producer handed them in, and pass over none:
/// those taken so far are the first of those handed in.
pub proof fn lemma_each_producer_in_order<T>(
    threads: nat,
    events: Seq<Event<T>>,
    producer: int,
    mine: spec_fn(T) -> bool,
)
    requires
        marks(events, producer, mine),
    ensures
        run(threads, events).taken.filter(mine).is_prefix_of(
            run(threads, events).handed_in.filter(mine),
        ),
{
    lemma_producer_run(threads, events, producer, mine);
    let w = run(threads, events);
    Seq::filter_distributes_over_add(w.taken, w.memory.items(), mine);
    assert(w.handed_in.filter(mine) =~= w.taken.filter(mine) + (w.memory.items().filter(mine)
        + held_by(w.threads, producer)));
}

/// No operation disturbs another: in a run in which no nodes are given
/// back, the references of every operation under way fit the memory at
/// every instant, so no operation ever starts over for that reason.
pub proof fn lemma_operations_always_fit<T>(threads: nat, events: Seq<Event<T>>)
    requires
        forall|i: int| 0 <= i < events.len() ==> !(#[trigger] events[i] is Reclaim),
    ensures
        forall|t: int|
            0 <= t < run(threads, events).threads.len() ==> fits(
                #[trigger] run(threads, events).threads[t],
                run(threads, events).memory,
            ),
    decreases events.len(),
{
    lemma_run_sound(threads, events);
    if events.len() > 0 {
        let before = events.drop_last();
        assert forall|i: int| 0 <= i < before.len() implies !(#[trigger] before[i] is Reclaim) by {
            assert(before[i] == events[i]);
        }
        lemma_operations_always_fit(threads, before);
        lemma_run_sound(threads, before);
        let w = run(threads, before);
        let e = events.last();
        assert(e == events[events.len() - 1]);
        let v = after(w, e);
        assert forall|t: int| 0 <= t < v.threads.len() implies fits(
            #[trigger] v.threads[t],
            v.memory,
        ) by {
            assert(fits(w.threads[t], w.memory));
            assert(in_order(w.threads[t]));
            match e {
                Event::Step { thread } => {
                    if 0 <= thread < w.threads.len() {
                        assert(fits(w.threads[thread], w.memory));
                        assert(in_order(w.threads[thread]));
                        match w.threads[thread] {
                            Thread::Idle => {},
                            Thread::Enqueuing(op) => {
                                if !op.takes_effect(w.memory) || w.memory.chain.len()
                                    < usize::MAX {
                                    lemma_enqueue_step(w.memory, op);
                                }
                            },
                            Thread::Dequeuing(op) => {
                                lemma_dequeue_step(w.memory, op);
                            },
                        }
                        if t != thread {
                            assert(w.memory.grown_to(v.memory));
                            match w.threads[t] {
                                Thread::Idle => {},
                                Thread::Enqueuing(op) => lemma_enqueue_stays_valid(
                                    op,
                                    w.memory,
                                    v.memory,
                                ),
                                Thread::Dequeuing(op) => lemma_dequeue_stays_valid(
                                    op,
                                    w.memory,
                                    v.memory,
                                ),
                            }
                        }
                    }
                },
                _ => {},
            }
        }
    }
}

} // verus!
