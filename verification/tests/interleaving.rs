use mpmc_queue::non_blocking::{DequeueOp, EnqueueOp, NonBlockingQueue};

/// A small generator of numbers that look random and are the same in every
/// run.
struct Dice(u64);

impl Dice {
    fn roll(&mut self, sides: usize) -> usize {
        self.0 = self.0.wrapping_mul(6364136223846793005).wrapping_add(1442695040888963407);
        ((self.0 >> 33) as usize) % sides
    }
}

struct Producer {
    id: usize,
    next: usize,
    items: usize,
    op: Option<EnqueueOp<(usize, usize)>>,
}

struct Consumer {
    op: DequeueOp<(usize, usize)>,
    got: Vec<(usize, usize)>,
}

/// Runs `producers` producers of `items` items each against `consumers`
/// consumers, one atomic step at a time, in the order that `dice` picks.
/// Every step is made only after its operation was found to fit the queue.
/// With `reclaim_every` set, retired nodes are given back every so many
/// steps and operations that fit no longer start over.
fn run(
    producers: usize,
    consumers: usize,
    items: usize,
    seed: u64,
    reclaim_every: Option<usize>,
) -> Vec<Vec<(usize, usize)>> {
    let mut dice = Dice(seed);
    let mut q: NonBlockingQueue<(usize, usize)> = NonBlockingQueue::new();
    let mut ps: Vec<Producer> =
        (0..producers).map(|id| Producer { id, next: 0, items, op: None }).collect();
    let mut cs: Vec<Consumer> =
        (0..consumers).map(|_| Consumer { op: DequeueOp::begin(), got: Vec::new() }).collect();
    let total = producers * items;
    let mut consumed = 0;
    let mut steps: usize = 0;
    while consumed < total {
        steps += 1;
        assert!(steps < 400 * (total + 1), "the run does not end");
        if let Some(every) = reclaim_every {
            if steps % every == 0 {
                q.reclaim();
            }
        }
        let pick = dice.roll(producers + consumers);
        if pick < producers {
            let p = &mut ps[pick];
            let op = match p.op.take() {
                Some(op) => op,
                None => {
                    if p.next == p.items {
                        continue;
                    }
                    p.next += 1;
                    EnqueueOp::begin((p.id, p.next))
                }
            };
            let op = if op.fits(&q) { op } else { op.restart() };
            let op = q.step_enqueue(op);
            p.op = if op.is_done() { None } else { Some(op) };
        } else {
            let c = &mut cs[pick - producers];
            let op = std::mem::replace(&mut c.op, DequeueOp::begin());
            let op = if op.fits(&q) { op } else { op.restart() };
            let op = q.step_dequeue(op);
            if op.is_done() {
                if let Some(item) = op.into_item() {
                    c.got.push(item);
                    consumed += 1;
                }
            } else {
                c.op = op;
            }
        }
    }
    cs.into_iter().map(|c| c.got).collect()
}

fn check_conservation_and_order(got: &[Vec<(usize, usize)>], producers: usize, items: usize) {
    let mut seen = vec![vec![0usize; items + 1]; producers];
    let mut count = 0;
    for consumer in got {
        let mut last = vec![0usize; producers];
        for &(p, n) in consumer {
            seen[p][n] += 1;
            count += 1;
            assert!(n > last[p], "items of producer {} came out of order", p);
            last[p] = n;
        }
    }
    assert_eq!(count, producers * items);
    for p in 0..producers {
        for n in 1..=items {
            assert_eq!(seen[p][n], 1, "item {} of producer {}", n, p);
        }
    }
}

#[test]
fn two_producers_of_a_thousand_items_and_two_consumers() {
    let got = run(2, 2, 1000, 1, None);
    let count: usize = got.iter().map(|g| g.len()).sum();
    let sum: usize = got.iter().flat_map(|g| g.iter()).map(|&(_, n)| n).sum();
    assert_eq!(count, 2000);
    assert_eq!(sum, 1_001_000);
}

#[test]
fn four_producers_of_ten_thousand_items_and_four_consumers_end() {
    let got = run(4, 4, 10_000, 7, None);
    let count: usize = got.iter().map(|g| g.len()).sum();
    assert_eq!(count, 40_000);
}

#[test]
fn nothing_is_lost_or_made_in_any_of_many_schedules() {
    for seed in 0..40 {
        let got = run(3, 2, 50, seed, None);
        check_conservation_and_order(&got, 3, 50);
    }
}

#[test]
fn one_consumer_sees_every_producer_in_order() {
    let got = run(5, 1, 200, 11, None);
    check_conservation_and_order(&got, 5, 200);
}

#[test]
fn nothing_is_lost_when_nodes_are_given_back_under_way() {
    for seed in 0..20 {
        let got = run(3, 3, 100, seed, Some(13));
        check_conservation_and_order(&got, 3, 100);
    }
}
