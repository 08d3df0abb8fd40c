//! The shares of a run of terms that a number of tasks take.

use vstd::prelude::*;

verus! {

/// The index of the first term of the share of task `index`, when `tasks`
/// tasks share `terms` terms: every task but the last takes as many terms
/// as all of them can take alike.
pub open spec fn share_start(index: int, tasks: int, terms: int) -> int {
    index * (terms / tasks)
}

/// The number of terms of the share of task `index`: the last task takes
/// what is left, any other as many as all of them can take alike.
pub open spec fn share_count(index: int, tasks: int, terms: int) -> int {
    if index + 1 == tasks {
        terms - share_start(index, tasks, terms)
    } else {
        terms / tasks
    }
}

/// The share of task `index` of `tasks` tasks in `terms` terms: the index of
/// its first term, and the number of its terms.
pub fn task_share(index: usize, tasks: usize, terms: usize) -> (share: (usize, usize))
    requires
        index < tasks,
    ensures
        share.0 == share_start(index as int, tasks as int, terms as int),
        share.1 == share_count(index as int, tasks as int, terms as int),
{
    let each = terms / tasks;
    proof {
        lemma_start_in_reach(index as int, tasks as int, terms as int);
    }
    let start = index * each;
    let count = if index == tasks - 1 {
        terms - start
    } else {
        each
    };
    (start, count)
}

/// The share of task `index` when the terms that are left over are dropped:
/// every task takes as many terms as all of them can take alike.
pub fn even_share(index: usize, tasks: usize, terms: usize) -> (share: (usize, usize))
    requires
        index < tasks,
    ensures
        share.0 == share_start(index as int, tasks as int, terms as int),
        share.1 == terms as int / tasks as int,
{
    let each = terms / tasks;
    proof {
        lemma_start_in_reach(index as int, tasks as int, terms as int);
    }
    (index * each, each)
}

/// No share begins behind the last term.
pub proof fn lemma_start_in_reach(index: int, tasks: int, terms: int)
    requires
        0 <= index < tasks,
        0 <= terms,
    ensures
        0 <= share_start(index, tasks, terms) <= terms,
        share_start(index, tasks, terms) + terms / tasks <= terms,
{
    let each = terms / tasks;
    assert(0 <= each) by (nonlinear_arith)
        requires
            0 <= terms,
            0 < tasks,
            each == terms / tasks,
    ;
    assert(tasks * each <= terms) by (nonlinear_arith)
        requires
            0 <= terms,
            0 < tasks,
            each == terms / tasks,
    ;
    assert((index + 1) * each <= tasks * each) by (nonlinear_arith)
        requires
            index + 1 <= tasks,
            0 <= each,
    ;
    assert((index + 1) * each == index * each + each) by (nonlinear_arith);
    assert(0 <= index * each) by (nonlinear_arith)
        requires
            0 <= index,
            0 <= each,
    ;
}

/// The shares lie side by side and cover the terms: each share begins where
/// the one before it ends, the first at the first term, and the last ends
/// with the last term.
pub proof fn lemma_shares_tile(index: int, tasks: int, terms: int)
    requires
        0 <= index < tasks,
        0 <= terms,
    ensures
        share_start(0, tasks, terms) == 0,
        share_count(index, tasks, terms) >= 0,
        index + 1 < tasks ==> share_start(index, tasks, terms) + share_count(index, tasks, terms)
            == share_start(index + 1, tasks, terms),
        index + 1 == tasks ==> share_start(index, tasks, terms) + share_count(index, tasks, terms)
            == terms,
{
    lemma_start_in_reach(index, tasks, terms);
    let each = terms / tasks;
    assert((index + 1) * each == index * each + each) by (nonlinear_arith);
    assert(0 * each == 0) by (nonlinear_arith);
}

} // verus!
