use vstd::prelude::*;
use vstd::arithmetic::div_mod::lemma_mod_division_less_than_divisor;
use crate::config::MAX_GRID_SPAN;

verus! {

/// Whether row `r` belongs to the worker with index `w` under the
/// striped partition: rows are dealt out modulo the worker count.
pub open spec fn assigned_to(r: int, w: int, count: int) -> bool {
    r % count == w
}

/// How many rows in `[0, h)` the striped partition assigns to worker
/// `w` out of `count`.
pub open spec fn num_assigned(w: int, count: int, h: int) -> int
    decreases h,
{
    if h <= 0 {
        0
    } else {
        num_assigned(w, count, h - 1) + if assigned_to(h - 1, w, count) {
            1 as int
        } else {
            0 as int
        }
    }
}

/// The total row count of workers `0..wn`.
pub open spec fn sum_assigned(wn: int, count: int, h: int) -> int
    decreases wn,
{
    if wn <= 0 {
        0
    } else {
        sum_assigned(wn - 1, count, h) + num_assigned(wn - 1, count, h)
    }
}

/// Every row belongs to exactly one worker: the one with index
/// `r % count`, which is a valid worker index.
pub proof fn lemma_striped_row_unique(r: int, count: int)
    requires
        0 <= r,
        1 <= count,
    ensures
        0 <= r % count < count,
        assigned_to(r, r % count, count),
        forall|w: int| assigned_to(r, w, count) ==> w == r % count,
{
    lemma_mod_division_less_than_divisor(r, count);
}

/// Raising the row bound by one raises the total of the first `wn`
/// workers by one exactly when the new row's worker is among them.
proof fn lemma_sum_assigned_step(wn: int, count: int, h: int)
    requires
        1 <= count,
        1 <= h,
        0 <= h - 1,
    ensures
        sum_assigned(wn, count, h) == sum_assigned(wn, count, h - 1) + if 0 <= (h - 1) % count
            < wn {
            1 as int
        } else {
            0 as int
        },
    decreases wn,
{
    if wn > 0 {
        lemma_sum_assigned_step(wn - 1, count, h);
    }
}

/// A worker's share is between none and all of the rows.
pub proof fn lemma_num_assigned_bounds(w: int, count: int, h: int)
    requires
        0 <= h,
    ensures
        0 <= num_assigned(w, count, h) <= h,
    decreases h,
{
    if h > 0 {
        lemma_num_assigned_bounds(w, count, h - 1);
    }
}

/// Partial worker totals only grow as more workers are counted.
pub proof fn lemma_sum_assigned_monotone(wn1: int, wn2: int, count: int, h: int)
    requires
        wn1 <= wn2,
        0 <= h,
    ensures
        sum_assigned(wn1, count, h) <= sum_assigned(wn2, count, h),
    decreases wn2 - wn1,
{
    if wn1 < wn2 {
        lemma_sum_assigned_monotone(wn1, wn2 - 1, count, h);
        lemma_num_assigned_bounds(wn2 - 1, count, h);
    }
}

/// With no rows, every worker's share is empty.
proof fn lemma_sum_assigned_zero(wn: int, count: int)
    ensures
        sum_assigned(wn, count, 0) == 0,
    decreases wn,
{
    if wn > 0 {
        lemma_sum_assigned_zero(wn - 1, count);
    }
}

/// The striped partition covers every row exactly once: the workers'
/// row counts add up to the full row count.
pub proof fn lemma_partition_counts_sum(count: int, h: int)
    requires
        1 <= count,
        0 <= h,
    ensures
        sum_assigned(count, count, h) == h,
    decreases h,
{
    if h == 0 {
        lemma_sum_assigned_zero(count, count);
    } else {
        lemma_partition_counts_sum(count, h - 1);
        lemma_mod_division_less_than_divisor(h - 1, count);
        lemma_sum_assigned_step(count, count, h);
    }
}

/// The rows of worker `worker` out of `count`: every row in `[0, h)`
/// congruent to the worker index modulo the worker count, in
/// increasing order. Workers own disjoint row sets, so no tile id is
/// ever produced by two workers.
pub fn worker_rows(worker: usize, count: usize, h: usize) -> (rows: Vec<usize>)
    requires
        1 <= count,
        worker < count,
        h <= MAX_GRID_SPAN,
    ensures
        rows.len() == num_assigned(worker as int, count as int, h as int),
        forall|i: int|
            0 <= i < rows.len() ==> (#[trigger] rows[i] < h && assigned_to(rows[i] as int,
                worker as int, count as int)),
        forall|i: int, j: int| 0 <= i < j < rows.len() ==> rows[i] < rows[j],
        forall|r: int|
            0 <= r < h && assigned_to(r, worker as int, count as int) ==> exists|i: int|
                0 <= i < rows.len() && rows[i] == r,
{
    let mut rows: Vec<usize> = Vec::new();
    let mut r: usize = 0;
    while r < h
        invariant
            r <= h <= MAX_GRID_SPAN,
            1 <= count,
            worker < count,
            rows.len() == num_assigned(worker as int, count as int, r as int),
            forall|i: int|
                0 <= i < rows.len() ==> (#[trigger] rows[i] < r && assigned_to(rows[i] as int,
                    worker as int, count as int)),
            forall|i: int, j: int| 0 <= i < j < rows.len() ==> rows[i] < rows[j],
            forall|rr: int|
                0 <= rr < r && assigned_to(rr, worker as int, count as int) ==> exists|i: int|
                    0 <= i < rows.len() && rows[i] == rr,
        decreases h - r,
    {
        let ghost rows_before = rows@;
        if r % count == worker {
            rows.push(r);
            proof {
                assert(rows[rows.len() - 1] == r);
                assert(forall|i: int| 0 <= i < rows_before.len() ==> rows[i] == rows_before[i]);
            }
        }
        r = r + 1;
        proof {
            assert forall|rr: int|
                0 <= rr < r && assigned_to(rr, worker as int, count as int) implies exists|i: int|
                0 <= i < rows.len() && rows[i] == rr by {
                if rr == r - 1 {
                    assert(rows[rows.len() - 1] == rr);
                } else {
                    let i = choose|i: int| 0 <= i < rows_before.len() && rows_before[i] == rr;
                    assert(rows[i] == rr);
                }
            }
        }
    }
    rows
}

/// The lifecycle of one generation run.
#[derive(Clone, Copy, Debug, PartialEq, Eq, Structural)]
pub enum RunState {
    Idle,
    Running,
    Completed,
    Failed,
}

impl RunState {
    /// A run leaves `Idle` once, when its workers are spawned.
    pub fn start(&mut self)
        requires
            *old(self) == RunState::Idle,
        ensures
            *final(self) == RunState::Running,
    {
        *self = RunState::Running;
    }

    /// A running run ends `Completed` when every worker finished its
    /// row range and every batch was persisted.
    pub fn complete(&mut self)
        requires
            *old(self) == RunState::Running,
        ensures
            *final(self) == RunState::Completed,
    {
        *self = RunState::Completed;
    }

    /// A running run ends `Failed` the moment any worker raises an
    /// error; the failure is fatal and nothing is retried.
    pub fn fail(&mut self)
        requires
            *old(self) == RunState::Running,
        ensures
            *final(self) == RunState::Failed,
    {
        *self = RunState::Failed;
    }
}

/// The percentage, rounded down, that `done` rows make of `total`.
pub fn percent_complete(done: usize, total: usize) -> (p: usize)
    requires
        1 <= total <= MAX_GRID_SPAN,
        done <= total,
    ensures
        p == done * 100 as int / (total as int),
        p <= 100,
    {
    proof {
        vstd::arithmetic::mul::lemma_mul_inequality(done as int, total as int, 100);
        vstd::arithmetic::div_mod::lemma_div_is_ordered(done as int * 100, total as int * 100,
            total as int);
        vstd::arithmetic::div_mod::lemma_div_multiples_vanish(100, total as int);
    }
    done * 100 / total
}

} // verus!
