//! Deadlock detection by the banker's safety algorithm.
//!
//! Resources are numbered: index `MUTEX` (0) stands for all mutexes of a
//! process together, index `SEMAPHORE + s` for semaphore `s`.  A state is
//! described by the vector of available units, and, per thread, the units it
//! holds (`allocation`) and the units it still asks for (`need`).
use vstd::prelude::*;
use crate::sync::Semaphore;
use crate::task::process::{
    held, lemma_count_keys, ProcessControlBlockInner,
    TaskUserRes, ThreadControlBlock,
};

verus! {

/// The resource index that stands for all mutexes of a process.
pub const MUTEX: usize = 0;

/// The resource index of semaphore 0; semaphore `s` is at `SEMAPHORE + s`.
pub const SEMAPHORE: usize = 1;

/// Sum of column `j` of `alloc` over the rows named by `order`.
pub open spec fn col_sum(alloc: Seq<Seq<usize>>, order: Seq<int>, j: int) -> int
    decreases order.len(),
{
    if order.len() == 0 {
        0
    } else {
        col_sum(alloc, order.drop_last(), j) + alloc[order.last()][j]
    }
}

/// Units of resource `j` free once the threads in `order` have finished and
/// given back what they hold.
pub open spec fn work_after(avail: Seq<usize>, alloc: Seq<Seq<usize>>, order: Seq<int>, j: int) -> int {
    avail[j] + col_sum(alloc, order, j)
}

/// A thread whose need is `need_row` can run to completion once the threads
/// in `order` have finished.
pub open spec fn can_finish(
    need_row: Seq<usize>,
    avail: Seq<usize>,
    alloc: Seq<Seq<usize>>,
    order: Seq<int>,
) -> bool {
    forall|j: int| 0 <= j < avail.len() ==> need_row[j] <= work_after(avail, alloc, order, j)
}

/// `order` lists every thread exactly once, and each one can finish after
/// the ones listed before it.
pub open spec fn is_safe_order(
    avail: Seq<usize>,
    alloc: Seq<Seq<usize>>,
    need: Seq<Seq<usize>>,
    order: Seq<int>,
) -> bool {
    &&& order.no_duplicates()
    &&& forall|k: int| 0 <= k < order.len() ==> 0 <= #[trigger] order[k] < alloc.len()
    &&& forall|i: int| 0 <= i < alloc.len() ==> #[trigger] order.contains(i)
    &&& forall|k: int|
        0 <= k < order.len() ==> can_finish(
            need[#[trigger] order[k]],
            avail,
            alloc,
            order.take(k),
        )
}

/// The state is safe: some order lets every thread finish.
pub open spec fn is_safe_state(avail: Seq<usize>, alloc: Seq<Seq<usize>>, need: Seq<Seq<usize>>) -> bool {
    exists|order: Seq<int>| is_safe_order(avail, alloc, need, order)
}

/// The indices `0 .. n` in increasing order.
pub open spec fn all_rows(n: int) -> Seq<int> {
    Seq::new(n as nat, |i: int| i)
}

/// Every row of `alloc` and `need` covers every resource, and there is one
/// need row per allocation row.
pub open spec fn matrices_well_shaped(
    avail: Seq<usize>,
    alloc: Seq<Seq<usize>>,
    need: Seq<Seq<usize>>,
) -> bool {
    &&& need.len() == alloc.len()
    &&& forall|i: int| 0 <= i < alloc.len() ==> #[trigger] alloc[i].len() >= avail.len()
    &&& forall|i: int| 0 <= i < need.len() ==> #[trigger] need[i].len() >= avail.len()
}

/// The rows of a matrix, each by its view.
pub open spec fn rows_of(m: Seq<Vec<usize>>) -> Seq<Seq<usize>> {
    m.map_values(|r: Vec<usize>| r@)
}

proof fn lemma_col_sum_nonneg(alloc: Seq<Seq<usize>>, order: Seq<int>, j: int)
    ensures
        col_sum(alloc, order, j) >= 0,
    decreases order.len(),
{
    if order.len() > 0 {
        lemma_col_sum_nonneg(alloc, order.drop_last(), j);
    }
}

proof fn lemma_col_sum_remove(alloc: Seq<Seq<usize>>, b: Seq<int>, idx: int, j: int)
    requires
        0 <= idx < b.len(),
    ensures
        col_sum(alloc, b, j) == col_sum(alloc, b.remove(idx), j) + alloc[b[idx]][j],
    decreases b.len(),
{
    if idx == b.len() - 1 {
        assert(b.remove(idx) =~= b.drop_last());
    } else {
        let r = b.remove(idx);
        assert(r.drop_last() =~= b.drop_last().remove(idx));
        assert(r.last() == b.last());
        lemma_col_sum_remove(alloc, b.drop_last(), idx, j);
    }
}

proof fn lemma_col_sum_subset(alloc: Seq<Seq<usize>>, a: Seq<int>, b: Seq<int>, j: int)
    requires
        a.no_duplicates(),
        b.no_duplicates(),
        forall|k: int| 0 <= k < a.len() ==> b.contains(#[trigger] a[k]),
    ensures
        col_sum(alloc, a, j) <= col_sum(alloc, b, j),
    decreases a.len(),
{
    if a.len() == 0 {
        lemma_col_sum_nonneg(alloc, b, j);
    } else {
        let x = a.last();
        assert(b.contains(a[a.len() - 1]));
        let idx = b.index_of(x);
        let b2 = b.remove(idx);
        let a2 = a.drop_last();
        lemma_col_sum_remove(alloc, b, idx, j);
        assert forall|k: int| 0 <= k < a2.len() implies b2.contains(#[trigger] a2[k]) by {
            let y = a2[k];
            assert(a[k] == y);
            assert(b.contains(a[k]));
            let p = b.index_of(y);
            assert(y != x);
            if p < idx {
                assert(b2[p] == y);
            } else {
                assert(p != idx);
                assert(b2[p - 1] == y);
            }
        }
        assert(b2.no_duplicates()) by {
            assert forall|p: int, q: int| 0 <= p < b2.len() && 0 <= q < b2.len() && p != q implies b2[p]
                != b2[q] by {
                let pp = if p < idx { p } else { p + 1 };
                let qq = if q < idx { q } else { q + 1 };
                assert(b2[p] == b[pp]);
                assert(b2[q] == b[qq]);
            }
        }
        lemma_col_sum_subset(alloc, a2, b2, j);
    }
}

proof fn lemma_col_sum_bound(alloc: Seq<Seq<usize>>, order: Seq<int>, j: int)
    ensures
        col_sum(alloc, order, j) <= order.len() * (usize::MAX as int),
    decreases order.len(),
{
    if order.len() > 0 {
        lemma_col_sum_bound(alloc, order.drop_last(), j);
        let l = order.len() as int;
        let mx = usize::MAX as int;
        assert((l - 1) * mx + mx == l * mx) by (nonlinear_arith);
    }
}

/// What the check adds up for one resource stays within a `u128`: the
/// available units and at most `n` rows of `usize` values.
proof fn lemma_work_fits(avail: Seq<usize>, alloc: Seq<Seq<usize>>, done: Seq<int>, j: int, n: int)
    requires
        0 <= j < avail.len(),
        done.len() <= n,
        n <= usize::MAX,
    ensures
        work_after(avail, alloc, done, j) <= u128::MAX,
{
    lemma_col_sum_bound(alloc, done, j);
    let l = done.len() as int;
    let mx = usize::MAX as int;
    assert(mx <= 0xffff_ffff_ffff_ffff);
    assert(l * mx <= mx * mx) by (nonlinear_arith)
        requires
            0 <= l <= mx,
    ;
    assert(mx * mx + mx <= u128::MAX) by (nonlinear_arith)
        requires
            0 <= mx <= 0xffff_ffff_ffff_ffff,
    ;
}

proof fn lemma_len_bound(done: Seq<int>, n: int)
    requires
        0 <= n,
        done.no_duplicates(),
        forall|k: int| 0 <= k < done.len() ==> 0 <= #[trigger] done[k] < n,
    ensures
        done.len() <= n,
{
    done.unique_seq_to_set();
    vstd::set_lib::lemma_int_range(0, n);
    assert(done.to_set().subset_of(vstd::set_lib::set_int_range(0, n)));
    vstd::set_lib::lemma_len_subset(done.to_set(), vstd::set_lib::set_int_range(0, n));
}

proof fn lemma_take_push(order: Seq<int>, x: int, k: int)
    requires
        0 <= k <= order.len(),
    ensures
        order.push(x).take(k) == order.take(k),
{
    assert(order.push(x).take(k) =~= order.take(k));
}

/// Whether `need_row` fits within `work` on every resource.
fn fits(need_row: &Vec<usize>, work: &Vec<u128>) -> (ok: bool)
    requires
        need_row.len() >= work.len(),
    ensures
        ok == (forall|j: int| 0 <= j < work.len() ==> need_row[j] <= work[j]),
{
    let mut j: usize = 0;
    while j < work.len()
        invariant
            j <= work.len(),
            need_row.len() >= work.len(),
            forall|q: int| 0 <= q < j ==> need_row[q] <= work[q],
        decreases work.len() - j,
    {
        if need_row[j] as u128 > work[j] {
            return false;
        }
        j = j + 1;
    }
    true
}

/// Checks whether the state is deadlocked; `true` means deadlock.
///
/// Starting from `available`, it repeatedly lets the first unfinished thread
/// whose need fits finish and give back what it holds; the state is
/// deadlocked when some thread can never finish.  The answer is exactly that
/// no order exists in which every thread can finish.
pub fn check_deadlock(available: Vec<usize>, allocation: Vec<Vec<usize>>, need: Vec<Vec<usize>>) -> (deadlock: bool)
    requires
        matrices_well_shaped(available@, rows_of(allocation@), rows_of(need@)),
    ensures
        deadlock == !is_safe_state(available@, rows_of(allocation@), rows_of(need@)),
{
    let ghost avail = available@;
    let ghost alloc = rows_of(allocation@);
    let ghost needs = rows_of(need@);
    let n = allocation.len();
    let m = available.len();
    proof {
        assert(alloc.len() == n);
        assert(needs.len() == need@.len());
    }
    // what is free after the finished threads gave back what they hold
    let mut work: Vec<u128> = Vec::new();
    while work.len() < m
        invariant
            m == available.len(),
            work.len() <= m,
            forall|q: int| 0 <= q < work.len() ==> work[q] == available[q],
        decreases m - work.len(),
    {
        let q = work.len();
        work.push(available[q] as u128);
    }
    proof {
        assert forall|j: int| 0 <= j < m implies work[j] == #[trigger] work_after(avail, alloc, Seq::<int>::empty(), j) by {}
    }
    let mut finish: Vec<bool> = Vec::new();
    while finish.len() < n
        invariant
            finish.len() <= n,
            forall|i: int| 0 <= i < finish.len() ==> !finish[i],
        decreases n - finish.len(),
    {
        finish.push(false);
    }
    let ghost mut done: Seq<int> = Seq::empty();
    loop
        invariant
            n == allocation.len(),
            n == need.len(),
            m == avail.len(),
            avail == available@,
            alloc == rows_of(allocation@),
            needs == rows_of(need@),
            alloc.len() == n,
            needs.len() == n,
            matrices_well_shaped(avail, alloc, needs),
            work.len() == m,
            finish.len() == n,
            done.no_duplicates(),
            done.len() <= n,
            forall|k: int| 0 <= k < done.len() ==> 0 <= #[trigger] done[k] < n,
            forall|i: int| 0 <= i < n ==> (finish[i] <==> done.contains(i)),
            forall|j: int| 0 <= j < m ==> work[j] == #[trigger] work_after(avail, alloc, done, j),
            forall|k: int|
                0 <= k < done.len() ==> can_finish(needs[#[trigger] done[k]], avail, alloc, done.take(k)),
        decreases n - done.len(),
    {
        // the first unfinished thread whose need fits
        let mut i: usize = 0;
        let mut found = false;
        while i < n && !found
            invariant
                n == allocation.len(),
                n == need.len(),
                m == avail.len(),
                needs == rows_of(need@),
                needs.len() == n,
                matrices_well_shaped(avail, alloc, needs),
                work.len() == m,
                finish.len() == n,
                i <= n,
                found ==> i < n && !finish[i as int] && (forall|j: int|
                    0 <= j < m ==> needs[i as int][j] <= work[j]),
                !found ==> forall|q: int|
                    0 <= q < i ==> finish[q] || exists|j: int| 0 <= j < m && needs[q][j] > work[j],
            decreases n - i + (if found { 0int } else { 1int }),
        {
            assert(need@[i as int]@ == needs[i as int]);
            if !finish[i] && fits(&need[i], &work) {
                found = true;
            } else {
                i = i + 1;
            }
        }
        if !found {
            // nothing more can finish: deadlock iff some thread is unfinished
            let mut k: usize = 0;
            while k < n
                invariant
                    k <= n,
                    avail == available@,
                    alloc == rows_of(allocation@),
                    needs == rows_of(need@),
                    n == allocation.len(),
                    m == avail.len(),
                    alloc.len() == n,
                    needs.len() == n,
                    matrices_well_shaped(avail, alloc, needs),
                    work.len() == m,
                    finish.len() == n,
                    done.no_duplicates(),
                    forall|k: int| 0 <= k < done.len() ==> 0 <= #[trigger] done[k] < n,
                    forall|i: int| 0 <= i < n ==> (finish[i] <==> done.contains(i)),
                    forall|j: int| 0 <= j < m ==> work[j] == #[trigger] work_after(avail, alloc, done, j),
                    forall|k: int|
                        0 <= k < done.len() ==> can_finish(
                            needs[#[trigger] done[k]],
                            avail,
                            alloc,
                            done.take(k),
                        ),
                    forall|q: int|
                        0 <= q < n ==> finish[q] || exists|j: int| 0 <= j < m && needs[q][j] > work[j],
                    forall|q: int| 0 <= q < k ==> finish[q],
                decreases n - k,
            {
                if !finish[k] {
                    proof {
                        assert forall|i: int| 0 <= i < n && !done.contains(i) implies !can_finish(
                            #[trigger] needs[i],
                            avail,
                            alloc,
                            done,
                        ) by {
                            assert(!finish[i]);
                            let j = choose|j: int| 0 <= j < m && needs[i][j] > work[j];
                            assert(work[j] == work_after(avail, alloc, done, j));
                        }
                        lemma_stuck_is_unsafe(avail, alloc, needs, done, k as int);
                    }
                    return true;
                }
                k = k + 1;
            }
            proof {
                assert forall|q: int| 0 <= q < alloc.len() implies #[trigger] done.contains(q) by {
                    assert(finish[q]);
                }
                assert(is_safe_order(avail, alloc, needs, done));
            }
            return false;
        }
        // thread `i` finishes and gives back what it holds
        proof {
            assert(!done.contains(i as int));
            assert forall|j: int| 0 <= j < m implies needs[i as int][j] <= work_after(avail, alloc, done, j) by {
                assert(work[j] == work_after(avail, alloc, done, j));
            }
        }
        let ghost old_done = done;
        let ghost new_done = done.push(i as int);
        proof {
            assert(new_done.no_duplicates());
            assert forall|k: int| 0 <= k < new_done.len() implies all_rows(n as int).contains(
                #[trigger] new_done[k],
            ) by {
                assert(all_rows(n as int)[new_done[k]] == new_done[k]);
            }
            assert(all_rows(n as int).no_duplicates());
            assert(new_done.drop_last() =~= old_done);
            assert(allocation@[i as int]@ == alloc[i as int]);
        }
        let mut j: usize = 0;
        while j < m
            invariant
                n == allocation.len(),
                m == avail.len(),
                alloc == rows_of(allocation@),
                alloc.len() == n,
                matrices_well_shaped(avail, alloc, needs),
                i < n,
                j <= m,
                work.len() == m,
                allocation@[i as int]@ == alloc[i as int],
                new_done == old_done.push(i as int),
                new_done.drop_last() == old_done,
                new_done.no_duplicates(),
                all_rows(n as int).no_duplicates(),
                forall|k: int| 0 <= k < new_done.len() ==> all_rows(n as int).contains(#[trigger] new_done[k]),
                forall|q: int| 0 <= q < j ==> work[q] == #[trigger] work_after(avail, alloc, new_done, q),
                forall|q: int| j <= q < m ==> work[q] == #[trigger] work_after(avail, alloc, old_done, q),
            decreases m - j,
        {
            proof {
                lemma_len_bound(new_done, n as int);
                lemma_work_fits(avail, alloc, new_done, j as int, n as int);
                assert(work[j as int] == work_after(avail, alloc, old_done, j as int));
                assert(work_after(avail, alloc, new_done, j as int) == work_after(avail, alloc, old_done, j as int) + alloc[i as int][j as int]);
            }
            work.set(j, work[j] + allocation[i][j] as u128);
            j = j + 1;
        }
        finish.set(i, true);
        proof {
            done = new_done;
            lemma_len_bound(done, n as int);
            assert forall|k: int| 0 <= k < done.len() implies can_finish(
                needs[#[trigger] done[k]],
                avail,
                alloc,
                done.take(k),
            ) by {
                if k < old_done.len() {
                    lemma_take_push(old_done, i as int, k);
                } else {
                    assert(done.take(k) =~= old_done);
                }
            }
            assert forall|q: int| 0 <= q < n implies (finish[q] <==> done.contains(q)) by {
                if q == i {
                    assert(done[done.len() - 1] == q);
                } else {
                    if done.contains(q) {
                        let p = done.index_of(q);
                        assert(old_done[p] == q);
                    }
                    if old_done.contains(q) {
                        let p = old_done.index_of(q);
                        assert(done[p] == q);
                    }
                }
            }
        }
    }
}

/// The first position of `order` whose thread is not in `done`, at or
/// before `pos`.
proof fn first_outside(order: Seq<int>, done: Seq<int>, pos: int) -> (k: int)
    requires
        0 <= pos < order.len(),
        !done.contains(order[pos]),
    ensures
        0 <= k <= pos,
        !done.contains(order[k]),
        forall|p: int| 0 <= p < k ==> done.contains(#[trigger] order[p]),
    decreases pos,
{
    if forall|p: int| 0 <= p < pos ==> done.contains(#[trigger] order[p]) {
        pos
    } else {
        let p = choose|p: int| 0 <= p < pos && !done.contains(#[trigger] order[p]);
        first_outside(order, done, p)
    }
}

/// When no thread outside `done` can finish, yet thread `u` is not in
/// `done`, no safe order exists.
proof fn lemma_stuck_is_unsafe(
    avail: Seq<usize>,
    alloc: Seq<Seq<usize>>,
    needs: Seq<Seq<usize>>,
    done: Seq<int>,
    u: int,
)
    requires
        matrices_well_shaped(avail, alloc, needs),
        done.no_duplicates(),
        0 <= u < alloc.len(),
        !done.contains(u),
        forall|i: int|
            0 <= i < alloc.len() && !done.contains(i) ==> !can_finish(
                #[trigger] needs[i],
                avail,
                alloc,
                done,
            ),
    ensures
        !is_safe_state(avail, alloc, needs),
{
    if is_safe_state(avail, alloc, needs) {
        let order = choose|order: Seq<int>| is_safe_order(avail, alloc, needs, order);
        assert(order.contains(u));
        let pos = order.index_of(u);
        let k = first_outside(order, done, pos);
        let t = order[k];
        let prefix = order.take(k);
        assert(0 <= t < alloc.len());
        assert(can_finish(needs[t], avail, alloc, prefix));
        assert(prefix.no_duplicates()) by {
            assert forall|p: int, q: int| 0 <= p < prefix.len() && 0 <= q < prefix.len() && p != q implies prefix[p]
                != prefix[q] by {
                assert(prefix[p] == order[p]);
                assert(prefix[q] == order[q]);
            }
        }
        assert forall|p: int| 0 <= p < prefix.len() implies done.contains(#[trigger] prefix[p]) by {
            assert(prefix[p] == order[p]);
        }
        assert(!can_finish(needs[t], avail, alloc, done));
        let j = choose|j: int| 0 <= j < avail.len() && needs[t][j] > work_after(avail, alloc, done, j);
        lemma_col_sum_subset(alloc, prefix, done, j);
        assert(needs[t][j] <= work_after(avail, alloc, prefix, j));
    }
}

/// `x`, or 0 when it is negative.
pub open spec fn clamp0(x: isize) -> usize {
    if x < 0 {
        0
    } else {
        x as usize
    }
}

/// The threads of a task table that have not exited, in table order.
pub open spec fn live_threads(tasks: Seq<Option<ThreadControlBlock>>) -> Seq<ThreadControlBlock>
    decreases tasks.len(),
{
    if tasks.len() == 0 {
        Seq::empty()
    } else {
        let rest = live_threads(tasks.drop_last());
        match tasks.last() {
            Some(t) => rest.push(t),
            None => rest,
        }
    }
}

/// The number of resource kinds of a process: all its mutexes together,
/// then each semaphore slot.
pub open spec fn resource_len(p: ProcessControlBlockInner) -> int {
    SEMAPHORE + p.semaphore_list@.len()
}

/// Units a semaphore slot offers: its count when positive, else none.
pub open spec fn sem_units(s: Option<Semaphore>) -> usize {
    match s {
        Some(x) => clamp0(x.count),
        None => 0,
    }
}

/// Units of each resource before the threads' holdings are taken off: one
/// per mutex slot, and each semaphore's positive count.
pub open spec fn initial_available(p: ProcessControlBlockInner) -> Seq<usize> {
    Seq::new(
        resource_len(p) as nat,
        |j: int|
            if j == MUTEX {
                p.mutex_list@.len() as usize
            } else {
                sem_units(p.semaphore_list@[j - SEMAPHORE])
            },
    )
}

/// What a thread holds: its mutex count, and per semaphore its positive
/// counted units.
pub open spec fn alloc_row(t: ThreadControlBlock, w: int) -> Seq<usize> {
    Seq::new(
        w as nat,
        |j: int|
            if j == MUTEX {
                t.mutex_cnt
            } else {
                clamp0(held(t.semaphore_cnt@, (j - SEMAPHORE) as usize))
            },
    )
}

/// What a thread asks for: one unit of `res_type` when it is the thread
/// with id `cur_tid`, nothing otherwise.
pub open spec fn need_row(t: ThreadControlBlock, w: int, cur_tid: usize, res_type: usize) -> Seq<usize> {
    Seq::new(
        w as nat,
        |j: int|
            if t.res == Some(TaskUserRes { tid: cur_tid }) && j == res_type {
                1usize
            } else {
                0usize
            },
    )
}

/// The allocation matrix: one row per live thread.
pub open spec fn allocation_of(p: ProcessControlBlockInner) -> Seq<Seq<usize>> {
    live_threads(p.tasks@).map_values(|t: ThreadControlBlock| alloc_row(t, resource_len(p)))
}

/// The need matrix: one row per live thread.
pub open spec fn need_of(p: ProcessControlBlockInner, cur_tid: usize, res_type: usize) -> Seq<Seq<usize>> {
    live_threads(p.tasks@).map_values(
        |t: ThreadControlBlock| need_row(t, resource_len(p), cur_tid, res_type),
    )
}

/// Units of each resource that are free now: the mutex slots less the
/// mutex acquisitions the live threads have counted, and each semaphore's
/// positive count (a semaphore's count already leaves out the units its
/// holders took).
pub open spec fn available_of(p: ProcessControlBlockInner) -> Seq<usize> {
    Seq::new(
        resource_len(p) as nat,
        |j: int|
            if j == MUTEX {
                (initial_available(p)[j] - col_sum(
                    allocation_of(p),
                    all_rows(allocation_of(p).len() as int),
                    j,
                )) as usize
            } else {
                initial_available(p)[j]
            },
    )
}

/// What the banker's check counts as free of a semaphore is its count when
/// that is not negative, and nothing when threads wait on it (a negative
/// count) or the slot is empty; the mutexes offer their slots less the
/// acquisitions the live threads counted.
pub proof fn law_available_units(p: ProcessControlBlockInner, s: int)
    requires
        0 <= s < p.semaphore_list@.len(),
    ensures
        available_of(p).len() == p.semaphore_list@.len() + 1,
        available_of(p)[SEMAPHORE + s] as int == match p.semaphore_list@[s] {
            Some(x) => if x.count < 0 {
                0
            } else {
                x.count as int
            },
            None => 0,
        },
        p.mutex_list@.len() <= usize::MAX && col_sum(
            allocation_of(p),
            all_rows(allocation_of(p).len() as int),
            MUTEX as int,
        ) <= p.mutex_list@.len() ==> available_of(p)[MUTEX as int] + col_sum(
            allocation_of(p),
            all_rows(allocation_of(p).len() as int),
            MUTEX as int,
        ) == p.mutex_list@.len(),
{
    let cs = col_sum(allocation_of(p), all_rows(allocation_of(p).len() as int), MUTEX as int);
    lemma_col_sum_nonneg(allocation_of(p), all_rows(allocation_of(p).len() as int), MUTEX as int);
    if p.mutex_list@.len() <= usize::MAX {
        assert(initial_available(p)[MUTEX as int] == p.mutex_list@.len());
    }
}

/// The inputs on which the matrices can be built: every counted semaphore
/// key names a semaphore slot, the requested resource exists when some
/// live thread has the current id, and the live threads have counted no
/// more mutex acquisitions than there are mutex slots.
pub open spec fn prepare_ok(p: ProcessControlBlockInner, cur_tid: usize, res_type: usize) -> bool {
    let ts = live_threads(p.tasks@);
    &&& forall|i: int, key: usize|
        0 <= i < ts.len() && #[trigger] ts[i].semaphore_cnt@.contains_key(key) ==> key + SEMAPHORE < resource_len(
            p,
        )
    &&& (exists|i: int| 0 <= i < ts.len() && #[trigger] ts[i].res == Some(TaskUserRes { tid: cur_tid }))
        ==> res_type < resource_len(p)
    &&& col_sum(allocation_of(p), all_rows(allocation_of(p).len() as int), MUTEX as int)
        <= initial_available(p)[MUTEX as int]
}

/// The state that the matrices describe is unsafe for thread `cur_tid`
/// asking for one unit of `res_type`.
pub open spec fn deadlock_detected(p: ProcessControlBlockInner, cur_tid: usize, res_type: usize) -> bool {
    !is_safe_state(available_of(p), allocation_of(p), need_of(p, cur_tid, res_type))
}

proof fn lemma_live_prefix(tasks: Seq<Option<ThreadControlBlock>>, k: int)
    requires
        0 <= k <= tasks.len(),
    ensures
        live_threads(tasks.take(k)).len() <= live_threads(tasks).len(),
        live_threads(tasks.take(k)) == live_threads(tasks).take(live_threads(tasks.take(k)).len() as int),
    decreases tasks.len(),
{
    if k == tasks.len() {
        assert(tasks.take(k) =~= tasks);
        assert(live_threads(tasks).take(live_threads(tasks).len() as int) =~= live_threads(tasks));
    } else {
        assert(tasks.take(k) =~= tasks.drop_last().take(k));
        lemma_live_prefix(tasks.drop_last(), k);
        let a = live_threads(tasks.take(k));
        let b = live_threads(tasks.drop_last());
        let c = live_threads(tasks);
        assert(c.take(b.len() as int) =~= b);
        assert(c.take(a.len() as int) =~= b.take(a.len() as int));
    }
}

proof fn lemma_col_sum_rows_step(alloc: Seq<Seq<usize>>, a: int, j: int)
    requires
        0 <= a,
    ensures
        col_sum(alloc, all_rows(a + 1), j) == col_sum(alloc, all_rows(a), j) + alloc[a][j],
{
    assert(all_rows(a + 1).drop_last() =~= all_rows(a));
}

proof fn lemma_col_sum_rows_mono(alloc: Seq<Seq<usize>>, a: int, b: int, j: int)
    requires
        0 <= a <= b,
    ensures
        col_sum(alloc, all_rows(a), j) <= col_sum(alloc, all_rows(b), j),
    decreases b - a,
{
    if a < b {
        lemma_col_sum_rows_mono(alloc, a, b - 1, j);
        lemma_col_sum_rows_step(alloc, b - 1, j);
    }
}

/// A vector of `n` zeros.
fn zeros(n: usize) -> (v: Vec<usize>)
    ensures
        v@ == Seq::new(n as nat, |j: int| 0usize),
{
    let mut v: Vec<usize> = Vec::new();
    while v.len() < n
        invariant
            v.len() <= n,
            forall|j: int| 0 <= j < v.len() ==> v@[j] == 0,
        decreases n - v.len(),
    {
        v.push(0);
    }
    assert(v@ =~= Seq::new(n as nat, |j: int| 0usize));
    v
}

/// Builds the banker's matrices of a process for thread `current_task_tid`
/// asking for one unit of resource `res_type`, as `prepare_dealock` does,
/// when they can be built; `None` on the inputs where building them fails
/// (a counted semaphore key names no slot, the requested resource does not
/// exist, or more mutex acquisitions are counted than there are mutex
/// slots).
pub fn try_prepare_dealock(
    process_inner: &ProcessControlBlockInner,
    current_task_tid: usize,
    res_type: usize,
) -> (r: Option<(Vec<usize>, Vec<Vec<usize>>, Vec<Vec<usize>>)>)
    ensures
        r is Some <==> prepare_ok(*process_inner, current_task_tid, res_type),
        r is Some ==> {
            let (available, allocation, need) = r->0;
            &&& available@ == available_of(*process_inner)
            &&& rows_of(allocation@) == allocation_of(*process_inner)
            &&& rows_of(need@) == need_of(*process_inner, current_task_tid, res_type)
            &&& matrices_well_shaped(available@, rows_of(allocation@), rows_of(need@))
        },
{
    let ghost p = *process_inner;
    let ghost w = resource_len(p);
    let ghost init = initial_available(p);
    let ghost full = allocation_of(p);
    let ghost fulln = need_of(p, current_task_tid, res_type);
    let ghost live = live_threads(p.tasks@);
    let mut available: Vec<usize> = Vec::new();
    available.push(process_inner.mutex_list.len());
    let mut s: usize = 0;
    while s < process_inner.semaphore_list.len()
        invariant
            p == *process_inner,
            init == initial_available(p),
            s <= process_inner.semaphore_list.len(),
            available@.len() == SEMAPHORE + s,
            forall|j: int| 0 <= j < available@.len() ==> available@[j] == init[j],
        decreases process_inner.semaphore_list.len() - s,
    {
        let v: usize = match &process_inner.semaphore_list[s] {
            Some(semaphore) => if semaphore.count < 0 {
                0
            } else {
                semaphore.count as usize
            },
            None => 0,
        };
        available.push(v);
        s = s + 1;
    }
    assert(available@ =~= init);
    let res_len = available.len();
    let mut allocation: Vec<Vec<usize>> = Vec::new();
    let mut need: Vec<Vec<usize>> = Vec::new();
    let mut k: usize = 0;
    while k < process_inner.tasks.len()
        invariant
            p == *process_inner,
            w == resource_len(p),
            res_len == w,
            init == initial_available(p),
            full == allocation_of(p),
            fulln == need_of(p, current_task_tid, res_type),
            live == live_threads(p.tasks@),
            k <= p.tasks@.len(),
            available@.len() == w,
            live_threads(p.tasks@.take(k as int)) == live.take(allocation@.len() as int),
            allocation@.len() <= live.len(),
            need@.len() == allocation@.len(),
            forall|i: int| 0 <= i < allocation@.len() ==> #[trigger] allocation@[i]@ == full[i],
            forall|i: int| 0 <= i < need@.len() ==> #[trigger] need@[i]@ == fulln[i],
            available@[MUTEX as int] == init[MUTEX as int] - col_sum(full, all_rows(allocation@.len() as int), MUTEX as int),
            forall|j: int| SEMAPHORE <= j < w ==> #[trigger] available@[j] == init[j],
            forall|i: int, key: usize|
                0 <= i < allocation@.len() && #[trigger] live[i].semaphore_cnt@.contains_key(key) ==> key
                    + SEMAPHORE < w,
            forall|i: int|
                0 <= i < allocation@.len() && #[trigger] live[i].res == Some(TaskUserRes { tid: current_task_tid })
                    ==> res_type < w,
        decreases p.tasks@.len() - k,
    {
        let ghost cnt = allocation@.len() as int;
        proof {
            lemma_live_prefix(p.tasks@, k + 1);
            assert(p.tasks@.take(k + 1).drop_last() =~= p.tasks@.take(k as int));
        }
        match &process_inner.tasks[k] {
            None => {
                proof {
                    assert(live_threads(p.tasks@.take(k + 1)) == live_threads(p.tasks@.take(k as int)));
                }
            },
            Some(task) => {
                proof {
                    assert(live_threads(p.tasks@.take(k + 1)) == live_threads(p.tasks@.take(k as int)).push(*task));
                    assert(live_threads(p.tasks@.take(k + 1)).len() == cnt + 1);
                    assert(live.take(cnt + 1)[cnt] == live[cnt]);
                    assert(live[cnt] == *task);
                    assert(full[cnt] == alloc_row(*task, w));
                    assert(fulln[cnt] == need_row(*task, w, current_task_tid, res_type));
                }
                let mut v = zeros(res_len);
                match task.res {
                    Some(res) => {
                        if res.tid == current_task_tid {
                            proof {
                                assert(live[cnt].res == Some(TaskUserRes { tid: current_task_tid }));
                            }
                            if res_type >= res_len {
                                return None;
                            }
                            v.set(res_type, 1);
                        }
                    },
                    None => {},
                }
                proof {
                    assert(v@ =~= need_row(*task, w, current_task_tid, res_type));
                }
                need.push(v);
                // the mutex acquisitions this thread counted are not free
                proof {
                    lemma_col_sum_rows_step(full, cnt, MUTEX as int);
                    lemma_col_sum_rows_mono(full, cnt + 1, full.len() as int, MUTEX as int);
                }
                if available[MUTEX] < task.mutex_cnt {
                    return None;
                }
                let mut cur = zeros(res_len);
                cur.set(MUTEX, task.mutex_cnt);
                available.set(MUTEX, available[MUTEX] - task.mutex_cnt);
                let ghost cnts = task.semaphore_cnt@;
                let ghost mut seen: Set<usize> = Set::empty();
                proof {
                    lemma_count_keys();
                }
                for (sem_key, count_ref) in it: task.semaphore_cnt.iter()
                    invariant
                        p == *process_inner,
                        w == resource_len(p),
                        res_len == w,
                        init == initial_available(p),
                        full == allocation_of(p),
                        0 <= cnt < full.len(),
                        live == live_threads(p.tasks@),
                        live[cnt] == *task,
                        full[cnt] == alloc_row(*task, w),
                        cnts == task.semaphore_cnt@,
                        it.seq().no_duplicates(),
                        cur@.len() == w,
                        cur@[MUTEX as int] == task.mutex_cnt,
                        forall|j: int|
                            SEMAPHORE <= j < w ==> #[trigger] cur@[j] == (if seen.contains((j - SEMAPHORE) as usize) {
                                clamp0(held(cnts, (j - SEMAPHORE) as usize))
                            } else {
                                0usize
                            }),
                        forall|i: int| 0 <= i < it.index() ==> seen.contains(*it.seq()[i].0),
                        forall|x: usize|
                            seen.contains(x) ==> exists|i: int| 0 <= i < it.index() && *it.seq()[i].0 == x,
                        forall|x: usize| seen.contains(x) ==> cnts.contains_key(x) && x + SEMAPHORE < w,
                        forall|x: usize|
                            cnts.contains_key(x) && !seen.contains(x) ==> exists|i: int|
                                it.index() <= i < it.seq().len() && *it.seq()[i].0 == x,
                {
                    let sem_id = *sem_key;
                    let count = *count_ref;
                    proof {
                        assert(it.seq()[it.index() as int] == (sem_key, count_ref));
                        assert(cnts.contains_key(sem_id) && cnts[sem_id] == count);
                        assert(!seen.contains(sem_id)) by {
                            if seen.contains(sem_id) {
                                let i = choose|i: int| 0 <= i < it.index() && *it.seq()[i].0 == sem_id;
                                assert(cnts.contains_key(*it.seq()[i].0) && cnts[*it.seq()[i].0] == *it.seq()[i].1);
                                assert(it.seq()[i] == it.seq()[it.index() as int]);
                            }
                        }
                    }
                    if sem_id >= res_len - SEMAPHORE {
                        proof {
                            assert(live[cnt].semaphore_cnt@.contains_key(sem_id));
                            assert(!prepare_ok(p, current_task_tid, res_type));
                        }
                        return None;
                    }
                    let c: usize = if count < 0 {
                        0
                    } else {
                        count as usize
                    };
                    cur.set(SEMAPHORE + sem_id, c);
                    proof {
                        seen = seen.insert(sem_id);
                    }
                }
                proof {
                    assert forall|x: usize| #[trigger] cnts.contains_key(x) implies seen.contains(x) by {}
                    assert(cur@ =~= alloc_row(*task, w));
                    assert forall|key: usize| #[trigger] live[cnt].semaphore_cnt@.contains_key(key) implies key
                        + SEMAPHORE < w by {
                        assert(seen.contains(key));
                    }
                }
                allocation.push(cur);
            },
        }
        k = k + 1;
    }
    proof {
        assert(p.tasks@.take(p.tasks@.len() as int) =~= p.tasks@);
        assert(live.take(allocation@.len() as int).len() == allocation@.len());
        assert(allocation@.len() == live.len());
        assert(rows_of(allocation@) =~= full);
        assert(rows_of(need@) =~= fulln);
        assert(available@ =~= available_of(p));
        assert(col_sum(full, all_rows(full.len() as int), MUTEX as int) <= init[MUTEX as int]);
        assert(prepare_ok(p, current_task_tid, res_type));
    }
    Some((available, allocation, need))
}

/// Builds the banker's matrices of a process for thread `current_task_tid`
/// asking for one unit of resource `res_type`: the units still available,
/// what each live thread holds, and what each live thread asks for.
pub fn prepare_dealock(
    process_inner: &ProcessControlBlockInner,
    current_task_tid: usize,
    res_type: usize,
) -> (r: (Vec<usize>, Vec<Vec<usize>>, Vec<Vec<usize>>))
    requires
        prepare_ok(*process_inner, current_task_tid, res_type),
    ensures
        r.0@ == available_of(*process_inner),
        rows_of(r.1@) == allocation_of(*process_inner),
        rows_of(r.2@) == need_of(*process_inner, current_task_tid, res_type),
        matrices_well_shaped(r.0@, rows_of(r.1@), rows_of(r.2@)),
{
    try_prepare_dealock(process_inner, current_task_tid, res_type).unwrap()
}

} // verus!
