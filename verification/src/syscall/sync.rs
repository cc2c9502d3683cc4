//! Synchronisation system calls of a process: mutexes, semaphores,
//! condition variables, sleeping, and the deadlock-detection switch.
//!
//! The calling thread is named by its index `cur` in the process's thread
//! table.  A call that must wait reports it instead of switching threads:
//! the caller blocks or yields the thread, wakes the thread reported as
//! woken, and, when the waiting thread runs again, completes the call with
//! the continuation the outcome names (`Resume`, or the lock to retry after
//! a yield).
use vstd::prelude::*;
use crate::sync::{unlock_result, Condvar, LockAttempt, Mutex, MutexKind, Semaphore};
use crate::task::process::{
    count_down_if_present, count_up, counted_down, counted_up, has_key, held, ProcessControlBlockInner,
    ThreadControlBlock,
};
use crate::syscall::deadlock::{
    check_deadlock, deadlock_detected, prepare_dealock, prepare_ok, MUTEX, SEMAPHORE,
};

verus! {

/// How a call that made its thread sleep completes once the thread is
/// woken.
#[derive(PartialEq, Eq, Structural, Debug, Clone, Copy)]
pub enum Resume {
    /// The thread was handed the mutex it waited for: it completes with
    /// `mutex_lock_finish(.., counted)`.
    FinishLock { counted: bool },
    /// The thread was handed a unit of semaphore `sem_id`: it completes
    /// with `semaphore_down_finish(.., sem_id)`.
    FinishDown { sem_id: usize },
    /// The thread was signalled on a condition variable: it takes mutex
    /// `mutex_id` again with `mutex_lock_retry(.., mutex_id, false)`.
    RetakeLock { mutex_id: usize },
}

/// What a synchronisation system call came to.
#[derive(PartialEq, Eq, Structural, Debug, Clone, Copy)]
pub enum SyncOutcome {
    /// The call returns `ret`; `woken` is a thread to wake first.
    Return { ret: isize, woken: Option<usize> },
    /// The calling thread sleeps; `woken` is a thread to wake first, and
    /// `resume` says how the call completes once the thread is woken.
    Block { woken: Option<usize>, resume: Resume },
    /// The calling thread yields the processor and then tries mutex
    /// `mutex_id` again with `mutex_lock_retry(.., mutex_id, counted)`.
    Yield { mutex_id: usize, counted: bool },
}

/// The value a mutex lock or semaphore down returns when it refuses to
/// wait because waiting would deadlock.
pub const DEADLOCK_RET: isize = -0xDEAD;

/// Thread `cur` exists and has its user resources.
pub open spec fn current_ok(p: ProcessControlBlockInner, cur: usize) -> bool {
    &&& cur < p.tasks@.len()
    &&& p.tasks@[cur as int] is Some
    &&& p.tasks@[cur as int]->0.res is Some
}

/// Thread `cur`.
pub open spec fn thread(p: ProcessControlBlockInner, cur: usize) -> ThreadControlBlock {
    p.tasks@[cur as int]->0
}

/// The thread id of thread `cur`.
pub open spec fn current_tid(p: ProcessControlBlockInner, cur: usize) -> usize {
    thread(p, cur).res->0.tid
}

/// Mutex `id` exists.
pub open spec fn mutex_present(p: ProcessControlBlockInner, id: usize) -> bool {
    id < p.mutex_list@.len() && p.mutex_list@[id as int] is Some
}

/// Mutex `id`.
pub open spec fn mutex_at(p: ProcessControlBlockInner, id: usize) -> Mutex {
    p.mutex_list@[id as int]->0
}

/// Semaphore `id` exists.
pub open spec fn semaphore_present(p: ProcessControlBlockInner, id: usize) -> bool {
    id < p.semaphore_list@.len() && p.semaphore_list@[id as int] is Some
}

/// Semaphore `id`.
pub open spec fn semaphore_at(p: ProcessControlBlockInner, id: usize) -> Semaphore {
    p.semaphore_list@[id as int]->0
}

/// Condition variable `id` exists.
pub open spec fn condvar_present(p: ProcessControlBlockInner, id: usize) -> bool {
    id < p.condvar_list@.len() && p.condvar_list@[id as int] is Some
}

/// Condition variable `id`.
pub open spec fn condvar_at(p: ProcessControlBlockInner, id: usize) -> Condvar {
    p.condvar_list@[id as int]->0
}

/// `t` with its mutex count replaced.
pub open spec fn with_mutex_cnt(t: ThreadControlBlock, n: usize) -> ThreadControlBlock {
    ThreadControlBlock { res: t.res, mutex_cnt: n, semaphore_cnt: t.semaphore_cnt }
}

/// The first free slot of `s`, or its length when none is free: every
/// earlier slot is taken.
pub open spec fn is_first_free<T>(s: Seq<Option<T>>, id: int) -> bool {
    &&& 0 <= id <= s.len()
    &&& forall|i: int| 0 <= i < id ==> #[trigger] s[i] is Some
    &&& id < s.len() ==> s[id] is None
}

/// `b` differs from `a` at most in its mutex list.
pub open spec fn only_mutexes_changed(a: ProcessControlBlockInner, b: ProcessControlBlockInner) -> bool {
    &&& b.semaphore_list == a.semaphore_list
    &&& b.condvar_list == a.condvar_list
    &&& b.tasks == a.tasks
    &&& b.enable_deadlock == a.enable_deadlock
}

/// `b` differs from `a` at most in mutex `id`: the other slots are equal.
pub open spec fn other_mutexes_same(a: ProcessControlBlockInner, b: ProcessControlBlockInner, id: usize) -> bool {
    &&& b.mutex_list@.len() == a.mutex_list@.len()
    &&& forall|i: int| 0 <= i < a.mutex_list@.len() && i != id ==> #[trigger] b.mutex_list@[i] == a.mutex_list@[i]
    &&& b.mutex_list@[id as int] is Some
}

/// `b` is `a` after thread `cur` attempted to take mutex `id` (counting the
/// acquisition when `counted`), and `r` is what the attempt returned.
pub open spec fn lock_step(
    a: ProcessControlBlockInner,
    b: ProcessControlBlockInner,
    cur: usize,
    id: usize,
    counted: bool,
    r: SyncOutcome,
) -> bool {
    let m = mutex_at(a, id);
    let m2 = mutex_at(b, id);
    let t = thread(a, cur);
    &&& b.semaphore_list == a.semaphore_list
    &&& b.condvar_list == a.condvar_list
    &&& b.enable_deadlock == a.enable_deadlock
    &&& other_mutexes_same(a, b, id)
    &&& m2.kind == m.kind
    &&& m2.locked
    &&& !m.locked ==> {
        &&& r == SyncOutcome::Return { ret: 0, woken: None }
        &&& m2.wait_queue@ == m.wait_queue@
        &&& b.tasks@ == if counted {
            a.tasks@.update(cur as int, Some(with_mutex_cnt(t, (t.mutex_cnt + 1) as usize)))
        } else {
            a.tasks@
        }
    }
    &&& m.locked && m.kind == MutexKind::Spin ==> {
        &&& r == (SyncOutcome::Yield { mutex_id: id, counted })
        &&& m2.wait_queue@ == m.wait_queue@
        &&& b.tasks == a.tasks
    }
    &&& m.locked && m.kind == MutexKind::Blocking ==> {
        &&& r == (SyncOutcome::Block { woken: None, resume: Resume::FinishLock { counted } })
        &&& m2.wait_queue@ == m.wait_queue@.push(current_tid(a, cur))
        &&& b.tasks == a.tasks
    }
}

/// Puts `item` into the first free slot of `list`, or appends it; returns
/// the slot.
fn alloc_slot<T>(list: &mut Vec<Option<T>>, item: T) -> (id: usize)
    ensures
        is_first_free(old(list)@, id as int),
        id < old(list)@.len() ==> final(list)@ == old(list)@.update(id as int, Some(item)),
        id == old(list)@.len() ==> final(list)@ == old(list)@.push(Some(item)),
{
    let mut i: usize = 0;
    while i < list.len()
        invariant
            i <= list.len(),
            list@ == old(list)@,
            forall|q: int| 0 <= q < i ==> #[trigger] list@[q] is Some,
        decreases list.len() - i,
    {
        if list[i].is_none() {
            list.set(i, Some(item));
            return i;
        }
        i = i + 1;
    }
    list.push(Some(item));
    i
}

/// Creates a mutex, spinning unless `blocking`, in the first free mutex
/// slot (or a new one) and returns its id.
pub fn sys_mutex_create(process: &mut ProcessControlBlockInner, blocking: bool) -> (id: isize)
    requires
        old(process).wf(),
        old(process).mutex_list@.len() < isize::MAX,
    ensures
        final(process).wf(),
        only_mutexes_changed(*old(process), *final(process)),
        is_first_free(old(process).mutex_list@, id as int),
        final(process).mutex_list@.len() == if id == old(process).mutex_list@.len() {
            old(process).mutex_list@.len() + 1
        } else {
            old(process).mutex_list@.len() + 0
        },
        forall|i: int|
            0 <= i < old(process).mutex_list@.len() && i != id ==> #[trigger] final(process).mutex_list@[i]
                == old(process).mutex_list@[i],
        mutex_present(*final(process), id as usize),
        mutex_at(*final(process), id as usize).kind == (if blocking {
            MutexKind::Blocking
        } else {
            MutexKind::Spin
        }),
        !mutex_at(*final(process), id as usize).locked,
        mutex_at(*final(process), id as usize).wait_queue@.len() == 0,
{
    let kind = if !blocking {
        MutexKind::Spin
    } else {
        MutexKind::Blocking
    };
    let mutex = Mutex::new(kind);
    let id = alloc_slot(&mut process.mutex_list, mutex);
    proof {
        assert forall|i: int|
            0 <= i < process.mutex_list@.len() && (#[trigger] process.mutex_list@[i]) is Some implies process.mutex_list@[i]->0.wf() by {
            if i != id {
                assert(process.mutex_list@[i] == old(process).mutex_list@[i]);
            }
        }
    }
    id as isize
}

/// Attempts to take mutex `mutex_id` for thread `cur`; when taken and
/// `counted`, the thread's mutex count goes up by one.
pub fn mutex_lock_retry(process: &mut ProcessControlBlockInner, cur: usize, mutex_id: usize, counted: bool) -> (r: SyncOutcome)
    requires
        old(process).wf(),
        current_ok(*old(process), cur),
        mutex_present(*old(process), mutex_id),
        counted && !mutex_at(*old(process), mutex_id).locked ==> thread(*old(process), cur).mutex_cnt < usize::MAX,
    ensures
        final(process).wf(),
        lock_step(*old(process), *final(process), cur, mutex_id, counted, r),
{
    let tid = match &process.tasks[cur] {
        Some(t) => t.res.unwrap().tid,
        None => 0,
    };
    let attempt = match &mut process.mutex_list[mutex_id] {
        Some(m) => m.lock(tid),
        None => LockAttempt::Acquired,
    };
    proof {
        assert forall|i: int|
            0 <= i < process.mutex_list@.len() && (#[trigger] process.mutex_list@[i]) is Some implies process.mutex_list@[i]->0.wf() by {
            if i != mutex_id {
                assert(process.mutex_list@[i] == old(process).mutex_list@[i]);
            }
        }
    }
    match attempt {
        LockAttempt::Acquired => {
            if counted {
                finish_count(process, cur);
            }
            SyncOutcome::Return { ret: 0, woken: None }
        },
        LockAttempt::Spin => SyncOutcome::Yield { mutex_id, counted },
        LockAttempt::Blocked => SyncOutcome::Block { woken: None, resume: Resume::FinishLock { counted } },
    }
}

/// Thread `cur`'s mutex count goes up by one.
fn finish_count(process: &mut ProcessControlBlockInner, cur: usize)
    requires
        old(process).wf(),
        current_ok(*old(process), cur),
        thread(*old(process), cur).mutex_cnt < usize::MAX,
    ensures
        final(process).wf(),
        final(process).mutex_list == old(process).mutex_list,
        final(process).semaphore_list == old(process).semaphore_list,
        final(process).condvar_list == old(process).condvar_list,
        final(process).enable_deadlock == old(process).enable_deadlock,
        final(process).tasks@ == old(process).tasks@.update(
            cur as int,
            Some(with_mutex_cnt(thread(*old(process), cur), (thread(*old(process), cur).mutex_cnt + 1) as usize)),
        ),
{
    match &mut process.tasks[cur] {
        Some(t) => {
            t.mutex_cnt = t.mutex_cnt + 1;
        },
        None => {},
    }
    proof {
        assert(process.tasks@ =~= old(process).tasks@.update(
            cur as int,
            Some(with_mutex_cnt(thread(*old(process), cur), (thread(*old(process), cur).mutex_cnt + 1) as usize)),
        ));
    }
}

/// Locks mutex `mutex_id` for thread `cur`.  With deadlock detection on,
/// it first refuses with `DEADLOCK_RET`, changing nothing, when the thread
/// waiting for a mutex would leave no safe order.  Otherwise it attempts the
/// lock as `mutex_lock_retry` does, counting the acquisition; a thread that
/// was queued is later handed the lock and completes with
/// `mutex_lock_finish(.., true)`, one that must spin retries with
/// `mutex_lock_retry(.., true)`.
pub fn sys_mutex_lock(process: &mut ProcessControlBlockInner, cur: usize, mutex_id: usize) -> (r: SyncOutcome)
    requires
        old(process).wf(),
        current_ok(*old(process), cur),
        old(process).enable_deadlock ==> prepare_ok(*old(process), current_tid(*old(process), cur), MUTEX),
        (old(process).enable_deadlock && deadlock_detected(*old(process), current_tid(*old(process), cur), MUTEX))
            || (mutex_present(*old(process), mutex_id) && (!mutex_at(*old(process), mutex_id).locked
            ==> thread(*old(process), cur).mutex_cnt < usize::MAX)),
    ensures
        final(process).wf(),
        old(process).enable_deadlock && deadlock_detected(*old(process), current_tid(*old(process), cur), MUTEX)
            ==> r == (SyncOutcome::Return { ret: DEADLOCK_RET, woken: None }) && *final(process) == *old(process),
        !(old(process).enable_deadlock && deadlock_detected(*old(process), current_tid(*old(process), cur), MUTEX))
            ==> lock_step(*old(process), *final(process), cur, mutex_id, true, r),
{
    if process.enable_deadlock {
        let tid = match &process.tasks[cur] {
            Some(t) => t.res.unwrap().tid,
            None => 0,
        };
        let (available, allocation, need) = prepare_dealock(process, tid, MUTEX);
        if check_deadlock(available, allocation, need) {
            return SyncOutcome::Return { ret: DEADLOCK_RET, woken: None };
        }
    }
    mutex_lock_retry(process, cur, mutex_id, true)
}

/// Completes a lock that thread `cur` waited for and was handed: when
/// `counted`, its mutex count goes up by one; returns 0.
pub fn mutex_lock_finish(process: &mut ProcessControlBlockInner, cur: usize, counted: bool) -> (r: SyncOutcome)
    requires
        old(process).wf(),
        current_ok(*old(process), cur),
        counted ==> thread(*old(process), cur).mutex_cnt < usize::MAX,
    ensures
        final(process).wf(),
        r == (SyncOutcome::Return { ret: 0, woken: None }),
        final(process).mutex_list == old(process).mutex_list,
        final(process).semaphore_list == old(process).semaphore_list,
        final(process).condvar_list == old(process).condvar_list,
        final(process).enable_deadlock == old(process).enable_deadlock,
        final(process).tasks@ == if counted {
            old(process).tasks@.update(
                cur as int,
                Some(with_mutex_cnt(thread(*old(process), cur), (thread(*old(process), cur).mutex_cnt + 1) as usize)),
            )
        } else {
            old(process).tasks@
        },
{
    if counted {
        finish_count(process, cur);
    }
    SyncOutcome::Return { ret: 0, woken: None }
}

/// `b` is `a` after thread `cur` released mutex `id`, and `r` is what the
/// call returned: the mutex is released as `unlock_result` says, the woken
/// waiter is reported, and the thread's mutex count goes down by one.
pub open spec fn unlock_step(
    a: ProcessControlBlockInner,
    b: ProcessControlBlockInner,
    cur: usize,
    id: usize,
    r: SyncOutcome,
) -> bool {
    let m = mutex_at(a, id);
    let m2 = mutex_at(b, id);
    let t = thread(a, cur);
    let (locked, q, woken) = unlock_result(m.wait_queue@);
    &&& b.semaphore_list == a.semaphore_list
    &&& b.condvar_list == a.condvar_list
    &&& b.enable_deadlock == a.enable_deadlock
    &&& other_mutexes_same(a, b, id)
    &&& m2.kind == m.kind
    &&& b.tasks@ == a.tasks@.update(cur as int, Some(with_mutex_cnt(t, (t.mutex_cnt - 1) as usize)))
    &&& m2.locked == locked
    &&& m2.wait_queue@ == q
    &&& r == (SyncOutcome::Return { ret: 0, woken })
}

/// Unlocks mutex `mutex_id` on behalf of thread `cur`, whose mutex count
/// goes down by one; a blocking mutex with waiters is handed to the first of
/// them, who is reported as woken.  Returns 0.
pub fn sys_mutex_unlock(process: &mut ProcessControlBlockInner, cur: usize, mutex_id: usize) -> (r: SyncOutcome)
    requires
        old(process).wf(),
        current_ok(*old(process), cur),
        mutex_present(*old(process), mutex_id),
        mutex_at(*old(process), mutex_id).kind == MutexKind::Blocking ==> mutex_at(*old(process), mutex_id).locked,
        thread(*old(process), cur).mutex_cnt > 0,
    ensures
        final(process).wf(),
        unlock_step(*old(process), *final(process), cur, mutex_id, r),
{
    let woken = match &mut process.mutex_list[mutex_id] {
        Some(m) => m.unlock(),
        None => None,
    };
    match &mut process.tasks[cur] {
        Some(t) => {
            t.mutex_cnt = t.mutex_cnt - 1;
        },
        None => {},
    }
    proof {
        let t = thread(*old(process), cur);
        assert(process.tasks@ =~= old(process).tasks@.update(
            cur as int,
            Some(with_mutex_cnt(t, (t.mutex_cnt - 1) as usize)),
        ));
        assert forall|i: int|
            0 <= i < process.mutex_list@.len() && (#[trigger] process.mutex_list@[i]) is Some implies process.mutex_list@[i]->0.wf() by {
            if i != mutex_id {
                assert(process.mutex_list@[i] == old(process).mutex_list@[i]);
            }
        }
    }
    SyncOutcome::Return { ret: 0, woken }
}

/// `b` differs from `a` at most in semaphore `id` and in the tasks.
pub open spec fn other_semaphores_same(a: ProcessControlBlockInner, b: ProcessControlBlockInner, id: usize) -> bool {
    &&& b.mutex_list == a.mutex_list
    &&& b.condvar_list == a.condvar_list
    &&& b.enable_deadlock == a.enable_deadlock
    &&& b.semaphore_list@.len() == a.semaphore_list@.len()
    &&& forall|i: int|
        0 <= i < a.semaphore_list@.len() && i != id ==> #[trigger] b.semaphore_list@[i] == a.semaphore_list@[i]
    &&& b.semaphore_list@[id as int] is Some
}

/// `b`'s thread `cur` differs from `a`'s only in its semaphore counts, and
/// the other threads are unchanged.
pub open spec fn only_counts_of(a: ProcessControlBlockInner, b: ProcessControlBlockInner, cur: usize) -> bool {
    &&& b.tasks@.len() == a.tasks@.len()
    &&& forall|i: int| 0 <= i < a.tasks@.len() && i != cur ==> #[trigger] b.tasks@[i] == a.tasks@[i]
    &&& b.tasks@[cur as int] is Some
    &&& thread(b, cur).res == thread(a, cur).res
    &&& thread(b, cur).mutex_cnt == thread(a, cur).mutex_cnt
}

/// Creates a semaphore holding `res_count` units in the first free
/// semaphore slot (or a new one) and returns its id.
pub fn sys_semaphore_create(process: &mut ProcessControlBlockInner, res_count: usize) -> (id: isize)
    requires
        old(process).wf(),
        old(process).semaphore_list@.len() < isize::MAX,
        res_count <= isize::MAX,
    ensures
        final(process).wf(),
        final(process).mutex_list == old(process).mutex_list,
        final(process).condvar_list == old(process).condvar_list,
        final(process).tasks == old(process).tasks,
        final(process).enable_deadlock == old(process).enable_deadlock,
        is_first_free(old(process).semaphore_list@, id as int),
        final(process).semaphore_list@.len() == if id == old(process).semaphore_list@.len() {
            old(process).semaphore_list@.len() + 1
        } else {
            old(process).semaphore_list@.len() + 0
        },
        forall|i: int|
            0 <= i < old(process).semaphore_list@.len() && i != id ==> #[trigger] final(process).semaphore_list@[i]
                == old(process).semaphore_list@[i],
        semaphore_present(*final(process), id as usize),
        semaphore_at(*final(process), id as usize).count == res_count,
        semaphore_at(*final(process), id as usize).wait_queue@.len() == 0,
{
    let sem = Semaphore::new(res_count);
    let id = alloc_slot(&mut process.semaphore_list, sem);
    proof {
        assert forall|i: int|
            0 <= i < process.semaphore_list@.len() && (#[trigger] process.semaphore_list@[i]) is Some implies process.semaphore_list@[i]->0.wf() by {
            if i != id {
                assert(process.semaphore_list@[i] == old(process).semaphore_list@[i]);
            }
        }
    }
    id as isize
}

/// `b` is `a` after thread `cur` gave back a unit of semaphore `sem_id`,
/// and `r` is what the call returned: the count goes up by one, the first
/// waiter is woken when the count was negative, and the thread's count for
/// the semaphore, when it has one, goes down by one.
pub open spec fn up_step(
    a: ProcessControlBlockInner,
    b: ProcessControlBlockInner,
    cur: usize,
    sem_id: usize,
    r: SyncOutcome,
) -> bool {
    let s = semaphore_at(a, sem_id);
    let s2 = semaphore_at(b, sem_id);
    let v = thread(a, cur).semaphore_cnt@;
    let v2 = thread(b, cur).semaphore_cnt@;
    &&& other_semaphores_same(a, b, sem_id)
    &&& only_counts_of(a, b, cur)
    &&& s2.count == s.count + 1
    &&& s.count >= 0 ==> r == (SyncOutcome::Return { ret: 0, woken: None }) && s2.wait_queue@ == s.wait_queue@
    &&& s.count < 0 ==> r == (SyncOutcome::Return { ret: 0, woken: Some(s.wait_queue@[0]) })
        && s2.wait_queue@ == s.wait_queue@.drop_first()
    &&& counted_down(v, v2, sem_id)
}

/// Gives back one unit of semaphore `sem_id` on behalf of thread `cur`,
/// waking the first waiter when the count was negative.  The thread's count
/// for the semaphore, when it has one, goes down by one.  Returns 0.
pub fn sys_semaphore_up(process: &mut ProcessControlBlockInner, cur: usize, sem_id: usize) -> (r: SyncOutcome)
    requires
        old(process).wf(),
        current_ok(*old(process), cur),
        semaphore_present(*old(process), sem_id),
        semaphore_at(*old(process), sem_id).count < isize::MAX,
        has_key(thread(*old(process), cur).semaphore_cnt@, sem_id) ==> held(
            thread(*old(process), cur).semaphore_cnt@,
            sem_id,
        ) > isize::MIN,
    ensures
        final(process).wf(),
        up_step(*old(process), *final(process), cur, sem_id, r),
{
    let woken = match &mut process.semaphore_list[sem_id] {
        Some(sem) => sem.up(),
        None => None,
    };
    match &mut process.tasks[cur] {
        Some(t) => {
            count_down_if_present(&mut t.semaphore_cnt, sem_id);
        },
        None => {},
    }
    proof {
        assert forall|i: int|
            0 <= i < process.semaphore_list@.len() && (#[trigger] process.semaphore_list@[i]) is Some implies process.semaphore_list@[i]->0.wf() by {
            if i != sem_id {
                assert(process.semaphore_list@[i] == old(process).semaphore_list@[i]);
            }
        }
    }
    SyncOutcome::Return { ret: 0, woken }
}

/// `b` is `a` after thread `cur` took a unit of semaphore `sem_id`, and `r`
/// is what the call returned: the count goes down by one; when a unit was
/// left the thread's count for the semaphore goes up by one (inserted at 1)
/// and the call returns 0, otherwise the thread is queued and sleeps.
pub open spec fn down_step(
    a: ProcessControlBlockInner,
    b: ProcessControlBlockInner,
    cur: usize,
    sem_id: usize,
    r: SyncOutcome,
) -> bool {
    let s = semaphore_at(a, sem_id);
    let s2 = semaphore_at(b, sem_id);
    let v = thread(a, cur).semaphore_cnt@;
    let v2 = thread(b, cur).semaphore_cnt@;
    &&& other_semaphores_same(a, b, sem_id)
    &&& only_counts_of(a, b, cur)
    &&& s2.count == s.count - 1
    &&& s.count > 0 ==> {
        &&& r == (SyncOutcome::Return { ret: 0, woken: None })
        &&& s2.wait_queue@ == s.wait_queue@
        &&& counted_up(v, v2, sem_id)
    }
    &&& s.count <= 0 ==> {
        &&& r == (SyncOutcome::Block { woken: None, resume: Resume::FinishDown { sem_id } })
        &&& s2.wait_queue@ == s.wait_queue@.push(current_tid(a, cur))
        &&& v2 == v
    }
}

/// Takes one unit of semaphore `sem_id` for thread `cur`.  With deadlock
/// detection on, it first refuses with `DEADLOCK_RET`, changing nothing,
/// when the thread waiting for the semaphore would leave no safe order.
/// When a unit is left, the thread's count under key `sem_id` goes up by
/// one (inserted at 1) and the call returns 0; otherwise the thread is
/// queued and, once woken, completes with `semaphore_down_finish`.
pub fn sys_semaphore_down(process: &mut ProcessControlBlockInner, cur: usize, sem_id: usize) -> (r: SyncOutcome)
    requires
        old(process).wf(),
        current_ok(*old(process), cur),
        old(process).enable_deadlock ==> sem_id + SEMAPHORE <= usize::MAX && prepare_ok(
            *old(process),
            current_tid(*old(process), cur),
            (sem_id + SEMAPHORE) as usize,
        ),
        (old(process).enable_deadlock && deadlock_detected(
            *old(process),
            current_tid(*old(process), cur),
            (sem_id + SEMAPHORE) as usize,
        )) || (semaphore_present(*old(process), sem_id) && semaphore_at(*old(process), sem_id).count
            > isize::MIN && (semaphore_at(*old(process), sem_id).count > 0 ==> held(
            thread(*old(process), cur).semaphore_cnt@,
            sem_id,
        ) < isize::MAX)),
    ensures
        final(process).wf(),
        ({
            let dl = old(process).enable_deadlock && deadlock_detected(
                *old(process),
                current_tid(*old(process), cur),
                (sem_id + SEMAPHORE) as usize,
            );
            &&& dl ==> r == (SyncOutcome::Return { ret: DEADLOCK_RET, woken: None }) && *final(process)
                == *old(process)
            &&& !dl ==> down_step(*old(process), *final(process), cur, sem_id, r)
        }),
{
    if process.enable_deadlock {
        let tid = match &process.tasks[cur] {
            Some(t) => t.res.unwrap().tid,
            None => 0,
        };
        let (available, allocation, need) = prepare_dealock(process, tid, SEMAPHORE + sem_id);
        if check_deadlock(available, allocation, need) {
            return SyncOutcome::Return { ret: DEADLOCK_RET, woken: None };
        }
    }
    let tid = match &process.tasks[cur] {
        Some(t) => t.res.unwrap().tid,
        None => 0,
    };
    let blocked = match &mut process.semaphore_list[sem_id] {
        Some(sem) => sem.down(tid),
        None => false,
    };
    proof {
        assert forall|i: int|
            0 <= i < process.semaphore_list@.len() && (#[trigger] process.semaphore_list@[i]) is Some implies process.semaphore_list@[i]->0.wf() by {
            if i != sem_id {
                assert(process.semaphore_list@[i] == old(process).semaphore_list@[i]);
            }
        }
    }
    if blocked {
        SyncOutcome::Block { woken: None, resume: Resume::FinishDown { sem_id } }
    } else {
        semaphore_down_finish(process, cur, sem_id)
    }
}

/// Completes a semaphore down of thread `cur`: its count under key
/// `sem_id` goes up by one (inserted at 1); returns 0.
pub fn semaphore_down_finish(process: &mut ProcessControlBlockInner, cur: usize, sem_id: usize) -> (r: SyncOutcome)
    requires
        old(process).wf(),
        current_ok(*old(process), cur),
        held(thread(*old(process), cur).semaphore_cnt@, sem_id) < isize::MAX,
    ensures
        final(process).wf(),
        r == (SyncOutcome::Return { ret: 0, woken: None }),
        final(process).mutex_list == old(process).mutex_list,
        final(process).semaphore_list == old(process).semaphore_list,
        final(process).condvar_list == old(process).condvar_list,
        final(process).enable_deadlock == old(process).enable_deadlock,
        only_counts_of(*old(process), *final(process), cur),
        counted_up(thread(*old(process), cur).semaphore_cnt@, thread(*final(process), cur).semaphore_cnt@, sem_id),
{
    match &mut process.tasks[cur] {
        Some(t) => {
            count_up(&mut t.semaphore_cnt, sem_id);
        },
        None => {},
    }
    SyncOutcome::Return { ret: 0, woken: None }
}

/// Creates a condition variable in the first free slot (or a new one) and
/// returns its id.
pub fn sys_condvar_create(process: &mut ProcessControlBlockInner) -> (id: isize)
    requires
        old(process).wf(),
        old(process).condvar_list@.len() < isize::MAX,
    ensures
        final(process).wf(),
        final(process).mutex_list == old(process).mutex_list,
        final(process).semaphore_list == old(process).semaphore_list,
        final(process).tasks == old(process).tasks,
        final(process).enable_deadlock == old(process).enable_deadlock,
        is_first_free(old(process).condvar_list@, id as int),
        final(process).condvar_list@.len() == if id == old(process).condvar_list@.len() {
            old(process).condvar_list@.len() + 1
        } else {
            old(process).condvar_list@.len() + 0
        },
        forall|i: int|
            0 <= i < old(process).condvar_list@.len() && i != id ==> #[trigger] final(process).condvar_list@[i]
                == old(process).condvar_list@[i],
        condvar_present(*final(process), id as usize),
        condvar_at(*final(process), id as usize).wait_queue@.len() == 0,
{
    let cv = Condvar::new();
    let id = alloc_slot(&mut process.condvar_list, cv);
    id as isize
}

/// Wakes the first thread waiting on condition variable `condvar_id`, if
/// any; returns 0.
pub fn sys_condvar_signal(process: &mut ProcessControlBlockInner, condvar_id: usize) -> (r: SyncOutcome)
    requires
        old(process).wf(),
        condvar_present(*old(process), condvar_id),
    ensures
        final(process).wf(),
        final(process).mutex_list == old(process).mutex_list,
        final(process).semaphore_list == old(process).semaphore_list,
        final(process).tasks == old(process).tasks,
        final(process).enable_deadlock == old(process).enable_deadlock,
        final(process).condvar_list@.len() == old(process).condvar_list@.len(),
        forall|i: int|
            0 <= i < old(process).condvar_list@.len() && i != condvar_id ==> #[trigger] final(process).condvar_list@[i]
                == old(process).condvar_list@[i],
        condvar_present(*final(process), condvar_id),
        ({
            let c = condvar_at(*old(process), condvar_id);
            let c2 = condvar_at(*final(process), condvar_id);
            &&& c.wait_queue@.len() == 0 ==> r == (SyncOutcome::Return { ret: 0, woken: None })
                && c2.wait_queue@ == c.wait_queue@
            &&& c.wait_queue@.len() > 0 ==> r == (SyncOutcome::Return { ret: 0, woken: Some(c.wait_queue@[0]) })
                && c2.wait_queue@ == c.wait_queue@.drop_first()
        }),
{
    let woken = match &mut process.condvar_list[condvar_id] {
        Some(c) => c.signal(),
        None => None,
    };
    SyncOutcome::Return { ret: 0, woken }
}

/// Thread `cur` waits on condition variable `condvar_id`: it releases mutex
/// `mutex_id` (handing it to its first waiter, reported as woken, if any),
/// is queued on the condition variable and sleeps.  Once signalled it
/// retakes the mutex with `mutex_lock_retry(.., false)` and, when handed the
/// mutex after waiting, completes with `mutex_lock_finish(.., false)`.
pub fn sys_condvar_wait(process: &mut ProcessControlBlockInner, cur: usize, condvar_id: usize, mutex_id: usize) -> (r: SyncOutcome)
    requires
        old(process).wf(),
        current_ok(*old(process), cur),
        condvar_present(*old(process), condvar_id),
        mutex_present(*old(process), mutex_id),
        mutex_at(*old(process), mutex_id).kind == MutexKind::Blocking ==> mutex_at(*old(process), mutex_id).locked,
    ensures
        final(process).wf(),
        ({
            let m = mutex_at(*old(process), mutex_id);
            let m2 = mutex_at(*final(process), mutex_id);
            let c = condvar_at(*old(process), condvar_id);
            let c2 = condvar_at(*final(process), condvar_id);
            &&& final(process).semaphore_list == old(process).semaphore_list
            &&& final(process).tasks == old(process).tasks
            &&& final(process).enable_deadlock == old(process).enable_deadlock
            &&& other_mutexes_same(*old(process), *final(process), mutex_id)
            &&& m2.kind == m.kind
            &&& final(process).condvar_list@.len() == old(process).condvar_list@.len()
            &&& forall|i: int|
                0 <= i < old(process).condvar_list@.len() && i != condvar_id
                    ==> #[trigger] final(process).condvar_list@[i] == old(process).condvar_list@[i]
            &&& condvar_present(*final(process), condvar_id)
            &&& c2.wait_queue@ == c.wait_queue@.push(current_tid(*old(process), cur))
            &&& m.wait_queue@.len() == 0 ==> r == (SyncOutcome::Block { woken: None, resume: Resume::RetakeLock { mutex_id } }) && !m2.locked
                && m2.wait_queue@ == m.wait_queue@
            &&& m.wait_queue@.len() > 0 ==> r == (SyncOutcome::Block {
                woken: Some(m.wait_queue@[0]),
                resume: Resume::RetakeLock { mutex_id },
            })
                && m2.locked && m2.wait_queue@ == m.wait_queue@.drop_first()
        }),
{
    let tid = match &process.tasks[cur] {
        Some(t) => t.res.unwrap().tid,
        None => 0,
    };
    let woken = match &mut process.mutex_list[mutex_id] {
        Some(m) => m.unlock(),
        None => None,
    };
    match &mut process.condvar_list[condvar_id] {
        Some(c) => c.enqueue(tid),
        None => {},
    }
    proof {
        assert forall|i: int|
            0 <= i < process.mutex_list@.len() && (#[trigger] process.mutex_list@[i]) is Some implies process.mutex_list@[i]->0.wf() by {
            if i != mutex_id {
                assert(process.mutex_list@[i] == old(process).mutex_list@[i]);
            }
        }
    }
    SyncOutcome::Block { woken, resume: Resume::RetakeLock { mutex_id } }
}

/// Turns deadlock detection on (1) or off (0); any other value is refused
/// with -1 and changes nothing.
pub fn sys_enable_deadlock_detect(process: &mut ProcessControlBlockInner, enabled: usize) -> (r: isize)
    ensures
        enabled == 0 ==> r == 0 && !final(process).enable_deadlock,
        enabled == 1 ==> r == 0 && final(process).enable_deadlock,
        enabled > 1 ==> r == -1 && final(process).enable_deadlock == old(process).enable_deadlock,
        final(process).mutex_list == old(process).mutex_list,
        final(process).semaphore_list == old(process).semaphore_list,
        final(process).condvar_list == old(process).condvar_list,
        final(process).tasks == old(process).tasks,
{
    let is_enable = match enabled {
        0 => false,
        1 => true,
        _ => return -1,
    };
    process.enable_deadlock = is_enable;
    0
}

/// The time, in milliseconds, at which a thread that goes to sleep at
/// `now_ms` for `ms` milliseconds is due to wake.
pub fn sys_sleep(now_ms: usize, ms: usize) -> (expire_ms: usize)
    requires
        now_ms + ms <= usize::MAX,
    ensures
        expire_ms == now_ms + ms,
{
    now_ms + ms
}

/// Taking a free mutex and then releasing it gives everything back: the
/// mutex is free again with the same waiters, and every thread, the
/// caller's mutex count included, is as it was.
pub proof fn law_lock_unlock_restores(
    a: ProcessControlBlockInner,
    b: ProcessControlBlockInner,
    c: ProcessControlBlockInner,
    cur: usize,
    id: usize,
    r1: SyncOutcome,
    r2: SyncOutcome,
)
    requires
        a.wf(),
        current_ok(a, cur),
        mutex_present(a, id),
        !mutex_at(a, id).locked,
        thread(a, cur).mutex_cnt < usize::MAX,
        lock_step(a, b, cur, id, true, r1),
        unlock_step(b, c, cur, id, r2),
    ensures
        r1 == (SyncOutcome::Return { ret: 0, woken: None }),
        r2 == (SyncOutcome::Return { ret: 0, woken: None }),
        c.tasks@ == a.tasks@,
        !mutex_at(c, id).locked,
        mutex_at(c, id).kind == mutex_at(a, id).kind,
        mutex_at(c, id).wait_queue@ == mutex_at(a, id).wait_queue@,
        c.mutex_list@.len() == a.mutex_list@.len(),
        forall|i: int| 0 <= i < a.mutex_list@.len() && i != id ==> #[trigger] c.mutex_list@[i] == a.mutex_list@[i],
        c.semaphore_list == a.semaphore_list,
        c.condvar_list == a.condvar_list,
{
    assert(mutex_at(a, id).wf());
    let t = thread(a, cur);
    assert(thread(b, cur) == with_mutex_cnt(t, (t.mutex_cnt + 1) as usize));
    assert(with_mutex_cnt(with_mutex_cnt(t, (t.mutex_cnt + 1) as usize), t.mutex_cnt) == t);
    assert(c.tasks@ =~= a.tasks@);
}

/// Taking a unit of a semaphore that has one left and giving it back
/// restores the semaphore's count and waiters and every count the thread
/// keeps; the other threads are untouched.
pub proof fn law_down_up_restores(
    a: ProcessControlBlockInner,
    b: ProcessControlBlockInner,
    c: ProcessControlBlockInner,
    cur: usize,
    sem_id: usize,
    r1: SyncOutcome,
    r2: SyncOutcome,
)
    requires
        a.wf(),
        current_ok(a, cur),
        semaphore_present(a, sem_id),
        semaphore_at(a, sem_id).count > 0,
        down_step(a, b, cur, sem_id, r1),
        up_step(b, c, cur, sem_id, r2),
    ensures
        r1 == (SyncOutcome::Return { ret: 0, woken: None }),
        r2 == (SyncOutcome::Return { ret: 0, woken: None }),
        semaphore_at(c, sem_id).count == semaphore_at(a, sem_id).count,
        semaphore_at(c, sem_id).wait_queue@ == semaphore_at(a, sem_id).wait_queue@,
        forall|k: usize| held(thread(c, cur).semaphore_cnt@, k) == held(thread(a, cur).semaphore_cnt@, k),
        thread(c, cur).mutex_cnt == thread(a, cur).mutex_cnt,
        thread(c, cur).res == thread(a, cur).res,
        c.tasks@.len() == a.tasks@.len(),
        forall|i: int| 0 <= i < a.tasks@.len() && i != cur ==> #[trigger] c.tasks@[i] == a.tasks@[i],
        c.mutex_list == a.mutex_list,
        c.condvar_list == a.condvar_list,
{
    let v = thread(a, cur).semaphore_cnt@;
    let v2 = thread(b, cur).semaphore_cnt@;
    let v3 = thread(c, cur).semaphore_cnt@;
    assert(has_key(v2, sem_id));
    assert forall|k: usize| held(v3, k) == held(v, k) by {
        if k != sem_id {
            assert(held(v2, k) == held(v, k));
        }
    }
    assert forall|i: int| 0 <= i < a.tasks@.len() && i != cur implies #[trigger] c.tasks@[i] == a.tasks@[i] by {
        assert(b.tasks@[i] == a.tasks@[i]);
    }
}

} // verus!
