//! Synchronisation primitives of a process: spinning and blocking mutexes,
//! counting semaphores and condition variables.
//!
//! Threads are named by their thread id.  An operation that would block or
//! wake a thread does not switch tasks itself: it reports which thread to
//! block or wake, and the queues record who waits.
use vstd::prelude::*;

verus! {

/// How a mutex makes a thread wait.
#[derive(Clone, Copy, PartialEq, Eq, Structural, Debug)]
pub enum MutexKind {
    /// The waiting thread yields and tries again.
    Spin,
    /// The waiting thread sleeps in the wait queue until handed the lock.
    Blocking,
}

/// What a lock attempt came to.
#[derive(Clone, Copy, PartialEq, Eq, Structural, Debug)]
pub enum LockAttempt {
    /// The caller now holds the lock.
    Acquired,
    /// The lock is held; the caller yields the processor and tries again.
    Spin,
    /// The lock is held; the caller was queued and sleeps until it is
    /// handed the lock.
    Blocked,
}

/// What a lock attempt by thread `tid` makes of a mutex of kind `kind`
/// that is `locked` or not, with waiters `q`: whether it is held after,
/// its waiters after, and what the attempt came to.  A free mutex is taken;
/// a held spinning one makes the caller retry; a held blocking one queues
/// the caller last.
pub open spec fn lock_result(kind: MutexKind, locked: bool, q: Seq<usize>, tid: usize) -> (bool, Seq<usize>, LockAttempt) {
    if !locked {
        (true, q, LockAttempt::Acquired)
    } else if kind == MutexKind::Spin {
        (true, q, LockAttempt::Spin)
    } else {
        (true, q.push(tid), LockAttempt::Blocked)
    }
}

/// What releasing a mutex with waiters `q` makes of it: with no waiter it
/// is free; otherwise the first waiter is handed the lock, leaves the queue
/// and is woken, and the mutex stays held.
pub open spec fn unlock_result(q: Seq<usize>) -> (bool, Seq<usize>, Option<usize>) {
    if q.len() == 0 {
        (false, q, None)
    } else {
        (true, q.drop_first(), Some(q[0]))
    }
}

/// A blocking mutex released while threads wait goes to the first waiter
/// and stays held, so a thread that asks for it afterwards waits behind the
/// remaining waiters instead of taking it first.
pub proof fn law_handoff_no_barging(q: Seq<usize>, newcomer: usize)
    requires
        q.len() > 0,
    ensures
        unlock_result(q) == (true, q.drop_first(), Some(q[0])),
        lock_result(MutexKind::Blocking, true, q.drop_first(), newcomer) == (
            true,
            q.drop_first().push(newcomer),
            LockAttempt::Blocked,
        ),
{
}

/// Waiters are served in the order they came: blocking on a held mutex and
/// then releasing it wakes the earliest waiter, never the newest one unless
/// it is the only one.
pub proof fn law_waiters_first_come_first_served(q: Seq<usize>, tid: usize)
    ensures
        ({
            let (_, q1, _) = lock_result(MutexKind::Blocking, true, q, tid);
            unlock_result(q1).2 == Some(if q.len() == 0 { tid } else { q[0] })
        }),
{
    let q1 = q.push(tid);
    if q.len() > 0 {
        assert(q1[0] == q[0]);
    }
}

/// A mutex.
pub struct Mutex {
    pub kind: MutexKind,
    pub locked: bool,
    pub wait_queue: std::collections::VecDeque<usize>,
}

impl Mutex {
    /// Well-formedness: a spinning mutex never queues anybody, and a blocking
    /// mutex with waiters is held.
    pub open spec fn wf(&self) -> bool {
        &&& self.kind == MutexKind::Spin ==> self.wait_queue@.len() == 0
        &&& self.wait_queue@.len() > 0 ==> self.locked
    }

    /// A free mutex of the given kind.
    pub fn new(kind: MutexKind) -> (m: Self)
        ensures
            m.wf(),
            m.kind == kind,
            !m.locked,
            m.wait_queue@ == Seq::<usize>::empty(),
    {
        Mutex { kind, locked: false, wait_queue: std::collections::VecDeque::new() }
    }

    /// Thread `tid` tries to take the mutex.
    pub fn lock(&mut self, tid: usize) -> (r: LockAttempt)
        requires
            old(self).wf(),
        ensures
            final(self).wf(),
            final(self).kind == old(self).kind,
            (final(self).locked, final(self).wait_queue@, r) == lock_result(
                old(self).kind,
                old(self).locked,
                old(self).wait_queue@,
                tid,
            ),
    {
        if self.locked {
            match self.kind {
                MutexKind::Spin => LockAttempt::Spin,
                MutexKind::Blocking => {
                    self.wait_queue.push_back(tid);
                    LockAttempt::Blocked
                },
            }
        } else {
            self.locked = true;
            LockAttempt::Acquired
        }
    }

    /// Releases the mutex.  A blocking mutex with waiters hands the lock to
    /// the first of them, whom it returns to be woken; it then stays held.
    pub fn unlock(&mut self) -> (woken: Option<usize>)
        requires
            old(self).wf(),
            old(self).kind == MutexKind::Blocking ==> old(self).locked,
        ensures
            final(self).wf(),
            final(self).kind == old(self).kind,
            (final(self).locked, final(self).wait_queue@, woken) == unlock_result(old(self).wait_queue@),
    {
        match self.kind {
            MutexKind::Spin => {
                self.locked = false;
                None
            },
            MutexKind::Blocking => {
                match self.wait_queue.pop_front() {
                    Some(t) => Some(t),
                    None => {
                        self.locked = false;
                        None
                    },
                }
            },
        }
    }
}

/// A counting semaphore.  A negative count is the number of waiters.
pub struct Semaphore {
    pub count: isize,
    pub wait_queue: std::collections::VecDeque<usize>,
}

impl Semaphore {
    /// Well-formedness: exactly `-count` threads wait when the count is
    /// negative, none otherwise.
    pub open spec fn wf(&self) -> bool {
        &&& self.count >= 0 ==> self.wait_queue@.len() == 0
        &&& self.count < 0 ==> self.wait_queue@.len() == -self.count
    }

    /// A semaphore holding `res_count` units.
    pub fn new(res_count: usize) -> (s: Self)
        requires
            res_count <= isize::MAX,
        ensures
            s.wf(),
            s.count == res_count,
            s.wait_queue@ == Seq::<usize>::empty(),
    {
        Semaphore { count: res_count as isize, wait_queue: std::collections::VecDeque::new() }
    }

    /// Gives back one unit; when a thread waited, the first waiter is
    /// returned to be woken.
    pub fn up(&mut self) -> (woken: Option<usize>)
        requires
            old(self).wf(),
            old(self).count < isize::MAX,
        ensures
            final(self).wf(),
            final(self).count == old(self).count + 1,
            old(self).count >= 0 ==> woken is None && final(self).wait_queue@ == old(self).wait_queue@,
            old(self).count < 0 ==> woken == Some(old(self).wait_queue@[0])
                && final(self).wait_queue@ == old(self).wait_queue@.drop_first(),
    {
        self.count = self.count + 1;
        if self.count <= 0 {
            self.wait_queue.pop_front()
        } else {
            None
        }
    }

    /// Thread `tid` takes one unit; returns whether it must sleep (it was
    /// queued) because none was left.
    pub fn down(&mut self, tid: usize) -> (blocked: bool)
        requires
            old(self).wf(),
            old(self).count > isize::MIN,
        ensures
            final(self).wf(),
            final(self).count == old(self).count - 1,
            blocked == (old(self).count <= 0),
            blocked ==> final(self).wait_queue@ == old(self).wait_queue@.push(tid),
            !blocked ==> final(self).wait_queue@ == old(self).wait_queue@,
    {
        self.count = self.count - 1;
        if self.count < 0 {
            self.wait_queue.push_back(tid);
            true
        } else {
            false
        }
    }
}

/// A condition variable.
pub struct Condvar {
    pub wait_queue: std::collections::VecDeque<usize>,
}

impl Condvar {
    /// A condition variable nobody waits on.
    pub fn new() -> (c: Self)
        ensures
            c.wait_queue@ == Seq::<usize>::empty(),
    {
        Condvar { wait_queue: std::collections::VecDeque::new() }
    }

    /// Wakes the first waiter, if any, and returns it.
    pub fn signal(&mut self) -> (woken: Option<usize>)
        ensures
            old(self).wait_queue@.len() == 0 ==> woken is None && final(self).wait_queue@
                == old(self).wait_queue@,
            old(self).wait_queue@.len() > 0 ==> woken == Some(old(self).wait_queue@[0])
                && final(self).wait_queue@ == old(self).wait_queue@.drop_first(),
    {
        self.wait_queue.pop_front()
    }

    /// Queues thread `tid` as a waiter.
    pub fn enqueue(&mut self, tid: usize)
        ensures
            final(self).wait_queue@ == old(self).wait_queue@.push(tid),
    {
        self.wait_queue.push_back(tid);
    }
}

} // verus!
