//! The synchronisation state of a process: its mutexes, semaphores and
//! condition variables, and for each of its threads the resources it holds.
use vstd::prelude::*;
use std::collections::BTreeMap;
use crate::sync::{Condvar, Mutex, Semaphore};

verus! {

/// The user resources of a thread; the thread id is all the kernel reads.
#[derive(Clone, Copy, PartialEq, Eq, Structural, Debug)]
pub struct TaskUserRes {
    pub tid: usize,
}

/// The per-thread bookkeeping that the synchronisation system calls keep.
pub struct ThreadControlBlock {
    /// The thread's user resources, once allocated.
    pub res: Option<TaskUserRes>,
    /// How many mutex acquisitions the thread has counted.
    pub mutex_cnt: usize,
    /// Per semaphore id, the units the thread has counted as held.
    pub semaphore_cnt: BTreeMap<usize, isize>,
}

/// Semaphore ids are keys that the ordered map's model holds to the usual
/// order of integers.
pub proof fn lemma_count_keys()
    ensures
        vstd::laws_cmp::obeys_cmp::<usize>(),
        vstd::std_specs::btree::key_obeys_cmp_spec::<usize>(),
{
    broadcast use vstd::laws_cmp::group_laws_cmp;
}

/// The value counted under `key`, or 0 when the key is absent.
pub open spec fn held(v: Map<usize, isize>, key: usize) -> isize {
    if v.contains_key(key) {
        v[key]
    } else {
        0
    }
}

/// Whether a count is kept under `key`.
pub open spec fn has_key(v: Map<usize, isize>, key: usize) -> bool {
    v.contains_key(key)
}

/// `v2` is `v` with one more unit counted under `key`, the key inserted
/// at 1 when absent; every other key is as before.
pub open spec fn counted_up(v: Map<usize, isize>, v2: Map<usize, isize>, key: usize) -> bool {
    &&& held(v2, key) == held(v, key) + 1
    &&& has_key(v2, key)
    &&& forall|k: usize| k != key ==> held(v2, k) == held(v, k)
    &&& forall|k: usize| k != key ==> has_key(v2, k) == has_key(v, k)
}

/// `v2` is `v` with one unit fewer counted under `key` when the key is
/// present, and `v` itself when it is absent; every other key is as
/// before.
pub open spec fn counted_down(v: Map<usize, isize>, v2: Map<usize, isize>, key: usize) -> bool {
    &&& has_key(v, key) ==> held(v2, key) == held(v, key) - 1
    &&& !has_key(v, key) ==> v2 == v
    &&& forall|k: usize| k != key ==> held(v2, k) == held(v, k)
    &&& forall|k: usize| has_key(v2, k) == has_key(v, k)
}

/// Counting a unit up and then down under the same key leaves every key's
/// count as it was: a semaphore down, whether it took a unit at once or was
/// completed after waiting, followed by an up restores what the thread is
/// counted as holding.
pub proof fn law_count_up_then_down(
    v: Map<usize, isize>,
    v2: Map<usize, isize>,
    v3: Map<usize, isize>,
    key: usize,
)
    requires
        counted_up(v, v2, key),
        counted_down(v2, v3, key),
    ensures
        forall|k: usize| held(v3, k) == held(v, k),
{
}

/// Adding one to `key`'s count, inserting it at 1 when absent.
pub fn count_up(v: &mut BTreeMap<usize, isize>, key: usize)
    requires
        held(old(v)@, key) < isize::MAX,
    ensures
        counted_up(old(v)@, final(v)@, key),
{
    proof {
        lemma_count_keys();
    }
    let now: Option<isize> = match v.get(&key) {
        Some(c) => Some(*c),
        None => None,
    };
    match now {
        Some(c) => {
            v.insert(key, c + 1);
        },
        None => {
            v.insert(key, 1);
        },
    }
}

/// Subtracting one from `key`'s count when the key is present; nothing
/// happens when it is absent.
pub fn count_down_if_present(v: &mut BTreeMap<usize, isize>, key: usize)
    requires
        has_key(old(v)@, key) ==> held(old(v)@, key) > isize::MIN,
    ensures
        counted_down(old(v)@, final(v)@, key),
{
    proof {
        lemma_count_keys();
    }
    let now: Option<isize> = match v.get(&key) {
        Some(c) => Some(*c),
        None => None,
    };
    match now {
        Some(c) => {
            v.insert(key, c - 1);
            proof {
                assert forall|k: usize| has_key(v@, k) == has_key(old(v)@, k) by {
                    if k == key {
                        assert(v@.contains_key(key));
                    }
                }
            }
        },
        None => {},
    }
}

/// The synchronisation state of a process.
pub struct ProcessControlBlockInner {
    /// Mutexes by id; a freed slot is `None`.
    pub mutex_list: Vec<Option<Mutex>>,
    /// Semaphores by id.
    pub semaphore_list: Vec<Option<Semaphore>>,
    /// Condition variables by id.
    pub condvar_list: Vec<Option<Condvar>>,
    /// Threads by index; an exited thread's slot is `None`.
    pub tasks: Vec<Option<ThreadControlBlock>>,
    /// Whether mutex locks and semaphore downs first check for deadlock.
    pub enable_deadlock: bool,
}

impl ProcessControlBlockInner {
    /// Every mutex and semaphore is well formed.
    pub open spec fn wf(&self) -> bool {
        &&& forall|i: int|
            0 <= i < self.mutex_list@.len() && (#[trigger] self.mutex_list@[i]) is Some
                ==> self.mutex_list@[i]->0.wf()
        &&& forall|i: int|
            0 <= i < self.semaphore_list@.len() && (#[trigger] self.semaphore_list@[i]) is Some
                ==> self.semaphore_list@[i]->0.wf()
    }

    /// An empty process with deadlock detection off.
    pub fn new() -> (p: Self)
        ensures
            p.wf(),
            p.mutex_list@.len() == 0,
            p.semaphore_list@.len() == 0,
            p.condvar_list@.len() == 0,
            p.tasks@.len() == 0,
            !p.enable_deadlock,
    {
        ProcessControlBlockInner {
            mutex_list: Vec::new(),
            semaphore_list: Vec::new(),
            condvar_list: Vec::new(),
            tasks: Vec::new(),
            enable_deadlock: false,
        }
    }
}

} // verus!
