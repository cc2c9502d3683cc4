use rcore_os::sync::{Condvar, LockAttempt, Mutex, MutexKind, Semaphore};
use rcore_os::syscall::sync::{
    mutex_lock_finish, mutex_lock_retry, semaphore_down_finish, sys_condvar_create, sys_condvar_signal,
    sys_condvar_wait, sys_enable_deadlock_detect, sys_mutex_create, sys_mutex_lock, sys_mutex_unlock,
    sys_semaphore_create, sys_semaphore_down, sys_semaphore_up, sys_sleep, Resume, SyncOutcome, DEADLOCK_RET,
};
use rcore_os::task::process::{ProcessControlBlockInner, TaskUserRes, ThreadControlBlock};

fn process(threads: usize) -> ProcessControlBlockInner {
    let mut p = ProcessControlBlockInner::new();
    for tid in 0..threads {
        p.tasks.push(Some(ThreadControlBlock {
            res: Some(TaskUserRes { tid }),
            mutex_cnt: 0,
            semaphore_cnt: std::collections::BTreeMap::new(),
        }));
    }
    p
}

fn mutex_cnt(p: &ProcessControlBlockInner, i: usize) -> usize {
    p.tasks[i].as_ref().unwrap().mutex_cnt
}

fn sem_cnt(p: &ProcessControlBlockInner, i: usize) -> Vec<(usize, isize)> {
    p.tasks[i].as_ref().unwrap().semaphore_cnt.iter().map(|(k, v)| (*k, *v)).collect()
}

#[test]
fn blocking_mutex_hands_lock_to_first_waiter() {
    let mut m = Mutex::new(MutexKind::Blocking);
    assert_eq!(m.lock(1), LockAttempt::Acquired);
    assert_eq!(m.lock(2), LockAttempt::Blocked);
    assert_eq!(m.lock(3), LockAttempt::Blocked);
    assert_eq!(m.unlock(), Some(2));
    assert!(m.locked);
    assert_eq!(m.unlock(), Some(3));
    assert_eq!(m.unlock(), None);
    assert!(!m.locked);
}

#[test]
fn spin_mutex_makes_waiter_retry() {
    let mut m = Mutex::new(MutexKind::Spin);
    assert_eq!(m.lock(1), LockAttempt::Acquired);
    assert_eq!(m.lock(2), LockAttempt::Spin);
    assert_eq!(m.unlock(), None);
    assert_eq!(m.lock(2), LockAttempt::Acquired);
}

#[test]
fn semaphore_waiters_match_deficit() {
    let mut s = Semaphore::new(1);
    assert!(!s.down(1));
    assert!(s.down(2));
    assert!(s.down(3));
    assert_eq!(s.count, -2);
    assert_eq!(s.wait_queue.len(), 2);
    assert_eq!(s.up(), Some(2));
    assert_eq!(s.up(), Some(3));
    assert_eq!(s.up(), None);
    assert_eq!(s.count, 1);
}

#[test]
fn condvar_signals_in_order() {
    let mut c = Condvar::new();
    assert_eq!(c.signal(), None);
    c.enqueue(4);
    c.enqueue(5);
    assert_eq!(c.signal(), Some(4));
    assert_eq!(c.signal(), Some(5));
}

#[test]
fn create_reuses_lowest_free_slot() {
    let mut p = process(1);
    assert_eq!(sys_mutex_create(&mut p, false), 0);
    assert_eq!(sys_mutex_create(&mut p, true), 1);
    p.mutex_list[0] = None;
    assert_eq!(sys_mutex_create(&mut p, true), 0);
    assert_eq!(p.mutex_list[0].as_ref().unwrap().kind, MutexKind::Blocking);
    assert_eq!(sys_mutex_create(&mut p, false), 2);
    assert_eq!(sys_semaphore_create(&mut p, 3), 0);
    assert_eq!(p.semaphore_list[0].as_ref().unwrap().count, 3);
    assert_eq!(sys_condvar_create(&mut p), 0);
    assert_eq!(sys_condvar_create(&mut p), 1);
}

#[test]
fn mutex_lock_counts_and_blocks() {
    let mut p = process(2);
    let m = sys_mutex_create(&mut p, true) as usize;
    assert_eq!(sys_mutex_lock(&mut p, 0, m), SyncOutcome::Return { ret: 0, woken: None });
    assert_eq!(mutex_cnt(&p, 0), 1);
    assert_eq!(
        sys_mutex_lock(&mut p, 1, m),
        SyncOutcome::Block { woken: None, resume: Resume::FinishLock { counted: true } }
    );
    assert_eq!(mutex_cnt(&p, 1), 0);
    assert_eq!(sys_mutex_unlock(&mut p, 0, m), SyncOutcome::Return { ret: 0, woken: Some(1) });
    assert_eq!(mutex_cnt(&p, 0), 0);
    assert_eq!(mutex_lock_finish(&mut p, 1, true), SyncOutcome::Return { ret: 0, woken: None });
    assert_eq!(mutex_cnt(&p, 1), 1);
}

#[test]
fn spin_lock_yields_then_retries() {
    let mut p = process(2);
    let m = sys_mutex_create(&mut p, false) as usize;
    assert_eq!(sys_mutex_lock(&mut p, 0, m), SyncOutcome::Return { ret: 0, woken: None });
    assert_eq!(sys_mutex_lock(&mut p, 1, m), SyncOutcome::Yield { mutex_id: m, counted: true });
    assert_eq!(sys_mutex_unlock(&mut p, 0, m), SyncOutcome::Return { ret: 0, woken: None });
    assert_eq!(mutex_lock_retry(&mut p, 1, m, true), SyncOutcome::Return { ret: 0, woken: None });
    assert_eq!(mutex_cnt(&p, 1), 1);
}

#[test]
fn relocking_held_mutex_is_refused_as_deadlock() {
    let mut p = process(1);
    let m = sys_mutex_create(&mut p, true) as usize;
    assert_eq!(sys_enable_deadlock_detect(&mut p, 1), 0);
    assert_eq!(sys_mutex_lock(&mut p, 0, m), SyncOutcome::Return { ret: 0, woken: None });
    assert_eq!(sys_mutex_lock(&mut p, 0, m), SyncOutcome::Return { ret: DEADLOCK_RET, woken: None });
    assert_eq!(mutex_cnt(&p, 0), 1);
    assert!(p.mutex_list[m].as_ref().unwrap().wait_queue.is_empty());
}

#[test]
fn without_detection_relock_blocks() {
    let mut p = process(1);
    let m = sys_mutex_create(&mut p, true) as usize;
    assert_eq!(sys_mutex_lock(&mut p, 0, m), SyncOutcome::Return { ret: 0, woken: None });
    assert_eq!(
        sys_mutex_lock(&mut p, 0, m),
        SyncOutcome::Block { woken: None, resume: Resume::FinishLock { counted: true } }
    );
}

#[test]
fn semaphore_down_counts_held_units() {
    let mut p = process(2);
    let s = sys_semaphore_create(&mut p, 1) as usize;
    assert_eq!(sys_semaphore_down(&mut p, 0, s), SyncOutcome::Return { ret: 0, woken: None });
    assert_eq!(sem_cnt(&p, 0), vec![(s, 1)]);
    assert_eq!(
        sys_semaphore_down(&mut p, 1, s),
        SyncOutcome::Block { woken: None, resume: Resume::FinishDown { sem_id: s } }
    );
    assert_eq!(sem_cnt(&p, 1), vec![]);
    assert_eq!(sys_semaphore_up(&mut p, 0, s), SyncOutcome::Return { ret: 0, woken: Some(1) });
    assert_eq!(semaphore_down_finish(&mut p, 1, s), SyncOutcome::Return { ret: 0, woken: None });
    assert_eq!(sem_cnt(&p, 1), vec![(s, 1)]);
    assert_eq!(p.semaphore_list[s].as_ref().unwrap().count, 0);
}

#[test]
fn semaphore_up_lowers_count_of_its_semaphore() {
    let mut p = process(1);
    let s0 = sys_semaphore_create(&mut p, 2) as usize;
    let s1 = sys_semaphore_create(&mut p, 2) as usize;
    assert_eq!(sys_semaphore_down(&mut p, 0, s0), SyncOutcome::Return { ret: 0, woken: None });
    assert_eq!(sys_semaphore_down(&mut p, 0, s1), SyncOutcome::Return { ret: 0, woken: None });
    assert_eq!(sem_cnt(&p, 0), vec![(0, 1), (1, 1)]);
    assert_eq!(sys_semaphore_up(&mut p, 0, s0), SyncOutcome::Return { ret: 0, woken: None });
    assert_eq!(sem_cnt(&p, 0), vec![(0, 0), (1, 1)]);
    assert_eq!(p.semaphore_list[s0].as_ref().unwrap().count, 2);
    assert_eq!(sys_semaphore_up(&mut p, 0, s1), SyncOutcome::Return { ret: 0, woken: None });
    assert_eq!(sem_cnt(&p, 0), vec![(0, 0), (1, 0)]);
    // a semaphore the thread never took: its counts stay as they are
    let s2 = sys_semaphore_create(&mut p, 0) as usize;
    assert_eq!(sys_semaphore_up(&mut p, 0, s2), SyncOutcome::Return { ret: 0, woken: None });
    assert_eq!(sem_cnt(&p, 0), vec![(0, 0), (1, 0)]);
    assert_eq!(p.semaphore_list[s2].as_ref().unwrap().count, 1);
}

#[test]
fn down_beyond_free_units_is_refused_with_detection() {
    let mut p = process(1);
    let s = sys_semaphore_create(&mut p, 2) as usize;
    assert_eq!(sys_enable_deadlock_detect(&mut p, 1), 0);
    assert_eq!(sys_semaphore_down(&mut p, 0, s), SyncOutcome::Return { ret: 0, woken: None });
    // one unit is still free
    assert_eq!(sys_semaphore_down(&mut p, 0, s), SyncOutcome::Return { ret: 0, woken: None });
    assert_eq!(p.semaphore_list[s].as_ref().unwrap().count, 0);
    // none is free and only this thread could give one back
    assert_eq!(sys_semaphore_down(&mut p, 0, s), SyncOutcome::Return { ret: DEADLOCK_RET, woken: None });
    assert_eq!(p.semaphore_list[s].as_ref().unwrap().count, 0);
    assert_eq!(sem_cnt(&p, 0), vec![(s, 2)]);
}

#[test]
fn contended_down_waits_with_detection() {
    let mut p = process(2);
    let s = sys_semaphore_create(&mut p, 1) as usize;
    assert_eq!(sys_enable_deadlock_detect(&mut p, 1), 0);
    assert_eq!(sys_semaphore_down(&mut p, 0, s), SyncOutcome::Return { ret: 0, woken: None });
    // thread 0 holds the unit and can finish: thread 1 waits for it
    assert_eq!(
        sys_semaphore_down(&mut p, 1, s),
        SyncOutcome::Block { woken: None, resume: Resume::FinishDown { sem_id: s } }
    );
    assert_eq!(p.semaphore_list[s].as_ref().unwrap().count, -1);
    assert_eq!(sys_semaphore_up(&mut p, 0, s), SyncOutcome::Return { ret: 0, woken: Some(1) });
    assert_eq!(semaphore_down_finish(&mut p, 1, s), SyncOutcome::Return { ret: 0, woken: None });
    assert_eq!(sem_cnt(&p, 1), vec![(s, 1)]);
}

#[test]
fn condvar_wait_releases_mutex_and_sleeps() {
    let mut p = process(2);
    let m = sys_mutex_create(&mut p, true) as usize;
    let c = sys_condvar_create(&mut p) as usize;
    assert_eq!(sys_mutex_lock(&mut p, 0, m), SyncOutcome::Return { ret: 0, woken: None });
    assert_eq!(
        sys_mutex_lock(&mut p, 1, m),
        SyncOutcome::Block { woken: None, resume: Resume::FinishLock { counted: true } }
    );
    assert_eq!(
        sys_condvar_wait(&mut p, 0, c, m),
        SyncOutcome::Block { woken: Some(1), resume: Resume::RetakeLock { mutex_id: m } }
    );
    assert_eq!(sys_condvar_signal(&mut p, c), SyncOutcome::Return { ret: 0, woken: Some(0) });
    assert_eq!(sys_condvar_signal(&mut p, c), SyncOutcome::Return { ret: 0, woken: None });
    assert_eq!(mutex_lock_finish(&mut p, 1, true), SyncOutcome::Return { ret: 0, woken: None });
    assert_eq!(sys_mutex_unlock(&mut p, 1, m), SyncOutcome::Return { ret: 0, woken: None });
    assert_eq!(mutex_lock_retry(&mut p, 0, m, false), SyncOutcome::Return { ret: 0, woken: None });
    assert_eq!(mutex_cnt(&p, 0), 1);
}

#[test]
fn deadlock_switch_values() {
    let mut p = process(0);
    assert_eq!(sys_enable_deadlock_detect(&mut p, 1), 0);
    assert!(p.enable_deadlock);
    assert_eq!(sys_enable_deadlock_detect(&mut p, 2), -1);
    assert!(p.enable_deadlock);
    assert_eq!(sys_enable_deadlock_detect(&mut p, 0), 0);
    assert!(!p.enable_deadlock);
}

#[test]
fn sleep_expiry() {
    assert_eq!(sys_sleep(100, 20), 120);
}

#[test]
fn newcomer_waits_behind_handed_over_lock() {
    let mut m = Mutex::new(MutexKind::Blocking);
    assert_eq!(m.lock(1), LockAttempt::Acquired);
    assert_eq!(m.lock(2), LockAttempt::Blocked);
    // thread 1 releases: thread 2 is handed the lock
    assert_eq!(m.unlock(), Some(2));
    // thread 3 comes afterwards and must wait
    assert_eq!(m.lock(3), LockAttempt::Blocked);
    assert!(m.locked);
    assert_eq!(m.wait_queue.iter().copied().collect::<Vec<usize>>(), vec![3]);
}

#[test]
fn lock_then_unlock_restores_counts() {
    let mut p = process(2);
    let id = sys_mutex_create(&mut p, true) as usize;
    assert_eq!(sys_mutex_lock(&mut p, 1, id), SyncOutcome::Return { ret: 0, woken: None });
    assert_eq!(mutex_cnt(&p, 1), 1);
    assert_eq!(sys_mutex_unlock(&mut p, 1, id), SyncOutcome::Return { ret: 0, woken: None });
    assert_eq!(mutex_cnt(&p, 1), 0);
    assert_eq!(mutex_cnt(&p, 0), 0);
    let m = p.mutex_list[id].as_ref().unwrap();
    assert!(!m.locked);
    assert!(m.wait_queue.is_empty());
}

#[test]
fn down_then_up_restores_counts() {
    let mut p = process(2);
    let s = sys_semaphore_create(&mut p, 1) as usize;
    assert_eq!(sys_semaphore_down(&mut p, 1, s), SyncOutcome::Return { ret: 0, woken: None });
    assert_eq!(sem_cnt(&p, 1), vec![(s, 1)]);
    assert_eq!(p.semaphore_list[s].as_ref().unwrap().count, 0);
    assert_eq!(sys_semaphore_up(&mut p, 1, s), SyncOutcome::Return { ret: 0, woken: None });
    assert_eq!(sem_cnt(&p, 1), vec![(s, 0)]);
    assert_eq!(p.semaphore_list[s].as_ref().unwrap().count, 1);
    assert_eq!(sem_cnt(&p, 0), vec![]);
}
