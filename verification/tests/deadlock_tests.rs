use rcore_os::sync::Semaphore;
use rcore_os::syscall::deadlock::{check_deadlock, prepare_dealock, try_prepare_dealock, MUTEX, SEMAPHORE};
use rcore_os::task::process::{ProcessControlBlockInner, TaskUserRes, ThreadControlBlock};

#[test]
fn safe_state_has_no_deadlock() {
    let available = vec![1, 0];
    let allocation = vec![vec![0, 1], vec![1, 0]];
    let need = vec![vec![1, 0], vec![0, 0]];
    assert!(!check_deadlock(available, allocation, need));
}

#[test]
fn circular_wait_is_deadlock() {
    let available = vec![0, 0];
    let allocation = vec![vec![1, 0], vec![0, 1]];
    let need = vec![vec![0, 1], vec![1, 0]];
    assert!(check_deadlock(available, allocation, need));
}

#[test]
fn no_threads_no_deadlock() {
    assert!(!check_deadlock(vec![0, 3], vec![], vec![]));
}

#[test]
fn order_found_beyond_first_thread() {
    // thread 0 waits for what thread 2 gives back, thread 2 for thread 1
    let available = vec![1, 0, 0];
    let allocation = vec![vec![0, 0, 0], vec![0, 1, 0], vec![0, 0, 1]];
    let need = vec![vec![0, 0, 1], vec![1, 0, 0], vec![0, 1, 0]];
    assert!(!check_deadlock(available, allocation, need));
}

#[test]
fn one_thread_blocked_is_deadlock() {
    let available = vec![2, 0];
    let allocation = vec![vec![0, 0], vec![0, 0]];
    let need = vec![vec![0, 0], vec![1, 1]];
    assert!(check_deadlock(available, allocation, need));
}

fn thread(tid: usize, mutex_cnt: usize, sems: Vec<(usize, isize)>) -> Option<ThreadControlBlock> {
    Some(ThreadControlBlock { res: Some(TaskUserRes { tid }), mutex_cnt, semaphore_cnt: sems.into_iter().collect() })
}

#[test]
fn prepare_builds_matrices() {
    let mut p = ProcessControlBlockInner::new();
    p.mutex_list.push(None);
    p.mutex_list.push(None);
    p.semaphore_list.push(Some(Semaphore::new(2)));
    p.semaphore_list.push(None);
    if let Some(s) = &mut p.semaphore_list[0] {
        s.count = 1;
    }
    p.tasks.push(thread(0, 1, vec![(0, 1)]));
    p.tasks.push(None);
    p.tasks.push(thread(2, 0, vec![]));
    let (available, allocation, need) = prepare_dealock(&p, 2, MUTEX);
    // two mutex slots less one acquisition; semaphore 0 has one free unit
    assert_eq!(available, vec![1, 1, 0]);
    assert_eq!(allocation, vec![vec![1, 1, 0], vec![0, 0, 0]]);
    assert_eq!(need, vec![vec![0, 0, 0], vec![1, 0, 0]]);
    assert!(!check_deadlock(available, allocation, need));
}

#[test]
fn prepare_need_names_requested_semaphore() {
    let mut p = ProcessControlBlockInner::new();
    p.semaphore_list.push(Some(Semaphore::new(0)));
    p.semaphore_list.push(Some(Semaphore::new(3)));
    p.tasks.push(thread(0, 0, vec![(1, -2)]));
    let (available, allocation, need) = prepare_dealock(&p, 0, SEMAPHORE + 1);
    assert_eq!(available, vec![0, 0, 3]);
    assert_eq!(allocation, vec![vec![0, 0, 0]]);
    assert_eq!(need, vec![vec![0, 0, 1]]);
    assert!(!check_deadlock(available, allocation, need));
}

#[test]
fn matrices_refused_for_unknown_semaphore_key() {
    let mut p = ProcessControlBlockInner::new();
    p.semaphore_list.push(Some(Semaphore::new(1)));
    // key 1 names semaphore slot 1, which does not exist
    p.tasks.push(thread(0, 0, vec![(1, 1)]));
    assert!(try_prepare_dealock(&p, 0, MUTEX).is_none());
}

#[test]
fn matrices_refused_for_unknown_requested_resource() {
    let mut p = ProcessControlBlockInner::new();
    p.tasks.push(thread(4, 0, vec![]));
    assert!(try_prepare_dealock(&p, 4, SEMAPHORE + 3).is_none());
    // no live thread has the asking id: nothing is requested, nothing fails
    let (available, allocation, need) = try_prepare_dealock(&p, 5, SEMAPHORE + 3).unwrap();
    assert_eq!(available, vec![0]);
    assert_eq!(allocation, vec![vec![0]]);
    assert_eq!(need, vec![vec![0]]);
}

#[test]
fn matrices_refused_when_more_mutexes_counted_than_exist() {
    let mut p = ProcessControlBlockInner::new();
    p.mutex_list.push(None);
    p.tasks.push(thread(0, 2, vec![]));
    assert!(try_prepare_dealock(&p, 0, MUTEX).is_none());
}

#[test]
fn held_semaphore_units_are_not_free_units() {
    // a semaphore with one free unit, two more held by a thread
    let mut q = ProcessControlBlockInner::new();
    q.semaphore_list.push(Some(Semaphore::new(1)));
    q.tasks.push(thread(0, 0, vec![(0, 2)]));
    let (available, allocation, need) = try_prepare_dealock(&q, 0, SEMAPHORE).unwrap();
    assert_eq!(available, vec![0, 1]);
    assert_eq!(allocation, vec![vec![0, 2]]);
    assert_eq!(need, vec![vec![0, 1]]);
    assert!(!check_deadlock(available, allocation, need));
}

#[test]
fn matrices_agree_with_prepare() {
    let mut p = ProcessControlBlockInner::new();
    p.mutex_list.push(None);
    p.semaphore_list.push(Some(Semaphore::new(3)));
    p.tasks.push(thread(0, 1, vec![(0, 2)]));
    p.tasks.push(thread(1, 0, vec![(0, -1)]));
    let got = try_prepare_dealock(&p, 1, SEMAPHORE).unwrap();
    assert_eq!(got, prepare_dealock(&p, 1, SEMAPHORE));
    assert_eq!(got.0, vec![0, 3]);
    assert_eq!(got.1, vec![vec![1, 2], vec![0, 0]]);
    assert_eq!(got.2, vec![vec![0, 0], vec![0, 1]]);
}

#[test]
fn stuck_state_with_huge_holdings_is_deadlock() {
    // nobody can start, so nothing is ever given back
    let available = vec![0];
    let allocation = vec![vec![usize::MAX], vec![1]];
    let need = vec![vec![1], vec![1]];
    assert!(check_deadlock(available, allocation, need));
}

#[test]
fn giving_back_past_usize_is_counted_exactly() {
    // after thread 0 gives back usize::MAX units, more than a usize is free
    let available = vec![1];
    let allocation = vec![vec![usize::MAX], vec![7]];
    let need = vec![vec![1], vec![usize::MAX]];
    assert!(!check_deadlock(available, allocation, need));
}
