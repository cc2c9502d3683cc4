use rcore_os::config::{KERNEL_STACK_SIZE, PAGE_SIZE, TRAMPOLINE};
use rcore_os::fs::FileDesc;
use rcore_os::mm::{MemorySet, MAP_R, MAP_U, MAP_W};
use rcore_os::syscall::fs::{sys_close, sys_fstat, sys_linkat, sys_open, sys_read, sys_unlinkat, sys_write};
use rcore_os::syscall::process::{
    sys_exec, sys_exit, sys_fork, sys_get_time, sys_getpid, sys_mmap, sys_munmap, sys_sbrk, sys_set_priority,
    sys_spawn, sys_waitpid, sys_yield,
};
use rcore_os::task::manager::TaskManager;
use rcore_os::task::pid::{kernel_stack_position, KernelStack, RecycleAllocator};
use rcore_os::task::record::TaskRecord;
use rcore_os::task::task::{ProgramImage, TaskStatus};
use rcore_os::task::{
    add_initproc, current_task, current_trap_cx, current_user_token, exit_current_and_run_next, fetch_task,
    run_tasks_step, ExitAction, Kernel,
};

const USER_SP: usize = 0x10000;

fn image(root: usize, entry: usize) -> ProgramImage {
    ProgramImage { memory_set: MemorySet::new_bare(root), user_sp: USER_SP, entry_point: entry }
}

/// A kernel whose initial process is running.
fn booted() -> Kernel {
    let mut k = Kernel::new(image(7, 0x1000), MemorySet::new_bare(1), 0xaaaa, 0xbbbb);
    add_initproc(&mut k);
    assert_eq!(run_tasks_step(&mut k), Some(0));
    k
}

#[test]
fn recycle_allocator_reuses_last_freed() {
    let mut a = RecycleAllocator::new();
    assert_eq!(a.allocate(), 0);
    assert_eq!(a.allocate(), 1);
    assert_eq!(a.allocate(), 2);
    a.dealloc(1);
    a.dealloc(0);
    assert_eq!(a.allocate(), 0);
    assert_eq!(a.allocate(), 1);
    assert_eq!(a.allocate(), 3);
}

#[test]
fn kernel_stack_layout() {
    assert_eq!(TRAMPOLINE, usize::MAX - PAGE_SIZE + 1);
    assert_eq!(kernel_stack_position(0), (TRAMPOLINE - KERNEL_STACK_SIZE, TRAMPOLINE));
    let top1 = TRAMPOLINE - (KERNEL_STACK_SIZE + PAGE_SIZE);
    assert_eq!(kernel_stack_position(1), (top1 - KERNEL_STACK_SIZE, top1));
    assert_eq!(KernelStack(2).get_top(), TRAMPOLINE - 2 * (KERNEL_STACK_SIZE + PAGE_SIZE));
}

#[test]
fn record_counts_calls() {
    let mut r = TaskRecord::new();
    assert_eq!(r.count_syscall(64), 0);
    r.record_syscall(64);
    r.record_syscall(93);
    r.record_syscall(64);
    assert_eq!(r.count_syscall(64), 2);
    assert_eq!(r.count_syscall(93), 1);
    assert_eq!(r.count_syscall(1), 0);
}

#[test]
fn ready_queue_orders_by_pass() {
    let mut m = TaskManager::new();
    m.add(1, 10);
    m.add(2, 5);
    m.add(3, 10);
    m.add(4, 7);
    assert_eq!(m.fetch(), Some((2, 5)));
    assert_eq!(m.fetch(), Some((4, 7)));
    assert_eq!(m.fetch(), Some((1, 10)));
    assert_eq!(m.fetch(), Some((3, 10)));
    assert_eq!(m.fetch(), None);
}

#[test]
fn boot_runs_initial_process() {
    let k = booted();
    assert_eq!(current_task(&k), Some(0));
    let t = k.tasks[0].as_ref().unwrap();
    assert_eq!(t.inner.task_status, TaskStatus::Running);
    assert_eq!(t.inner.stride.pass, 255 / 16);
    assert_eq!(t.inner.stride.priority, 16);
    assert_eq!(current_trap_cx(&k).sepc, 0x1000);
    assert_eq!(current_trap_cx(&k).x[2], USER_SP);
    assert_eq!(current_user_token(&k), (8usize << 60) | 7);
    assert_eq!(sys_getpid(&k), 0);
}

#[test]
fn fork_wait_exit_cycle() {
    let mut k = booted();
    let child = sys_fork(&mut k, 8);
    assert_eq!(child, 1);
    {
        let c = k.tasks[1].as_ref().unwrap();
        assert_eq!(c.inner.trap_cx.x[10], 0);
        assert_eq!(c.inner.trap_cx.sepc, 0x1000);
        assert_eq!(c.inner.parent, Some(0));
        assert_eq!(c.inner.memory_set.root_ppn, 8);
        assert_eq!(c.inner.trap_cx.kernel_sp, kernel_stack_position(1).1);
    }
    assert_eq!(k.tasks[0].as_ref().unwrap().inner.children, vec![1]);
    assert_eq!(sys_waitpid(&mut k, 5), (-1, None));
    assert_eq!(sys_waitpid(&mut k, -1), (-2, None));
    assert_eq!(sys_yield(&mut k), 0);
    // the child's pass equals the parent's and it was queued first
    assert_eq!(run_tasks_step(&mut k), Some(1));
    assert_eq!(sys_getpid(&k), 1);
    assert_eq!(sys_exit(&mut k, 7), ExitAction::Schedule);
    assert_eq!(k.tasks[1].as_ref().unwrap().inner.task_status, TaskStatus::Zombie);
    assert_eq!(run_tasks_step(&mut k), Some(0));
    assert_eq!(sys_waitpid(&mut k, 1), (1, Some(7)));
    assert!(k.tasks[1].is_none());
    assert!(k.tasks[0].as_ref().unwrap().inner.children.is_empty());
    assert_eq!(sys_waitpid(&mut k, -1), (-1, None));
    // the freed pid is handed out again
    assert_eq!(sys_fork(&mut k, 9), 1);
}

#[test]
fn exiting_task_children_go_to_initproc() {
    let mut k = booted();
    assert_eq!(sys_fork(&mut k, 8), 1);
    assert_eq!(sys_yield(&mut k), 0);
    assert_eq!(run_tasks_step(&mut k), Some(1));
    assert_eq!(sys_fork(&mut k, 9), 2);
    assert_eq!(exit_current_and_run_next(&mut k, 3), ExitAction::Schedule);
    assert_eq!(k.tasks[2].as_ref().unwrap().inner.parent, Some(0));
    assert_eq!(k.tasks[0].as_ref().unwrap().inner.children, vec![1, 2]);
    assert!(k.tasks[1].as_ref().unwrap().inner.children.is_empty());
}

#[test]
fn initproc_exit_shuts_down() {
    let mut k = booted();
    assert_eq!(sys_exit(&mut k, 0), ExitAction::Shutdown);
    assert_eq!(current_task(&k), None);
}

#[test]
fn spawn_queues_new_child() {
    let mut k = booted();
    assert_eq!(sys_spawn(&mut k, None), -1);
    assert_eq!(sys_spawn(&mut k, Some(image(12, 0x2000))), 1);
    let c = k.tasks[1].as_ref().unwrap();
    assert_eq!(c.inner.trap_cx.sepc, 0x2000);
    assert_eq!(c.inner.parent, Some(0));
    assert_eq!(c.inner.stride.pass, 0);
    assert_eq!(fetch_task(&mut k), Some(1));
}

#[test]
fn exec_replaces_program() {
    let mut k = booted();
    assert_eq!(sys_exec(&mut k, None), -1);
    assert_eq!(sys_exec(&mut k, Some(image(20, 0x3000))), 0);
    assert_eq!(current_trap_cx(&k).sepc, 0x3000);
    assert_eq!(current_user_token(&k), (8usize << 60) | 20);
}

#[test]
fn mmap_and_munmap() {
    let mut k = booted();
    assert_eq!(sys_mmap(&mut k, 0x1000_0000, 0x2000, 0), -1);
    assert_eq!(sys_mmap(&mut k, 0x1000_0000, 0x2000, 8), -1);
    assert_eq!(sys_mmap(&mut k, 0x1000_0001, 0x2000, 3), -1);
    assert_eq!(sys_mmap(&mut k, 0x1000_0000, 0x2000, 3), 0);
    {
        let ms = &k.tasks[0].as_ref().unwrap().inner.memory_set;
        assert_eq!(ms.pages.get(&0x10000).map(|e| e.0), Some(MAP_U | MAP_R | MAP_W));
        assert_eq!(ms.pages.get(&0x10001).map(|e| e.0), Some(MAP_U | MAP_R | MAP_W));
        assert_eq!(ms.pages.len(), 2);
        // a freshly mapped page holds zeros
        let page = &ms.pages.get(&0x10000).unwrap().1;
        assert_eq!(page.len(), PAGE_SIZE);
        assert!(page.iter().all(|b| *b == 0));
    }
    assert_eq!(sys_mmap(&mut k, 0x1000_1000, 0x1000, 1), -1);
    assert_eq!(sys_munmap(&mut k, 0x1000_0000, 0x3000), -1);
    assert_eq!(sys_munmap(&mut k, 0x1000_0000, 0x2000), 0);
    assert_eq!(sys_munmap(&mut k, 0x1000_0000, 0x2000), -1);
    assert!(k.tasks[0].as_ref().unwrap().inner.memory_set.pages.is_empty());
}

#[test]
fn sbrk_grows_and_shrinks() {
    let mut k = booted();
    assert_eq!(sys_sbrk(&mut k, -1), -1);
    assert_eq!(sys_sbrk(&mut k, 0x100), USER_SP as isize);
    assert_eq!(k.tasks[0].as_ref().unwrap().inner.program_brk, USER_SP + 0x100);
    assert_eq!(k.tasks[0].as_ref().unwrap().inner.memory_set.pages.len(), 1);
    assert_eq!(sys_sbrk(&mut k, 0x1000), (USER_SP + 0x100) as isize);
    assert_eq!(k.tasks[0].as_ref().unwrap().inner.memory_set.pages.len(), 2);
    assert_eq!(sys_sbrk(&mut k, -0x1100), (USER_SP + 0x1100) as isize);
    assert_eq!(k.tasks[0].as_ref().unwrap().inner.program_brk, USER_SP);
    assert!(k.tasks[0].as_ref().unwrap().inner.memory_set.pages.is_empty());
}

#[test]
fn priority_must_exceed_one() {
    let mut k = booted();
    assert_eq!(sys_set_priority(&mut k, 1), -1);
    assert_eq!(sys_set_priority(&mut k, 32), 0);
    assert_eq!(k.tasks[0].as_ref().unwrap().inner.stride.priority, 32);
}

#[test]
fn descriptors_open_close() {
    let mut k = booted();
    assert_eq!(sys_write(&k, 1), Some(FileDesc { file_id: 1 }));
    assert_eq!(sys_read(&k, 0), Some(FileDesc { file_id: 0 }));
    assert_eq!(sys_write(&k, 3), None);
    assert_eq!(sys_open(&mut k, None), -1);
    assert_eq!(sys_open(&mut k, Some(FileDesc { file_id: 9 })), 3);
    assert_eq!(sys_fstat(&k, 3), Some(FileDesc { file_id: 9 }));
    assert_eq!(sys_close(&mut k, 3), 0);
    assert_eq!(sys_close(&mut k, 3), -1);
    assert_eq!(sys_close(&mut k, 100), -1);
    assert_eq!(sys_close(&mut k, 1), 0);
    assert_eq!(sys_open(&mut k, Some(FileDesc { file_id: 10 })), 1);
    assert_eq!(sys_read(&k, 3), None);
}

#[test]
fn link_and_unlink_answers() {
    let a = String::from("a");
    let b = String::from("b");
    assert_eq!(sys_linkat(&a, &a, Some(3)), -1);
    assert_eq!(sys_linkat(&a, &b, None), -1);
    assert_eq!(sys_linkat(&a, &b, Some(3)), 0);
    assert_eq!(sys_unlinkat(None), -1);
    assert_eq!(sys_unlinkat(Some(3)), 0);
}

#[test]
fn time_split() {
    let t = sys_get_time(3_250_001);
    assert_eq!(t.sec, 3);
    assert_eq!(t.usec, 250_001);
}

#[test]
fn room_for_task_follows_kernel_stack_slots() {
    let k = booted();
    assert!(k.has_room_for_task());
    // map the next kernel stack slot's lowest page: no room is left
    let mut space = MemorySet::new_bare(1);
    let (bottom, _) = kernel_stack_position(1);
    space.insert_framed_area(bottom, bottom + PAGE_SIZE, rcore_os::mm::MapPermission { bits: MAP_R });
    let mut k2 = Kernel::new(image(7, 0x1000), space, 0xaaaa, 0xbbbb);
    assert!(!k2.has_room_for_task());
    add_initproc(&mut k2);
    assert_eq!(run_tasks_step(&mut k2), Some(0));
    assert!(!k2.has_room_for_task());
}

#[test]
fn fork_copies_page_bytes_into_own_pages() {
    let mut k = booted();
    assert_eq!(sys_mmap(&mut k, 0x1000_0000, 0x1000, 3), 0);
    {
        let ms = &mut k.tasks[0].as_mut().unwrap().inner.memory_set;
        let page = &mut ms.pages.get_mut(&0x10000).unwrap().1;
        page[0] = 0xab;
        page[PAGE_SIZE - 1] = 0xcd;
    }
    assert_eq!(sys_fork(&mut k, 8), 1);
    {
        let child = &k.tasks[1].as_ref().unwrap().inner.memory_set.pages;
        let parent = &k.tasks[0].as_ref().unwrap().inner.memory_set.pages;
        assert_eq!(child, parent);
        assert_eq!(child.get(&0x10000).unwrap().1[0], 0xab);
    }
    // a write to the child's page leaves the parent's page as it was
    k.tasks[1].as_mut().unwrap().inner.memory_set.pages.get_mut(&0x10000).unwrap().1[0] = 0x11;
    assert_eq!(k.tasks[0].as_ref().unwrap().inner.memory_set.pages.get(&0x10000).unwrap().1[0], 0xab);
    assert_eq!(k.tasks[0].as_ref().unwrap().inner.memory_set.root_ppn, 7);
    assert_eq!(k.tasks[1].as_ref().unwrap().inner.memory_set.root_ppn, 8);
}
