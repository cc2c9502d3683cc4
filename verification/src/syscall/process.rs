//! Process system calls, on the running task of the kernel.
//!
//! Reading and writing user memory, loading a program from the file
//! system and switching tasks happen around these calls: a path is looked
//! up and loaded before `sys_exec` and `sys_spawn`, an exit code that
//! `sys_waitpid` returns is written to user memory afterwards, and the
//! processor switches after `sys_yield` and `sys_exit`.
use vstd::prelude::*;
use crate::config::{PAGE_SIZE, VA_SPACE};
use crate::mm::{ceil_vpn, floor_vpn, map_range, range_free, range_mapped, unmap_range, va, MapPermission, MAP_R, MAP_U, MAP_W, MAP_X};
use crate::task::{
    add_task, child_added, exit_current_and_run_next, exited, lemma_only_task_changed, only_task_changed, reaped,
    suspend_current_and_run_next, ExitAction, Kernel, INITPROC_PID,
};
use crate::task::task::{
    moved_brk, standard_fds, ProgramImage, TaskContext, TaskControlBlock, TaskControlBlockInner, TaskStatus,
    TaskStride,
};
use crate::task::pid::kstack_bounds;

verus! {

/// A time: seconds and microseconds.
#[derive(Clone, Copy, PartialEq, Eq, Structural, Debug)]
pub struct TimeVal {
    pub sec: usize,
    pub usec: usize,
}

/// The running task exits with `exit_code` (see
/// `exit_current_and_run_next`).
pub fn sys_exit(k: &mut Kernel, exit_code: i32) -> (act: ExitAction)
    requires
        old(k).wf(),
        old(k).has_current(),
    ensures
        final(k).wf(),
        old(k).cur() == INITPROC_PID ==> act == ExitAction::Shutdown && final(k).tasks@ == old(k).tasks@,
        old(k).cur() != INITPROC_PID ==> act == ExitAction::Schedule && crate::task::exited(
            *old(k),
            *final(k),
            old(k).cur(),
            exit_code,
        ),
        (final(k).processor.current is None),
{
    exit_current_and_run_next(k, exit_code)
}

/// The running task gives up the processor: it becomes ready and joins the
/// ready queue.  Returns 0.
pub fn sys_yield(k: &mut Kernel) -> (r: isize)
    requires
        old(k).wf(),
        old(k).has_current(),
    ensures
        final(k).wf(),
        r == 0,
        (final(k).processor.current is None),
        final(k).tasks@ == old(k).tasks@.update(
            old(k).cur(),
            Some(crate::task::with_status(old(k).tcb(old(k).cur()), TaskStatus::Ready)),
        ),
        exists|pos: int|
            crate::task::manager::is_insert_pos(old(k).manager@, old(k).inner(old(k).cur()).stride.pass, pos)
                && final(k).manager@ == old(k).manager@.insert(
                pos,
                (old(k).cur() as usize, old(k).inner(old(k).cur()).stride.pass),
            ),
{
    suspend_current_and_run_next(k);
    0
}

/// The time `us` microseconds after boot, as seconds and microseconds.
pub fn sys_get_time(us: usize) -> (t: TimeVal)
    ensures
        t.sec == us / 1_000_000,
        t.usec == us % 1_000_000,
{
    TimeVal { sec: us / 1_000_000, usec: us % 1_000_000 }
}

/// `prot` asks for something other than read, write and execute, or for
/// nothing.
pub open spec fn bad_prot(prot: usize) -> bool {
    prot & !0x7usize != 0 || prot & 0x7usize == 0
}

/// The permission a mapping with protection `prot` gets: user-accessible,
/// and readable, writable, executable as bits 0, 1, 2 of `prot` ask.
pub open spec fn mmap_perm(prot: usize) -> u8 {
    let p0 = MAP_U;
    let p1 = if prot & 0x1usize != 0 { p0 | MAP_R } else { p0 };
    let p2 = if prot & 0x2usize != 0 { p1 | MAP_W } else { p1 };
    if prot & 0x4usize != 0 { p2 | MAP_X } else { p2 }
}

/// `b`'s running task is `a`'s with only its address space changed.
pub open spec fn only_memory_changed(a: Kernel, b: Kernel) -> bool {
    &&& only_task_changed(a, b, a.cur())
    &&& b.tcb(a.cur()) == TaskControlBlock {
        pid: a.tcb(a.cur()).pid,
        kernel_stack: a.tcb(a.cur()).kernel_stack,
        inner: TaskControlBlockInner { memory_set: b.inner(a.cur()).memory_set, ..a.inner(a.cur()) },
    }
    &&& b.inner(a.cur()).memory_set.root_ppn == a.inner(a.cur()).memory_set.root_ppn
}

/// `b` is `a` after the running task asked to map `len` bytes from `start`
/// with protection `prot`, and `r` is what the call returned (see
/// `sys_mmap`).
pub open spec fn mmap_step(a: Kernel, b: Kernel, start: usize, len: usize, prot: usize, r: isize) -> bool {
    let ms = a.inner(a.cur()).memory_set@;
    let lo = floor_vpn(va(start));
    let hi = ceil_vpn(va((start + len) as usize));
    let refused = bad_prot(prot) || start & 0xfffusize != 0 || !range_free(ms, lo, hi);
    &&& refused ==> r == -1 && b.tasks@ == a.tasks@
    &&& !refused ==> r == 0 && only_memory_changed(a, b) && b.inner(a.cur()).memory_set@ == map_range(
        ms,
        lo,
        hi,
        mmap_perm(prot),
    )
}

/// Maps `len` bytes from `start` in the running task's address space, with
/// protection `prot` (bit 0 read, bit 1 write, bit 2 execute).  Refuses with
/// -1, changing nothing, when `prot` asks for anything else or for nothing,
/// when `start` is not page-aligned, or when some page of the range is
/// already mapped; otherwise maps every page of the range and returns 0.
pub fn sys_mmap(k: &mut Kernel, start: usize, len: usize, prot: usize) -> (r: isize)
    requires
        old(k).wf(),
        old(k).has_current(),
        !bad_prot(prot) && start & 0xfffusize == 0 ==> start + len <= usize::MAX,
    ensures
        final(k).wf(),
        mmap_step(*old(k), *final(k), start, len, prot, r),
        final(k).manager == old(k).manager,
        final(k).processor == old(k).processor,
{
    if prot & !0x7 != 0 || prot & 0x7 == 0 {
        return -1;
    }
    let mut perm = MAP_U;
    if prot & 0x1 != 0 {
        perm = perm | MAP_R;
    }
    if prot & 0x2 != 0 {
        perm = perm | MAP_W;
    }
    if prot & 0x4 != 0 {
        perm = perm | MAP_X;
    }
    if start & 0xfff != 0 {
        return -1;
    }
    let cur = k.processor.current().unwrap();
    let ghost a = *k;
    proof {
        assert(a.live(cur as int));
    }
    let r = match &mut k.tasks[cur] {
        Some(t) => {
            if t.inner.memory_set.overlaps(start, start + len) {
                -1
            } else {
                t.inner.memory_set.insert_framed_area(start, start + len, MapPermission { bits: perm });
                0
            }
        },
        None => -1,
    };
    proof {
        assert(only_task_changed(a, *k, cur as int));
        lemma_only_task_changed(a, *k, cur as int);
        if r == -1 {
            assert(k.tasks@ =~= a.tasks@);
        }
    }
    r
}

/// Unmaps `len` bytes from `start` in the running task's address space.
/// Refuses with -1, changing nothing, when `start` is not page-aligned or
/// when some page of the range is not mapped; otherwise unmaps every page of
/// the range and returns 0.
pub fn sys_munmap(k: &mut Kernel, start: usize, len: usize) -> (r: isize)
    requires
        old(k).wf(),
        old(k).has_current(),
        start & 0xfffusize == 0 ==> start + len <= usize::MAX,
    ensures
        final(k).wf(),
        ({
            let ms = old(k).inner(old(k).cur()).memory_set@;
            let lo = floor_vpn(va(start));
            let hi = ceil_vpn(va((start + len) as usize));
            let refused = start & 0xfffusize != 0 || !range_mapped(ms, lo, hi);
            &&& refused ==> r == -1 && (start & 0xfffusize != 0 ==> final(k).tasks@ == old(k).tasks@)
                && (final(k).inner(old(k).cur()).memory_set@ == ms)
            &&& !refused ==> r == 0 && final(k).inner(old(k).cur()).memory_set@ == unmap_range(ms, lo, hi)
            &&& start & 0xfffusize == 0 ==> only_memory_changed(*old(k), *final(k))
        }),
        final(k).manager == old(k).manager,
        final(k).processor == old(k).processor,
{
    if start & 0xfff != 0 {
        return -1;
    }
    let cur = k.processor.current().unwrap();
    let ghost a = *k;
    proof {
        assert(a.live(cur as int));
    }
    let r = match &mut k.tasks[cur] {
        Some(t) => t.inner.memory_set.remove_area(start, start + len),
        None => -1,
    };
    proof {
        assert(only_task_changed(a, *k, cur as int));
        lemma_only_task_changed(a, *k, cur as int);
    }
    r
}

/// Moves the end of the running task's heap by `size` bytes (see
/// `TaskControlBlock::change_program_brk`): returns the old end, or -1 when
/// that fails.
pub fn sys_sbrk(k: &mut Kernel, size: i32) -> (r: isize)
    requires
        old(k).wf(),
        old(k).has_current(),
        old(k).inner(old(k).cur()).program_brk + size <= isize::MAX,
        old(k).inner(old(k).cur()).program_brk <= isize::MAX,
        old(k).inner(old(k).cur()).heap_bottom <= isize::MAX,
    ensures
        final(k).wf(),
        only_task_changed(*old(k), *final(k), old(k).cur()),
        sbrk_step(old(k).inner(old(k).cur()), final(k).inner(old(k).cur()), size, r),
{
    let cur = k.processor.current().unwrap();
    let ghost a = *k;
    proof {
        assert(a.live(cur as int));
    }
    let res = match &mut k.tasks[cur] {
        Some(t) => t.change_program_brk(size),
        None => None,
    };
    proof {
        assert(only_task_changed(a, *k, cur as int));
        lemma_only_task_changed(a, *k, cur as int);
    }
    match res {
        Some(old_brk) => old_brk as isize,
        None => -1,
    }
}

/// `b` is task state `a` after moving its heap end by `size` bytes, and `r`
/// is what the call returned (see `sys_sbrk`).
pub open spec fn sbrk_step(a: TaskControlBlockInner, b: TaskControlBlockInner, size: i32, r: isize) -> bool {
    let old_brk = a.program_brk;
    let new_brk = moved_brk(old_brk, size);
    let ms = a.memory_set@;
    let ok = new_brk >= a.heap_bottom && (if size < 0 {
        range_mapped(ms, ceil_vpn(va(new_brk as usize)), ceil_vpn(va(old_brk)))
    } else {
        range_free(ms, ceil_vpn(va(old_brk)), ceil_vpn(va(new_brk as usize)))
    });
    &&& ok ==> r == old_brk && b.program_brk == new_brk && b.memory_set@ == (if size < 0 {
        unmap_range(ms, ceil_vpn(va(new_brk as usize)), ceil_vpn(va(old_brk)))
    } else {
        map_range(ms, ceil_vpn(va(old_brk)), ceil_vpn(va(new_brk as usize)), (MAP_R | MAP_W | MAP_U) as u8)
    })
    &&& !ok ==> r == -1 && b.program_brk == old_brk && b.memory_set@ == ms
    &&& b == (TaskControlBlockInner { program_brk: b.program_brk, memory_set: b.memory_set, ..a })
    &&& b.memory_set.root_ppn == a.memory_set.root_ppn
}

/// Growing the heap by `n` bytes and then shrinking it by `n` bytes, when
/// the growth succeeds, succeeds too and gives back the heap end and the
/// address space as they were.
pub proof fn law_sbrk_grow_then_shrink(ms: Map<usize, (u8, Seq<u8>)>, old_brk: usize, n: i32)
    requires
        n > 0,
        old_brk + n <= usize::MAX,
        range_free(ms, ceil_vpn(va(old_brk)), ceil_vpn(va(moved_brk(old_brk, n) as usize))),
    ensures
        ({
            let grown_brk = moved_brk(old_brk, n) as usize;
            let grown = map_range(ms, ceil_vpn(va(old_brk)), ceil_vpn(va(grown_brk)), (MAP_R | MAP_W | MAP_U) as u8);
            &&& moved_brk(grown_brk, -n as i32) == old_brk
            &&& range_mapped(grown, ceil_vpn(va(old_brk)), ceil_vpn(va(grown_brk)))
            &&& unmap_range(grown, ceil_vpn(va(old_brk)), ceil_vpn(va(grown_brk))) == ms
        }),
{
    let grown_brk = moved_brk(old_brk, n) as usize;
    crate::mm::law_map_then_unmap(
        ms,
        ceil_vpn(va(old_brk)),
        ceil_vpn(va(grown_brk)),
        (MAP_R | MAP_W | MAP_U) as u8,
    );
}

/// The running task forks (see `Kernel::fork`); the child, whose return
/// value register (x10) is set to 0, joins the ready queue.  Returns the
/// child's pid.
pub fn sys_fork(k: &mut Kernel, root_ppn: usize) -> (r: isize)
    requires
        old(k).wf(),
        old(k).has_current(),
        old(k).can_add_task(),
    ensures
        final(k).wf(),
        r == old(k).pid_allocator.next_id() as isize,
        final(k).live(old(k).pid_allocator.next_id() as int),
        child_added(*old(k), *final(k), old(k).cur(), old(k).pid_allocator.next_id()),
        final(k).kernel_space@ == map_range(
            old(k).kernel_space@,
            floor_vpn(va(kstack_bounds(final(k).tcb(old(k).pid_allocator.next_id() as int).kernel_stack.0).0)),
            ceil_vpn(va(kstack_bounds(final(k).tcb(old(k).pid_allocator.next_id() as int).kernel_stack.0).1)),
            (MAP_R | MAP_W) as u8,
        ),
        ({
            let c = old(k).pid_allocator.next_id() as int;
            let pi = old(k).inner(old(k).cur());
            let ci = final(k).inner(c);
            let top = kstack_bounds(final(k).tcb(c).kernel_stack.0).1;
            &&& ci.parent == Some(old(k).cur() as usize)
            &&& final(k).inner(old(k).cur()).children@ == pi.children@.push(c as usize)
            &&& ci.trap_cx.x@ == pi.trap_cx.x@.update(10, 0)
            &&& ci.trap_cx.sepc == pi.trap_cx.sepc
            &&& ci.trap_cx.kernel_satp == pi.trap_cx.kernel_satp
            &&& ci.trap_cx.trap_handler == pi.trap_cx.trap_handler
            &&& ci.trap_cx.kernel_sp == top
            &&& ci.task_cx == (TaskContext { ra: old(k).trap_return, sp: top })
            &&& ci.memory_set@ == pi.memory_set@
            &&& ci.memory_set.root_ppn == root_ppn
            &&& ci.base_size == pi.base_size
            &&& ci.program_brk == pi.program_brk
            &&& ci.heap_bottom == pi.heap_bottom
            &&& ci.stride == pi.stride
            &&& ci.exit_code == 0
            &&& ci.fd_table@ == pi.fd_table@
            &&& ci.task_status == TaskStatus::Ready
            &&& exists|pos: int|
                crate::task::manager::is_insert_pos(old(k).manager@, pi.stride.pass, pos) && final(k).manager@
                    == old(k).manager@.insert(pos, (c as usize, pi.stride.pass))
        }),
        final(k).processor == old(k).processor,
{
    let cur = k.processor.current().unwrap();
    let ghost a = *k;
    let c = k.fork(cur, root_ppn);
    let ghost b = *k;
    proof {
        assert(b.live(c as int));
        assert(!a.live(c as int));
        assert(!b.queued(c)) by {
            if b.queued(c) {
                let i = choose|i: int| 0 <= i < b.manager@.len() && #[trigger] b.manager@[i].0 == c;
                assert(a.live(a.manager@[i].0 as int));
            }
        }
        assert(a.live(cur as int));
    }
    match &mut k.tasks[c] {
        Some(t) => {
            t.inner.trap_cx.x[10] = 0;
        },
        None => {},
    }
    proof {
        assert(only_task_changed(b, *k, c as int));
        lemma_only_task_changed(b, *k, c as int);
        assert(k.inner(cur as int) == b.inner(cur as int));
        assert(k.inner(c as int).trap_cx.x@ =~= a.inner(cur as int).trap_cx.x@.update(10, 0));
    }
    add_task(k, c);
    c as isize
}

/// The running task runs `image` instead of its program, when the program
/// was found (`Some`), and returns 0 (see `TaskControlBlock::exec`);
/// otherwise returns -1 and changes nothing.
pub fn sys_exec(k: &mut Kernel, image: Option<ProgramImage>) -> (r: isize)
    requires
        old(k).wf(),
        old(k).has_current(),
    ensures
        final(k).wf(),
        final(k).manager == old(k).manager,
        final(k).processor == old(k).processor,
        image is None ==> r == -1 && final(k).tasks@ == old(k).tasks@,
        image is Some ==> {
            let img = image->0;
            let b = final(k).inner(old(k).cur());
            &&& r == 0
            &&& only_task_changed(*old(k), *final(k), old(k).cur())
            &&& b.memory_set == img.memory_set
            &&& b.base_size == img.user_sp
            &&& b.trap_cx.x@ == Seq::new(32, |i: int| if i == 2 { img.user_sp } else { 0usize })
            &&& b.trap_cx.sepc == img.entry_point
            &&& b.trap_cx.kernel_satp == (((8u64 << 60u64) | (old(k).kernel_space.root_ppn as u64)) as usize)
            &&& b.trap_cx.kernel_sp == crate::task::pid::kstack_bounds(old(k).tcb(old(k).cur()).kernel_stack.0).1
            &&& b.trap_cx.trap_handler == old(k).trap_handler
            &&& b == (TaskControlBlockInner {
                memory_set: img.memory_set,
                base_size: img.user_sp,
                trap_cx: b.trap_cx,
                ..old(k).inner(old(k).cur())
            })
        },
{
    match image {
        Some(image) => {
            let cur = k.processor.current().unwrap();
            let token = k.kernel_space.token();
            let trap_handler = k.trap_handler;
            let ghost a = *k;
            proof {
                assert(a.live(cur as int));
            }
            match &mut k.tasks[cur] {
                Some(t) => t.exec(image, token, trap_handler),
                None => {},
            }
            proof {
                assert(only_task_changed(a, *k, cur as int));
                lemma_only_task_changed(a, *k, cur as int);
            }
            0
        },
        None => -1,
    }
}

/// The running task spawns `image` as a new child (see `Kernel::spawn`),
/// when the program was found (`Some`); the child joins the ready queue and
/// its pid is returned.  Otherwise returns -1 and changes nothing.
pub fn sys_spawn(k: &mut Kernel, image: Option<ProgramImage>) -> (r: isize)
    requires
        old(k).wf(),
        old(k).has_current(),
        image is Some ==> old(k).can_add_task(),
    ensures
        final(k).wf(),
        image is None ==> r == -1 && final(k).tasks@ == old(k).tasks@ && final(k).manager == old(k).manager,
        image is Some ==> {
            let c = old(k).pid_allocator.next_id() as int;
            let ci = final(k).inner(c);
            let top = kstack_bounds(final(k).tcb(c).kernel_stack.0).1;
            let img = image->0;
            &&& r == c as isize
            &&& final(k).live(c)
            &&& child_added(*old(k), *final(k), old(k).cur(), c as usize)
            &&& final(k).kernel_space@ == map_range(
                old(k).kernel_space@,
                floor_vpn(va(kstack_bounds(final(k).tcb(c).kernel_stack.0).0)),
                ceil_vpn(va(top)),
                (MAP_R | MAP_W) as u8,
            )
            &&& ci.parent == Some(old(k).cur() as usize)
            &&& final(k).inner(old(k).cur()).children@ == old(k).inner(old(k).cur()).children@.push(c as usize)
            &&& ci.memory_set == img.memory_set
            &&& ci.trap_cx.x@ == Seq::new(32, |i: int| if i == 2 { img.user_sp } else { 0usize })
            &&& ci.trap_cx.sepc == img.entry_point
            &&& ci.trap_cx.kernel_satp == (((8u64 << 60u64) | (old(k).kernel_space.root_ppn as u64)) as usize)
            &&& ci.trap_cx.trap_handler == old(k).trap_handler
            &&& ci.trap_cx.kernel_sp == top
            &&& ci.task_cx == (TaskContext { ra: old(k).trap_return, sp: top })
            &&& ci.base_size == img.user_sp
            &&& ci.heap_bottom == img.user_sp
            &&& ci.program_brk == img.user_sp
            &&& ci.stride == (TaskStride { priority: 16, pass: 0 })
            &&& ci.exit_code == 0
            &&& ci.fd_table@ == standard_fds()
            &&& ci.task_status == TaskStatus::Ready
            &&& exists|pos: int|
                crate::task::manager::is_insert_pos(old(k).manager@, 0, pos) && final(k).manager@
                    == old(k).manager@.insert(pos, (c as usize, 0u32))
        },
        final(k).processor == old(k).processor,
{
    match image {
        Some(image) => {
            let cur = k.processor.current().unwrap();
            let ghost a = *k;
            let c = k.spawn(cur, image);
            proof {
                assert(!a.live(c as int));
                assert(!k.queued(c)) by {
                    if k.queued(c) {
                        let i = choose|i: int| 0 <= i < k.manager@.len() && #[trigger] k.manager@[i].0 == c;
                        assert(a.live(a.manager@[i].0 as int));
                    }
                }
                assert(a.live(cur as int));
            }
            add_task(k, c);
            c as isize
        },
        None => -1,
    }
}

/// Child `c` is what `pid` asks for: any child when `pid` is -1, else the
/// child whose pid is `pid`.
pub open spec fn wait_matches(pid: isize, c: usize) -> bool {
    pid == -1 || pid as usize == c
}

/// The running task's `j`-th child has exited and is what `pid` asks for.
pub open spec fn waitable(k: Kernel, pid: isize, j: int) -> bool {
    let c = k.inner(k.cur()).children@[j];
    k.inner(c as int).task_status == TaskStatus::Zombie && wait_matches(pid, c)
}

/// `b` is `a` after the running task waited for a child that `pid` asks
/// for, and `r` is what the call returned: (-1, none) when no child is
/// asked for, (-2, none) when none of those has exited, otherwise the first
/// exited such child's pid and exit code, the child being collected.
pub open spec fn waitpid_step(a: Kernel, b: Kernel, pid: isize, r: (isize, Option<i32>)) -> bool {
    let p = a.cur();
    let cs = a.inner(p).children@;
    let any = exists|j: int| 0 <= j < cs.len() && wait_matches(pid, #[trigger] cs[j]);
    &&& !any ==> r == (-1isize, None::<i32>) && b.tasks@ == a.tasks@
    &&& any && (forall|j: int| 0 <= j < cs.len() ==> !#[trigger] waitable(a, pid, j)) ==> r == (
        -2isize,
        None::<i32>,
    ) && b.tasks@ == a.tasks@
    &&& forall|j: int|
        0 <= j < cs.len() && #[trigger] waitable(a, pid, j) && (forall|i: int|
            0 <= i < j ==> !#[trigger] waitable(a, pid, i)) ==> r == (
            cs[j] as isize,
            Some(a.inner(cs[j] as int).exit_code),
        ) && reaped(a, b, p, j)
}

/// The running task waits for a child.  Returns -1, changing nothing, when
/// no child is what `pid` asks for; -2, changing nothing, when such
/// children exist but none has exited.  Otherwise it collects the first
/// exited such child (see `Kernel::reap`) and returns its pid and exit
/// code.
pub fn sys_waitpid(k: &mut Kernel, pid: isize) -> (r: (isize, Option<i32>))
    requires
        old(k).wf(),
        old(k).has_current(),
    ensures
        final(k).wf(),
        waitpid_step(*old(k), *final(k), pid, r),
{
    let cur = k.processor.current().unwrap();
    let ghost a = *k;
    let ghost cs = a.inner(cur as int).children@;
    proof {
        assert(a.live(cur as int));
    }
    let n = match &k.tasks[cur] {
        Some(t) => t.inner.children.len(),
        None => 0,
    };
    // is there any child that `pid` asks for?
    let mut i: usize = 0;
    let mut any = false;
    while i < n && !any
        invariant
            *k == a,
            a == *old(k),
            a.live(cur as int),
            n == cs.len(),
            cs == a.inner(cur as int).children@,
            i <= n,
            any ==> i < n && wait_matches(pid, cs[i as int]),
            !any ==> forall|j: int| 0 <= j < i ==> !wait_matches(pid, #[trigger] cs[j]),
        decreases n - i + (if any { 0int } else { 1int }),
    {
        let c = match &k.tasks[cur] {
            Some(t) => t.inner.children[i],
            None => 0,
        };
        if pid == -1 || pid as usize == c {
            any = true;
        } else {
            i = i + 1;
        }
    }
    if !any {
        return (-1, None);
    }
    // the first exited child that `pid` asks for
    let mut j: usize = 0;
    while j < n
        invariant
            *k == a,
            a == *old(k),
            a.wf(),
            a.live(cur as int),
            n == cs.len(),
            cs == a.inner(cur as int).children@,
            j <= n,
            cur as int == a.cur(),
            forall|q: int| 0 <= q < j ==> !#[trigger] waitable(a, pid, q),
        decreases n - j,
    {
        let c = match &k.tasks[cur] {
            Some(t) => t.inner.children[j],
            None => 0,
        };
        proof {
            assert(a.live(cs[j as int] as int));
        }
        let zombie = match &k.tasks[c] {
            Some(t) => t.inner.is_zombie(),
            None => false,
        };
        if zombie && (pid == -1 || pid as usize == c) {
            proof {
                assert(waitable(a, pid, j as int));
                assert(wait_matches(pid, cs[j as int]));
            }
            let (found_pid, exit_code) = k.reap(cur, j);
            return (found_pid as isize, Some(exit_code));
        }
        j = j + 1;
    }
    (-2, None)
}

/// The running task's pid.
pub fn sys_getpid(k: &Kernel) -> (r: isize)
    requires
        k.wf(),
        k.has_current(),
    ensures
        r == k.cur() as isize,
{
    let cur = k.processor.current().unwrap();
    match &k.tasks[cur] {
        Some(t) => t.get_pid() as isize,
        None => 0,
    }
}

/// Sets the running task's priority to `priority`, refusing with -1 and
/// changing nothing when it is not greater than 1.
pub fn sys_set_priority(k: &mut Kernel, priority: isize) -> (r: isize)
    requires
        old(k).wf(),
        old(k).has_current(),
        priority > 1 ==> priority as u32 > 0,
    ensures
        final(k).wf(),
        priority <= 1 ==> r == -1 && final(k).tasks@ == old(k).tasks@,
        priority > 1 ==> r == 0 && only_task_changed(*old(k), *final(k), old(k).cur())
            && final(k).inner(old(k).cur()) == (TaskControlBlockInner {
                stride: TaskStride { priority: priority as u32, pass: old(k).inner(old(k).cur()).stride.pass },
                ..old(k).inner(old(k).cur())
            }),
        final(k).manager == old(k).manager,
        final(k).processor == old(k).processor,
{
    if priority <= 1 {
        return -1;
    }
    let cur = k.processor.current().unwrap();
    let ghost a = *k;
    proof {
        assert(a.live(cur as int));
    }
    match &mut k.tasks[cur] {
        Some(t) => t.inner.set_priority(priority as u32),
        None => {},
    }
    proof {
        assert(only_task_changed(a, *k, cur as int));
        lemma_only_task_changed(a, *k, cur as int);
    }
    0
}

/// What a task passes to `exit` is what its parent collects: once task `c`
/// has exited with `code` (from `a` to `b`), its parent, running later with
/// the task table as the exit left it, waits for `c` and gets `c` and
/// `code` back, and `c`'s slot is freed.
pub proof fn law_exit_code_reaches_parent(
    a: Kernel,
    b: Kernel,
    d: Kernel,
    e: Kernel,
    c: int,
    code: i32,
    r: (isize, Option<i32>),
)
    requires
        a.wf(),
        a.live(c),
        c != INITPROC_PID,
        c <= isize::MAX,
        a.inner(c).parent is Some,
        exited(a, b, c, code),
        d.wf(),
        d.tasks@ == b.tasks@,
        d.processor.current == a.inner(c).parent,
        waitpid_step(d, e, c as isize, r),
    ensures
        r == (c as isize, Some(code)),
        e.tasks@[c] is None,
{
    let p = d.cur();
    assert(b.live(c));
    assert(d.live(c));
    assert(d.tcb(c) == b.tcb(c));
    assert(d.inner(c).parent == a.inner(c).parent);
    assert(d.inner(c).task_status == TaskStatus::Zombie);
    assert(d.inner(c).exit_code == code);
    let cs = d.inner(p).children@;
    assert(cs.contains(c as usize));
    let j = cs.index_of(c as usize);
    assert(cs[j] == c as usize);
    assert(wait_matches(c as isize, cs[j]));
    assert(waitable(d, c as isize, j));
    assert forall|i: int| 0 <= i < j implies !#[trigger] waitable(d, c as isize, i) by {
        assert(cs[i] != cs[j]);
    }
}

/// The rights a mapping gets are those asked for: user access always,
/// reading exactly when bit 0 of `prot` is set, writing exactly when bit 1
/// is, executing exactly when bit 2 is, and no other bit.
pub proof fn law_mmap_rights(prot: usize)
    ensures
        mmap_perm(prot) & 0x10u8 != 0,
        (mmap_perm(prot) & 0x2u8 != 0) == (prot & 0x1usize != 0),
        (mmap_perm(prot) & 0x4u8 != 0) == (prot & 0x2usize != 0),
        (mmap_perm(prot) & 0x8u8 != 0) == (prot & 0x4usize != 0),
        mmap_perm(prot) & 0xe1u8 == 0,
{
    let r = prot & 0x1usize != 0;
    let w = prot & 0x2usize != 0;
    let x = prot & 0x4usize != 0;
    let p0: u8 = 0x10u8;
    let p1: u8 = if r { p0 | 0x2u8 } else { p0 };
    let p2: u8 = if w { p1 | 0x4u8 } else { p1 };
    let p3: u8 = if x { p2 | 0x8u8 } else { p2 };
    assert(mmap_perm(prot) == p3);
    assert(p3 & 0x10u8 != 0 && (p3 & 0x2u8 != 0) == r && (p3 & 0x4u8 != 0) == w && (p3 & 0x8u8 != 0) == x
        && p3 & 0xe1u8 == 0) by (bit_vector)
        requires
            p1 == (if r { p0 | 0x2u8 } else { p0 }),
            p2 == (if w { p1 | 0x4u8 } else { p1 }),
            p3 == (if x { p2 | 0x8u8 } else { p2 }),
            p0 == 0x10u8,
    ;
}

/// A mapping that `sys_mmap` accepted covers every address asked for with
/// the rights asked for: each address from `start` up to `start + len`
/// lies in a mapped page that holds zeros, is user-accessible, and is
/// readable, writable and executable exactly as bits 0, 1 and 2 of `prot`
/// ask.
pub proof fn law_mmap_maps_what_was_asked(
    a: Kernel,
    b: Kernel,
    start: usize,
    len: usize,
    prot: usize,
    x: int,
)
    requires
        mmap_step(a, b, start, len, prot, 0),
        start + len <= usize::MAX,
        start + len < VA_SPACE,
        start <= x < start + len,
    ensures
        ({
            let m = b.inner(a.cur()).memory_set@;
            let v = (x / (PAGE_SIZE as int)) as usize;
            &&& m.contains_key(v)
            &&& m[v].0 & 0x10u8 != 0
            &&& (m[v].0 & 0x2u8 != 0) == (prot & 0x1usize != 0)
            &&& (m[v].0 & 0x4u8 != 0) == (prot & 0x2usize != 0)
            &&& (m[v].0 & 0x8u8 != 0) == (prot & 0x4usize != 0)
            &&& m[v].1 == Seq::new(PAGE_SIZE as nat, |i: int| 0u8)
        }),
{
    let e = (start + len) as usize;
    assert(va(start) == start as int);
    assert(va(e) == e as int);
    crate::mm::law_range_covers(start as int, e as int, x);
    law_mmap_rights(prot);
    let v = x / (PAGE_SIZE as int);
    assert(0 <= v <= usize::MAX) by (nonlinear_arith)
        requires
            v == x / (PAGE_SIZE as int),
            0 <= x <= usize::MAX,
            PAGE_SIZE as int == 4096,
    ;
}

/// A heap move that succeeds returns the old break and moves the break by
/// exactly `size` bytes; the pages it maps (growing) or unmaps (shrinking)
/// are exactly those whose first byte lies between the old and the new
/// break, and new pages are readable, writable, user-accessible and
/// zeroed.  A refused move changes neither the break nor the address
/// space.
pub proof fn law_sbrk_moves_break_by_size(
    a: TaskControlBlockInner,
    b: TaskControlBlockInner,
    size: i32,
    r: isize,
    v: usize,
)
    requires
        sbrk_step(a, b, size, r),
        0 <= a.program_brk + size <= isize::MAX,
        a.program_brk < VA_SPACE,
        a.program_brk + size < VA_SPACE,
    ensures
        r != -1 ==> r == a.program_brk && b.program_brk == a.program_brk + size,
        r == -1 ==> b.program_brk == a.program_brk && b.memory_set@ == a.memory_set@,
        r != -1 && size >= 0 ==> ((!a.memory_set@.contains_key(v) && b.memory_set@.contains_key(v)) <==> (
        a.program_brk <= v * (PAGE_SIZE as int) < a.program_brk + size)),
        r != -1 && size >= 0 && a.program_brk <= v * (PAGE_SIZE as int) < a.program_brk + size ==> b.memory_set@[v]
            == ((MAP_R | MAP_W | MAP_U) as u8, Seq::new(PAGE_SIZE as nat, |i: int| 0u8)),
        r != -1 && size < 0 ==> ((a.memory_set@.contains_key(v) && !b.memory_set@.contains_key(v)) <==> (
        a.program_brk + size <= v * (PAGE_SIZE as int) < a.program_brk)),
{
    let old_brk = a.program_brk;
    let new_brk = moved_brk(old_brk, size);
    assert(new_brk == old_brk + size);
    assert(va(old_brk) == old_brk as int);
    assert(va(new_brk as usize) == new_brk);
    if size >= 0 {
        crate::mm::law_pages_starting_in(old_brk as int, new_brk, v as int);
    } else {
        crate::mm::law_pages_starting_in(new_brk, old_brk as int, v as int);
    }
}

} // verus!
