//! Task management: the kernel's table of tasks, the ready queue, the
//! processor, and the operations that move tasks between them.
//!
//! Tasks are kept in a table indexed by pid.  A parent names its children
//! by pid and each child names its parent; the task with pid 0 is the
//! initial process, which adopts the children of exiting tasks.

pub mod manager;
pub mod pid;
pub mod process;
pub mod processor;
pub mod record;
pub mod task;

use vstd::prelude::*;
use crate::config::{KERNEL_STACK_SIZE, PAGE_SIZE, TRAMPOLINE};
use crate::mm::{ceil_vpn, floor_vpn, va, MemorySet};
use crate::task::manager::TaskManager;
use crate::task::pid::{
    kernel_stack_position, kstack_bounds, kstack_fits, law_alloc_is_fresh,
    RecycleAllocator,
};
use crate::task::processor::Processor;
use crate::task::task::{
    kstack_slot_free, standard_fds, ProgramImage, TaskContext, TaskControlBlock,
    TaskControlBlockInner, TaskStatus, TaskStride, TrapContext,
};

verus! {

/// The pid of the initial process.
pub const INITPROC_PID: usize = 0;

/// The kernel's task state.
pub struct Kernel {
    /// Task control blocks by pid; a free pid's slot is `None`.
    pub tasks: Vec<Option<TaskControlBlock>>,
    /// The ready queue.
    pub manager: TaskManager,
    /// The processor.
    pub processor: Processor,
    /// Hands out pids.
    pub pid_allocator: RecycleAllocator,
    /// Hands out kernel stack slots.
    pub kstack_allocator: RecycleAllocator,
    /// The kernel's address space.
    pub kernel_space: MemorySet,
    /// Where a new task's kernel context starts: the return-from-trap path.
    pub trap_return: usize,
    /// The address of the kernel's trap handler.
    pub trap_handler: usize,
}

/// What the processor does after a task exits.
#[derive(Clone, Copy, PartialEq, Eq, Structural, Debug)]
pub enum ExitAction {
    /// The initial process exited: shut the machine down.
    Shutdown,
    /// Switch to the idle control flow, which picks the next task.
    Schedule,
}

impl Kernel {
    /// Task `p` exists.
    pub open spec fn live(&self, p: int) -> bool {
        0 <= p < self.tasks@.len() && self.tasks@[p] is Some
    }

    /// Task `p`'s control block.
    pub open spec fn tcb(&self, p: int) -> TaskControlBlock {
        self.tasks@[p]->0
    }

    /// Task `p`'s mutable part.
    pub open spec fn inner(&self, p: int) -> TaskControlBlockInner {
        self.tasks@[p]->0.inner
    }

    /// A pid's slot is taken exactly when the pid is handed out.
    pub open spec fn pids_wf(&self) -> bool {
        &&& self.pid_allocator.wf()
        &&& self.tasks@.len() == self.pid_allocator.current
        &&& forall|p: int|
            0 <= p < self.tasks@.len() ==> (#[trigger] self.live(p) <==> !self.pid_allocator.recycled@.contains(
                p as usize,
            ))
        &&& forall|p: int| #[trigger] self.live(p) ==> self.tcb(p).pid.0 == p
    }

    /// Each task has its own kernel stack slot, handed out and inside the
    /// stack area.
    pub open spec fn kstacks_wf(&self) -> bool {
        &&& self.kstack_allocator.wf()
        &&& forall|p: int|
            #[trigger] self.live(p) ==> self.kstack_allocator.in_use(self.tcb(p).kernel_stack.0) && kstack_fits(
                self.tcb(p).kernel_stack.0,
            )
        &&& forall|p: int, q: int|
            #[trigger] self.live(p) && #[trigger] self.live(q) && p != q ==> self.tcb(p).kernel_stack.0
                != self.tcb(q).kernel_stack.0
    }

    /// The running task and the queued tasks exist and are not zombies, and
    /// every task has a positive priority.
    pub open spec fn sched_wf(&self) -> bool {
        &&& self.processor.current is Some ==> self.live(self.processor.current->0 as int) && self.inner(
            self.processor.current->0 as int,
        ).task_status != TaskStatus::Zombie
        &&& forall|i: int|
            0 <= i < self.manager@.len() ==> self.live(#[trigger] self.manager@[i].0 as int) && self.inner(
                self.manager@[i].0 as int,
            ).task_status != TaskStatus::Zombie
        &&& forall|p: int| #[trigger] self.live(p) ==> self.inner(p).stride.priority > 0
        &&& forall|i: int, j: int|
            0 <= i < j < self.manager@.len() ==> #[trigger] self.manager@[i].0 != #[trigger] self.manager@[j].0
        &&& self.processor.current is Some ==> forall|i: int|
            0 <= i < self.manager@.len() ==> #[trigger] self.manager@[i].0 != self.processor.current->0
        &&& crate::task::manager::sorted_by_pass(self.manager@)
    }

    /// Task `pid` is on the ready queue.
    pub open spec fn queued(&self, pid: usize) -> bool {
        exists|i: int| 0 <= i < self.manager@.len() && #[trigger] self.manager@[i].0 == pid
    }

    /// Parents and children agree: a child exists and names its parent, a
    /// parent lists each child once, and a zombie has no children.
    pub open spec fn tree_wf(&self) -> bool {
        &&& forall|p: int, i: int|
            #[trigger] self.live(p) && 0 <= i < self.inner(p).children@.len() ==> self.live(
                #[trigger] self.inner(p).children@[i] as int,
            ) && self.inner(self.inner(p).children@[i] as int).parent == Some(p as usize)
        &&& forall|p: int| #[trigger] self.live(p) ==> self.inner(p).children@.no_duplicates()
        &&& forall|x: int|
            #[trigger] self.live(x) && self.inner(x).parent is Some ==> self.live(self.inner(x).parent->0 as int)
                && self.inner(self.inner(x).parent->0 as int).children@.contains(x as usize)
        &&& forall|p: int|
            #[trigger] self.live(p) && self.inner(p).task_status == TaskStatus::Zombie ==> self.inner(
                p,
            ).children@.len() == 0
        &&& forall|x: int| #[trigger] self.live(x) ==> self.inner(x).parent != Some(x as usize)
    }

    /// The kernel's invariant.
    pub open spec fn wf(&self) -> bool {
        &&& self.pids_wf()
        &&& self.kstacks_wf()
        &&& self.sched_wf()
        &&& self.tree_wf()
        &&& self.init_wf()
    }

    /// The initial process exists, has no parent and never becomes a
    /// zombie.
    pub open spec fn init_wf(&self) -> bool {
        &&& self.live(INITPROC_PID as int)
        &&& self.inner(INITPROC_PID as int).parent is None
        &&& self.inner(INITPROC_PID as int).task_status != TaskStatus::Zombie
    }

    /// The pid of the running task.
    pub open spec fn cur(&self) -> int {
        self.processor.current->0 as int
    }

    /// A task is running.
    pub open spec fn has_current(&self) -> bool {
        self.processor.current is Some
    }
}

/// With the same task table and allocators, everything but the scheduling
/// part of the invariant carries over.
pub proof fn lemma_same_tasks(a: Kernel, b: Kernel)
    requires
        a.wf(),
        b.tasks == a.tasks,
        b.pid_allocator == a.pid_allocator,
        b.kstack_allocator == a.kstack_allocator,
    ensures
        b.pids_wf(),
        b.kstacks_wf(),
        b.tree_wf(),
        b.init_wf(),
        forall|p: int| #[trigger] b.live(p) == a.live(p),
        forall|p: int| #[trigger] b.tcb(p) == a.tcb(p),
        forall|p: int| 0 <= p < b.tasks@.len() && a.live(p) ==> (#[trigger] b.inner(p)).stride.priority > 0,
{
    assert forall|p: int| #[trigger] b.live(p) implies b.inner(p).stride.priority > 0 by {
        assert(a.live(p));
    }
    assert forall|p: int| 0 <= p < b.tasks@.len() implies (#[trigger] b.live(p) <==> !b.pid_allocator.recycled@.contains(
        p as usize,
    )) by {
        assert(b.live(p) == a.live(p));
    }
    assert forall|p: int| #[trigger] b.live(p) implies b.tcb(p).pid.0 == p by {
        assert(a.live(p));
    }
    assert forall|p: int|
        #[trigger] b.live(p) implies b.kstack_allocator.in_use(b.tcb(p).kernel_stack.0) && kstack_fits(
        b.tcb(p).kernel_stack.0,
    ) by {
        assert(a.live(p));
    }
    assert forall|p: int, q: int|
        #[trigger] b.live(p) && #[trigger] b.live(q) && p != q implies b.tcb(p).kernel_stack.0 != b.tcb(
        q,
    ).kernel_stack.0 by {
        assert(a.live(p) && a.live(q));
    }
    assert forall|p: int, i: int|
        #[trigger] b.live(p) && 0 <= i < b.inner(p).children@.len() implies b.live(
        #[trigger] b.inner(p).children@[i] as int,
    ) && b.inner(b.inner(p).children@[i] as int).parent == Some(p as usize) by {
        assert(a.live(p));
        assert(a.live(a.inner(p).children@[i] as int));
    }
    assert forall|p: int| #[trigger] b.live(p) implies b.inner(p).children@.no_duplicates() by {
        assert(a.live(p));
    }
    assert forall|x: int|
        #[trigger] b.live(x) && b.inner(x).parent is Some implies b.live(b.inner(x).parent->0 as int)
        && b.inner(b.inner(x).parent->0 as int).children@.contains(x as usize) by {
        assert(a.live(x));
        assert(a.live(a.inner(x).parent->0 as int));
    }
    assert forall|p: int|
        #[trigger] b.live(p) && b.inner(p).task_status == TaskStatus::Zombie implies b.inner(p).children@.len()
        == 0 by {
        assert(a.live(p));
    }
    assert forall|x: int| #[trigger] b.live(x) implies b.inner(x).parent != Some(x as usize) by {
        assert(a.live(x));
    }
}

/// Changing one task's fields other than its pid, kernel stack, parent and
/// children keeps everything but the scheduling part of the invariant, as
/// long as its priority stays positive and it does not become a zombie with
/// children.
pub proof fn lemma_retask(a: Kernel, b: Kernel, p: int)
    requires
        a.wf(),
        a.live(p),
        b.tasks@.len() == a.tasks@.len(),
        b.tasks@[p] is Some,
        forall|q: int| 0 <= q < a.tasks@.len() && q != p ==> #[trigger] b.tasks@[q] == a.tasks@[q],
        b.tcb(p).pid == a.tcb(p).pid,
        b.tcb(p).kernel_stack == a.tcb(p).kernel_stack,
        b.inner(p).parent == a.inner(p).parent,
        b.inner(p).children == a.inner(p).children,
        b.inner(p).stride.priority > 0,
        b.inner(p).task_status == TaskStatus::Zombie ==> b.inner(p).children@.len() == 0,
        p == INITPROC_PID ==> b.inner(p).task_status != TaskStatus::Zombie,
        b.pid_allocator == a.pid_allocator,
        b.kstack_allocator == a.kstack_allocator,
    ensures
        b.pids_wf(),
        b.kstacks_wf(),
        b.tree_wf(),
        b.init_wf(),
        forall|q: int| #[trigger] b.live(q) == a.live(q),
        forall|q: int| 0 <= q < a.tasks@.len() && q != p ==> #[trigger] b.tcb(q) == a.tcb(q),
        forall|q: int| #[trigger] b.live(q) ==> b.inner(q).stride.priority > 0,
{
    assert forall|q: int| #[trigger] b.live(q) == a.live(q) by {
        if 0 <= q < a.tasks@.len() && q != p {
            assert(b.tasks@[q] == a.tasks@[q]);
        }
    }
    assert forall|q: int| 0 <= q < a.tasks@.len() && q != p implies #[trigger] b.tcb(q) == a.tcb(q) by {
        assert(b.tasks@[q] == a.tasks@[q]);
    }
    assert(b.live(INITPROC_PID as int));
    assert forall|q: int| #[trigger] b.live(q) implies b.inner(q).stride.priority > 0 by {
        assert(a.live(q));
    }
    assert forall|q: int| 0 <= q < b.tasks@.len() implies (#[trigger] b.live(q) <==> !b.pid_allocator.recycled@.contains(
        q as usize,
    )) by {
        assert(b.live(q) == a.live(q));
    }
    assert forall|q: int| #[trigger] b.live(q) implies b.tcb(q).pid.0 == q by {
        assert(a.live(q));
    }
    assert forall|q: int|
        #[trigger] b.live(q) implies b.kstack_allocator.in_use(b.tcb(q).kernel_stack.0) && kstack_fits(
        b.tcb(q).kernel_stack.0,
    ) by {
        assert(a.live(q));
    }
    assert forall|q: int, r: int|
        #[trigger] b.live(q) && #[trigger] b.live(r) && q != r implies b.tcb(q).kernel_stack.0 != b.tcb(
        r,
    ).kernel_stack.0 by {
        assert(a.live(q) && a.live(r));
    }
    assert forall|q: int, i: int|
        #[trigger] b.live(q) && 0 <= i < b.inner(q).children@.len() implies b.live(
        #[trigger] b.inner(q).children@[i] as int,
    ) && b.inner(b.inner(q).children@[i] as int).parent == Some(q as usize) by {
        assert(a.live(q));
        assert(a.inner(q).children == b.inner(q).children);
        assert(a.live(a.inner(q).children@[i] as int));
    }
    assert forall|q: int| #[trigger] b.live(q) implies b.inner(q).children@.no_duplicates() by {
        assert(a.live(q));
        assert(a.inner(q).children == b.inner(q).children);
    }
    assert forall|x: int|
        #[trigger] b.live(x) && b.inner(x).parent is Some implies b.live(b.inner(x).parent->0 as int)
        && b.inner(b.inner(x).parent->0 as int).children@.contains(x as usize) by {
        assert(a.live(x));
        assert(a.inner(x).parent == b.inner(x).parent);
        assert(a.live(a.inner(x).parent->0 as int));
        assert(a.inner(a.inner(x).parent->0 as int).children == b.inner(b.inner(x).parent->0 as int).children);
    }
    assert forall|q: int|
        #[trigger] b.live(q) && b.inner(q).task_status == TaskStatus::Zombie implies b.inner(q).children@.len()
        == 0 by {
        assert(a.live(q));
    }
    assert forall|x: int| #[trigger] b.live(x) implies b.inner(x).parent != Some(x as usize) by {
        assert(a.live(x));
    }
    assert(a.live(INITPROC_PID as int));
}

/// `b` is `a` with only task `p` changed, in fields the invariant does not
/// look at beyond a positive priority.
pub open spec fn only_task_changed(a: Kernel, b: Kernel, p: int) -> bool {
    &&& b.tasks@.len() == a.tasks@.len()
    &&& b.tasks@[p] is Some
    &&& forall|q: int| 0 <= q < a.tasks@.len() && q != p ==> #[trigger] b.tasks@[q] == a.tasks@[q]
    &&& b.tcb(p).pid == a.tcb(p).pid
    &&& b.tcb(p).kernel_stack == a.tcb(p).kernel_stack
    &&& b.inner(p).parent == a.inner(p).parent
    &&& b.inner(p).children == a.inner(p).children
    &&& b.inner(p).task_status == a.inner(p).task_status
    &&& b.inner(p).stride.priority > 0
    &&& b.manager == a.manager
    &&& b.processor == a.processor
    &&& b.pid_allocator == a.pid_allocator
    &&& b.kstack_allocator == a.kstack_allocator
}

/// Changing one task in such fields keeps the invariant.
pub proof fn lemma_only_task_changed(a: Kernel, b: Kernel, p: int)
    requires
        a.wf(),
        a.live(p),
        only_task_changed(a, b, p),
    ensures
        b.wf(),
        forall|q: int| #[trigger] b.live(q) == a.live(q),
{
    lemma_retask(a, b, p);
    if b.processor.current is Some {
        let c = b.processor.current->0 as int;
        assert(a.live(c));
        if c != p {
            assert(b.tcb(c) == a.tcb(c));
        }
    }
    assert forall|i: int|
        0 <= i < b.manager@.len() implies b.live(#[trigger] b.manager@[i].0 as int) && b.inner(
        b.manager@[i].0 as int,
    ).task_status != TaskStatus::Zombie by {
        let q = a.manager@[i].0 as int;
        assert(a.live(q));
        if q != p {
            assert(b.tcb(q) == a.tcb(q));
        }
    }
}

impl Kernel {
    /// A kernel whose only task is the initial process (pid 0), ready to run
    /// `initproc` on kernel stack slot 0, and nothing queued or running.
    pub fn new(initproc: ProgramImage, kernel_space: MemorySet, trap_return: usize, trap_handler: usize) -> (k: Kernel)
        requires
            kstack_slot_free(kernel_space, 0),
        ensures
            k.wf(),
            k.tasks@.len() == 1,
            (k.processor.current is None),
            k.manager@.len() == 0,
            k.tcb(0).kernel_stack.0 == 0,
            k.inner(0).task_status == TaskStatus::Ready,
            k.inner(0).parent is None && k.inner(0).children@.len() == 0,
            k.inner(0).memory_set == initproc.memory_set,
            k.inner(0).heap_bottom == initproc.user_sp && k.inner(0).program_brk == initproc.user_sp,
            k.inner(0).base_size == initproc.user_sp,
            k.inner(0).trap_cx.sepc == initproc.entry_point,
            k.inner(0).trap_cx.x@[2] == initproc.user_sp,
            k.inner(0).trap_cx.kernel_sp == kstack_bounds(0).1,
            k.inner(0).task_cx == (TaskContext { ra: trap_return, sp: kstack_bounds(0).1 }),
            k.inner(0).stride == (TaskStride { priority: 16, pass: 0 }),
            k.inner(0).fd_table@ == standard_fds(),
            k.trap_return == trap_return && k.trap_handler == trap_handler,
    {
        let mut pid_allocator = RecycleAllocator::new();
        let mut kstack_allocator = RecycleAllocator::new();
        let mut kernel_space = kernel_space;
        let t = TaskControlBlock::new(
            initproc,
            &mut pid_allocator,
            &mut kstack_allocator,
            &mut kernel_space,
            trap_return,
            trap_handler,
        );
        let mut tasks: Vec<Option<TaskControlBlock>> = Vec::new();
        tasks.push(Some(t));
        let k = Kernel {
            tasks,
            manager: TaskManager::new(),
            processor: Processor::new(),
            pid_allocator,
            kstack_allocator,
            kernel_space,
            trap_return,
            trap_handler,
        };
        proof {
            assert(k.live(0));
            assert forall|p: int| 0 <= p < k.tasks@.len() implies (#[trigger] k.live(p) <==> !k.pid_allocator.recycled@.contains(
                p as usize,
            )) by {
                assert(p == 0);
            }
            assert forall|p: int| #[trigger] k.live(p) implies k.kstack_allocator.in_use(k.tcb(p).kernel_stack.0) by {
                assert(p == 0);
                assert(!k.kstack_allocator.recycled@.contains(0));
            }
        }
        k
    }
}

/// Puts task `pid` on the ready queue, behind every queued task whose pass
/// is not greater than its own.
pub fn add_task(k: &mut Kernel, pid: usize)
    requires
        old(k).wf(),
        old(k).live(pid as int),
        old(k).inner(pid as int).task_status != TaskStatus::Zombie,
        !old(k).queued(pid),
        old(k).processor.current != Some(pid),
    ensures
        final(k).wf(),
        final(k).tasks == old(k).tasks,
        final(k).processor == old(k).processor,
        final(k).pid_allocator == old(k).pid_allocator,
        final(k).kstack_allocator == old(k).kstack_allocator,
        final(k).kernel_space == old(k).kernel_space,
        exists|pos: int|
            crate::task::manager::is_insert_pos(old(k).manager@, old(k).inner(pid as int).stride.pass, pos)
                && final(k).manager@ == old(k).manager@.insert(pos, (pid, old(k).inner(pid as int).stride.pass)),
{
    let pass = match &k.tasks[pid] {
        Some(t) => t.inner.stride.pass,
        None => 0,
    };
    k.manager.add(pid, pass);
    proof {
        lemma_same_tasks(*old(k), *k);
        let pos = choose|pos: int|
            crate::task::manager::is_insert_pos(old(k).manager@, pass, pos) && k.manager@ == old(k).manager@.insert(
                pos,
                (pid, pass),
            );
        crate::task::manager::law_add_keeps_order(old(k).manager@, pid, pass, pos);
        assert forall|i: int|
            0 <= i < k.manager@.len() implies k.live(#[trigger] k.manager@[i].0 as int) && k.inner(
            k.manager@[i].0 as int,
        ).task_status != TaskStatus::Zombie by {
            if i < pos {
                assert(k.manager@[i] == old(k).manager@[i]);
            } else if i > pos {
                assert(k.manager@[i] == old(k).manager@[i - 1]);
            }
        }
        assert forall|i: int, j: int|
            0 <= i < j < k.manager@.len() implies #[trigger] k.manager@[i].0 != #[trigger] k.manager@[j].0 by {
            if i < pos && j < pos {
                assert(k.manager@[i] == old(k).manager@[i] && k.manager@[j] == old(k).manager@[j]);
            } else if i < pos && j == pos {
                assert(k.manager@[i] == old(k).manager@[i]);
            } else if i < pos {
                assert(k.manager@[i] == old(k).manager@[i] && k.manager@[j] == old(k).manager@[j - 1]);
            } else if i == pos {
                assert(k.manager@[j] == old(k).manager@[j - 1]);
            } else {
                assert(k.manager@[i] == old(k).manager@[i - 1] && k.manager@[j] == old(k).manager@[j - 1]);
            }
        }
        if k.processor.current is Some {
            assert forall|i: int|
                0 <= i < k.manager@.len() implies #[trigger] k.manager@[i].0 != k.processor.current->0 by {
                if i < pos {
                    assert(k.manager@[i] == old(k).manager@[i]);
                } else if i > pos {
                    assert(k.manager@[i] == old(k).manager@[i - 1]);
                }
            }
        }
    }
}

/// Takes the task at the front of the ready queue.
pub fn fetch_task(k: &mut Kernel) -> (t: Option<usize>)
    requires
        old(k).wf(),
    ensures
        final(k).wf(),
        final(k).tasks == old(k).tasks,
        final(k).processor == old(k).processor,
        final(k).pid_allocator == old(k).pid_allocator,
        final(k).kstack_allocator == old(k).kstack_allocator,
        final(k).kernel_space == old(k).kernel_space,
        old(k).manager@.len() == 0 ==> t is None && final(k).manager@ == old(k).manager@,
        old(k).manager@.len() > 0 ==> t == Some(old(k).manager@[0].0) && final(k).manager@ == old(
            k,
        ).manager@.drop_first(),
{
    match k.manager.fetch() {
        Some(entry) => {
            proof {
                lemma_same_tasks(*old(k), *k);
                assert forall|i: int|
                    0 <= i < k.manager@.len() implies k.live(#[trigger] k.manager@[i].0 as int) && k.inner(
                    k.manager@[i].0 as int,
                ).task_status != TaskStatus::Zombie by {
                    assert(k.manager@[i] == old(k).manager@[i + 1]);
                }
                assert forall|i: int, j: int|
                    0 <= i < j < k.manager@.len() implies #[trigger] k.manager@[i].0 != #[trigger] k.manager@[j].0 by {
                    assert(k.manager@[i] == old(k).manager@[i + 1] && k.manager@[j] == old(k).manager@[j + 1]);
                }
                assert forall|i: int, j: int|
                    0 <= i <= j < k.manager@.len() implies #[trigger] k.manager@[i].1 <= #[trigger] k.manager@[j].1 by {
                    assert(k.manager@[i] == old(k).manager@[i + 1] && k.manager@[j] == old(k).manager@[j + 1]);
                }
                if k.processor.current is Some {
                    assert forall|i: int|
                        0 <= i < k.manager@.len() implies #[trigger] k.manager@[i].0 != k.processor.current->0 by {
                        assert(k.manager@[i] == old(k).manager@[i + 1]);
                    }
                }
            }
            Some(entry.0)
        },
        None => {
            proof {
                lemma_same_tasks(*old(k), *k);
            }
            None
        },
    }
}

/// Takes the running task out of the processor.
pub fn take_current_task(k: &mut Kernel) -> (t: Option<usize>)
    requires
        old(k).wf(),
    ensures
        final(k).wf(),
        t == old(k).processor.current,
        (final(k).processor.current is None),
        final(k).tasks == old(k).tasks,
        final(k).manager == old(k).manager,
        final(k).pid_allocator == old(k).pid_allocator,
        final(k).kstack_allocator == old(k).kstack_allocator,
        final(k).kernel_space == old(k).kernel_space,
{
    let t = k.processor.take_current();
    proof {
        lemma_same_tasks(*old(k), *k);
        assert forall|i: int|
            0 <= i < k.manager@.len() implies k.live(#[trigger] k.manager@[i].0 as int) && k.inner(
            k.manager@[i].0 as int,
        ).task_status != TaskStatus::Zombie by {
            assert(old(k).live(old(k).manager@[i].0 as int));
        }
        assert forall|i: int, j: int|
            0 <= i < j < k.manager@.len() implies #[trigger] k.manager@[i].0 != #[trigger] k.manager@[j].0 by {
            assert(old(k).manager@[i].0 != old(k).manager@[j].0);
        }
    }
    t
}

/// The running task.
pub fn current_task(k: &Kernel) -> (t: Option<usize>)
    ensures
        t == k.processor.current,
{
    k.processor.current()
}

/// The token of the running task's address space.
pub fn current_user_token(k: &Kernel) -> (token: usize)
    requires
        k.wf(),
        k.has_current(),
    ensures
        token == (((8u64 << 60u64) | (k.inner(k.cur()).memory_set.root_ppn as u64)) as usize),
{
    let cur = k.processor.current().unwrap();
    k.tasks[cur].as_ref().unwrap().inner.get_user_token()
}

/// The running task's trap context.
pub fn current_trap_cx(k: &Kernel) -> (cx: &TrapContext)
    requires
        k.wf(),
        k.has_current(),
    ensures
        *cx == k.inner(k.cur()).trap_cx,
{
    let cur = k.processor.current().unwrap();
    k.tasks[cur].as_ref().unwrap().inner.get_trap_cx()
}

/// Puts the initial process on the ready queue.
pub fn add_initproc(k: &mut Kernel)
    requires
        old(k).wf(),
        !old(k).queued(INITPROC_PID),
        old(k).processor.current != Some(INITPROC_PID),
        old(k).inner(INITPROC_PID as int).task_status != TaskStatus::Zombie,
    ensures
        final(k).wf(),
        final(k).tasks == old(k).tasks,
        final(k).processor == old(k).processor,
        exists|pos: int|
            crate::task::manager::is_insert_pos(old(k).manager@, old(k).inner(0).stride.pass, pos)
                && final(k).manager@ == old(k).manager@.insert(pos, (INITPROC_PID, old(k).inner(0).stride.pass)),
{
    add_task(k, INITPROC_PID);
}

/// Task `p` with its status replaced.
pub open spec fn with_status(t: TaskControlBlock, status: TaskStatus) -> TaskControlBlock {
    TaskControlBlock {
        pid: t.pid,
        kernel_stack: t.kernel_stack,
        inner: TaskControlBlockInner { task_status: status, ..t.inner },
    }
}

/// Suspends the running task: it becomes ready and joins the ready queue;
/// the processor then switches to the idle control flow.
pub fn suspend_current_and_run_next(k: &mut Kernel)
    requires
        old(k).wf(),
        old(k).has_current(),
    ensures
        final(k).wf(),
        (final(k).processor.current is None),
        final(k).tasks@ == old(k).tasks@.update(
            old(k).cur(),
            Some(with_status(old(k).tcb(old(k).cur()), TaskStatus::Ready)),
        ),
        exists|pos: int|
            crate::task::manager::is_insert_pos(old(k).manager@, old(k).inner(old(k).cur()).stride.pass, pos)
                && final(k).manager@ == old(k).manager@.insert(
                pos,
                (old(k).cur() as usize, old(k).inner(old(k).cur()).stride.pass),
            ),
{
    let task = take_current_task(k).unwrap();
    match &mut k.tasks[task] {
        Some(t) => {
            t.inner.task_status = TaskStatus::Ready;
        },
        None => {},
    }
    proof {
        let c = old(k).cur();
        assert(k.tasks@ =~= old(k).tasks@.update(c, Some(with_status(old(k).tcb(c), TaskStatus::Ready))));
        lemma_retask(*old(k), *k, c);
        assert forall|i: int|
            0 <= i < k.manager@.len() implies k.live(#[trigger] k.manager@[i].0 as int) && k.inner(
            k.manager@[i].0 as int,
        ).task_status != TaskStatus::Zombie by {
            assert(old(k).live(old(k).manager@[i].0 as int));
            if k.manager@[i].0 as int != c {
                assert(k.tcb(k.manager@[i].0 as int) == old(k).tcb(k.manager@[i].0 as int));
            }
        }
        assert(!k.queued(task)) by {
            if k.queued(task) {
                let i = choose|i: int| 0 <= i < k.manager@.len() && #[trigger] k.manager@[i].0 == task;
                assert(old(k).manager@[i].0 != old(k).processor.current->0);
            }
        }
    }
    add_task(k, task);
}

/// One round of the idle control flow: takes the task at the front of the
/// ready queue, if any, marks it running, advances its pass by
/// `MAX_PRIORITY / priority`, and makes it the running task.  Returns the
/// task, to which the processor then switches.
pub fn run_tasks_step(k: &mut Kernel) -> (t: Option<usize>)
    requires
        old(k).wf(),
        (old(k).processor.current is None),
        old(k).manager@.len() > 0 ==> old(k).inner(old(k).manager@[0].0 as int).stride.pass + crate::task::task::MAX_PRIORITY
            / old(k).inner(old(k).manager@[0].0 as int).stride.priority <= u32::MAX,
    ensures
        final(k).wf(),
        old(k).manager@.len() == 0 ==> t is None && final(k).manager@ == old(k).manager@ && final(k).tasks
            == old(k).tasks && final(k).processor == old(k).processor,
        old(k).manager@.len() > 0 ==> {
            let p = old(k).manager@[0].0;
            let s = old(k).inner(p as int).stride;
            &&& t == Some(p)
            &&& forall|i: int| 0 <= i < old(k).manager@.len() ==> old(k).manager@[0].1 <= #[trigger] old(
                k,
            ).manager@[i].1
            &&& final(k).processor.current == Some(p)
            &&& final(k).manager@ == old(k).manager@.drop_first()
            &&& final(k).tasks@ == old(k).tasks@.update(
                p as int,
                Some(
                    TaskControlBlock {
                        pid: old(k).tcb(p as int).pid,
                        kernel_stack: old(k).tcb(p as int).kernel_stack,
                        inner: TaskControlBlockInner {
                            task_status: TaskStatus::Running,
                            stride: TaskStride {
                                priority: s.priority,
                                pass: (s.pass + crate::task::task::MAX_PRIORITY / s.priority) as u32,
                            },
                            ..old(k).inner(p as int)
                        },
                    },
                ),
            )
        },
{
    match fetch_task(k) {
        Some(task) => {
            match &mut k.tasks[task] {
                Some(t) => {
                    t.inner.task_status = TaskStatus::Running;
                    t.inner.stride.pass = t.inner.stride.pass + crate::task::task::MAX_PRIORITY / t.inner.stride.priority;
                },
                None => {},
            }
            k.processor.current = Some(task);
            proof {
                let mid = old(k).manager@;
                let p = mid[0].0 as int;
                assert(old(k).live(p));
                let s = old(k).inner(p).stride;
                assert(k.tasks@ =~= old(k).tasks@.update(
                    p,
                    Some(
                        TaskControlBlock {
                            pid: old(k).tcb(p).pid,
                            kernel_stack: old(k).tcb(p).kernel_stack,
                            inner: TaskControlBlockInner {
                                task_status: TaskStatus::Running,
                                stride: TaskStride {
                                    priority: s.priority,
                                    pass: (s.pass + crate::task::task::MAX_PRIORITY / s.priority) as u32,
                                },
                                ..old(k).inner(p)
                            },
                        },
                    ),
                ));
                lemma_retask(*old(k), *k, p);
                assert forall|i: int|
                    0 <= i < k.manager@.len() implies k.live(#[trigger] k.manager@[i].0 as int) && k.inner(
                    k.manager@[i].0 as int,
                ).task_status != TaskStatus::Zombie by {
                    assert(k.manager@[i] == mid[i + 1]);
                    assert(old(k).live(mid[i + 1].0 as int));
                    assert(mid[0].0 != mid[i + 1].0);
                }
                assert forall|i: int| 0 <= i < k.manager@.len() implies #[trigger] k.manager@[i].0
                    != k.processor.current->0 by {
                    assert(k.manager@[i] == mid[i + 1]);
                    assert(mid[0].0 != mid[i + 1].0);
                }
            }
            Some(task)
        },
        None => None,
    }
}

/// `t` with its parent replaced.
pub open spec fn with_parent(t: TaskControlBlock, parent: Option<usize>) -> TaskControlBlock {
    TaskControlBlock {
        pid: t.pid,
        kernel_stack: t.kernel_stack,
        inner: TaskControlBlockInner { parent: parent, ..t.inner },
    }
}

/// `t2` is `t1` but for its children.
pub open spec fn same_but_children(t1: TaskControlBlock, t2: TaskControlBlock) -> bool {
    t2 == TaskControlBlock {
        pid: t1.pid,
        kernel_stack: t1.kernel_stack,
        inner: TaskControlBlockInner { children: t2.inner.children, ..t1.inner },
    }
}

/// `b` is `a` after task `c` (not the initial process) exited with
/// `code`: `c` is a zombie with that exit code, no children and an empty
/// address space; its children are now the initial process's, appended to
/// its list in order; nothing else changed.
pub open spec fn exited(a: Kernel, b: Kernel, c: int, code: i32) -> bool {
    let cs = a.inner(c).children@;
    &&& b.tasks@.len() == a.tasks@.len()
    &&& b.manager == a.manager
    &&& b.pid_allocator == a.pid_allocator
    &&& b.kstack_allocator == a.kstack_allocator
    &&& b.kernel_space == a.kernel_space
    &&& forall|q: int| 0 <= q < a.tasks@.len() ==> (#[trigger] b.live(q) <==> a.live(q))
    &&& forall|q: int|
        #[trigger] a.live(q) && q != c && q != INITPROC_PID && !cs.contains(q as usize) ==> b.tcb(q) == a.tcb(q)
    &&& b.tcb(c) == TaskControlBlock {
        pid: a.tcb(c).pid,
        kernel_stack: a.tcb(c).kernel_stack,
        inner: TaskControlBlockInner {
            task_status: TaskStatus::Zombie,
            exit_code: code,
            children: b.inner(c).children,
            memory_set: b.inner(c).memory_set,
            ..a.inner(c)
        },
    }
    &&& b.inner(c).children@.len() == 0
    &&& b.inner(c).memory_set@ == Map::<usize, (u8, Seq<u8>)>::empty()
    &&& b.inner(c).memory_set.root_ppn == a.inner(c).memory_set.root_ppn
    &&& same_but_children(a.tcb(INITPROC_PID as int), b.tcb(INITPROC_PID as int))
    &&& b.inner(INITPROC_PID as int).children@ == a.inner(INITPROC_PID as int).children@ + cs
    &&& forall|j: int|
        0 <= j < cs.len() ==> b.tcb(#[trigger] cs[j] as int) == with_parent(
            a.tcb(cs[j] as int),
            Some(INITPROC_PID),
        )
}

/// Exiting keeps the invariant.
proof fn lemma_exit_wf(a: Kernel, b: Kernel, c: int, code: i32)
    requires
        a.wf(),
        (a.processor.current is None),
        !a.queued(c as usize),
        a.live(c),
        c != INITPROC_PID,
        exited(a, b, c, code),
        b.processor == a.processor,
    ensures
        b.wf(),
{
    let cs = a.inner(c).children@;
    let z = INITPROC_PID as int;
    assert(a.live(z));
    // the children of `c` are live, distinct from `c` and from the initial
    // process, and not children of the initial process
    assert forall|j: int| 0 <= j < cs.len() implies a.live(#[trigger] cs[j] as int) && cs[j] != c && cs[j]
        != z && a.inner(cs[j] as int).parent == Some(c as usize) by {
        assert(a.live(a.inner(c).children@[j] as int));
    }
    assert forall|q: int| 0 <= q < b.tasks@.len() && !(#[trigger] a.live(q)) implies !b.live(q) by {}
    // every task keeps its pid and kernel stack
    assert forall|q: int| #[trigger] b.live(q) implies b.tcb(q).pid == a.tcb(q).pid && b.tcb(q).kernel_stack
        == a.tcb(q).kernel_stack && (q != c ==> b.inner(q).task_status == a.inner(q).task_status)
        && b.inner(q).stride == a.inner(q).stride by {
        assert(a.live(q));
        if cs.contains(q as usize) {
            let j = choose|j: int| 0 <= j < cs.len() && cs[j] == q as usize;
            assert(b.tcb(cs[j] as int) == with_parent(a.tcb(cs[j] as int), Some(INITPROC_PID)));
        }
    }
    // pids
    assert forall|p: int| 0 <= p < b.tasks@.len() implies (#[trigger] b.live(p) <==> !b.pid_allocator.recycled@.contains(
        p as usize,
    )) by {
        assert(b.live(p) == a.live(p));
    }
    assert forall|p: int| #[trigger] b.live(p) implies b.tcb(p).pid.0 == p by {
        assert(a.live(p));
    }
    // kernel stacks
    assert forall|p: int|
        #[trigger] b.live(p) implies b.kstack_allocator.in_use(b.tcb(p).kernel_stack.0) && kstack_fits(
        b.tcb(p).kernel_stack.0,
    ) by {
        assert(a.live(p));
    }
    assert forall|p: int, q: int|
        #[trigger] b.live(p) && #[trigger] b.live(q) && p != q implies b.tcb(p).kernel_stack.0 != b.tcb(
        q,
    ).kernel_stack.0 by {
        assert(a.live(p) && a.live(q));
    }
    // scheduling
    assert forall|i: int|
        0 <= i < b.manager@.len() implies b.live(#[trigger] b.manager@[i].0 as int) && b.inner(
        b.manager@[i].0 as int,
    ).task_status != TaskStatus::Zombie by {
        assert(a.live(a.manager@[i].0 as int));
        assert(a.manager@[i].0 != c as usize);
    }
    assert forall|p: int| #[trigger] b.live(p) implies b.inner(p).stride.priority > 0 by {
        assert(a.live(p));
    }
    // the tree: a task's parent and children after the exit
    assert forall|q: int|
        #[trigger] b.live(q) implies (b.inner(q).parent == if cs.contains(q as usize) {
        Some(INITPROC_PID)
    } else {
        a.inner(q).parent
    }) && (b.inner(q).children@ == if q == c {
        Seq::<usize>::empty()
    } else if q == z {
        a.inner(z).children@ + cs
    } else {
        a.inner(q).children@
    }) by {
        assert(a.live(q));
        if cs.contains(q as usize) {
            let j = choose|j: int| 0 <= j < cs.len() && cs[j] == q as usize;
            assert(b.tcb(cs[j] as int) == with_parent(a.tcb(cs[j] as int), Some(INITPROC_PID)));
        }
        if q == c {
            assert(b.inner(c).children@ =~= Seq::<usize>::empty());
        }
    }
    assert forall|p: int, i: int|
        #[trigger] b.live(p) && 0 <= i < b.inner(p).children@.len() implies b.live(
        #[trigger] b.inner(p).children@[i] as int,
    ) && b.inner(b.inner(p).children@[i] as int).parent == Some(p as usize) by {
        assert(a.live(p));
        let x = b.inner(p).children@[i];
        if p == z {
            let n0 = a.inner(z).children@.len();
            if i < n0 {
                assert(x == a.inner(z).children@[i]);
                assert(a.live(x as int) && a.inner(x as int).parent == Some(0usize));
                if cs.contains(x) {
                    let j = choose|j: int| 0 <= j < cs.len() && cs[j] == x;
                    assert(a.inner(cs[j] as int).parent == Some(c as usize));
                }
                assert(b.live(x as int));
            } else {
                assert(x == cs[i - n0]);
                assert(cs.contains(x));
                assert(b.live(x as int));
            }
        } else {
            assert(p != c);
            assert(x == a.inner(p).children@[i]);
            assert(a.live(x as int) && a.inner(x as int).parent == Some(p as usize));
            if cs.contains(x) {
                let j = choose|j: int| 0 <= j < cs.len() && cs[j] == x;
                assert(a.inner(cs[j] as int).parent == Some(c as usize));
            }
            assert(b.live(x as int));
        }
    }
    assert forall|p: int| #[trigger] b.live(p) implies b.inner(p).children@.no_duplicates() by {
        assert(a.live(p));
        if p == z {
            let s0 = a.inner(z).children@;
            let t = s0 + cs;
            assert(a.inner(c).children@.no_duplicates());
            assert forall|i: int, j: int| 0 <= i < t.len() && 0 <= j < t.len() && i != j implies t[i] != t[j] by {
                if i < s0.len() && j >= s0.len() {
                    assert(a.live(s0[i] as int) && a.inner(s0[i] as int).parent == Some(0usize));
                    assert(a.inner(cs[j - s0.len()] as int).parent == Some(c as usize));
                } else if i >= s0.len() && j < s0.len() {
                    assert(a.live(s0[j] as int) && a.inner(s0[j] as int).parent == Some(0usize));
                    assert(a.inner(cs[i - s0.len()] as int).parent == Some(c as usize));
                }
            }
        }
    }
    assert forall|x: int|
        #[trigger] b.live(x) && b.inner(x).parent is Some implies b.live(b.inner(x).parent->0 as int)
        && b.inner(b.inner(x).parent->0 as int).children@.contains(x as usize) by {
        assert(a.live(x));
        if cs.contains(x as usize) {
            let j = choose|j: int| 0 <= j < cs.len() && cs[j] == x as usize;
            let s0 = a.inner(z).children@;
            assert((s0 + cs)[s0.len() + j] == x as usize);
        } else {
            let q = a.inner(x).parent->0 as int;
            assert(a.live(q));
            assert(a.inner(q).children@.contains(x as usize));
            if q == c {
                assert(cs.contains(x as usize));
            } else if q == z {
                let s0 = a.inner(z).children@;
                let i = choose|i: int| 0 <= i < s0.len() && s0[i] == x as usize;
                assert((s0 + cs)[i] == x as usize);
            }
        }
    }
    assert forall|p: int|
        #[trigger] b.live(p) && b.inner(p).task_status == TaskStatus::Zombie implies b.inner(p).children@.len()
        == 0 by {
        assert(a.live(p));
    }
    assert forall|x: int| #[trigger] b.live(x) implies b.inner(x).parent != Some(x as usize) by {
        assert(a.live(x));
    }
    assert(b.live(z));
}

/// The running task exits with `exit_code`.  The initial process exiting
/// shuts the machine down.  Any other task becomes a zombie keeping its
/// exit code for its parent, hands its children to the initial process,
/// and gives up its address space's pages; the processor then switches to
/// the idle control flow.
pub fn exit_current_and_run_next(k: &mut Kernel, exit_code: i32) -> (act: ExitAction)
    requires
        old(k).wf(),
        old(k).has_current(),
    ensures
        final(k).wf(),
        old(k).cur() == INITPROC_PID ==> act == ExitAction::Shutdown && final(k).tasks == old(k).tasks
            && final(k).manager == old(k).manager && (final(k).processor.current is None),
        old(k).cur() != INITPROC_PID ==> act == ExitAction::Schedule && (final(k).processor.current is None)
            && exited(*old(k), *final(k), old(k).cur(), exit_code)
            ,
{
    let task = take_current_task(k).unwrap();
    if task == INITPROC_PID {
        return ExitAction::Shutdown;
    }
    let ghost k0 = *k;
    let ghost c = task as int;
    let ghost cs = k0.inner(c).children@;
    proof {
        assert(k0.live(c));
        assert(k0.live(0));
        assert(!k0.queued(task)) by {
            if k0.queued(task) {
                let i = choose|i: int| 0 <= i < k0.manager@.len() && #[trigger] k0.manager@[i].0 == task;
                assert(old(k).manager@[i].0 != old(k).processor.current->0);
            }
        }
        assert forall|j: int| 0 <= j < cs.len() implies k0.live(#[trigger] cs[j] as int) && cs[j] != c
            && cs[j] != 0 && k0.inner(cs[j] as int).parent == Some(c as usize) by {
            assert(k0.live(k0.inner(c).children@[j] as int));
        }
    }
    let n = match &k.tasks[task] {
        Some(t) => t.inner.children.len(),
        None => 0,
    };
    let mut i: usize = 0;
    while i < n
        invariant
            0 <= i <= n,
            n == cs.len(),
            k0.wf(),
            k0.live(c),
            k0.live(0),
            c != 0,
            task as int == c,
            cs == k0.inner(c).children@,
            cs.no_duplicates(),
            forall|j: int| 0 <= j < cs.len() ==> k0.live(#[trigger] cs[j] as int) && cs[j] != c && cs[j] != 0,
            k.tasks@.len() == k0.tasks@.len(),
            k.manager == k0.manager,
            k.processor == k0.processor,
            k.pid_allocator == k0.pid_allocator,
            k.kstack_allocator == k0.kstack_allocator,
            k.kernel_space == k0.kernel_space,
            forall|q: int|
                0 <= q < k0.tasks@.len() && q != 0 && !cs.contains(q as usize) ==> #[trigger] k.tasks@[q] == k0.tasks@[q],
            k.tasks@[0] is Some,
            same_but_children(k0.tcb(0), k.tcb(0)),
            k.inner(0).children@ == k0.inner(0).children@ + cs.take(i as int),
            forall|j: int|
                0 <= j < cs.len() ==> k.tasks@[#[trigger] cs[j] as int] == if j < i {
                    Some(with_parent(k0.tcb(cs[j] as int), Some(INITPROC_PID)))
                } else {
                    k0.tasks@[cs[j] as int]
                },
        decreases n - i,
    {
        let ch = match &k.tasks[task] {
            Some(t) => t.inner.children[i],
            None => 0,
        };
        proof {
            assert(k.tasks@[c] == k0.tasks@[c]);
            assert(ch == cs[i as int]);
        }
        let ghost before = k.tasks@;
        match &mut k.tasks[ch] {
            Some(t) => {
                t.inner.parent = Some(INITPROC_PID);
            },
            None => {},
        }
        let ghost mid = k.tasks@;
        match &mut k.tasks[INITPROC_PID] {
            Some(t) => {
                t.inner.children.push(ch);
            },
            None => {},
        }
        proof {
            assert(cs.take(i + 1) =~= cs.take(i as int).push(ch));
            assert(k.inner(0).children@ =~= k0.inner(0).children@ + cs.take(i + 1));
            assert forall|j: int|
                0 <= j < cs.len() implies k.tasks@[#[trigger] cs[j] as int] == if j < i + 1 {
                    Some(with_parent(k0.tcb(cs[j] as int), Some(INITPROC_PID)))
                } else {
                    k0.tasks@[cs[j] as int]
                } by {
                if j != i {
                    assert(cs[j] != cs[i as int]);
                }
            }
        }
        i = i + 1;
    }
    match &mut k.tasks[task] {
        Some(t) => {
            t.inner.children.clear();
            t.inner.task_status = TaskStatus::Zombie;
            t.inner.exit_code = exit_code;
            t.inner.memory_set.recycle_data_pages();
        },
        None => {},
    }
    proof {
        assert(cs.take(n as int) =~= cs);
        assert forall|q: int|
            #[trigger] k0.live(q) && q != c && q != INITPROC_PID && !cs.contains(q as usize) implies k.tcb(q)
            == k0.tcb(q) by {}
        assert forall|q: int| 0 <= q < k0.tasks@.len() implies (#[trigger] k.live(q) <==> k0.live(q)) by {
            if cs.contains(q as usize) {
                let j = choose|j: int| 0 <= j < cs.len() && cs[j] == q as usize;
                assert(k.tasks@[cs[j] as int] is Some);
            }
        }
        assert forall|j: int|
            0 <= j < cs.len() implies k.tcb(#[trigger] cs[j] as int) == with_parent(
            k0.tcb(cs[j] as int),
            Some(INITPROC_PID),
        ) by {}
        assert(exited(k0, *k, c, exit_code));
        lemma_exit_wf(k0, *k, c, exit_code);
    }
    ExitAction::Schedule
}

/// `b` is `a` with a new task `c` added as the last child of task `p`:
/// `c` takes the pid and kernel stack slot the allocators hand out next,
/// starts ready with no children and a positive priority; nothing else
/// changed.
pub open spec fn child_added(a: Kernel, b: Kernel, p: int, c: usize) -> bool {
    &&& c == a.pid_allocator.next_id()
    &&& crate::task::pid::alloc_step(a.pid_allocator, b.pid_allocator, c)
    &&& crate::task::pid::alloc_step(a.kstack_allocator, b.kstack_allocator, b.tcb(c as int).kernel_stack.0)
    &&& kstack_fits(b.tcb(c as int).kernel_stack.0)
    &&& b.tasks@.len() == if c == a.tasks@.len() {
        a.tasks@.len() + 1
    } else {
        a.tasks@.len() + 0
    }
    &&& b.tasks@[c as int] is Some
    &&& b.tasks@[p] is Some
    &&& b.tcb(c as int).pid.0 == c
    &&& b.inner(c as int).parent == Some(p as usize)
    &&& b.inner(c as int).children@.len() == 0
    &&& b.inner(c as int).task_status == TaskStatus::Ready
    &&& b.inner(c as int).stride.priority > 0
    &&& same_but_children(a.tcb(p), b.tcb(p))
    &&& b.inner(p).children@ == a.inner(p).children@.push(c)
    &&& forall|q: int| 0 <= q < a.tasks@.len() && q != p && q != c ==> #[trigger] b.tasks@[q] == a.tasks@[q]
    &&& b.processor == a.processor
}

/// Adding a child keeps the invariant.
proof fn lemma_child_added_wf(a: Kernel, b: Kernel, p: int, c: usize)
    requires
        a.wf(),
        a.live(p),
        a.inner(p).task_status != TaskStatus::Zombie,
        child_added(a, b, p, c),
        b.manager == a.manager,
    ensures
        b.wf(),
        !a.live(c as int),
        b.live(c as int),
        forall|q: int| #[trigger] a.live(q) ==> b.live(q),
{
    let ks = b.tcb(c as int).kernel_stack.0;
    crate::task::pid::law_alloc_is_fresh(a.pid_allocator, b.pid_allocator, c);
    law_alloc_is_fresh(a.kstack_allocator, b.kstack_allocator, ks);
    // the new pid was free
    assert(!a.live(c as int)) by {
        if a.live(c as int) {
            assert(!a.pid_allocator.recycled@.contains(c));
        }
    }
    assert forall|q: int| 0 <= q < b.tasks@.len() implies (#[trigger] b.live(q) <==> (a.live(q) || q == c)) by {
        if q != c && q != p && q < a.tasks@.len() {
            assert(b.tasks@[q] == a.tasks@[q]);
        }
    }
    assert forall|q: int| #[trigger] a.live(q) && q != c implies b.tcb(q).pid == a.tcb(q).pid && b.tcb(q).kernel_stack
        == a.tcb(q).kernel_stack && b.inner(q).task_status == a.inner(q).task_status && b.inner(q).stride
        == a.inner(q).stride && b.inner(q).parent == a.inner(q).parent && (q != p ==> b.inner(q).children
        == a.inner(q).children) by {
        if q != p {
            assert(b.tasks@[q] == a.tasks@[q]);
        }
    }
    // pids
    assert forall|q: int| 0 <= q < b.tasks@.len() implies (#[trigger] b.live(q) <==> !b.pid_allocator.recycled@.contains(
        q as usize,
    )) by {
        if q == c {
        } else if q < a.tasks@.len() {
            assert(a.live(q) <==> !a.pid_allocator.recycled@.contains(q as usize));
            assert(b.pid_allocator.in_use(q as usize) <==> a.pid_allocator.in_use(q as usize));
        }
    }
    assert forall|q: int| #[trigger] b.live(q) implies b.tcb(q).pid.0 == q by {
        if q != c {
            assert(a.live(q));
        }
    }
    // kernel stacks
    assert forall|q: int|
        #[trigger] b.live(q) implies b.kstack_allocator.in_use(b.tcb(q).kernel_stack.0) && kstack_fits(
        b.tcb(q).kernel_stack.0,
    ) by {
        if q != c {
            assert(a.live(q));
            assert(a.kstack_allocator.in_use(a.tcb(q).kernel_stack.0));
            assert(a.tcb(q).kernel_stack.0 != ks);
        }
    }
    assert forall|q: int, r: int|
        #[trigger] b.live(q) && #[trigger] b.live(r) && q != r implies b.tcb(q).kernel_stack.0 != b.tcb(
        r,
    ).kernel_stack.0 by {
        if q != c {
            assert(a.live(q));
            assert(a.kstack_allocator.in_use(a.tcb(q).kernel_stack.0));
        }
        if r != c {
            assert(a.live(r));
            assert(a.kstack_allocator.in_use(a.tcb(r).kernel_stack.0));
        }
        if q != c && r != c {
            assert(a.live(q) && a.live(r));
        }
    }
    // scheduling
    if b.processor.current is Some {
        assert(a.live(a.processor.current->0 as int));
    }
    assert forall|i: int|
        0 <= i < b.manager@.len() implies b.live(#[trigger] b.manager@[i].0 as int) && b.inner(
        b.manager@[i].0 as int,
    ).task_status != TaskStatus::Zombie by {
        assert(a.live(a.manager@[i].0 as int));
    }
    assert forall|q: int| #[trigger] b.live(q) implies b.inner(q).stride.priority > 0 by {
        if q != c {
            assert(a.live(q));
        }
    }
    // the tree
    assert forall|q: int, i: int|
        #[trigger] b.live(q) && 0 <= i < b.inner(q).children@.len() implies b.live(
        #[trigger] b.inner(q).children@[i] as int,
    ) && b.inner(b.inner(q).children@[i] as int).parent == Some(q as usize) by {
        if q != c {
            assert(a.live(q));
            let x = b.inner(q).children@[i];
            if q == p && i == a.inner(p).children@.len() {
                assert(x == c);
            } else {
                assert(x == a.inner(q).children@[i]);
                assert(a.live(x as int));
            }
        }
    }
    assert forall|q: int| #[trigger] b.live(q) implies b.inner(q).children@.no_duplicates() by {
        if q == p {
            let s0 = a.inner(p).children@;
            assert forall|i: int| 0 <= i < s0.len() implies s0[i] != c by {
                assert(a.live(s0[i] as int));
            }
            let t = s0.push(c);
            assert forall|i: int, j: int| 0 <= i < t.len() && 0 <= j < t.len() && i != j implies t[i] != t[j] by {
                if i < s0.len() && j < s0.len() {
                } else if i < s0.len() {
                    assert(t[j] == c);
                } else {
                    assert(t[i] == c);
                }
            }
        } else if q != c {
            assert(a.live(q));
        }
    }
    assert forall|x: int|
        #[trigger] b.live(x) && b.inner(x).parent is Some implies b.live(b.inner(x).parent->0 as int)
        && b.inner(b.inner(x).parent->0 as int).children@.contains(x as usize) by {
        if x == c {
            assert(b.inner(p).children@[a.inner(p).children@.len() as int] == c);
        } else {
            assert(a.live(x));
            let q = a.inner(x).parent->0 as int;
            assert(a.live(q));
            let i = choose|i: int| 0 <= i < a.inner(q).children@.len() && a.inner(q).children@[i] == x as usize;
            assert(b.inner(q).children@[i] == x as usize);
        }
    }
    assert forall|q: int|
        #[trigger] b.live(q) && b.inner(q).task_status == TaskStatus::Zombie implies b.inner(q).children@.len()
        == 0 by {
        if q != c {
            assert(a.live(q));
        }
    }
    assert forall|x: int| #[trigger] b.live(x) implies b.inner(x).parent != Some(x as usize) by {
        if x != c {
            assert(a.live(x));
        } else {
            assert(p != c);
        }
    }
    assert(a.live(0));
    assert(b.live(0));
}

/// Puts task control block `t` into the table at pid `c`: appended when `c`
/// is the table's length, else into the free slot.
fn install_task(tasks: &mut Vec<Option<TaskControlBlock>>, c: usize, t: TaskControlBlock)
    requires
        c <= old(tasks)@.len(),
    ensures
        c == old(tasks)@.len() ==> final(tasks)@ == old(tasks)@.push(Some(t)),
        c < old(tasks)@.len() ==> final(tasks)@ == old(tasks)@.update(c as int, Some(t)),
{
    if c == tasks.len() {
        tasks.push(Some(t));
    } else {
        tasks.set(c, Some(t));
    }
}

impl Kernel {
    /// Whether a new task can be made: a pid and a kernel stack slot can be
    /// handed out, and that slot fits the stack area and is unmapped.
    pub open spec fn can_add_task(&self) -> bool {
        &&& self.pid_allocator.recycled@.len() == 0 ==> self.pid_allocator.current < usize::MAX
        &&& self.kstack_allocator.recycled@.len() == 0 ==> self.kstack_allocator.current < usize::MAX
        &&& kstack_fits(self.kstack_allocator.next_id())
        &&& kstack_slot_free(self.kernel_space, self.kstack_allocator.next_id())
    }

    /// Whether a new task can be made now (see `can_add_task`): creating
    /// one when it cannot runs out of ids or maps a kernel stack over
    /// mapped pages.
    pub fn has_room_for_task(&self) -> (b: bool)
        ensures
            b == self.can_add_task(),
    {
        let pids = &self.pid_allocator;
        let kstacks = &self.kstack_allocator;
        if pids.recycled.len() == 0 && pids.current == usize::MAX {
            return false;
        }
        if kstacks.recycled.len() == 0 && kstacks.current == usize::MAX {
            return false;
        }
        let id = if kstacks.recycled.len() > 0 {
            kstacks.recycled[kstacks.recycled.len() - 1]
        } else {
            kstacks.current
        };
        assert(id == kstacks.next_id());
        let slot = KERNEL_STACK_SIZE + PAGE_SIZE;
        let max_id = (TRAMPOLINE - KERNEL_STACK_SIZE) / slot;
        proof {
            let t: int = TRAMPOLINE - KERNEL_STACK_SIZE;
            let slot_i: int = slot as int;
            assert(max_id * slot <= t) by (nonlinear_arith)
                requires
                    max_id == t / slot_i,
                    slot_i == slot,
                    slot > 0,
                    t >= 0,
            ;
            assert(t < (max_id + 1) * slot) by (nonlinear_arith)
                requires
                    max_id == t / slot_i,
                    slot_i == slot,
                    slot > 0,
                    t >= 0,
            ;
            if id <= max_id {
                assert(id * slot <= max_id * slot) by (nonlinear_arith)
                    requires
                        id <= max_id,
                        slot > 0,
                ;
            } else {
                assert(id * slot >= (max_id + 1) * slot) by (nonlinear_arith)
                    requires
                        id >= max_id + 1,
                        slot > 0,
                ;
            }
        }
        if id > max_id {
            return false;
        }
        let (bottom, top) = kernel_stack_position(id);
        !self.kernel_space.overlaps(bottom, top)
    }


    /// Task `parent` forks: a child with its own copy of its address space
    /// (the same pages, permissions and bytes; its page table rooted at
    /// `root_ppn`), its trap context (but for the
    /// kernel stack top), heap, stride and open files, on its own kernel
    /// stack, becomes `parent`'s last child.  Returns the child's pid.
    pub fn fork(&mut self, parent: usize, root_ppn: usize) -> (c: usize)
        requires
            old(self).wf(),
            old(self).live(parent as int),
            old(self).inner(parent as int).task_status != TaskStatus::Zombie,
            old(self).can_add_task(),
        ensures
            final(self).wf(),
            child_added(*old(self), *final(self), parent as int, c),
            final(self).manager == old(self).manager,
            final(self).kernel_space.root_ppn == old(self).kernel_space.root_ppn,
            final(self).kernel_space@ == crate::mm::map_range(
                old(self).kernel_space@,
                floor_vpn(va(kstack_bounds(final(self).tcb(c as int).kernel_stack.0).0)),
                ceil_vpn(va(kstack_bounds(final(self).tcb(c as int).kernel_stack.0).1)),
                (crate::mm::MAP_R | crate::mm::MAP_W) as u8,
            ),
            final(self).trap_return == old(self).trap_return,
            final(self).trap_handler == old(self).trap_handler,
            ({
                let pi = old(self).inner(parent as int);
                let ci = final(self).inner(c as int);
                let top = kstack_bounds(final(self).tcb(c as int).kernel_stack.0).1;
                &&& ci.memory_set@ == pi.memory_set@
                &&& ci.memory_set.root_ppn == root_ppn
                &&& ci.trap_cx.x@ == pi.trap_cx.x@
                &&& ci.trap_cx.sepc == pi.trap_cx.sepc
                &&& ci.trap_cx.kernel_satp == pi.trap_cx.kernel_satp
                &&& ci.trap_cx.trap_handler == pi.trap_cx.trap_handler
                &&& ci.trap_cx.kernel_sp == top
                &&& ci.task_cx == (TaskContext { ra: old(self).trap_return, sp: top })
                &&& ci.base_size == pi.base_size
                &&& ci.heap_bottom == pi.heap_bottom
                &&& ci.program_brk == pi.program_brk
                &&& ci.stride == pi.stride
                &&& ci.exit_code == 0
                &&& ci.fd_table@ == pi.fd_table@
            }),
    {
        let trap_return = self.trap_return;
        proof {
            assert(old(self).live(parent as int));
        }
        let child = self.tasks[parent].as_mut().unwrap().fork(
            root_ppn,
            &mut self.pid_allocator,
            &mut self.kstack_allocator,
            &mut self.kernel_space,
            trap_return,
        );
        let c = child.pid.0;
        proof {
            assert(c <= self.tasks@.len()) by {
                if old(self).pid_allocator.recycled@.len() > 0 {
                    let n = old(self).pid_allocator.recycled@.len() - 1;
                    assert(old(self).pid_allocator.recycled@[n] < old(self).pid_allocator.current);
                }
            }
        }
        install_task(&mut self.tasks, c, child);
        proof {
            assert(old(self).live(parent as int));
            assert(parent != c) by {
                if parent == c {
                    if old(self).pid_allocator.recycled@.len() > 0 {
                        let n = old(self).pid_allocator.recycled@.len() - 1;
                        assert(old(self).pid_allocator.recycled@.contains(c)) by {
                            assert(old(self).pid_allocator.recycled@[n] == c);
                        }
                    }
                }
            }
            assert(child_added(*old(self), *self, parent as int, c));
            lemma_child_added_wf(*old(self), *self, parent as int, c);
        }
        c
    }

    /// Task `parent` spawns `image` as a new task: a fresh task runs the
    /// program from its entry point on its own kernel stack, with the
    /// standard descriptor table and default stride, and becomes `parent`'s
    /// last child.  Returns the child's pid.
    pub fn spawn(&mut self, parent: usize, image: ProgramImage) -> (c: usize)
        requires
            old(self).wf(),
            old(self).live(parent as int),
            old(self).inner(parent as int).task_status != TaskStatus::Zombie,
            old(self).can_add_task(),
        ensures
            final(self).wf(),
            child_added(*old(self), *final(self), parent as int, c),
            final(self).manager == old(self).manager,
            final(self).kernel_space.root_ppn == old(self).kernel_space.root_ppn,
            final(self).kernel_space@ == crate::mm::map_range(
                old(self).kernel_space@,
                floor_vpn(va(kstack_bounds(final(self).tcb(c as int).kernel_stack.0).0)),
                ceil_vpn(va(kstack_bounds(final(self).tcb(c as int).kernel_stack.0).1)),
                (crate::mm::MAP_R | crate::mm::MAP_W) as u8,
            ),
            final(self).trap_return == old(self).trap_return,
            final(self).trap_handler == old(self).trap_handler,
            ({
                let ci = final(self).inner(c as int);
                let top = kstack_bounds(final(self).tcb(c as int).kernel_stack.0).1;
                &&& ci.memory_set == image.memory_set
                &&& ci.trap_cx.x@ == Seq::new(32, |i: int| if i == 2 { image.user_sp } else { 0usize })
                &&& ci.trap_cx.sepc == image.entry_point
                &&& ci.trap_cx.kernel_satp == (((8u64 << 60u64) | (old(self).kernel_space.root_ppn as u64)) as usize)
                &&& ci.trap_cx.trap_handler == old(self).trap_handler
                &&& ci.trap_cx.kernel_sp == top
                &&& ci.task_cx == (TaskContext { ra: old(self).trap_return, sp: top })
                &&& ci.base_size == image.user_sp
                &&& ci.heap_bottom == image.user_sp
                &&& ci.program_brk == image.user_sp
                &&& ci.stride == (TaskStride { priority: 16, pass: 0 })
                &&& ci.exit_code == 0
                &&& ci.fd_table@ == standard_fds()
            }),
    {
        let trap_return = self.trap_return;
        let trap_handler = self.trap_handler;
        proof {
            assert(old(self).live(parent as int));
        }
        let child = self.tasks[parent].as_mut().unwrap().spawn(
            image,
            &mut self.pid_allocator,
            &mut self.kstack_allocator,
            &mut self.kernel_space,
            trap_return,
            trap_handler,
        );
        let c = child.pid.0;
        proof {
            assert(c <= self.tasks@.len()) by {
                if old(self).pid_allocator.recycled@.len() > 0 {
                    let n = old(self).pid_allocator.recycled@.len() - 1;
                    assert(old(self).pid_allocator.recycled@[n] < old(self).pid_allocator.current);
                }
            }
        }
        install_task(&mut self.tasks, c, child);
        proof {
            assert(old(self).live(parent as int));
            assert(parent != c) by {
                if parent == c {
                    if old(self).pid_allocator.recycled@.len() > 0 {
                        let n = old(self).pid_allocator.recycled@.len() - 1;
                        assert(old(self).pid_allocator.recycled@.contains(c)) by {
                            assert(old(self).pid_allocator.recycled@[n] == c);
                        }
                    }
                }
            }
            assert(child_added(*old(self), *self, parent as int, c));
            lemma_child_added_wf(*old(self), *self, parent as int, c);
        }
        c
    }
}

/// `b` is `a` after task `p` collected its `j`-th child `c`, a zombie: the
/// child is gone from the table and from `p`'s children, its pid and kernel
/// stack slot are given back, and its kernel stack's pages are unmapped
/// when mapped.
pub open spec fn reaped(a: Kernel, b: Kernel, p: int, j: int) -> bool {
    let c = a.inner(p).children@[j];
    let ks = a.tcb(c as int).kernel_stack.0;
    let lo = floor_vpn(va(kstack_bounds(ks).0));
    let hi = ceil_vpn(va(kstack_bounds(ks).1));
    &&& 0 <= j < a.inner(p).children@.len()
    &&& b.tasks@.len() == a.tasks@.len()
    &&& b.tasks@[c as int] is None
    &&& b.tasks@[p] is Some
    &&& same_but_children(a.tcb(p), b.tcb(p))
    &&& b.inner(p).children@ == a.inner(p).children@.remove(j)
    &&& forall|q: int| 0 <= q < a.tasks@.len() && q != p && q != c ==> #[trigger] b.tasks@[q] == a.tasks@[q]
    &&& crate::task::pid::dealloc_step(a.pid_allocator, b.pid_allocator, c)
    &&& crate::task::pid::dealloc_step(a.kstack_allocator, b.kstack_allocator, ks)
    &&& b.kernel_space.root_ppn == a.kernel_space.root_ppn
    &&& crate::mm::range_mapped(a.kernel_space@, lo, hi) ==> b.kernel_space@ == crate::mm::unmap_range(
        a.kernel_space@,
        lo,
        hi,
    )
    &&& !crate::mm::range_mapped(a.kernel_space@, lo, hi) ==> b.kernel_space@ == a.kernel_space@
    &&& b.manager == a.manager
    &&& b.processor == a.processor
    &&& b.trap_return == a.trap_return
    &&& b.trap_handler == a.trap_handler
}

/// Collecting a zombie child keeps the invariant.
proof fn lemma_reaped_wf(a: Kernel, b: Kernel, p: int, j: int)
    requires
        a.wf(),
        a.live(p),
        0 <= j < a.inner(p).children@.len(),
        a.inner(a.inner(p).children@[j] as int).task_status == TaskStatus::Zombie,
        reaped(a, b, p, j),
    ensures
        b.wf(),
        forall|q: int| #[trigger] b.live(q) <==> (a.live(q) && q != a.inner(p).children@[j]),
{
    let cs = a.inner(p).children@;
    let c = cs[j];
    let ci = c as int;
    let ks = a.tcb(ci).kernel_stack.0;
    assert(a.live(ci) && a.inner(ci).parent == Some(p as usize));
    assert(ci != p);
    assert(a.live(0));
    assert(ci != 0);
    assert(a.pid_allocator.in_use(c)) by {
        assert(!a.pid_allocator.recycled@.contains(c));
    }
    assert forall|q: int| #[trigger] b.live(q) <==> (a.live(q) && q != ci) by {
        if 0 <= q < a.tasks@.len() && q != p && q != ci {
            assert(b.tasks@[q] == a.tasks@[q]);
        }
    }
    assert forall|q: int| #[trigger] b.live(q) implies b.tcb(q).pid == a.tcb(q).pid && b.tcb(q).kernel_stack
        == a.tcb(q).kernel_stack && b.inner(q).task_status == a.inner(q).task_status && b.inner(q).stride
        == a.inner(q).stride && b.inner(q).parent == a.inner(q).parent && (q != p ==> b.inner(q).children
        == a.inner(q).children) by {
        if q != p {
            assert(b.tasks@[q] == a.tasks@[q]);
        }
    }
    // pids
    assert forall|q: int| 0 <= q < b.tasks@.len() implies (#[trigger] b.live(q) <==> !b.pid_allocator.recycled@.contains(
        q as usize,
    )) by {
        assert(b.pid_allocator.recycled@ == a.pid_allocator.recycled@.push(c));
        if q == ci {
            assert(b.pid_allocator.recycled@[a.pid_allocator.recycled@.len() as int] == c);
        } else {
            assert(a.live(q) <==> !a.pid_allocator.recycled@.contains(q as usize));
            if b.pid_allocator.recycled@.contains(q as usize) {
                let i = choose|i: int| 0 <= i < b.pid_allocator.recycled@.len() && b.pid_allocator.recycled@[i] == q as usize;
                assert(a.pid_allocator.recycled@[i] == q as usize);
            }
            if a.pid_allocator.recycled@.contains(q as usize) {
                let i = choose|i: int| 0 <= i < a.pid_allocator.recycled@.len() && a.pid_allocator.recycled@[i] == q as usize;
                assert(b.pid_allocator.recycled@[i] == q as usize);
            }
        }
    }
    assert(b.pid_allocator.wf()) by {
        assert forall|i: int, k: int|
            0 <= i < b.pid_allocator.recycled@.len() && 0 <= k < b.pid_allocator.recycled@.len() && i != k implies b.pid_allocator.recycled@[i]
            != b.pid_allocator.recycled@[k] by {
            let n = a.pid_allocator.recycled@.len() as int;
            if i < n && k < n {
                assert(a.pid_allocator.recycled@[i] != a.pid_allocator.recycled@[k]);
            } else if i < n {
                assert(a.pid_allocator.recycled@.contains(a.pid_allocator.recycled@[i]));
            } else if k < n {
                assert(a.pid_allocator.recycled@.contains(a.pid_allocator.recycled@[k]));
            }
        }
    }
    assert forall|q: int| #[trigger] b.live(q) implies b.tcb(q).pid.0 == q by {
        assert(a.live(q));
    }
    // kernel stacks
    assert(a.kstack_allocator.in_use(ks));
    assert forall|q: int|
        #[trigger] b.live(q) implies b.kstack_allocator.in_use(b.tcb(q).kernel_stack.0) && kstack_fits(
        b.tcb(q).kernel_stack.0,
    ) by {
        assert(a.live(q));
        let kq = a.tcb(q).kernel_stack.0;
        assert(kq != ks);
        assert(a.kstack_allocator.in_use(kq));
        if b.kstack_allocator.recycled@.contains(kq) {
            let i = choose|i: int| 0 <= i < b.kstack_allocator.recycled@.len() && b.kstack_allocator.recycled@[i] == kq;
            if i < a.kstack_allocator.recycled@.len() {
                assert(a.kstack_allocator.recycled@[i] == kq);
            }
        }
    }
    assert(b.kstack_allocator.wf()) by {
        assert forall|i: int, k: int|
            0 <= i < b.kstack_allocator.recycled@.len() && 0 <= k < b.kstack_allocator.recycled@.len() && i != k implies b.kstack_allocator.recycled@[i]
            != b.kstack_allocator.recycled@[k] by {
            let n = a.kstack_allocator.recycled@.len() as int;
            if i < n && k < n {
                assert(a.kstack_allocator.recycled@[i] != a.kstack_allocator.recycled@[k]);
            } else if i < n {
                assert(a.kstack_allocator.recycled@.contains(a.kstack_allocator.recycled@[i]));
            } else if k < n {
                assert(a.kstack_allocator.recycled@.contains(a.kstack_allocator.recycled@[k]));
            }
        }
    }
    assert forall|q: int, r: int|
        #[trigger] b.live(q) && #[trigger] b.live(r) && q != r implies b.tcb(q).kernel_stack.0 != b.tcb(
        r,
    ).kernel_stack.0 by {
        assert(a.live(q) && a.live(r));
    }
    // scheduling
    if b.processor.current is Some {
        assert(a.live(a.processor.current->0 as int));
    }
    assert forall|i: int|
        0 <= i < b.manager@.len() implies b.live(#[trigger] b.manager@[i].0 as int) && b.inner(
        b.manager@[i].0 as int,
    ).task_status != TaskStatus::Zombie by {
        assert(a.live(a.manager@[i].0 as int));
    }
    assert forall|q: int| #[trigger] b.live(q) implies b.inner(q).stride.priority > 0 by {
        assert(a.live(q));
    }
    // the tree
    assert(cs.no_duplicates());
    assert forall|i: int| 0 <= i < cs.remove(j).len() implies #[trigger] cs.remove(j)[i] != c by {
        if i < j {
            assert(cs.remove(j)[i] == cs[i]);
        } else {
            assert(cs.remove(j)[i] == cs[i + 1]);
        }
    }
    assert forall|q: int, i: int|
        #[trigger] b.live(q) && 0 <= i < b.inner(q).children@.len() implies b.live(
        #[trigger] b.inner(q).children@[i] as int,
    ) && b.inner(b.inner(q).children@[i] as int).parent == Some(q as usize) by {
        assert(a.live(q));
        let x = b.inner(q).children@[i];
        if q == p {
            assert(x != c);
            if i < j {
                assert(x == cs[i]);
            } else {
                assert(x == cs[i + 1]);
            }
            assert(a.live(x as int));
        } else {
            assert(x == a.inner(q).children@[i]);
            assert(a.live(x as int));
            assert(x != c);
        }
    }
    assert forall|q: int| #[trigger] b.live(q) implies b.inner(q).children@.no_duplicates() by {
        assert(a.live(q));
        if q == p {
            let r = cs.remove(j);
            assert forall|i: int, k: int| 0 <= i < r.len() && 0 <= k < r.len() && i != k implies r[i] != r[k] by {
                let ii = if i < j { i } else { i + 1 };
                let kk = if k < j { k } else { k + 1 };
                assert(r[i] == cs[ii] && r[k] == cs[kk]);
            }
        }
    }
    assert forall|x: int|
        #[trigger] b.live(x) && b.inner(x).parent is Some implies b.live(b.inner(x).parent->0 as int)
        && b.inner(b.inner(x).parent->0 as int).children@.contains(x as usize) by {
        assert(a.live(x));
        let q = a.inner(x).parent->0 as int;
        assert(a.live(q));
        if q == ci {
            assert(a.inner(ci).children@.contains(x as usize));
        }
        let i = choose|i: int| 0 <= i < a.inner(q).children@.len() && a.inner(q).children@[i] == x as usize;
        if q == p {
            assert(x != ci);
            assert(i != j);
            if i < j {
                assert(cs.remove(j)[i] == x as usize);
            } else {
                assert(cs.remove(j)[i - 1] == x as usize);
            }
        } else {
            assert(b.inner(q).children@[i] == x as usize);
        }
    }
    assert forall|q: int|
        #[trigger] b.live(q) && b.inner(q).task_status == TaskStatus::Zombie implies b.inner(q).children@.len()
        == 0 by {
        assert(a.live(q));
    }
    assert forall|x: int| #[trigger] b.live(x) implies b.inner(x).parent != Some(x as usize) by {
        assert(a.live(x));
    }
    assert(b.live(0));
}

impl Kernel {
    /// Task `parent` collects its `j`-th child, a zombie: the child leaves
    /// the table and `parent`'s children, its pid and kernel stack slot are
    /// given back and its kernel stack's pages are unmapped.  Returns the
    /// child's pid and exit code.
    pub fn reap(&mut self, parent: usize, j: usize) -> (r: (usize, i32))
        requires
            old(self).wf(),
            old(self).live(parent as int),
            j < old(self).inner(parent as int).children@.len(),
            old(self).inner(old(self).inner(parent as int).children@[j as int] as int).task_status == TaskStatus::Zombie,
        ensures
            final(self).wf(),
            reaped(*old(self), *final(self), parent as int, j as int),
            r.0 == old(self).inner(parent as int).children@[j as int],
            r.1 == old(self).inner(r.0 as int).exit_code,
    {
        let ghost a = *self;
        let c = match &mut self.tasks[parent] {
            Some(t) => t.inner.children.remove(j),
            None => 0,
        };
        proof {
            assert(a.live(c as int) && a.inner(c as int).parent == Some(parent));
            assert(c != parent);
        }
        let (exit_code, ks) = match &self.tasks[c] {
            Some(t) => (t.inner.exit_code, t.kernel_stack.0),
            None => (0, 0),
        };
        self.tasks.set(c, None);
        proof {
            assert(a.pid_allocator.in_use(c)) by {
                assert(!a.pid_allocator.recycled@.contains(c));
            }
            assert(a.kstack_allocator.in_use(ks));
        }
        self.pid_allocator.dealloc(c);
        let (bottom, top) = crate::task::pid::kernel_stack_position(ks);
        self.kernel_space.remove_area(bottom, top);
        self.kstack_allocator.dealloc(ks);
        proof {
            assert(reaped(a, *self, parent as int, j as int));
            lemma_reaped_wf(a, *self, parent as int, j as int);
        }
        (c, exit_code)
    }
}

} // verus!
