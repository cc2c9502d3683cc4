//! Task control blocks: what the kernel keeps for each process.
use vstd::prelude::*;
use crate::fs::FileDesc;
use crate::mm::{ceil_vpn, map_range, range_free, range_mapped, unmap_range, va, MemorySet, MAP_R, MAP_U, MAP_W};
use crate::task::pid::{
    alloc_step, kstack_alloc, kstack_bounds, kstack_fits, pid_alloc, KernelStack, PidHandle, RecycleAllocator,
};

verus! {

/// The largest priority; a scheduled task's pass grows by this divided by
/// its priority.
pub const MAX_PRIORITY: u32 = 255;

/// The life cycle of a task.
#[derive(Clone, Copy, PartialEq, Eq, Structural, Debug)]
pub enum TaskStatus {
    /// Not initialised.
    UnInit,
    /// Ready to run.
    Ready,
    /// Running.
    Running,
    /// Exited.
    Exited,
    /// Exited and waiting for its parent to collect its exit code.
    Zombie,
}

/// Stride-scheduling state of a task.
#[derive(Clone, Copy, PartialEq, Eq, Structural, Debug)]
pub struct TaskStride {
    /// Priority; the higher, the more often the task runs.
    pub priority: u32,
    /// Pass: how far the task has advanced.
    pub pass: u32,
}

impl Default for TaskStride {
    /// Priority 16, pass 0.
    fn default() -> (s: Self)
        ensures
            s.priority == 16,
            s.pass == 0,
    {
        TaskStride { priority: 16, pass: 0 }
    }
}

/// Saved kernel-side registers of a task, for switching to it.
#[derive(Clone, Copy, PartialEq, Eq, Structural, Debug)]
pub struct TaskContext {
    /// Where the switch returns to.
    pub ra: usize,
    /// The kernel stack pointer.
    pub sp: usize,
}

impl TaskContext {
    /// A context of zeros.
    pub fn zero_init() -> (c: Self)
        ensures
            c.ra == 0 && c.sp == 0,
    {
        TaskContext { ra: 0, sp: 0 }
    }

    /// A context that starts at `trap_return` on the kernel stack whose top
    /// is `kstack_ptr`.
    pub fn goto_trap_return(trap_return: usize, kstack_ptr: usize) -> (c: Self)
        ensures
            c.ra == trap_return && c.sp == kstack_ptr,
    {
        TaskContext { ra: trap_return, sp: kstack_ptr }
    }
}

/// The registers saved on a trap from user mode.
#[derive(Clone, Copy, Debug)]
pub struct TrapContext {
    /// The general registers x0 .. x31.
    pub x: [usize; 32],
    /// The user program counter to return to.
    pub sepc: usize,
    /// The kernel address space's token.
    pub kernel_satp: usize,
    /// The top of the task's kernel stack.
    pub kernel_sp: usize,
    /// The address of the kernel's trap handler.
    pub trap_handler: usize,
}

impl TrapContext {
    /// The context a program starts from: all registers zero but the stack
    /// pointer (x2), at `entry`.
    pub fn app_init_context(
        entry: usize,
        sp: usize,
        kernel_satp: usize,
        kernel_sp: usize,
        trap_handler: usize,
    ) -> (c: Self)
        ensures
            c.x@ == Seq::new(32, |i: int| if i == 2 { sp } else { 0usize }),
            c.sepc == entry,
            c.kernel_satp == kernel_satp,
            c.kernel_sp == kernel_sp,
            c.trap_handler == trap_handler,
    {
        let mut x = [0usize; 32];
        x[2] = sp;
        assert(x@ =~= Seq::new(32, |i: int| if i == 2 { sp } else { 0usize }));
        TrapContext { x, sepc: entry, kernel_satp, kernel_sp, trap_handler }
    }
}

/// A loaded program: its address space, its initial user stack pointer and
/// its entry point.
pub struct ProgramImage {
    pub memory_set: MemorySet,
    pub user_sp: usize,
    pub entry_point: usize,
}

/// The mutable part of a task control block.
pub struct TaskControlBlockInner {
    /// The trap context.
    pub trap_cx: TrapContext,
    /// Application data lies below this address.
    pub base_size: usize,
    /// The kernel context to switch to.
    pub task_cx: TaskContext,
    /// Where the task is in its life cycle.
    pub task_status: TaskStatus,
    /// The task's address space.
    pub memory_set: MemorySet,
    /// The parent's pid.
    pub parent: Option<usize>,
    /// The children's pids.
    pub children: Vec<usize>,
    /// The exit code, for the parent to collect.
    pub exit_code: i32,
    /// The bottom of the heap.
    pub heap_bottom: usize,
    /// The current end of the heap.
    pub program_brk: usize,
    /// Stride-scheduling state.
    pub stride: TaskStride,
    /// Open files by descriptor.
    pub fd_table: Vec<Option<FileDesc>>,
}

impl TaskControlBlockInner {
    /// The trap context.
    pub fn get_trap_cx(&self) -> (c: &TrapContext)
        ensures
            c == &self.trap_cx,
    {
        &self.trap_cx
    }

    /// The token of the task's address space.
    pub fn get_user_token(&self) -> (t: usize)
        ensures
            t == (((8u64 << 60u64) | (self.memory_set.root_ppn as u64)) as usize),
    {
        self.memory_set.token()
    }

    /// The kernel context to switch to.
    pub fn get_task_cx_ptr(&self) -> (c: &TaskContext)
        ensures
            *c == self.task_cx,
    {
        &self.task_cx
    }

    /// Whether the task is a zombie.
    pub fn is_zombie(&self) -> (b: bool)
        ensures
            b == (self.task_status == TaskStatus::Zombie),
    {
        self.task_status == TaskStatus::Zombie
    }

    /// Sets the priority.
    pub fn set_priority(&mut self, priority: u32)
        ensures
            final(self).stride.priority == priority,
            final(self).stride.pass == old(self).stride.pass,
            final(self).task_status == old(self).task_status,
            final(self).parent == old(self).parent,
            final(self).children == old(self).children,
            final(self).memory_set == old(self).memory_set,
            final(self).heap_bottom == old(self).heap_bottom,
            final(self).program_brk == old(self).program_brk,
            final(self).exit_code == old(self).exit_code,
            final(self).fd_table == old(self).fd_table,
            final(self).base_size == old(self).base_size,
            final(self).task_cx == old(self).task_cx,
            final(self).trap_cx == old(self).trap_cx,
    {
        self.stride.priority = priority;
    }
}

/// A task control block: its pid and kernel stack, which never change, and
/// the rest.
pub struct TaskControlBlock {
    pub pid: PidHandle,
    pub kernel_stack: KernelStack,
    pub inner: TaskControlBlockInner,
}

/// The descriptor table a new program starts with: standard input (file 0)
/// and standard output (file 1) twice, as output and error.
pub open spec fn standard_fds() -> Seq<Option<FileDesc>> {
    seq![Some(FileDesc { file_id: 0 }), Some(FileDesc { file_id: 1 }), Some(FileDesc { file_id: 1 })]
}

fn new_fd_table() -> (t: Vec<Option<FileDesc>>)
    ensures
        t@ == standard_fds(),
{
    let mut t: Vec<Option<FileDesc>> = Vec::new();
    t.push(Some(FileDesc { file_id: 0 }));
    t.push(Some(FileDesc { file_id: 1 }));
    t.push(Some(FileDesc { file_id: 1 }));
    assert(t@ =~= standard_fds());
    t
}

/// A copy of a descriptor table.
fn copy_fds(t: &Vec<Option<FileDesc>>) -> (c: Vec<Option<FileDesc>>)
    ensures
        c@ == t@,
{
    let mut c: Vec<Option<FileDesc>> = Vec::new();
    let mut i: usize = 0;
    while i < t.len()
        invariant
            i <= t.len(),
            c@ == t@.take(i as int),
        decreases t.len() - i,
    {
        c.push(t[i]);
        i = i + 1;
        assert(c@ =~= t@.take(i as int));
    }
    assert(t@.take(t.len() as int) =~= t@);
    c
}

/// The kernel-stack pages of slot `id` are unmapped in `space`.
pub open spec fn kstack_slot_free(space: MemorySet, id: usize) -> bool {
    range_free(
        space@,
        crate::mm::floor_vpn(va(kstack_bounds(id).0)),
        ceil_vpn(va(kstack_bounds(id).1)),
    )
}

/// A pid and a kernel stack slot can be handed out, and the slot fits the
/// stack area and is unmapped in `kernel_space`.
pub open spec fn can_allocate(
    pid_allocator: RecycleAllocator,
    kstack_allocator: RecycleAllocator,
    kernel_space: MemorySet,
) -> bool {
    &&& pid_allocator.wf()
    &&& kstack_allocator.wf()
    &&& pid_allocator.recycled@.len() == 0 ==> pid_allocator.current < usize::MAX
    &&& kstack_allocator.recycled@.len() == 0 ==> kstack_allocator.current < usize::MAX
    &&& kstack_fits(kstack_allocator.next_id())
    &&& kstack_slot_free(kernel_space, kstack_allocator.next_id())
}

/// `t` got the next pid and kernel stack slot from the allocators, whose
/// stack pages were mapped in kernel space.
pub open spec fn allocated(
    t: TaskControlBlock,
    pa: RecycleAllocator,
    pb: RecycleAllocator,
    ka: RecycleAllocator,
    kb: RecycleAllocator,
    sa: MemorySet,
    sb: MemorySet,
) -> bool {
    &&& pb.wf()
    &&& kb.wf()
    &&& alloc_step(pa, pb, t.pid.0)
    &&& alloc_step(ka, kb, t.kernel_stack.0)
    &&& kstack_fits(t.kernel_stack.0)
    &&& sb.root_ppn == sa.root_ppn
    &&& sb@ == map_range(
        sa@,
        crate::mm::floor_vpn(va(kstack_bounds(t.kernel_stack.0).0)),
        ceil_vpn(va(kstack_bounds(t.kernel_stack.0).1)),
        (crate::mm::MAP_R | MAP_W) as u8,
    )
}

/// The heap end after moving it by `size` from `brk`.
pub open spec fn moved_brk(brk: usize, size: i32) -> int {
    brk + size
}

impl TaskControlBlock {
    /// A new task ready to run `image` from its entry point on a new kernel
    /// stack, with a new pid, no parent or children, the standard
    /// descriptor table and the default stride.
    pub fn new(
        image: ProgramImage,
        pid_allocator: &mut RecycleAllocator,
        kstack_allocator: &mut RecycleAllocator,
        kernel_space: &mut MemorySet,
        trap_return: usize,
        trap_handler: usize,
    ) -> (t: Self)
        requires
            can_allocate(*old(pid_allocator), *old(kstack_allocator), *old(kernel_space)),
        ensures
            allocated(
                t,
                *old(pid_allocator),
                *final(pid_allocator),
                *old(kstack_allocator),
                *final(kstack_allocator),
                *old(kernel_space),
                *final(kernel_space),
            ),
            ({
                let ci = t.inner;
                let top = kstack_bounds(t.kernel_stack.0).1;
                &&& ci.memory_set == image.memory_set
                &&& ci.trap_cx.x@ == Seq::new(32, |i: int| if i == 2 { image.user_sp } else { 0usize })
                &&& ci.trap_cx.sepc == image.entry_point
                &&& ci.trap_cx.kernel_satp == (((8u64 << 60u64) | (old(kernel_space).root_ppn as u64)) as usize)
                &&& ci.trap_cx.trap_handler == trap_handler
                &&& ci.trap_cx.kernel_sp == top
                &&& ci.task_cx == (TaskContext { ra: trap_return, sp: top })
                &&& ci.task_status == TaskStatus::Ready
                &&& ci.parent is None
                &&& ci.children@.len() == 0
                &&& ci.base_size == image.user_sp
                &&& ci.heap_bottom == image.user_sp
                &&& ci.program_brk == image.user_sp
                &&& ci.stride == (TaskStride { priority: 16, pass: 0 })
                &&& ci.exit_code == 0
                &&& ci.fd_table@ == standard_fds()
            }),
    {
        let pid = pid_alloc(pid_allocator);
        let kernel_stack = kstack_alloc(kstack_allocator, kernel_space);
        let kstack_top = kernel_stack.get_top();
        let token = kernel_space.token();
        let user_sp = image.user_sp;
        let trap_cx = TrapContext::app_init_context(image.entry_point, user_sp, token, kstack_top, trap_handler);
        let inner = TaskControlBlockInner {
            trap_cx,
            base_size: user_sp,
            task_cx: TaskContext::goto_trap_return(trap_return, kstack_top),
            task_status: TaskStatus::Ready,
            memory_set: image.memory_set,
            parent: None,
            children: Vec::new(),
            exit_code: 0,
            heap_bottom: user_sp,
            program_brk: user_sp,
            stride: TaskStride::default(),
            fd_table: new_fd_table(),
        };
        TaskControlBlock { pid, kernel_stack, inner }
    }

    /// Forks the task: the child has its own copy of its address space
    /// (the same pages, permissions and bytes; its page table rooted at
    /// `root_ppn`), of its trap context (but for
    /// the kernel stack top), heap, stride and open files, runs on a new
    /// kernel stack with a new pid, and becomes the task's last child.
    pub fn fork(
        &mut self,
        root_ppn: usize,
        pid_allocator: &mut RecycleAllocator,
        kstack_allocator: &mut RecycleAllocator,
        kernel_space: &mut MemorySet,
        trap_return: usize,
    ) -> (child: Self)
        requires
            can_allocate(*old(pid_allocator), *old(kstack_allocator), *old(kernel_space)),
        ensures
            allocated(
                child,
                *old(pid_allocator),
                *final(pid_allocator),
                *old(kstack_allocator),
                *final(kstack_allocator),
                *old(kernel_space),
                *final(kernel_space),
            ),
            final(self).pid == old(self).pid,
            final(self).kernel_stack == old(self).kernel_stack,
            final(self).inner == (TaskControlBlockInner { children: final(self).inner.children, ..old(self).inner }),
            final(self).inner.children@ == old(self).inner.children@.push(child.pid.0),
            ({
                let pi = old(self).inner;
                let ci = child.inner;
                let top = kstack_bounds(child.kernel_stack.0).1;
                &&& ci.memory_set@ == pi.memory_set@
                &&& ci.memory_set.root_ppn == root_ppn
                &&& ci.trap_cx.x@ == pi.trap_cx.x@
                &&& ci.trap_cx.sepc == pi.trap_cx.sepc
                &&& ci.trap_cx.kernel_satp == pi.trap_cx.kernel_satp
                &&& ci.trap_cx.trap_handler == pi.trap_cx.trap_handler
                &&& ci.trap_cx.kernel_sp == top
                &&& ci.task_cx == (TaskContext { ra: trap_return, sp: top })
                &&& ci.task_status == TaskStatus::Ready
                &&& ci.parent == Some(old(self).pid.0)
                &&& ci.children@.len() == 0
                &&& ci.base_size == pi.base_size
                &&& ci.heap_bottom == pi.heap_bottom
                &&& ci.program_brk == pi.program_brk
                &&& ci.stride == pi.stride
                &&& ci.exit_code == 0
                &&& ci.fd_table@ == pi.fd_table@
            }),
    {
        let memory_set = MemorySet::from_existed_user(&self.inner.memory_set, root_ppn);
        let pid = pid_alloc(pid_allocator);
        let kernel_stack = kstack_alloc(kstack_allocator, kernel_space);
        let kstack_top = kernel_stack.get_top();
        let mut trap_cx = self.inner.trap_cx;
        trap_cx.kernel_sp = kstack_top;
        let inner = TaskControlBlockInner {
            trap_cx,
            base_size: self.inner.base_size,
            task_cx: TaskContext::goto_trap_return(trap_return, kstack_top),
            task_status: TaskStatus::Ready,
            memory_set,
            parent: Some(self.pid.0),
            children: Vec::new(),
            exit_code: 0,
            heap_bottom: self.inner.heap_bottom,
            program_brk: self.inner.program_brk,
            stride: self.inner.stride,
            fd_table: copy_fds(&self.inner.fd_table),
        };
        let child_pid = pid.0;
        self.inner.children.push(child_pid);
        TaskControlBlock { pid, kernel_stack, inner }
    }

    /// Spawns `image` as a new child of the task (a fresh task as `new`
    /// makes it, whose parent is the task, and which is its last child).
    pub fn spawn(
        &mut self,
        image: ProgramImage,
        pid_allocator: &mut RecycleAllocator,
        kstack_allocator: &mut RecycleAllocator,
        kernel_space: &mut MemorySet,
        trap_return: usize,
        trap_handler: usize,
    ) -> (child: Self)
        requires
            can_allocate(*old(pid_allocator), *old(kstack_allocator), *old(kernel_space)),
        ensures
            allocated(
                child,
                *old(pid_allocator),
                *final(pid_allocator),
                *old(kstack_allocator),
                *final(kstack_allocator),
                *old(kernel_space),
                *final(kernel_space),
            ),
            final(self).pid == old(self).pid,
            final(self).kernel_stack == old(self).kernel_stack,
            final(self).inner == (TaskControlBlockInner { children: final(self).inner.children, ..old(self).inner }),
            final(self).inner.children@ == old(self).inner.children@.push(child.pid.0),
            ({
                let ci = child.inner;
                let top = kstack_bounds(child.kernel_stack.0).1;
                &&& ci.memory_set == image.memory_set
                &&& ci.trap_cx.x@ == Seq::new(32, |i: int| if i == 2 { image.user_sp } else { 0usize })
                &&& ci.trap_cx.sepc == image.entry_point
                &&& ci.trap_cx.kernel_satp == (((8u64 << 60u64) | (old(kernel_space).root_ppn as u64)) as usize)
                &&& ci.trap_cx.trap_handler == trap_handler
                &&& ci.trap_cx.kernel_sp == top
                &&& ci.task_cx == (TaskContext { ra: trap_return, sp: top })
                &&& ci.task_status == TaskStatus::Ready
                &&& ci.parent == Some(old(self).pid.0)
                &&& ci.children@.len() == 0
                &&& ci.base_size == image.user_sp
                &&& ci.heap_bottom == image.user_sp
                &&& ci.program_brk == image.user_sp
                &&& ci.stride == (TaskStride { priority: 16, pass: 0 })
                &&& ci.exit_code == 0
                &&& ci.fd_table@ == standard_fds()
            }),
    {
        let mut new_task = TaskControlBlock::new(
            image,
            pid_allocator,
            kstack_allocator,
            kernel_space,
            trap_return,
            trap_handler,
        );
        new_task.inner.parent = Some(self.pid.0);
        self.inner.children.push(new_task.pid.0);
        new_task
    }

    /// The mutable part.
    pub fn inner_exclusive_access(&mut self) -> (i: &mut TaskControlBlockInner)
        ensures
            *i == old(self).inner,
            final(self).inner == *final(i),
            final(self).pid == old(self).pid,
            final(self).kernel_stack == old(self).kernel_stack,
    {
        &mut self.inner
    }

    /// The pid.
    pub fn get_pid(&self) -> (pid: usize)
        ensures
            pid == self.pid.0,
    {
        self.pid.0
    }

    /// Replaces the program: installs `image`'s address space and starts it
    /// from its entry point with its stack pointer, on the parent's kernel
    /// stack.
    pub fn exec(&mut self, image: ProgramImage, kernel_token: usize, trap_handler: usize)
        requires
            kstack_fits(old(self).kernel_stack.0),
        ensures
            final(self).pid == old(self).pid,
            final(self).kernel_stack == old(self).kernel_stack,
            final(self).inner.memory_set == image.memory_set,
            final(self).inner.base_size == image.user_sp,
            final(self).inner.trap_cx.x@ == Seq::new(32, |i: int| if i == 2 { image.user_sp } else { 0usize }),
            final(self).inner.trap_cx.sepc == image.entry_point,
            final(self).inner.trap_cx.kernel_satp == kernel_token,
            final(self).inner.trap_cx.kernel_sp == kstack_bounds(old(self).kernel_stack.0).1,
            final(self).inner.trap_cx.trap_handler == trap_handler,
            final(self).inner.task_cx == old(self).inner.task_cx,
            final(self).inner.task_status == old(self).inner.task_status,
            final(self).inner.parent == old(self).inner.parent,
            final(self).inner.children == old(self).inner.children,
            final(self).inner.exit_code == old(self).inner.exit_code,
            final(self).inner.heap_bottom == old(self).inner.heap_bottom,
            final(self).inner.program_brk == old(self).inner.program_brk,
            final(self).inner.stride == old(self).inner.stride,
            final(self).inner.fd_table == old(self).inner.fd_table,
    {
        let kstack_top = self.kernel_stack.get_top();
        self.inner.memory_set = image.memory_set;
        self.inner.base_size = image.user_sp;
        self.inner.trap_cx = TrapContext::app_init_context(
            image.entry_point,
            image.user_sp,
            kernel_token,
            kstack_top,
            trap_handler,
        );
    }

    /// Moves the end of the heap by `size` bytes.  Fails, returning `None`
    /// and changing nothing, when the new end would fall below the heap's
    /// bottom or the address space cannot be shrunk or grown accordingly;
    /// otherwise returns the old end.
    pub fn change_program_brk(&mut self, size: i32) -> (r: Option<usize>)
        requires
            old(self).inner.program_brk + size <= isize::MAX,
            old(self).inner.program_brk <= isize::MAX,
            old(self).inner.heap_bottom <= isize::MAX,
        ensures
            final(self).pid == old(self).pid,
            final(self).kernel_stack == old(self).kernel_stack,
            ({
                let old_brk = old(self).inner.program_brk;
                let new_brk = moved_brk(old_brk, size);
                let ms = old(self).inner.memory_set@;
                let ok = new_brk >= old(self).inner.heap_bottom && (if size < 0 {
                    range_mapped(ms, ceil_vpn(va(new_brk as usize)), ceil_vpn(va(old_brk)))
                } else {
                    range_free(ms, ceil_vpn(va(old_brk)), ceil_vpn(va(new_brk as usize)))
                });
                &&& ok ==> r == Some(old_brk) && final(self).inner.program_brk == new_brk
                    && final(self).inner.memory_set@ == (if size < 0 {
                    unmap_range(ms, ceil_vpn(va(new_brk as usize)), ceil_vpn(va(old_brk)))
                } else {
                    map_range(ms, ceil_vpn(va(old_brk)), ceil_vpn(va(new_brk as usize)), (MAP_R | MAP_W | MAP_U) as u8)
                })
                &&& !ok ==> r is None && final(self).inner.program_brk == old_brk && final(self).inner.memory_set@ == ms
            }),
            final(self).inner.memory_set.root_ppn == old(self).inner.memory_set.root_ppn,
            final(self).inner.trap_cx == old(self).inner.trap_cx,
            final(self).inner.task_cx == old(self).inner.task_cx,
            final(self).inner.task_status == old(self).inner.task_status,
            final(self).inner.parent == old(self).inner.parent,
            final(self).inner.children == old(self).inner.children,
            final(self).inner.exit_code == old(self).inner.exit_code,
            final(self).inner.heap_bottom == old(self).inner.heap_bottom,
            final(self).inner.stride == old(self).inner.stride,
            final(self).inner.fd_table == old(self).inner.fd_table,
            final(self).inner.base_size == old(self).inner.base_size,
    {
        let heap_bottom = self.inner.heap_bottom;
        let old_brk = self.inner.program_brk;
        let new_brk = self.inner.program_brk as isize + size as isize;
        if new_brk < heap_bottom as isize {
            return None;
        }

        let result = if size < 0 {
            self.inner.memory_set.shrink_to(new_brk as usize, old_brk)
        } else {
            self.inner.memory_set.append_to(old_brk, new_brk as usize)
        };
        if result {
            self.inner.program_brk = new_brk as usize;
            Some(old_brk)
        } else {
            None
        }
    }
}

} // verus!
