//! Process ids and kernel stacks, handed out by recycling allocators.
use vstd::prelude::*;
use crate::config::{KERNEL_STACK_SIZE, PAGE_SIZE, TRAMPOLINE};
use crate::mm::{ceil_vpn, floor_vpn, map_range, range_free, va, MapPermission, MemorySet, MAP_R, MAP_W};

verus! {

/// Hands out ids from 0 upwards, reusing given-back ids first, the most
/// recently given back first.
pub struct RecycleAllocator {
    pub current: usize,
    pub recycled: Vec<usize>,
}

impl RecycleAllocator {
    /// Every given-back id was handed out before, and is given back once.
    pub open spec fn wf(&self) -> bool {
        &&& forall|i: int| 0 <= i < self.recycled@.len() ==> #[trigger] self.recycled@[i] < self.current
        &&& self.recycled@.no_duplicates()
    }

    /// Id `id` is handed out and not given back.
    pub open spec fn in_use(&self, id: usize) -> bool {
        id < self.current && !self.recycled@.contains(id)
    }

    /// The id the next allocation hands out.
    pub open spec fn next_id(&self) -> usize {
        if self.recycled@.len() > 0 {
            self.recycled@.last()
        } else {
            self.current
        }
    }

    /// An allocator that has handed out nothing.
    pub fn new() -> (a: Self)
        ensures
            a.wf(),
            a.current == 0,
            a.recycled@ == Seq::<usize>::empty(),
    {
        RecycleAllocator { current: 0, recycled: Vec::new() }
    }

    /// Hands out an id: the most recently given back one, or else the next
    /// fresh one.
    pub fn allocate(&mut self) -> (id: usize)
        requires
            old(self).wf(),
            old(self).recycled@.len() == 0 ==> old(self).current < usize::MAX,
        ensures
            final(self).wf(),
            alloc_step(*old(self), *final(self), id),
    {
        match self.recycled.pop() {
            Some(pid) => {
                proof {
                    assert forall|i: int, j: int|
                        0 <= i < self.recycled@.len() && 0 <= j < self.recycled@.len() && i != j implies self.recycled@[i]
                        != self.recycled@[j] by {
                        assert(self.recycled@[i] == old(self).recycled@[i]);
                        assert(self.recycled@[j] == old(self).recycled@[j]);
                    }
                }
                pid
            },
            None => {
                self.current = self.current + 1;
                self.current - 1
            },
        }
    }

    /// Takes back id `pid`, which must be handed out and not yet given back.
    pub fn dealloc(&mut self, pid: usize)
        requires
            old(self).wf(),
            pid < old(self).current,
            !old(self).recycled@.contains(pid),
        ensures
            final(self).wf(),
            dealloc_step(*old(self), *final(self), pid),
    {
        self.recycled.push(pid);
        proof {
            assert forall|i: int, j: int|
                0 <= i < self.recycled@.len() && 0 <= j < self.recycled@.len() && i != j implies self.recycled@[i]
                != self.recycled@[j] by {
                if i < old(self).recycled@.len() {
                    assert(self.recycled@[i] == old(self).recycled@[i]);
                }
                if j < old(self).recycled@.len() {
                    assert(self.recycled@[j] == old(self).recycled@[j]);
                }
            }
        }
    }
}

/// `b` is `a` after handing out `id`.
pub open spec fn alloc_step(a: RecycleAllocator, b: RecycleAllocator, id: usize) -> bool {
    &&& id == a.next_id()
    &&& a.recycled@.len() > 0 ==> b.current == a.current && b.recycled@ == a.recycled@.drop_last()
    &&& a.recycled@.len() == 0 ==> b.current == a.current + 1 && b.recycled@ == a.recycled@
}

/// `b` is `a` after taking back `pid`.
pub open spec fn dealloc_step(a: RecycleAllocator, b: RecycleAllocator, pid: usize) -> bool {
    &&& b.current == a.current
    &&& b.recycled@ == a.recycled@.push(pid)
}

/// An id handed out is never one already in use, and afterwards it is in
/// use, while every other id keeps its state.
pub proof fn law_alloc_is_fresh(a: RecycleAllocator, b: RecycleAllocator, id: usize)
    requires
        a.wf(),
        alloc_step(a, b, id),
    ensures
        !a.in_use(id),
        b.in_use(id),
        forall|x: usize| x != id ==> (b.in_use(x) <==> a.in_use(x)),
{
    if a.recycled@.len() > 0 {
        let n = a.recycled@.len() - 1;
        assert(a.recycled@[n] == id);
        assert(!b.recycled@.contains(id)) by {
            if b.recycled@.contains(id) {
                let k = choose|k: int| 0 <= k < b.recycled@.len() && b.recycled@[k] == id;
                assert(a.recycled@[k] == id);
            }
        }
        assert forall|x: usize| x != id implies (b.in_use(x) <==> a.in_use(x)) by {
            if a.recycled@.contains(x) {
                let k = choose|k: int| 0 <= k < a.recycled@.len() && a.recycled@[k] == x;
                assert(k != n);
                assert(b.recycled@[k] == x);
            }
            if b.recycled@.contains(x) {
                let k = choose|k: int| 0 <= k < b.recycled@.len() && b.recycled@[k] == x;
                assert(a.recycled@[k] == x);
            }
        }
    } else {
        assert forall|x: usize| x != id implies (b.in_use(x) <==> a.in_use(x)) by {
            assert(b.recycled@ == a.recycled@);
        }
    }
}

/// Giving an id back and then allocating hands the same id out again, and
/// leaves the allocator as it was.
pub proof fn law_dealloc_then_alloc(
    a: RecycleAllocator,
    b: RecycleAllocator,
    c: RecycleAllocator,
    pid: usize,
    id: usize,
)
    requires
        dealloc_step(a, b, pid),
        alloc_step(b, c, id),
    ensures
        id == pid,
        c.current == a.current,
        c.recycled@ == a.recycled@,
{
    assert(b.recycled@.drop_last() =~= a.recycled@);
}

/// A process id; the process's own id for as long as the process exists.
pub struct PidHandle(pub usize);

/// A kernel stack, named by its slot in the kernel's stack area.
pub struct KernelStack(pub usize);

/// The highest kernel stack slot the layout has room for, with the guard
/// page above each stack.
pub open spec fn kstack_fits(id: usize) -> bool {
    id * (KERNEL_STACK_SIZE + PAGE_SIZE) + KERNEL_STACK_SIZE <= TRAMPOLINE
}

/// Bottom and top of kernel stack slot `id`: slots go down from the
/// trampoline, each a stack plus a guard page.
pub open spec fn kstack_bounds(id: usize) -> (usize, usize) {
    let top = TRAMPOLINE - id * (KERNEL_STACK_SIZE + PAGE_SIZE);
    ((top - KERNEL_STACK_SIZE) as usize, top as usize)
}

/// Returns (bottom, top) of a kernel stack in kernel space.
pub fn kernel_stack_position(app_id: usize) -> (r: (usize, usize))
    requires
        kstack_fits(app_id),
    ensures
        r == kstack_bounds(app_id),
{
    let top = TRAMPOLINE - app_id * (KERNEL_STACK_SIZE + PAGE_SIZE);
    let bottom = top - KERNEL_STACK_SIZE;
    (bottom, top)
}

impl KernelStack {
    /// The top of this kernel stack.
    pub fn get_top(&self) -> (top: usize)
        requires
            kstack_fits(self.0),
        ensures
            top == kstack_bounds(self.0).1,
    {
        let (_, kstack_top) = kernel_stack_position(self.0);
        kstack_top
    }
}

/// Allocates a new process id.
pub fn pid_alloc(pid_allocator: &mut RecycleAllocator) -> (h: PidHandle)
    requires
        old(pid_allocator).wf(),
        old(pid_allocator).recycled@.len() == 0 ==> old(pid_allocator).current < usize::MAX,
    ensures
        final(pid_allocator).wf(),
        alloc_step(*old(pid_allocator), *final(pid_allocator), h.0),
{
    PidHandle(pid_allocator.allocate())
}

/// Allocates a new kernel stack: takes a stack slot and maps the slot's
/// pages, readable and writable, in kernel space.
pub fn kstack_alloc(kstack_allocator: &mut RecycleAllocator, kernel_space: &mut MemorySet) -> (ks: KernelStack)
    requires
        old(kstack_allocator).wf(),
        old(kstack_allocator).recycled@.len() == 0 ==> old(kstack_allocator).current < usize::MAX,
        kstack_fits(old(kstack_allocator).next_id()),
        range_free(
            old(kernel_space)@,
            floor_vpn(va(kstack_bounds(old(kstack_allocator).next_id()).0)),
            ceil_vpn(va(kstack_bounds(old(kstack_allocator).next_id()).1)),
        ),
    ensures
        final(kstack_allocator).wf(),
        alloc_step(*old(kstack_allocator), *final(kstack_allocator), ks.0),
        kstack_fits(ks.0),
        final(kernel_space).root_ppn == old(kernel_space).root_ppn,
        final(kernel_space)@ == map_range(
            old(kernel_space)@,
            floor_vpn(va(kstack_bounds(ks.0).0)),
            ceil_vpn(va(kstack_bounds(ks.0).1)),
            (MAP_R | MAP_W) as u8,
        ),
{
    let kstack_id = kstack_allocator.allocate();
    let (kstack_bottom, kstack_top) = kernel_stack_position(kstack_id);
    kernel_space.insert_framed_area(kstack_bottom, kstack_top, MapPermission { bits: MAP_R | MAP_W });
    KernelStack(kstack_id)
}

} // verus!
