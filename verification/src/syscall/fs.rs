//! File system calls, on the running task's descriptor table.
//!
//! The file operations themselves (reading, writing, looking a path up,
//! linking) happen around these calls: `sys_read`, `sys_write` and
//! `sys_fstat` name the open file to use, and `sys_open`, `sys_linkat` and
//! `sys_unlinkat` take what the lookup found.
use vstd::prelude::*;
use crate::fs::FileDesc;
use crate::syscall::sync::is_first_free;
use crate::task::{lemma_only_task_changed, only_task_changed, Kernel};
use crate::task::task::{TaskControlBlock, TaskControlBlockInner};

verus! {

/// The running task's descriptor table.
pub open spec fn fds(k: Kernel) -> Seq<Option<FileDesc>> {
    k.inner(k.cur()).fd_table@
}

/// The open file behind descriptor `fd` of the running task, if any.
pub open spec fn open_file_at(k: Kernel, fd: usize) -> Option<FileDesc> {
    if fd < fds(k).len() {
        fds(k)[fd as int]
    } else {
        None
    }
}

/// The open file behind descriptor `fd` of the running task.
fn file_at(k: &Kernel, fd: usize) -> (f: Option<FileDesc>)
    requires
        k.wf(),
        k.has_current(),
    ensures
        f == open_file_at(*k, fd),
{
    let cur = k.processor.current().unwrap();
    match &k.tasks[cur] {
        Some(t) => {
            if fd >= t.inner.fd_table.len() {
                None
            } else {
                t.inner.fd_table[fd]
            }
        },
        None => None,
    }
}

/// The file to write `len` bytes of a user buffer to through descriptor
/// `fd`: `None`, which the call answers with -1, when `fd` names no open
/// file.
pub fn sys_write(k: &Kernel, fd: usize) -> (f: Option<FileDesc>)
    requires
        k.wf(),
        k.has_current(),
    ensures
        f == open_file_at(*k, fd),
{
    file_at(k, fd)
}

/// The file to read into a user buffer through descriptor `fd`: `None`,
/// which the call answers with -1, when `fd` names no open file.
pub fn sys_read(k: &Kernel, fd: usize) -> (f: Option<FileDesc>)
    requires
        k.wf(),
        k.has_current(),
    ensures
        f == open_file_at(*k, fd),
{
    file_at(k, fd)
}

/// The file whose status descriptor `fd` asks for: `None`, which the call
/// answers with -1, when `fd` names no open file.
pub fn sys_fstat(k: &Kernel, fd: usize) -> (f: Option<FileDesc>)
    requires
        k.wf(),
        k.has_current(),
    ensures
        f == open_file_at(*k, fd),
{
    file_at(k, fd)
}

/// `b`'s running task is `a`'s with only its descriptor table changed.
pub open spec fn only_fds_changed(a: Kernel, b: Kernel) -> bool {
    &&& only_task_changed(a, b, a.cur())
    &&& b.tcb(a.cur()) == TaskControlBlock {
        pid: a.tcb(a.cur()).pid,
        kernel_stack: a.tcb(a.cur()).kernel_stack,
        inner: TaskControlBlockInner { fd_table: b.inner(a.cur()).fd_table, ..a.inner(a.cur()) },
    }
}

/// The lowest free descriptor of `fd_table`, appending a free one when none
/// is free.
pub fn alloc_fd(fd_table: &mut Vec<Option<FileDesc>>) -> (fd: usize)
    ensures
        is_first_free(old(fd_table)@, fd as int),
        fd < old(fd_table)@.len() ==> final(fd_table)@ == old(fd_table)@,
        fd == old(fd_table)@.len() ==> final(fd_table)@ == old(fd_table)@.push(None),
{
    let mut i: usize = 0;
    while i < fd_table.len()
        invariant
            i <= fd_table.len(),
            fd_table@ == old(fd_table)@,
            forall|q: int| 0 <= q < i ==> #[trigger] fd_table@[q] is Some,
        decreases fd_table.len() - i,
    {
        if fd_table[i].is_none() {
            return i;
        }
        i = i + 1;
    }
    fd_table.push(None);
    i
}

/// Opens `inode`, the file the path named, when it was found: it takes
/// the lowest free descriptor of the running task, which is returned.
/// Returns -1 and changes nothing when nothing was found.
pub fn sys_open(k: &mut Kernel, inode: Option<FileDesc>) -> (r: isize)
    requires
        old(k).wf(),
        old(k).has_current(),
        fds(*old(k)).len() < isize::MAX,
    ensures
        final(k).wf(),
        inode is None ==> r == -1 && final(k).tasks@ == old(k).tasks@,
        inode is Some ==> {
            &&& is_first_free(fds(*old(k)), r as int)
            &&& only_fds_changed(*old(k), *final(k))
            &&& r < fds(*old(k)).len() ==> fds(*final(k)) == fds(*old(k)).update(r as int, inode)
            &&& r == fds(*old(k)).len() ==> fds(*final(k)) == fds(*old(k)).push(inode)
        },
        final(k).manager == old(k).manager,
        final(k).processor == old(k).processor,
{
    match inode {
        Some(inode) => {
            let cur = k.processor.current().unwrap();
            let ghost a = *k;
            proof {
                assert(a.live(cur as int));
            }
            let fd = match &mut k.tasks[cur] {
                Some(t) => {
                    let fd = alloc_fd(&mut t.inner.fd_table);
                    t.inner.fd_table.set(fd, Some(inode));
                    fd
                },
                None => 0,
            };
            proof {
                assert(only_task_changed(a, *k, cur as int));
                lemma_only_task_changed(a, *k, cur as int);
                if fd == fds(a).len() {
                    assert(fds(*k) =~= fds(a).push(Some(inode)));
                }
            }
            fd as isize
        },
        None => -1,
    }
}

/// Closes descriptor `fd` of the running task, returning 0; returns -1 and
/// changes nothing when `fd` names no open file.
pub fn sys_close(k: &mut Kernel, fd: usize) -> (r: isize)
    requires
        old(k).wf(),
        old(k).has_current(),
    ensures
        final(k).wf(),
        open_file_at(*old(k), fd) is None ==> r == -1 && final(k).tasks@ == old(k).tasks@,
        open_file_at(*old(k), fd) is Some ==> r == 0 && only_fds_changed(*old(k), *final(k)) && fds(*final(k))
            == fds(*old(k)).update(fd as int, None),
        final(k).manager == old(k).manager,
        final(k).processor == old(k).processor,
{
    if file_at(k, fd).is_none() {
        return -1;
    }
    let cur = k.processor.current().unwrap();
    let ghost a = *k;
    proof {
        assert(a.live(cur as int));
    }
    match &mut k.tasks[cur] {
        Some(t) => {
            t.inner.fd_table.set(fd, None);
        },
        None => {},
    }
    proof {
        assert(only_task_changed(a, *k, cur as int));
        lemma_only_task_changed(a, *k, cur as int);
    }
    0
}

/// Whether to link `new_name` to the file `old_name` names, found as
/// `old_inode`: refused with -1 when the names are equal or the old name
/// names nothing; otherwise 0, and the link is made.
pub fn sys_linkat(old_name: &String, new_name: &String, old_inode: Option<u32>) -> (r: isize)
    ensures
        old_name@ == new_name@ ==> r == -1,
        old_name@ != new_name@ && old_inode is None ==> r == -1,
        old_name@ != new_name@ && old_inode is Some ==> r == 0,
{
    if *old_name == *new_name {
        return -1;
    }
    if old_inode.is_none() {
        return -1;
    }
    0
}

/// Whether to unlink the file `name` names, found as `inode`: refused with
/// -1 when the name names nothing; otherwise 0, and the link is removed.
pub fn sys_unlinkat(inode: Option<u32>) -> (r: isize)
    ensures
        inode is None ==> r == -1,
        inode is Some ==> r == 0,
{
    if inode.is_none() {
        return -1;
    }
    0
}

} // verus!
