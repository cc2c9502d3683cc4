# rcore_os

The process, scheduling and synchronisation core of a small teaching
kernel (RISC-V, Sv39), written in Verus and proved against its contracts.

## Layout

- `src/` — the verified library.
  - `config` — memory-layout constants.
  - `mm` — page-granular address spaces (`MemorySet`: each mapped page
    with its permission bits and bytes), mapping zeroed pages and
    unmapping ranges, growing and shrinking the heap.
  - `task` — the task table (`Kernel`), its invariant (pids, kernel
    stacks, the ready queue and the parent/child tree), the stride
    scheduler (`manager`), pid and kernel-stack allocators (`pid`), the
    processor, system-call records and the per-process synchronisation
    state (`process`).
  - `sync` — blocking and spinning mutexes, semaphores, condition
    variables.
  - `syscall` — the system calls on these structures, and the banker's
    algorithm that refuses a lock or semaphore request that would leave
    no safe order (`deadlock`).
  - `fs` — the file interface and descriptor-table entries.
- `tests/` — tests on concrete values, run against the compiled library.
- `app/` — the code around the library: the global state, the system-call
  entry points that read and write user buffers, the console, and the
  loops that switch contexts and block threads.  What the machine does is
  asked of the `Platform`, `ThreadControl` and `Directory` traits.

A system call that must wait does not switch threads itself: it reports
`Block` or `Yield`, and the caller completes it with the continuation its
documentation names once the thread runs again.

## Checking

Run Verus on `src/lib.rs`; the tests build against the library with
`lazy_static` available for `app/`.
