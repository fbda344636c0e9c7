# kernel

A small teaching kernel's core, written in Verus: the functions in `src/`
carry `requires`/`ensures` contracts that Verus proves, except one trusted
wrapper (`start_address` in `mm/kstk.rs`), which reads where the allocator
put a kernel stack and claims nothing about it.

Layout of `src/`:

- `config`, `errno` - constants and error numbers.
- `util` - alignment, bit tricks, Knuth-Morris-Pratt byte search.
- `mm` - user-pointer checks, the frame pool and its zones, kernel heap,
  reference-counted frames, copy-on-write pages, slab allocator, kernel
  stacks.
- `sync` - spinlock bit, re-entrant kernel lock, nesting guard and the
  condition-variable queue (threads are named by ids; parking them is the
  caller's part).
- `trap` - saved register contexts and the trap controller.
- `fs/audit` - the file-system audit log.
- `cap`, `rlimit`, `signal`, `sched` - capabilities, resource limits,
  signal sets, run queue and CPU placement.
- `files`, `task`, `task_table`, `pgroup`, `procinit` - descriptor tables,
  tasks, the task table, process groups and initial user stacks.
- `addrspace` - regions and copy-on-write pages of an address space.
- `kernel` - the kernel aggregate, process operations, system-call
  handlers and dispatcher, and the wait queue of sleeping threads.

`app/` holds what runs on host threads (parking, unparking, spawning);
`tests/` exercises the library from outside.
