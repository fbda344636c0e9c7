use vstd::prelude::*;

verus! {

/// Size of one page of memory, in bytes.
pub const PAGE_SZ: usize = 4096;
/// First address of kernel space; user ranges must end at or below it.
pub const KERN_BASE: usize = 0xC000_0000;
/// Physical address of frame 0 of the frame pool.
pub const MEM_OFF: usize = 0x8000_0000;
/// Kernel virtual address of physical page 0 in the direct map.
pub const PHYS_OFF: usize = 0xC000_0000;
/// Size of the kernel heap, in bytes.
pub const KHEAP_SZ: usize = 0x80_0000;
/// Size of one kernel stack, in bytes.
pub const KSTK_SZ: usize = 0x4000;
/// Lowest address of the user stack.
pub const USR_STK_OFF: usize = 0x7FF0_0000;
/// Size of the user stack, in bytes.
pub const USR_STK_SZ: usize = 0x10_0000;
/// Object alignment of the slab allocator.
pub const SLAB_ALIGN: usize = 8;
/// Number of general-purpose registers in a saved context.
pub const N_REGS: usize = 32;
/// Number of CPUs.
pub const MAX_CPU: usize = 8;
/// Number of hash chains of the block cache.
pub const N_CHAINS: usize = 64;
/// Bound used for descriptor numbers and descriptor counts.
pub const N_PROC: usize = 64;
/// Number of frames the memory-pressure check of fork is measured against.
pub const N_FRAMES: usize = 4096;
/// Timer ticks per second.
pub const TIMER_TICK_HZ: usize = 100;
/// Capacity of the terminal input buffer.
pub const TTY_BUF_MAX: usize = 4096;
/// Default capacity of the kernel's audit log.
pub const AUDIT_CAPACITY: usize = 65536;

/// Number of signals; valid signal numbers are below it.
pub const NSIG: u32 = 32;
pub const SIGKILL: u32 = 9;
pub const SIGCHLD: u32 = 17;
pub const SIGSTOP: u32 = 19;
/// Handler value meaning "default action".
pub const SIG_DFL: usize = 0;
/// Handler value meaning "ignore".
pub const SIG_IGN: usize = 1;

/// Capabilities that a child does not inherit from its parent.
pub const INHERITABLE_MASK: u64 = 0xFFFF_0000_0000_0000;

/// Scheduling policy of ordinary tasks.
pub const SCHED_NORMAL: u8 = 0;
/// Priority of a fresh scheduling policy.
pub const PRIO_DEFAULT: i32 = 0;

/// Event-bus flag: the process has quit.
pub const EV_PROC_QUIT: u32 = 0x1;
/// Event-bus flag: a child has quit.
pub const EV_CHILD_QUIT: u32 = 0x2;
/// Event-bus flag: a signal was received.
pub const EV_RECV_SIG: u32 = 0x4;

pub const VM_READ: u32 = 0x1;
pub const VM_WRITE: u32 = 0x2;
pub const VM_EXEC: u32 = 0x4;
pub const VM_SHARED: u32 = 0x8;

pub const O_APPEND: usize = 0o2000;
pub const O_NONBLOCK: usize = 0o4000;
pub const O_CLOEXEC: usize = 0o2000000;
pub const AT_NOFOLLOW: usize = 0x100;
pub const FD_CLOEXEC: usize = 1;

pub const F_DUPFD: usize = 0;
pub const F_GETFD: usize = 1;
pub const F_SETFD: usize = 2;
pub const F_GETFL: usize = 3;
pub const F_SETFL: usize = 4;
pub const F_GETLK: usize = 5;
pub const F_SETLK: usize = 6;
pub const F_SETLKW: usize = 7;
pub const F_DUPFD_CLOEXEC: usize = 1030;

pub const TCGETS: usize = 0x5401;
pub const TCSETS: usize = 0x5402;
pub const TIOCGPGRP: usize = 0x540F;
pub const TIOCSPGRP: usize = 0x5410;
pub const TIOCGWINSZ: usize = 0x5413;
pub const FIONBIO: usize = 0x5421;
pub const FIONCLEX: usize = 0x5450;
pub const FIOCLEX: usize = 0x5451;

/// Size in bytes of a terminal-attributes record.
pub const TRMIO_SZ: usize = 60;
/// Size in bytes of a window-size record.
pub const WINSZ_SZ: usize = 8;
/// Size in bytes of one epoll event record.
pub const EP_EVENT_SZ: usize = 12;

pub const SYS_READ: usize = 0;
pub const SYS_WRITE: usize = 1;
pub const SYS_OPEN: usize = 2;
pub const SYS_CLOSE: usize = 3;
pub const SYS_STAT: usize = 4;
pub const SYS_FSTAT: usize = 5;
pub const SYS_MMAP: usize = 9;
pub const SYS_MUNMAP: usize = 11;
pub const SYS_BRK: usize = 12;
pub const SYS_SIGACTION: usize = 13;
pub const SYS_SIGPROCMASK: usize = 14;
pub const SYS_IOCTL: usize = 16;
pub const SYS_PIPE: usize = 22;
pub const SYS_DUP: usize = 32;
pub const SYS_DUP2: usize = 33;
pub const SYS_GETPID: usize = 39;
pub const SYS_FORK: usize = 57;
pub const SYS_EXEC: usize = 59;
pub const SYS_EXIT: usize = 60;
pub const SYS_WAIT4: usize = 61;
pub const SYS_KILL: usize = 62;
pub const SYS_FCNTL: usize = 72;
pub const SYS_SETPGID: usize = 109;
pub const SYS_GETPPID: usize = 110;
pub const SYS_SETSID: usize = 112;
pub const SYS_GETPGID: usize = 121;
pub const SYS_FUTEX: usize = 202;
pub const SYS_EPOLL_CREATE: usize = 213;
pub const SYS_CLOCK_GETTIME: usize = 228;
pub const SYS_EPOLL_WAIT: usize = 232;
pub const SYS_EPOLL_CTL: usize = 233;

} // verus!
