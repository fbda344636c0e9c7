//! A simulated kernel core: frame pool, slab, locks, trap control,
//! audit log, tasks and the system-call dispatcher, with verified contracts.

pub mod config;
pub mod errno;
pub mod util;
pub mod mm;
pub mod sync;
pub mod trap;
pub mod fs;
pub mod cap;
pub mod rlimit;
pub mod signal;
pub mod sched;
pub mod procinit;
pub mod files;
pub mod task;
pub mod task_table;
pub mod pgroup;
pub mod kernel;
pub mod addrspace;
