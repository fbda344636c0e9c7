//! The kernel aggregate: tasks, block cache, frame pool, per-CPU current
//! tasks, terminal buffer, disk, audit log, the system-call dispatcher and
//! the queue of sleeping threads.

pub mod cache;
pub mod state;
pub mod process;
pub mod sys_query;
pub mod sys_update;
pub mod dispatch;
pub mod waitq;
