//! Synchronization state: the spinlock bit, the recursive kernel lock, the
//! nesting-depth guard and the condition-variable queue.

pub mod spin;
pub mod kernlock;
pub mod flgguard;
pub mod syncqueue;
