//! Traps: the saved register context and the trap controller.

pub mod context;
pub mod ctrl;
