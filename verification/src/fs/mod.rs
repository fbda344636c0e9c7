//! File-system side services: the audit log of file-system system calls.

pub mod audit;
