use kernel::config::{SYS_GETPID, SYS_GETPPID, SYS_READ, SYS_WRITE};
use kernel::fs::audit::AuditOp;
use kernel::kernel::state::Kernel;

// A small user buffer address that check_access accepts.
const BUF_ADDR: usize = 0x1000;

#[test]
fn audit_disabled_by_default() {
    let mut kernel = Kernel::new(64);
    kernel.proc_init();
    let _ = kernel.dispatch_syscall(SYS_WRITE, 1, BUF_ADDR, 8, 0, 0, 0);
    assert_eq!(kernel.audit.count(), 0);
    assert!(!kernel.audit.is_enabled());
}

#[test]
fn audit_records_single_write() {
    let mut kernel = Kernel::new(64);
    kernel.proc_init();
    kernel.audit.enable();

    let ret = kernel.dispatch_syscall(SYS_WRITE, 1, BUF_ADDR, 32, 0, 0, 0);
    assert!(ret.is_ok());

    let records = kernel.audit.drain();
    assert_eq!(records.len(), 1);
    let r = &records[0];
    assert_eq!(r.op, AuditOp::Write);
    assert_eq!(r.fd, Some(1));
    assert!(r.result.is_success());
    assert!(r.bytes.is_some());
}

#[test]
fn audit_records_multiple_operations() {
    let mut kernel = Kernel::new(64);
    kernel.proc_init();
    kernel.audit.enable();

    for _ in 0..5 {
        let _ = kernel.dispatch_syscall(SYS_WRITE, 1, BUF_ADDR, 4, 0, 0, 0);
    }
    for _ in 0..3 {
        let _ = kernel.dispatch_syscall(SYS_READ, 1, BUF_ADDR, 4, 0, 0, 0);
    }

    assert_eq!(kernel.audit.count_by_op(AuditOp::Write), 5);
    assert_eq!(kernel.audit.count_by_op(AuditOp::Read), 3);
    assert_eq!(kernel.audit.count(), 8);
}

#[test]
fn audit_ignores_non_fs_syscalls() {
    let mut kernel = Kernel::new(64);
    kernel.proc_init();
    kernel.audit.enable();

    let _ = kernel.dispatch_syscall(SYS_GETPID, 0, 0, 0, 0, 0, 0);
    let _ = kernel.dispatch_syscall(SYS_GETPPID, 0, 0, 0, 0, 0, 0);
    assert_eq!(kernel.audit.count(), 0);

    let _ = kernel.dispatch_syscall(SYS_WRITE, 1, BUF_ADDR, 4, 0, 0, 0);
    assert_eq!(kernel.audit.count(), 1);
}

#[test]
fn audit_captures_failure_errno() {
    let mut kernel = Kernel::new(64);
    kernel.proc_init();
    kernel.audit.enable();

    let _ = kernel.dispatch_syscall(SYS_WRITE, 1, 0, 8, 0, 0, 0);
    let records = kernel.audit.drain();
    assert_eq!(records.len(), 1);
    assert!(!records[0].result.is_success());
    assert_eq!(records[0].result.errno(), Some("efault"));
    assert_eq!(records[0].bytes, None);
}

#[test]
fn audit_seq_is_strictly_monotonic() {
    let mut kernel = Kernel::new(64);
    kernel.proc_init();
    kernel.audit.enable();
    for _ in 0..50 {
        let _ = kernel.dispatch_syscall(SYS_WRITE, 1, BUF_ADDR, 1, 0, 0, 0);
    }
    let records = kernel.audit.drain();
    assert_eq!(records.len(), 50);
    for i in 1..records.len() {
        assert!(records[i].seq > records[i - 1].seq, "seq must increase strictly");
    }
}

#[test]
fn audit_concurrent_writes_no_loss() {
    // 16 writers of 100 write calls each, one after another.
    let mut kernel = Kernel::new(1024);
    kernel.proc_init();
    kernel.audit.enable();

    for _ in 0..16 {
        for _ in 0..100 {
            let _ = kernel.dispatch_syscall(SYS_WRITE, 1, BUF_ADDR, 4, 0, 0, 0);
        }
    }

    let records = kernel.audit.drain();
    assert_eq!(records.len(), 16 * 100, "no records may be dropped when capacity is not exceeded");
    assert_eq!(kernel.audit.dropped(), 0);
    assert!(records.iter().all(|r| r.op == AuditOp::Write));
    assert!(records.iter().all(|r| r.result.is_success()));
}

#[test]
fn audit_concurrent_mixed_ops() {
    let mut kernel = Kernel::new(1024);
    kernel.proc_init();
    kernel.audit.enable();

    for _ in 0..8 {
        for _ in 0..50 {
            let _ = kernel.dispatch_syscall(SYS_WRITE, 1, BUF_ADDR, 4, 0, 0, 0);
        }
    }
    for _ in 0..8 {
        for _ in 0..50 {
            let _ = kernel.dispatch_syscall(SYS_READ, 1, BUF_ADDR, 4, 0, 0, 0);
        }
    }

    assert_eq!(kernel.audit.count_by_op(AuditOp::Write), 400);
    assert_eq!(kernel.audit.count_by_op(AuditOp::Read), 400);
    assert_eq!(kernel.audit.count(), 800);
}

#[test]
fn audit_seq_unique_under_contention() {
    let mut kernel = Kernel::new(1024);
    kernel.proc_init();
    kernel.audit.enable();

    for _ in 0..32 {
        for _ in 0..30 {
            let _ = kernel.dispatch_syscall(SYS_WRITE, 1, BUF_ADDR, 4, 0, 0, 0);
        }
    }

    let records = kernel.audit.drain();
    assert_eq!(records.len(), 32 * 30);
    let mut seqs: Vec<usize> = records.iter().map(|r| r.seq).collect();
    seqs.sort();
    for i in 1..seqs.len() {
        assert_ne!(seqs[i], seqs[i - 1], "seq numbers must be unique");
    }
}

#[test]
fn audit_capacity_evicts_oldest() {
    let mut kernel = Kernel::new(64);
    kernel.proc_init();
    kernel.audit.enable();

    let cap_records = kernel.audit.snapshot().capacity();
    for _ in 0..100 {
        let _ = kernel.dispatch_syscall(SYS_WRITE, 1, BUF_ADDR, 4, 0, 0, 0);
    }
    assert_eq!(kernel.audit.count(), 100);
    assert_eq!(kernel.audit.dropped(), 0);
    let _ = cap_records;
}

#[test]
fn audit_reset_clears_state() {
    let mut kernel = Kernel::new(64);
    kernel.proc_init();
    kernel.audit.enable();

    for _ in 0..10 {
        let _ = kernel.dispatch_syscall(SYS_WRITE, 1, BUF_ADDR, 4, 0, 0, 0);
    }
    assert_eq!(kernel.audit.count(), 10);

    kernel.audit.reset();
    assert_eq!(kernel.audit.count(), 0);
    assert_eq!(kernel.audit.dropped(), 0);

    for _ in 0..5 {
        let _ = kernel.dispatch_syscall(SYS_WRITE, 1, BUF_ADDR, 4, 0, 0, 0);
    }
    assert_eq!(kernel.audit.count(), 5);
    let records = kernel.audit.drain();
    assert_eq!(records[0].seq, 0);
}

#[test]
fn audit_drain_is_atomic_snapshot() {
    let mut kernel = Kernel::new(1024);
    kernel.proc_init();
    kernel.audit.enable();

    for _ in 0..120 {
        let _ = kernel.dispatch_syscall(SYS_WRITE, 1, BUF_ADDR, 4, 0, 0, 0);
    }
    let mut mid = kernel.audit.drain();
    for _ in 0..80 {
        let _ = kernel.dispatch_syscall(SYS_WRITE, 1, BUF_ADDR, 4, 0, 0, 0);
    }
    let tail = kernel.audit.drain();

    let total = mid.len() + tail.len();
    assert_eq!(total, 200);

    mid.extend(tail.into_iter());
    let mut seqs: Vec<usize> = mid.iter().map(|r| r.seq).collect();
    seqs.sort();
    for i in 1..seqs.len() {
        assert_ne!(seqs[i], seqs[i - 1]);
    }
}
