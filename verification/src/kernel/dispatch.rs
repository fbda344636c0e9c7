use vstd::prelude::*;
use crate::config::{
    EP_EVENT_SZ, F_DUPFD, F_DUPFD_CLOEXEC, N_FRAMES, N_PROC, PAGE_SZ, TIMER_TICK_HZ, SYS_BRK, SYS_CLOCK_GETTIME,
    SYS_CLOSE, SYS_DUP, SYS_DUP2, SYS_EPOLL_CREATE, SYS_EPOLL_CTL, SYS_EPOLL_WAIT, SYS_EXEC, SYS_EXIT, SYS_FCNTL,
    SYS_FORK, SYS_FSTAT, SYS_FUTEX, SYS_GETPGID, SYS_GETPID, SYS_GETPPID, SYS_IOCTL, SYS_KILL, SYS_MMAP, SYS_MUNMAP,
    SYS_OPEN, SYS_PIPE, SYS_READ, SYS_SETPGID, SYS_SETSID, SYS_SIGACTION, SYS_SIGPROCMASK, SYS_STAT, SYS_WAIT4,
    SYS_WRITE,
};
use crate::errno::Errno;
use crate::fs::audit::{AuditLog, AuditOp, AuditResult, RecordView, bump};
use crate::kernel::state::Kernel;
use crate::kernel::sys_query::{
    read_result, stat_result, mmap_result, mmap_fits, munmap_result, page_round, ioctl_result, dup_result, exec_result,
    wait4_result, fcntl_result, current_id, getppid_result, getpgid_result, epoll_create_result, epoll_ctl_result,
    epoll_wait_result, clock_result, sigaction_result, futex_result,
};
use crate::kernel::sys_update::{
    write_post, open_post, close_post, brk_post, pipe_post, dup2_post, fork_post, exit_post, kill_post, setpgid_post,
    setsid_post, sigprocmask_post,
};
use crate::mm::access::user_range;
use crate::mm::frame::count_free;

verus! {

/// The file-system operation the audit log records for system call `nr`.
pub open spec fn audit_op_spec(nr: usize) -> Option<AuditOp> {
    if nr == SYS_READ {
        Some(AuditOp::Read)
    } else if nr == SYS_WRITE {
        Some(AuditOp::Write)
    } else if nr == SYS_OPEN {
        Some(AuditOp::Open)
    } else if nr == SYS_CLOSE {
        Some(AuditOp::Close)
    } else if nr == SYS_STAT {
        Some(AuditOp::Stat)
    } else if nr == SYS_FSTAT {
        Some(AuditOp::Fstat)
    } else if nr == SYS_MMAP {
        Some(AuditOp::Mmap)
    } else if nr == SYS_MUNMAP {
        Some(AuditOp::Munmap)
    } else if nr == SYS_PIPE {
        Some(AuditOp::Pipe)
    } else if nr == SYS_DUP {
        Some(AuditOp::Dup)
    } else if nr == SYS_DUP2 {
        Some(AuditOp::Dup2)
    } else if nr == SYS_FCNTL {
        Some(AuditOp::Fcntl)
    } else {
        None
    }
}

/// The descriptor recorded for system call `nr`: the first argument of a
/// call on a descriptor, the fifth of `mmap`, none otherwise.
pub open spec fn audit_fd(nr: usize, a0: usize, a4: usize) -> Option<usize> {
    if nr == SYS_READ || nr == SYS_WRITE || nr == SYS_CLOSE || nr == SYS_FSTAT || nr == SYS_DUP || nr == SYS_DUP2
        || nr == SYS_FCNTL {
        Some(a0)
    } else if nr == SYS_MMAP {
        Some(a4)
    } else {
        None
    }
}

/// How an answer is recorded.
pub open spec fn outcome(r: Result<usize, Errno>) -> AuditResult {
    match r {
        Ok(_) => AuditResult::Success,
        Err(e) => AuditResult::Failure(e),
    }
}

/// The byte count recorded for an answer: the value of a success.
pub open spec fn outcome_bytes(r: Result<usize, Errno>) -> Option<usize> {
    match r {
        Ok(v) => Some(v),
        Err(_) => None,
    }
}

/// Log `b` is log `a` after system call `nr` of process `pid` answered `r`
/// at time `now`: an audited call on an enabled log appends its record
/// (evicting the oldest when full); anything else leaves the log alone.
pub open spec fn audit_post(
    a: AuditLog,
    b: AuditLog,
    nr: usize,
    a0: usize,
    a4: usize,
    pid: usize,
    now: usize,
    r: Result<usize, Errno>,
) -> bool {
    &&& b.enabled == a.enabled && b.capacity == a.capacity
    &&& if audit_op_spec(nr) is Some && a.enabled {
        let rec = RecordView {
            seq: a.seq_next,
            timestamp: now,
            pid,
            op: audit_op_spec(nr)->0,
            fd: audit_fd(nr, a0, a4),
            path: None,
            result: outcome(r),
            bytes: outcome_bytes(r),
        };
        let full = a.log().len() >= a.capacity;
        &&& b.log() == (if full && a.log().len() > 0 { a.log().drop_first() } else { a.log() }).push(rec)
        &&& b.dropped == if full { bump(a.dropped) } else { a.dropped }
        &&& b.seq_next == bump(a.seq_next)
    } else {
        b.log() == a.log() && b.dropped == a.dropped && b.seq_next == a.seq_next
    }
}

/// System call `nr` with these arguments stays within machine words on `k`.
pub open spec fn syscall_fits(k: Kernel, nr: usize, a0: usize, a1: usize, a2: usize, a3: usize, a4: usize, a5: usize) -> bool {
    let files_len = match k.current() {
        Some(h) => k.tasks.arena@[h as int].files@.len() as int,
        None => 0int,
    };
    &&& nr == SYS_OPEN ==> files_len < usize::MAX
    &&& nr == SYS_MMAP ==> mmap_fits(k.clk, a0, a1, a3, a4)
    &&& nr == SYS_MUNMAP && a0 % PAGE_SZ == 0 ==> a1 + PAGE_SZ <= usize::MAX && (page_round(a1) > 0 ==> a0
        + page_round(a1) - PAGE_SZ <= usize::MAX)
    &&& nr == SYS_PIPE ==> files_len + 2 <= usize::MAX && (a0 != 0 && user_range(a0, 8) && k.current() is Some
        ==> usize::BITS == 64)
    &&& nr == SYS_DUP ==> files_len + N_PROC * 4 < usize::MAX
    &&& nr == SYS_FORK ==> count_free(k.pool@) <= N_FRAMES && k.tasks.map@.len() * 2 + 256 <= usize::MAX
    &&& nr == SYS_WAIT4 || nr == SYS_KILL ==> a0 as isize != isize::MIN
    &&& nr == SYS_FCNTL ==> (a1 == F_DUPFD ==> a2 + (k.clk & 3) <= usize::MAX) && (a1 == F_DUPFD_CLOEXEC ==> a2
        < usize::MAX)
    &&& nr == SYS_EPOLL_WAIT ==> (a1 != 0 && a2 != 0 ==> a2 * EP_EVENT_SZ <= usize::MAX) && (a1 != 0 && a2 != 0
        && user_range(a1, (a2 * EP_EVENT_SZ) as usize) && (a3 as i32) > 0 ==> (a3 as i32) * TIMER_TICK_HZ
        <= usize::MAX && k.clk + (a3 as i32) * TIMER_TICK_HZ / 1000 <= usize::MAX)
    &&& nr == SYS_FUTEX ==> (a1 & 0xF == 3 && user_range(a0, 4) && user_range(a4, 4) ==> a2 + a5 <= usize::MAX)
}

/// `n` is `k` after system call `nr` with these arguments answered `r`
/// (the audit log aside).
pub open spec fn syscall_post(
    k: Kernel,
    n: Kernel,
    nr: usize,
    a0: usize,
    a1: usize,
    a2: usize,
    a3: usize,
    a4: usize,
    a5: usize,
    r: Result<usize, Errno>,
) -> bool {
    if nr == SYS_READ {
        n == k && r == read_result(k, a0, a1, a2)
    } else if nr == SYS_WRITE {
        write_post(k, n, a0, a1, a2, r)
    } else if nr == SYS_OPEN {
        open_post(k, n, a0, a1, r)
    } else if nr == SYS_CLOSE {
        close_post(k, n, a0, r)
    } else if nr == SYS_STAT || nr == SYS_FSTAT {
        n == k && r == stat_result(nr, a0, a1)
    } else if nr == SYS_MMAP {
        n == k && r == mmap_result(k, a0, a1, a3, a4, a5)
    } else if nr == SYS_MUNMAP {
        n == k && r == munmap_result(a0)
    } else if nr == SYS_BRK {
        brk_post(k, n, a0, r)
    } else if nr == SYS_IOCTL {
        n == k && r == ioctl_result(a1, a2)
    } else if nr == SYS_PIPE {
        pipe_post(k, n, a0, r)
    } else if nr == SYS_DUP {
        n == k && dup_result(k, a0, r)
    } else if nr == SYS_DUP2 {
        dup2_post(k, n, a0, a1, r)
    } else if nr == SYS_FORK {
        fork_post(k, n, r)
    } else if nr == SYS_EXEC {
        n == k && r == exec_result(a0, a1, a2)
    } else if nr == SYS_EXIT {
        exit_post(k, n, a0, r)
    } else if nr == SYS_WAIT4 {
        n == k && r == wait4_result(k, a0 as isize, a1, a2, a3)
    } else if nr == SYS_KILL {
        kill_post(k, n, a0 as isize, a1, r)
    } else if nr == SYS_FCNTL {
        n == k && r == fcntl_result(k, a0, a1, a2)
    } else if nr == SYS_GETPID {
        n == k && r == Ok::<usize, Errno>(current_id(k, 1))
    } else if nr == SYS_GETPPID {
        n == k && r == Ok::<usize, Errno>(getppid_result(k))
    } else if nr == SYS_SETPGID {
        setpgid_post(k, n, a0, a1, r)
    } else if nr == SYS_GETPGID {
        n == k && r == getpgid_result(k, a0)
    } else if nr == SYS_SETSID {
        setsid_post(k, n, r)
    } else if nr == SYS_EPOLL_CREATE {
        n == k && r == epoll_create_result(a0)
    } else if nr == SYS_EPOLL_CTL {
        n == k && r == epoll_ctl_result(a1 as i32, a3)
    } else if nr == SYS_EPOLL_WAIT {
        n == k && r == epoll_wait_result(a1, a2)
    } else if nr == SYS_CLOCK_GETTIME {
        n == k && r == clock_result(a0, a1)
    } else if nr == SYS_SIGACTION {
        n == k && r == sigaction_result(a0, a1, a2)
    } else if nr == SYS_SIGPROCMASK {
        sigprocmask_post(k, n, a0, a1, a2, r)
    } else if nr == SYS_FUTEX {
        n == k && r == futex_result(k, a0, a1, a2, a3, a4, a5)
    } else {
        n == k && r == Err::<usize, Errno>(Errno::Enosys)
    }
}

/// The audited operation of system call `nr`.
fn audit_op_of(nr: usize) -> (r: Option<AuditOp>)
    ensures
        r == audit_op_spec(nr),
{
    if nr == SYS_READ {
        Some(AuditOp::Read)
    } else if nr == SYS_WRITE {
        Some(AuditOp::Write)
    } else if nr == SYS_OPEN {
        Some(AuditOp::Open)
    } else if nr == SYS_CLOSE {
        Some(AuditOp::Close)
    } else if nr == SYS_STAT {
        Some(AuditOp::Stat)
    } else if nr == SYS_FSTAT {
        Some(AuditOp::Fstat)
    } else if nr == SYS_MMAP {
        Some(AuditOp::Mmap)
    } else if nr == SYS_MUNMAP {
        Some(AuditOp::Munmap)
    } else if nr == SYS_PIPE {
        Some(AuditOp::Pipe)
    } else if nr == SYS_DUP {
        Some(AuditOp::Dup)
    } else if nr == SYS_DUP2 {
        Some(AuditOp::Dup2)
    } else if nr == SYS_FCNTL {
        Some(AuditOp::Fcntl)
    } else {
        None
    }
}

/// The descriptor recorded for system call `nr`.
fn audit_fd_of(nr: usize, a0: usize, a4: usize) -> (r: Option<usize>)
    ensures
        r == audit_fd(nr, a0, a4),
{
    if nr == SYS_READ || nr == SYS_WRITE || nr == SYS_CLOSE || nr == SYS_FSTAT || nr == SYS_DUP || nr == SYS_DUP2
        || nr == SYS_FCNTL {
        Some(a0)
    } else if nr == SYS_MMAP {
        Some(a4)
    } else {
        None
    }
}

impl Kernel {
    /// Carries out system call `nr` (the audit log aside).
    fn handle_syscall(&mut self, nr: usize, a0: usize, a1: usize, a2: usize, a3: usize, a4: usize, a5: usize) -> (r: Result<
        usize,
        Errno,
    >)
        requires
            old(self).wf(),
            syscall_fits(*old(self), nr, a0, a1, a2, a3, a4, a5),
        ensures
            final(self).wf(),
            syscall_post(*old(self), *final(self), nr, a0, a1, a2, a3, a4, a5, r),
            final(self).audit == old(self).audit && final(self).clk == old(self).clk,
    {
        if nr == SYS_READ {
            self.sys_read(a0, a1, a2)
        } else if nr == SYS_WRITE {
            self.sys_write(a0, a1, a2)
        } else if nr == SYS_OPEN {
            self.sys_open(a0, a1)
        } else if nr == SYS_CLOSE {
            self.sys_close(a0)
        } else if nr == SYS_STAT || nr == SYS_FSTAT {
            self.sys_stat(nr, a0, a1)
        } else if nr == SYS_MMAP {
            self.sys_mmap(a0, a1, a3, a4, a5)
        } else if nr == SYS_MUNMAP {
            self.sys_munmap(a0, a1)
        } else if nr == SYS_BRK {
            self.sys_brk(a0)
        } else if nr == SYS_IOCTL {
            self.sys_ioctl(a1, a2)
        } else if nr == SYS_PIPE {
            self.sys_pipe(a0)
        } else if nr == SYS_DUP {
            self.sys_dup(a0)
        } else if nr == SYS_DUP2 {
            self.sys_dup2(a0, a1)
        } else if nr == SYS_FORK {
            self.sys_fork()
        } else if nr == SYS_EXEC {
            self.sys_exec(a0, a1, a2)
        } else if nr == SYS_EXIT {
            self.sys_exit(a0)
        } else if nr == SYS_WAIT4 {
            self.sys_wait4(a0 as isize, a1, a2, a3)
        } else if nr == SYS_KILL {
            self.sys_kill(a0 as isize, a1)
        } else if nr == SYS_FCNTL {
            self.sys_fcntl(a0, a1, a2)
        } else if nr == SYS_GETPID {
            Ok(self.sys_getpid())
        } else if nr == SYS_GETPPID {
            Ok(self.sys_getppid())
        } else if nr == SYS_SETPGID {
            self.sys_setpgid(a0, a1)
        } else if nr == SYS_GETPGID {
            self.sys_getpgid(a0)
        } else if nr == SYS_SETSID {
            self.sys_setsid()
        } else if nr == SYS_EPOLL_CREATE {
            self.sys_epoll_create(a0)
        } else if nr == SYS_EPOLL_CTL {
            self.sys_epoll_ctl(a1 as i32, a3)
        } else if nr == SYS_EPOLL_WAIT {
            self.sys_epoll_wait(a1, a2, a3 as i32)
        } else if nr == SYS_CLOCK_GETTIME {
            self.sys_clock_gettime(a0, a1)
        } else if nr == SYS_SIGACTION {
            self.sys_sigaction(a0, a1, a2)
        } else if nr == SYS_SIGPROCMASK {
            self.sys_sigprocmask(a0, a1, a2)
        } else if nr == SYS_FUTEX {
            self.sys_futex(a0, a1, a2, a3, a4, a5)
        } else {
            Err(Errno::Enosys)
        }
    }

    /// Carries out system call `nr` with arguments `a0`..`a5` (see
    /// `syscall_post`) and, for a file-system call while auditing is on,
    /// records it with the calling process (CPU 0's task; 0 when idle), its
    /// descriptor, the clock, the outcome and, on success, the answer.
    pub fn dispatch_syscall(&mut self, nr: usize, a0: usize, a1: usize, a2: usize, a3: usize, a4: usize, a5: usize) -> (r:
        Result<usize, Errno>)
        requires
            old(self).wf(),
            syscall_fits(*old(self), nr, a0, a1, a2, a3, a4, a5),
        ensures
            final(self).wf(),
            syscall_post(*old(self), Kernel { audit: old(self).audit, ..*final(self) }, nr, a0, a1, a2, a3, a4, a5, r),
            audit_post(old(self).audit, final(self).audit, nr, a0, a4, current_id(*old(self), 0), old(self).clk, r),
    {
        let pid = match self.cur_task(0) {
            Some(h) => self.tasks.arena[h].info.id,
            None => 0,
        };
        let op = audit_op_of(nr);
        let fd = audit_fd_of(nr, a0, a4);
        let r = self.handle_syscall(nr, a0, a1, a2, a3, a4, a5);
        let ghost mid = *self;
        match op {
            Some(o) => {
                let draft = self.audit.begin(o, pid, fd, None, self.clk);
                match r {
                    Ok(v) => self.audit.end(draft, AuditResult::Success, Some(v)),
                    Err(e) => self.audit.end(draft, AuditResult::Failure(e), None),
                }
            },
            None => {},
        }
        assert(Kernel { audit: old(self).audit, ..*self } == mid);
        r
    }
}

/// The records are in strictly increasing order of sequence number, all
/// below the next one to hand out.
pub open spec fn seq_ordered(a: AuditLog) -> bool {
    &&& forall|i: int, j: int| 0 <= i < j < a.log().len() ==> #[trigger] a.log()[i].seq < #[trigger] a.log()[j].seq
    &&& forall|i: int| 0 <= i < a.log().len() ==> #[trigger] a.log()[i].seq < a.seq_next
}

/// Every system call keeps the audit log in strictly increasing
/// order of sequence number (while the counter has not wrapped).
pub proof fn law_dispatch_keeps_seq_order(
    a: AuditLog,
    b: AuditLog,
    nr: usize,
    a0: usize,
    a4: usize,
    pid: usize,
    now: usize,
    r: Result<usize, Errno>,
)
    requires
        audit_post(a, b, nr, a0, a4, pid, now, r),
        seq_ordered(a),
        a.seq_next < usize::MAX,
    ensures
        seq_ordered(b),
{
    if audit_op_spec(nr) is Some && a.enabled {
        let old_log = a.log();
        let kept = if old_log.len() >= a.capacity && old_log.len() > 0 { old_log.drop_first() } else { old_log };
        assert forall|i: int| 0 <= i < kept.len() implies #[trigger] kept[i].seq < a.seq_next by {
            if old_log.len() >= a.capacity && old_log.len() > 0 {
                assert(kept[i] == old_log[i + 1]);
            }
        }
        assert forall|i: int, j: int| 0 <= i < j < kept.len() implies #[trigger] kept[i].seq < #[trigger] kept[j].seq by {
            if old_log.len() >= a.capacity && old_log.len() > 0 {
                assert(kept[i] == old_log[i + 1]);
                assert(kept[j] == old_log[j + 1]);
            }
        }
        let nl = b.log();
        assert forall|i: int, j: int| 0 <= i < j < nl.len() implies #[trigger] nl[i].seq < #[trigger] nl[j].seq by {
            if j == kept.len() {
                assert(nl[i] == kept[i]);
            } else {
                assert(nl[i] == kept[i]);
                assert(nl[j] == kept[j]);
            }
        }
        assert forall|i: int| 0 <= i < nl.len() implies #[trigger] nl[i].seq < b.seq_next by {
            if i < kept.len() {
                assert(nl[i] == kept[i]);
            }
        }
    }
}

} // verus!
