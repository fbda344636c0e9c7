use vstd::prelude::*;
use crate::config::{
    EP_EVENT_SZ, FD_CLOEXEC, FIOCLEX, FIONBIO, FIONCLEX, F_DUPFD, F_DUPFD_CLOEXEC, F_GETFD, F_GETFL, F_GETLK,
    F_SETFD, F_SETFL, F_SETLK, F_SETLKW, KERN_BASE, N_PROC, O_APPEND, O_NONBLOCK, PAGE_SZ, SIGKILL, SIGSTOP, NSIG,
    TCGETS, TCSETS, TIMER_TICK_HZ, TIOCGPGRP, TIOCGWINSZ, TIOCSPGRP, TRMIO_SZ, WINSZ_SZ, SYS_STAT,
};
use crate::errno::Errno;
use crate::files::{has_fd, is_lowest_free_from, lemma_free_fd_exists_from, lowest_free_from};
use crate::kernel::cache::{BlockCache, CacheSlot, chain_has, chain_dirty};
use crate::kernel::state::Kernel;
use crate::mm::access::{check_access, user_range};
use crate::mm::frame::count_free;
use crate::task_table::{zombie_sel, lemma_sorted_unique};
use crate::task::Task;

verus! {

/// `x` rounded down to a page boundary.
pub open spec fn pfloor(x: usize) -> usize {
    x & !0xFFFusize
}

/// `x`'s offset inside its page.
pub open spec fn poff(x: usize) -> usize {
    x & 0xFFFusize
}

/// The cache chain where block `id` lives.
pub open spec fn chain_of(c: BlockCache, id: usize) -> Seq<CacheSlot> {
    c.slots()[(id % c.width) as int]
}

/// The id of the task CPU 0 runs (`dflt` when idle).
pub open spec fn current_id(k: Kernel, dflt: usize) -> usize {
    match k.current() {
        Some(h) => k.tasks.arena@[h as int].info.id,
        None => dflt,
    }
}

/// The answer of `read(fd, buf, count)`: a cached descriptor reads what its
/// pages hold minus a page of read-ahead, any other up to 16 pages.
pub open spec fn read_result(k: Kernel, fd: usize, buf: usize, count: usize) -> Result<usize, Errno> {
    if buf == 0 && count > 0 {
        Err(Errno::Efault)
    } else if count == 0 {
        Ok(0)
    } else if !user_range(buf, count) {
        Err(Errno::Efault)
    } else if chain_has(chain_of(k.cache, fd), fd) {
        let span = (pfloor((buf + count) as usize) - pfloor(buf)) / (PAGE_SZ as int);
        let avail = (span + 1) * PAGE_SZ;
        let transfer = if count < avail { count as int } else { avail };
        Ok((transfer - if transfer > PAGE_SZ { PAGE_SZ as int } else { 0int }) as usize)
    } else if count > PAGE_SZ * 16 {
        Ok((PAGE_SZ * 16) as usize)
    } else {
        Ok(count)
    }
}

/// The answer of `stat`/`fstat` with buffer `stat_buf`; `stat` also checks
/// its path.
pub open spec fn stat_result(nr: usize, a0: usize, stat_buf: usize) -> Result<usize, Errno> {
    if stat_buf == 0 {
        Err(Errno::Efault)
    } else if !user_range(stat_buf, 144) {
        Err(Errno::Efault)
    } else if nr == SYS_STAT && !user_range(a0, 256) {
        Err(Errno::Efault)
    } else {
        Ok(0)
    }
}

/// `len` rounded up to whole pages.
pub open spec fn page_round(len: usize) -> usize {
    pfloor((len + PAGE_SZ - 1) as usize)
}

/// Where an unfixed mapping of `aligned_len` bytes for descriptor `fd` is
/// placed at time `now`.
pub open spec fn mmap_slot(now: usize, fd: usize, aligned_len: usize) -> usize {
    pfloor((0x7000_0000 + ((now * 4096 + fd * PAGE_SZ) % (KERN_BASE - 0x7000_0000 - aligned_len))) as usize)
}

/// `mmap` computes an address: it is given and fixed, or placed.
pub open spec fn mmap_fixed(addr: usize, flags: usize) -> bool {
    addr != 0 && flags & 0x10 != 0
}

/// No arithmetic of `mmap` leaves a word.
pub open spec fn mmap_fits(now: usize, addr: usize, len: usize, flags: usize, fd: usize) -> bool {
    len != 0 ==> {
        &&& len + PAGE_SZ <= usize::MAX
        &&& !mmap_fixed(addr, flags) ==> now * 4096 + fd * PAGE_SZ <= usize::MAX && page_round(len) < KERN_BASE
            - 0x7000_0000
    }
}

/// The answer of `mmap(addr, len, prot, flags, fd, offset)`.
pub open spec fn mmap_result(k: Kernel, addr: usize, len: usize, flags: usize, fd: usize, offset: usize) -> Result<
    usize,
    Errno,
> {
    if len == 0 {
        Err(Errno::Einval)
    } else {
        let aligned = page_round(len);
        let at = if mmap_fixed(addr, flags) { addr } else { mmap_slot(k.clk, fd, aligned) };
        if count_free(k.pool@) < aligned / PAGE_SZ {
            Err(Errno::Enomem)
        } else if flags & 0x20 == 0 && pfloor(offset) > aligned {
            Err(Errno::Einval)
        } else {
            Ok(at)
        }
    }
}

/// The answer of `munmap(addr, len)`.
pub open spec fn munmap_result(addr: usize) -> Result<usize, Errno> {
    if addr % PAGE_SZ != 0 { Err(Errno::Einval) } else { Ok(0) }
}

/// The answer of `ioctl` command `cmd` with argument `arg`.
pub open spec fn ioctl_result(cmd: usize, arg: usize) -> Result<usize, Errno> {
    let need = if cmd == TCGETS || cmd == TCSETS {
        TRMIO_SZ as int
    } else if cmd == TIOCGPGRP || cmd == TIOCSPGRP || cmd == FIONBIO {
        4int
    } else if cmd == TIOCGWINSZ {
        WINSZ_SZ as int
    } else {
        0int
    };
    if cmd == FIONCLEX || cmd == FIOCLEX {
        Ok(0)
    } else if need == 0 {
        Err(Errno::Enotty)
    } else if !(arg + need <= KERN_BASE) {
        Err(Errno::Efault)
    } else {
        Ok(0)
    }
}

/// The answer of `dup(old_fd)`: the lowest number from `old_fd` up that the
/// caller has not open (the next number without a caller); nothing is
/// opened.
pub open spec fn dup_result(k: Kernel, old_fd: usize, r: Result<usize, Errno>) -> bool {
    if old_fd >= N_PROC * 4 {
        r == Err::<usize, Errno>(Errno::Ebadf)
    } else {
        match k.current() {
            Some(h) => r matches Ok(n) && is_lowest_free_from(k.tasks.arena@[h as int].files@, old_fd, n),
            None => r == Ok::<usize, Errno>((old_fd + 1) as usize),
        }
    }
}

/// The answer of `execve(path, argv, envp)` (no program is loaded).
pub open spec fn exec_result(path: usize, argv: usize, envp: usize) -> Result<usize, Errno> {
    if path == 0 {
        Err(Errno::Efault)
    } else if !user_range(path, 256) {
        Err(Errno::Efault)
    } else if argv != 0 && !user_range(argv, 512) {
        Err(Errno::Efault)
    } else if envp != 0 && !user_range(envp, 512) {
        Err(Errno::Efault)
    } else {
        Ok(0)
    }
}

/// Selects the pid of a registered task of group `pg` that has exited.
pub open spec fn done_in_group(arena: Seq<Task>, pg: i32) -> spec_fn((usize, usize)) -> Option<usize> {
    |e: (usize, usize)| if arena[e.1 as int].pgid == pg && arena[e.1 as int].info.status is Some {
        Some(arena[e.1 as int].pid.0)
    } else {
        None
    }
}

/// Selects the position of a registered task of group `pg`.
pub open spec fn in_group(arena: Seq<Task>, pg: i32) -> spec_fn((usize, usize)) -> Option<usize> {
    |e: (usize, usize)| if arena[e.1 as int].pgid == pg { Some(e.1) } else { None }
}

/// The answer of `wait4(pid, status, options, rusage)`, which reaps
/// nothing: any exited task (-1; the lowest id), the last exited task of
/// the caller's group (0), the given task if it has exited (positive), or
/// the first exited task of group `-pid`.
pub open spec fn wait4_result(k: Kernel, pid: isize, status: usize, options: usize, rusage: usize) -> Result<usize, Errno> {
    let wnohang = options & 1 != 0;
    let zombies = k.tasks.map@.filter_map(zombie_sel(k.tasks.arena@));
    if status != 0 && !user_range(status, 4) {
        Err(Errno::Efault)
    } else if rusage != 0 && !user_range(rusage, 144) {
        Err(Errno::Efault)
    } else if pid == -1 {
        if zombies.len() == 0 {
            if wnohang { Ok(0) } else { Err(Errno::Echild) }
        } else {
            Ok(zombies[0])
        }
    } else if pid == 0 {
        match k.current() {
            Some(h) => {
                let done = k.tasks.map@.filter_map(done_in_group(k.tasks.arena@, k.tasks.arena@[h as int].pgid));
                if done.len() > 0 {
                    Ok(done.last())
                } else if wnohang {
                    Ok(0)
                } else {
                    Err(Errno::Echild)
                }
            },
            None => Err(Errno::Echild),
        }
    } else if pid > 0 {
        match k.tasks.lookup(pid as usize) {
            Some(h) => if k.tasks.arena@[h as int].info.status is Some {
                Ok(pid as usize)
            } else if wnohang {
                Ok(0)
            } else {
                Err(Errno::Echild)
            },
            None => Err(Errno::Echild),
        }
    } else {
        let pg = (-pid) as i32;
        let group = k.tasks.map@.filter_map(in_group(k.tasks.arena@, pg));
        let done = k.tasks.map@.filter_map(done_in_group(k.tasks.arena@, pg));
        if group.len() == 0 {
            Err(Errno::Echild)
        } else if done.len() > 0 {
            Ok(done[0])
        } else if wnohang {
            Ok(0)
        } else {
            Err(Errno::Echild)
        }
    }
}

/// The answer of `fcntl(fd, cmd, arg)` at time `now`.
pub open spec fn fcntl_result(k: Kernel, fd: usize, cmd: usize, arg: usize) -> Result<usize, Errno> {
    let base = if fd > arg { fd } else { arg };
    if fd >= N_PROC * 4 {
        Err(Errno::Ebadf)
    } else if cmd == F_DUPFD {
        Ok((base + (k.clk & 3)) as usize)
    } else if cmd == F_DUPFD_CLOEXEC {
        Ok((base + 1) as usize)
    } else if cmd == F_GETFD {
        Ok(if chain_dirty(chain_of(k.cache, fd), fd) { FD_CLOEXEC } else { 0 })
    } else if cmd == F_SETFD {
        Ok(0)
    } else if cmd == F_GETFL {
        Ok(if fd <= 2 { O_NONBLOCK | O_APPEND } else { O_NONBLOCK })
    } else if cmd == F_SETFL {
        if arg & !(O_NONBLOCK | O_APPEND) != 0 { Err(Errno::Einval) } else { Ok(0) }
    } else if cmd == F_GETLK || cmd == F_SETLK || cmd == F_SETLKW {
        if !user_range(arg, 32) { Err(Errno::Efault) } else { Ok(0) }
    } else {
        Err(Errno::Einval)
    }
}

/// The answer of `getppid`: the id of the current task's parent, else 0.
pub open spec fn getppid_result(k: Kernel) -> usize {
    match k.current() {
        Some(h) => match k.tasks.arena@[h as int].parent {
            Some(p) => k.tasks.arena@[p as int].info.id,
            None => 0,
        },
        None => 0,
    }
}

/// The answer of `getpgid(pid)` (pid 0: the current task).
pub open spec fn getpgid_result(k: Kernel, pid: usize) -> Result<usize, Errno> {
    let target = if pid == 0 { current_id(k, 0) } else { pid };
    if target == 0 {
        Err(Errno::Esrch)
    } else {
        match k.tasks.lookup(target) {
            Some(h) => Ok(k.tasks.arena@[h as int].pgid as usize),
            None => Err(Errno::Esrch),
        }
    }
}

/// The answer of `epoll_create(size)`.
pub open spec fn epoll_create_result(size: usize) -> Result<usize, Errno> {
    if size == 0 {
        Err(Errno::Einval)
    } else if size * EP_EVENT_SZ > usize::MAX {
        Err(Errno::Enomem)
    } else {
        Ok((3 + size % 61) as usize)
    }
}

/// The answer of `epoll_ctl(epfd, op, fd, event)`.
pub open spec fn epoll_ctl_result(op: i32, ev: usize) -> Result<usize, Errno> {
    if ev != 0 && !user_range(ev, 12) {
        Err(Errno::Efault)
    } else if op == 1 || op == 3 {
        if ev == 0 { Err(Errno::Efault) } else { Ok(0) }
    } else if op == 2 {
        Ok(0)
    } else {
        Err(Errno::Einval)
    }
}

/// The answer of `epoll_wait(epfd, events, max, timeout)`.
pub open spec fn epoll_wait_result(events: usize, max: usize) -> Result<usize, Errno> {
    if events == 0 || max == 0 {
        Err(Errno::Einval)
    } else if !user_range(events, (max * EP_EVENT_SZ) as usize) {
        Err(Errno::Efault)
    } else {
        Ok(0)
    }
}

/// The answer of `clock_gettime(clk_id, tp)`.
pub open spec fn clock_result(clk_id: usize, tp: usize) -> Result<usize, Errno> {
    if tp == 0 {
        Err(Errno::Efault)
    } else if !user_range(tp, 16) {
        Err(Errno::Efault)
    } else if clk_id == 0 || clk_id == 1 || clk_id == 4 {
        Ok(0)
    } else {
        Err(Errno::Einval)
    }
}

/// The answer of `sigaction(signo, act, oldact)`: only `SIGKILL` and
/// `SIGSTOP` are accepted.
pub open spec fn sigaction_result(signo: usize, act: usize, oldact: usize) -> Result<usize, Errno> {
    if signo == 0 || signo >= NSIG {
        Err(Errno::Einval)
    } else if signo != SIGKILL && signo != SIGSTOP {
        Err(Errno::Einval)
    } else if act != 0 && !user_range(act, 32) {
        Err(Errno::Efault)
    } else if oldact != 0 && !user_range(oldact, 32) {
        Err(Errno::Efault)
    } else {
        Ok(0)
    }
}

/// `x`, capped at `cap`.
pub open spec fn capped(x: int, cap: int) -> int {
    if x < cap { x } else { cap }
}

/// The answer of `futex(uaddr, op, val, timeout, uaddr2, val3)`.
pub open spec fn futex_result(k: Kernel, uaddr: usize, op: usize, val: usize, timeout: usize, uaddr2: usize, val3: usize) -> Result<
    usize,
    Errno,
> {
    let fop = op & 0xF;
    if !user_range(uaddr, 4) {
        Err(Errno::Efault)
    } else if fop == 0 {
        if timeout != 0 && !user_range(timeout, 16) { Err(Errno::Efault) } else { Ok(0) }
    } else if fop == 1 {
        Ok(capped(if val == 0 { 1 } else { val as int }, k.tasks.map@.len() as int) as usize)
    } else if fop == 3 {
        if !user_range(uaddr2, 4) { Err(Errno::Efault) } else { Ok(capped(val + val3, 128) as usize) }
    } else if fop == 5 {
        if timeout == 0 || !user_range(timeout, 16) { Err(Errno::Efault) } else { Ok(0) }
    } else if fop == 9 {
        if !user_range(uaddr2, 4) { Err(Errno::Efault) } else { Ok((capped(val as int, 32) + capped(val3 as int, 32)) as usize) }
    } else {
        Err(Errno::Enosys)
    }
}

/// Page rounding stays in order and below its argument.
proof fn lemma_pfloor(a: usize, b: usize)
    ensures
        a <= b ==> pfloor(a) <= pfloor(b),
        pfloor(a) <= a,
        poff(a) <= a,
        poff(a) < 4096,
        pfloor(a) + poff(a) == a,
{
    crate::util::bitfacts::lemma_page_bits(a, b);
}

impl Kernel {
    /// `read(fd, buf, count)`.
    pub(crate) fn sys_read(&self, fd: usize, buf: usize, count: usize) -> (r: Result<usize, Errno>)
        requires
            self.wf(),
        ensures
            r == read_result(*self, fd, buf, count),
    {
        if buf == 0 && count > 0 {
            return Err(Errno::Efault);
        }
        if count == 0 {
            return Ok(0);
        }
        if !check_access(buf, count) {
            return Err(Errno::Efault);
        }
        let page_start = buf & !(PAGE_SZ - 1);
        let page_end = (buf + count) & !(PAGE_SZ - 1);
        proof { lemma_pfloor(buf, (buf + count) as usize); lemma_pfloor((buf + count) as usize, (buf + count) as usize); }
        let page_span = (page_end - page_start) / PAGE_SZ;
        let ci = fd % self.cache.width;
        let cached = self.cache.has_slot(ci, fd);
        if cached {
            assert(page_span <= KERN_BASE / 4096);
            let available = (page_span + 1) * PAGE_SZ;
            let transfer = if count < available { count } else { available };
            let readahead = if transfer > PAGE_SZ { PAGE_SZ } else { 0 };
            return Ok(transfer - readahead);
        }
        let max_single_read = PAGE_SZ * 16;
        if count > max_single_read {
            Ok(max_single_read)
        } else {
            Ok(count)
        }
    }

    /// `stat` / `fstat`.
    pub(crate) fn sys_stat(&self, nr: usize, a0: usize, stat_buf: usize) -> (r: Result<usize, Errno>)
        ensures
            r == stat_result(nr, a0, stat_buf),
    {
        if stat_buf == 0 {
            return Err(Errno::Efault);
        }
        if !check_access(stat_buf, 144) {
            return Err(Errno::Efault);
        }
        if nr == SYS_STAT {
            if !check_access(a0, 256) {
                return Err(Errno::Efault);
            }
        }
        Ok(0)
    }

    /// `mmap(addr, len, prot, flags, fd, offset)`: only the placement is
    /// computed.
    pub(crate) fn sys_mmap(&self, addr: usize, len: usize, flags: usize, fd: usize, offset: usize) -> (r: Result<usize, Errno>)
        requires
            self.wf(),
            mmap_fits(self.clk, addr, len, flags, fd),
        ensures
            r == mmap_result(*self, addr, len, flags, fd, offset),
    {
        if len == 0 {
            return Err(Errno::Einval);
        }
        let aligned_len = (len + PAGE_SZ - 1) & !(PAGE_SZ - 1);
        let aligned_off = offset & !(PAGE_SZ - 1);
        let map_anon = (flags & 0x20) != 0;
        let map_fixed = (flags & 0x10) != 0;
        let result_addr = if addr != 0 && map_fixed {
            addr
        } else {
            let base: usize = 0x7000_0000;
            let slot = (self.clk * 4096 + fd * PAGE_SZ) % (KERN_BASE - base - aligned_len);
            (base + slot) & !(PAGE_SZ - 1)
        };
        let pages_needed = aligned_len / PAGE_SZ;
        let avail = self.pool.free_count();
        if avail < pages_needed {
            return Err(Errno::Enomem);
        }
        if !map_anon && aligned_off > aligned_len {
            return Err(Errno::Einval);
        }
        Ok(result_addr)
    }

    /// `munmap(addr, len)`: the pages are only walked.
    pub(crate) fn sys_munmap(&self, addr: usize, len: usize) -> (r: Result<usize, Errno>)
        requires
            addr % PAGE_SZ == 0 ==> len + PAGE_SZ <= usize::MAX && (page_round(len) > 0 ==> addr + page_round(len)
                - PAGE_SZ <= usize::MAX),
        ensures
            r == munmap_result(addr),
    {
        if addr % PAGE_SZ != 0 {
            return Err(Errno::Einval);
        }
        let aligned_len = (len + PAGE_SZ - 1) & !(PAGE_SZ - 1);
        let pages = aligned_len / PAGE_SZ;
        let mut i: usize = 0;
        while i < pages
            invariant
                i <= pages,
                pages == aligned_len / PAGE_SZ,
                aligned_len == page_round(len),
                aligned_len > 0 ==> addr + aligned_len - PAGE_SZ <= usize::MAX,
            decreases pages - i,
        {
            assert(i * PAGE_SZ <= aligned_len - PAGE_SZ) by (nonlinear_arith)
                requires
                    i < pages,
                    pages == aligned_len / 4096,
                    aligned_len >= 0,
            ;
            let _va = addr + i * PAGE_SZ;
            i += 1;
        }
        Ok(0)
    }

    /// `ioctl(fd, cmd, arg)`.
    pub(crate) fn sys_ioctl(&self, cmd: usize, arg: usize) -> (r: Result<usize, Errno>)
        ensures
            r == ioctl_result(cmd, arg),
    {
        if cmd == TCGETS || cmd == TCSETS {
            if !check_access(arg, TRMIO_SZ) {
                return Err(Errno::Efault);
            }
            Ok(0)
        } else if cmd == TIOCGPGRP || cmd == TIOCSPGRP {
            if !check_access(arg, 4) {
                return Err(Errno::Efault);
            }
            Ok(0)
        } else if cmd == TIOCGWINSZ {
            if !check_access(arg, WINSZ_SZ) {
                return Err(Errno::Efault);
            }
            Ok(0)
        } else if cmd == FIONCLEX || cmd == FIOCLEX {
            Ok(0)
        } else if cmd == FIONBIO {
            if !check_access(arg, 4) {
                return Err(Errno::Efault);
            }
            Ok(0)
        } else {
            Err(Errno::Enotty)
        }
    }

    /// `dup(old_fd)`.
    pub(crate) fn sys_dup(&self, old_fd: usize) -> (r: Result<usize, Errno>)
        requires
            self.wf(),
            self.current() matches Some(h) ==> self.tasks.arena@[h as int].files@.len() + N_PROC * 4 < usize::MAX,
        ensures
            dup_result(*self, old_fd, r),
    {
        if old_fd >= N_PROC * 4 {
            return Err(Errno::Ebadf);
        }
        match self.cur_task(0) {
            Some(h) => {
                proof { lemma_free_fd_exists_from(self.tasks.arena@[h as int].files@, old_fd); }
                Ok(lowest_free_from(&self.tasks.arena[h].files, old_fd))
            },
            None => Ok(old_fd + 1),
        }
    }

    /// `execve(path, argv, envp)`.
    pub(crate) fn sys_exec(&self, path: usize, argv: usize, envp: usize) -> (r: Result<usize, Errno>)
        ensures
            r == exec_result(path, argv, envp),
    {
        if path == 0 {
            return Err(Errno::Efault);
        }
        if !check_access(path, 256) {
            return Err(Errno::Efault);
        }
        if argv != 0 && !check_access(argv, 8 * 64) {
            return Err(Errno::Efault);
        }
        if envp != 0 && !check_access(envp, 8 * 64) {
            return Err(Errno::Efault);
        }
        Ok(0)
    }

    /// `fcntl(fd, cmd, arg)`.
    pub(crate) fn sys_fcntl(&self, fd: usize, cmd: usize, arg: usize) -> (r: Result<usize, Errno>)
        requires
            self.wf(),
            cmd == F_DUPFD ==> arg + (self.clk & 3) <= usize::MAX,
            cmd == F_DUPFD_CLOEXEC ==> arg < usize::MAX,
        ensures
            r == fcntl_result(*self, fd, cmd, arg),
    {
        if fd >= N_PROC * 4 {
            return Err(Errno::Ebadf);
        }
        let base = if fd > arg { fd } else { arg };
        if cmd == F_DUPFD {
            let c = self.clk;
            let low = c & 0x3;
            assert(low <= 3) by (bit_vector)
                requires
                    low == c & 0x3,
            ;
            Ok(base + low)
        } else if cmd == F_DUPFD_CLOEXEC {
            Ok(base + 1)
        } else if cmd == F_GETFD {
            let ci = fd % self.cache.width;
            let cloexec = self.cache.has_dirty_slot(ci, fd);
            Ok(if cloexec { FD_CLOEXEC } else { 0 })
        } else if cmd == F_SETFD {
            Ok(0)
        } else if cmd == F_GETFL {
            Ok(if fd <= 2 { O_NONBLOCK | O_APPEND } else { O_NONBLOCK })
        } else if cmd == F_SETFL {
            let valid_mask = O_NONBLOCK | O_APPEND;
            if arg & !valid_mask != 0 {
                return Err(Errno::Einval);
            }
            Ok(0)
        } else if cmd == F_GETLK || cmd == F_SETLK || cmd == F_SETLKW {
            if !check_access(arg, 32) {
                return Err(Errno::Efault);
            }
            Ok(0)
        } else {
            Err(Errno::Einval)
        }
    }

    /// `getpid`: the current task's id, else 1.
    pub(crate) fn sys_getpid(&self) -> (r: usize)
        requires
            self.wf(),
        ensures
            r == current_id(*self, 1),
    {
        match self.cur_task(0) {
            Some(h) => self.tasks.arena[h].info.id,
            None => 1,
        }
    }

    /// `getppid`.
    pub(crate) fn sys_getppid(&self) -> (r: usize)
        requires
            self.wf(),
        ensures
            r == getppid_result(*self),
    {
        match self.cur_task(0) {
            Some(h) => {
                assert(crate::task_table::links_ok(self.tasks.arena@[h as int], self.tasks.arena@.len() as int));
                match self.tasks.arena[h].parent {
                    Some(p) => self.tasks.arena[p].info.id,
                    None => 0,
                }
            },
            None => 0,
        }
    }

    /// `getpgid(pid)`.
    pub(crate) fn sys_getpgid(&self, pid: usize) -> (r: Result<usize, Errno>)
        requires
            self.wf(),
        ensures
            r == getpgid_result(*self, pid),
    {
        let target = if pid == 0 {
            match self.cur_task(0) {
                Some(h) => self.tasks.arena[h].info.id,
                None => 0,
            }
        } else {
            pid
        };
        if target == 0 {
            return Err(Errno::Esrch);
        }
        match self.tasks.find(target) {
            Some(h) => {
                proof {
                    let i = choose|i: int| 0 <= i < self.tasks.map@.len() && #[trigger] self.tasks.map@[i].0 == target;
                    lemma_sorted_unique(self.tasks.map@);
                    crate::files::lemma_fd_obj_at(self.tasks.map@, i);
                }
                Ok(self.tasks.arena[h].pgid as usize)
            },
            None => Err(Errno::Esrch),
        }
    }

    /// `epoll_create(size)`.
    pub(crate) fn sys_epoll_create(&self, size: usize) -> (r: Result<usize, Errno>)
        ensures
            r == epoll_create_result(size),
    {
        if size == 0 {
            return Err(Errno::Einval);
        }
        let epfd = 3 + (size % 61);
        match size.checked_mul(EP_EVENT_SZ) {
            None => Err(Errno::Enomem),
            Some(_) => Ok(epfd),
        }
    }

    /// `epoll_ctl(epfd, op, fd, event)`.
    pub(crate) fn sys_epoll_ctl(&self, op: i32, ev: usize) -> (r: Result<usize, Errno>)
        ensures
            r == epoll_ctl_result(op, ev),
    {
        if ev != 0 && !check_access(ev, 12) {
            return Err(Errno::Efault);
        }
        if op == 1 || op == 3 {
            if ev == 0 {
                return Err(Errno::Efault);
            }
            Ok(0)
        } else if op == 2 {
            Ok(0)
        } else {
            Err(Errno::Einval)
        }
    }

    /// `epoll_wait(epfd, events, max, timeout)`: nothing is ever ready.
    pub(crate) fn sys_epoll_wait(&self, events: usize, max: usize, timeout: i32) -> (r: Result<usize, Errno>)
        requires
            events != 0 && max != 0 ==> max * EP_EVENT_SZ <= usize::MAX,
            events != 0 && max != 0 && user_range(events, (max * EP_EVENT_SZ) as usize) && timeout > 0 ==> timeout
                * TIMER_TICK_HZ <= usize::MAX && self.clk + timeout * TIMER_TICK_HZ / 1000 <= usize::MAX,
        ensures
            r == epoll_wait_result(events, max),
    {
        if events == 0 || max == 0 {
            return Err(Errno::Einval);
        }
        let total_buf = max * EP_EVENT_SZ;
        if total_buf / EP_EVENT_SZ != max {
            return Err(Errno::Einval);
        }
        if !check_access(events, total_buf) {
            return Err(Errno::Efault);
        }
        if timeout == 0 {
            return Ok(0);
        }
        if timeout > 0 {
            let ticks_to_wait = (timeout as usize) * TIMER_TICK_HZ / 1000;
            let deadline = self.clk + ticks_to_wait;
            if self.clk >= deadline {
                return Ok(0);
            }
        }
        Ok(0)
    }

    /// `clock_gettime(clk_id, tp)`.
    pub(crate) fn sys_clock_gettime(&self, clk_id: usize, tp: usize) -> (r: Result<usize, Errno>)
        ensures
            r == clock_result(clk_id, tp),
    {
        if tp == 0 {
            return Err(Errno::Efault);
        }
        if !check_access(tp, 16) {
            return Err(Errno::Efault);
        }
        if clk_id == 0 || clk_id == 1 || clk_id == 4 {
            Ok(0)
        } else {
            Err(Errno::Einval)
        }
    }

    /// `sigaction(signo, act, oldact)`.
    pub(crate) fn sys_sigaction(&self, signo: usize, act: usize, oldact: usize) -> (r: Result<usize, Errno>)
        ensures
            r == sigaction_result(signo, act, oldact),
    {
        if signo == 0 || signo >= NSIG as usize {
            return Err(Errno::Einval);
        }
        if signo != SIGKILL as usize && signo != SIGSTOP as usize {
            return Err(Errno::Einval);
        }
        if act != 0 && !check_access(act, 32) {
            return Err(Errno::Efault);
        }
        if oldact != 0 && !check_access(oldact, 32) {
            return Err(Errno::Efault);
        }
        Ok(0)
    }

    /// `futex(uaddr, op, val, timeout, uaddr2, val3)`: waits and wakes are
    /// only counted.
    pub(crate) fn sys_futex(&self, uaddr: usize, op: usize, val: usize, timeout: usize, uaddr2: usize, val3: usize) -> (r:
        Result<usize, Errno>)
        requires
            op & 0xF == 3 && user_range(uaddr, 4) && user_range(uaddr2, 4) ==> val + val3 <= usize::MAX,
        ensures
            r == futex_result(*self, uaddr, op, val, timeout, uaddr2, val3),
    {
        if !check_access(uaddr, 4) {
            return Err(Errno::Efault);
        }
        let futex_op = op & 0xF;
        if futex_op == 0 {
            if timeout != 0 && !check_access(timeout, 16) {
                return Err(Errno::Efault);
            }
            Ok(0)
        } else if futex_op == 1 {
            let wake_count = if val == 0 { 1 } else { val };
            let n = self.tasks.count();
            Ok(if wake_count < n { wake_count } else { n })
        } else if futex_op == 3 {
            if !check_access(uaddr2, 4) {
                return Err(Errno::Efault);
            }
            let total = val + val3;
            Ok(if total < 128 { total } else { 128 })
        } else if futex_op == 5 {
            if timeout == 0 {
                return Err(Errno::Efault);
            }
            if !check_access(timeout, 16) {
                return Err(Errno::Efault);
            }
            Ok(0)
        } else if futex_op == 9 {
            if !check_access(uaddr2, 4) {
                return Err(Errno::Efault);
            }
            let move_count = if val3 < 32 { val3 } else { 32 };
            let wake_count = if val < 32 { val } else { 32 };
            Ok(wake_count + move_count)
        } else {
            Err(Errno::Enosys)
        }
    }
    /// `wait4(pid, status, options, rusage)`; nothing is reaped.
    pub(crate) fn sys_wait4(&self, pid: isize, status: usize, options: usize, rusage: usize) -> (r: Result<usize, Errno>)
        requires
            self.wf(),
            pid != isize::MIN,
        ensures
            r == wait4_result(*self, pid, status, options, rusage),
    {
        if status != 0 && !check_access(status, 4) {
            return Err(Errno::Efault);
        }
        if rusage != 0 && !check_access(rusage, 144) {
            return Err(Errno::Efault);
        }
        let wnohang = (options & 1) != 0;
        if pid == -1 {
            let zombies = self.tasks.zombie_tasks();
            if zombies.len() == 0 {
                return if wnohang { Ok(0) } else { Err(Errno::Echild) };
            }
            return Ok(zombies[0]);
        }
        let pg: i32 = if pid == 0 {
            match self.cur_task(0) {
                Some(h) => self.tasks.arena[h].pgid,
                None => { return Err(Errno::Echild); },
            }
        } else if pid > 0 {
            return match self.tasks.find(pid as usize) {
                Some(h) => {
                    proof {
                        let i = choose|i: int| 0 <= i < self.tasks.map@.len() && #[trigger] self.tasks.map@[i].0 == pid as usize;
                        lemma_sorted_unique(self.tasks.map@);
                        crate::files::lemma_fd_obj_at(self.tasks.map@, i);
                    }
                    if self.tasks.arena[h].done() {
                        Ok(pid as usize)
                    } else if wnohang {
                        Ok(0)
                    } else {
                        Err(Errno::Echild)
                    }
                },
                None => Err(Errno::Echild),
            };
        } else {
            (-pid) as i32
        };
        let ghost a = self.tasks.arena@;
        let ghost m = self.tasks.map@;
        let mut first: Option<usize> = None;
        let mut last: Option<usize> = None;
        let mut any = false;
        let mut i: usize = 0;
        while i < self.tasks.map.len()
            invariant
                self.wf(),
                a == self.tasks.arena@,
                m == self.tasks.map@,
                i <= m.len(),
                ({
                    let d = m.take(i as int).filter_map(done_in_group(a, pg));
                    &&& first == if d.len() > 0 { Some(d[0]) } else { None }
                    &&& last == if d.len() > 0 { Some(d.last()) } else { None }
                }),
                any == (m.take(i as int).filter_map(in_group(a, pg)).len() > 0),
            decreases m.len() - i,
        {
            let h = self.tasks.map[i].1;
            assert(m[i as int].1 < a.len());
            assert(m.take(i + 1).drop_last() =~= m.take(i as int));
            let t = &self.tasks.arena[h];
            if t.pgid == pg {
                any = true;
                if t.done() {
                    if first.is_none() {
                        first = Some(t.pid.0);
                    }
                    last = Some(t.pid.0);
                }
            }
            i += 1;
        }
        assert(m.take(i as int) =~= m);
        if pid == 0 {
            match last {
                Some(id) => Ok(id),
                None => if wnohang { Ok(0) } else { Err(Errno::Echild) },
            }
        } else {
            if !any {
                return Err(Errno::Echild);
            }
            match first {
                Some(id) => Ok(id),
                None => if wnohang { Ok(0) } else { Err(Errno::Echild) },
            }
        }
    }
}

} // verus!
