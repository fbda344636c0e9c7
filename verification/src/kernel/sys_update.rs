use vstd::prelude::*;
use crate::config::{
    KERN_BASE, N_FRAMES, N_PROC, O_APPEND, O_NONBLOCK, PAGE_SZ, SIGCHLD, SIGKILL, SIGSTOP, NSIG,
};
use crate::errno::Errno;
use crate::files::{FLike, FHandle, FdOpt, PipeNode, dup_of, fds_unique, has_fd, fd_obj, fd_map, is_lowest_free_from,
    lemma_fd_obj_at, find_fd, fd_insert, fd_remove};
use crate::fs::audit::bump;
use crate::kernel::cache::{BlockCache, CacheSlot, Disk, chain_has, marked, not_of};
use crate::kernel::state::{Kernel, lemma_tasks_changed_wf};
use crate::kernel::sys_query::{pfloor, poff, chain_of, current_id};
use crate::mm::access::{check_access, user_range};
use crate::mm::frame::{FramePool, frame_alloc, count_free, first_in_scan, scan_origin, cyclic};
use crate::task::Task;
use crate::task_table::{TaskTable, links_ok, signalled, signalled_all, exit_task_post, pgid_sel, occurrences,
    lemma_update_wf, lemma_sorted_unique};

verus! {

/// The bytes `write(fd, buf, count)` reports: the count, plus the offset
/// into the first page when the write crosses a page.
pub open spec fn write_len(buf: usize, count: usize) -> usize {
    if count <= 4096 - poff(buf) { count } else { (count + poff(buf)) as usize }
}

/// The disk after an operation that counts only when `counted`.
pub open spec fn disk_after(d: Disk, counted: bool) -> Disk {
    Disk { ops: if counted { bump(d.ops) } else { d.ops }, ..d }
}

/// `n` is `k` after `write(fd, buf, count)` answered `r`: the first cached
/// block of `fd` turns dirty and a write to a standard descriptor counts as
/// a disk operation.
pub open spec fn write_post(k: Kernel, n: Kernel, fd: usize, buf: usize, count: usize, r: Result<usize, Errno>) -> bool {
    if buf == 0 && count > 0 {
        r == Err::<usize, Errno>(Errno::Efault) && n == k
    } else if count == 0 {
        r == Ok::<usize, Errno>(0) && n == k
    } else if !user_range(buf, count) {
        r == Err::<usize, Errno>(Errno::Efault) && n == k
    } else {
        &&& r == Ok::<usize, Errno>(write_len(buf, count))
        &&& n.cache.width == k.cache.width
        &&& n.cache.slots().len() == k.cache.slots().len()
        &&& marked(chain_of(k.cache, fd), chain_of(n.cache, fd), fd)
        &&& forall|i: int|
            0 <= i < k.cache.slots().len() && i != fd % k.cache.width ==> #[trigger] n.cache.slots()[i]
                == k.cache.slots()[i]
        &&& n.disk == disk_after(k.disk, fd <= 2)
        &&& n == (Kernel { cache: n.cache, disk: n.disk, ..k })
    }
}

/// The options `open` gives a file for `flags`.
pub open spec fn open_opt(flags: usize) -> FdOpt {
    let acc = flags & 3;
    FdOpt { rd: acc == 0 || acc == 2, wr: acc == 1 || acc == 2, ap: flags & O_APPEND != 0, nb: flags & O_NONBLOCK != 0 }
}

/// `n` is table `o` with the task at `h` replaced by `t`.
pub open spec fn task_replaced(o: Kernel, n: Kernel, h: int, t: Task) -> bool {
    &&& n.tasks.arena@ == o.tasks.arena@.update(h, t)
    &&& n == (Kernel { tasks: TaskTable { arena: n.tasks.arena, ..o.tasks }, ..o })
}

/// `n` is `k` after `open(path, flags, mode)` answered `r`: the caller gets
/// a new anonymous file at its lowest free descriptor (without a caller the
/// answer is a made-up descriptor).
pub open spec fn open_post(k: Kernel, n: Kernel, path: usize, flags: usize, r: Result<usize, Errno>) -> bool {
    let excl = flags & 0o200 != 0;
    if path == 0 || !user_range(path, 256) {
        r == Err::<usize, Errno>(Errno::Efault) && n == k
    } else if flags & 0o100 != 0 && excl && chain_has(chain_of(k.cache, path), path) {
        r == Err::<usize, Errno>(Errno::Eexist) && n == k
    } else {
        match k.current() {
            Some(h) => {
                let o = k.tasks.arena@[h as int];
                let t = n.tasks.arena@[h as int];
                &&& r matches Ok(fd) && is_lowest_free_from(o.files@, 0, fd) && t.files@.len() == o.files@.len() + 1
                    && t.files@.drop_last() == o.files@ && t.files@.last().0 == fd
                &&& t.files@.last().1 matches FLike::File(fh) && fh.path@ == "anon"@ && fh.opt == open_opt(flags)
                    && !fh.cloexec && fh.excl == excl && fh.size == 0
                &&& t == (Task { files: t.files, ..o })
                &&& task_replaced(k, n, h as int, t)
            },
            None => r == Ok::<usize, Errno>((3 + path % 64) as usize) && n == k,
        }
    }
}

/// `n` is `k` after `close(fd)` answered `r`: the cached blocks of `fd` are
/// dropped, which counts as a disk operation when there were some.
pub open spec fn close_post(k: Kernel, n: Kernel, fd: usize, r: Result<usize, Errno>) -> bool {
    if fd > N_PROC * 4 {
        r == Err::<usize, Errno>(Errno::Ebadf) && n == k
    } else {
        &&& r == Ok::<usize, Errno>(0)
        &&& n.cache.width == k.cache.width
        &&& n.cache.slots() == k.cache.slots().update(
            (fd % k.cache.width) as int,
            chain_of(k.cache, fd).filter(not_of(fd)),
        )
        &&& n.disk == disk_after(k.disk, chain_has(chain_of(k.cache, fd), fd))
        &&& n == (Kernel { cache: n.cache, disk: n.disk, ..k })
    }
}

/// The pool after taking a frame by a cyclic scan from `now`.
pub open spec fn scan_take(s: Seq<bool>, now: usize) -> Seq<bool> {
    if exists|j: int| 0 <= j < s.len() && s[j] {
        let st = scan_origin(s, now);
        let o = choose|o: int| #[trigger] first_in_scan(s, st, o);
        s.update(cyclic(s.len() as int, st, o), false)
    } else {
        s
    }
}

/// The pool after `n` such takes.
pub open spec fn scan_take_n(s: Seq<bool>, now: usize, n: nat) -> Seq<bool>
    decreases n,
{
    if n == 0 { s } else { scan_take(scan_take_n(s, now, (n - 1) as nat), now) }
}

/// `n` is `k` after `brk(new_brk)` answered `r`: the caller's break moves
/// to the page-rounded request, taking a frame for every page it grows by.
pub open spec fn brk_post(k: Kernel, n: Kernel, new_brk: usize, r: Result<usize, Errno>) -> bool {
    if new_brk == 0 {
        r == Ok::<usize, Errno>(0x0040_0000) && n == k
    } else if new_brk >= KERN_BASE {
        r == Err::<usize, Errno>(Errno::Enomem) && n == k
    } else {
        let al = pfloor((new_brk + PAGE_SZ - 1) as usize);
        match k.current() {
            None => r == Ok::<usize, Errno>(al) && n == k,
            Some(h) => {
                let o = k.tasks.arena@[h as int];
                let grow = if al > o.vm_token { (al - o.vm_token) / (PAGE_SZ as int) } else { 0 };
                if count_free(k.pool@) < grow {
                    r == Err::<usize, Errno>(Errno::Enomem) && n == k
                } else {
                    &&& r == Ok::<usize, Errno>(al)
                    &&& n.pool.cap == k.pool.cap
                    &&& n.pool@ == scan_take_n(k.pool@, k.clk, grow as nat)
                    &&& n.tasks.arena@ == k.tasks.arena@.update(h as int, Task { vm_token: al, ..o })
                    &&& n == (Kernel {
                        pool: n.pool,
                        tasks: TaskTable { arena: n.tasks.arena, ..k.tasks },
                        ..k
                    })
                }
            },
        }
    }
}

/// `n` is `k` after `pipe(fds, flags)` answered `r`: the caller gets the
/// reading end at its lowest free descriptor and the writing end at the
/// next, answered packed as `read | write << 32`.
pub open spec fn pipe_post(k: Kernel, n: Kernel, fds: usize, r: Result<usize, Errno>) -> bool {
    if fds == 0 || !user_range(fds, 8) {
        r == Err::<usize, Errno>(Errno::Efault) && n == k
    } else {
        match k.current() {
            None => r == Err::<usize, Errno>(Errno::Esrch) && n == k,
            Some(h) => {
                let o = k.tasks.arena@[h as int];
                let t = n.tasks.arena@[h as int];
                if o.files@.len() + 2 > N_PROC {
                    r == Err::<usize, Errno>(Errno::Emfile) && n == k
                } else {
                    exists|rd: usize, wr: usize|
                        {
                            &&& is_lowest_free_from(o.files@, 0, rd)
                            &&& is_lowest_free_from(o.files@.push((rd, FLike::Pipe(PipeNode { read_end: true }))), 0, wr)
                            &&& t.files@ == o.files@.push((rd, FLike::Pipe(PipeNode { read_end: true }))).push(
                                (wr, FLike::Pipe(PipeNode { read_end: false })),
                            )
                            &&& r == Ok::<usize, Errno>(rd | (wr << 32))
                        }
                        && t == (Task { files: t.files, ..o }) && task_replaced(k, n, h as int, t)
                }
            },
        }
    }
}

/// `n` is `k` after `dup2(old_fd, new_fd)` answered `r`: the caller's
/// `new_fd` is closed, then made a duplicate of `old_fd` (close-on-exec
/// off) when that is open; `Ebadf` otherwise, with `new_fd` still closed.
pub open spec fn dup2_post(k: Kernel, n: Kernel, old_fd: usize, new_fd: usize, r: Result<usize, Errno>) -> bool {
    if old_fd >= N_PROC * 4 || new_fd >= N_PROC * 4 {
        r == Err::<usize, Errno>(Errno::Ebadf) && n == k
    } else if old_fd == new_fd {
        r == Ok::<usize, Errno>(new_fd) && n == k
    } else {
        match k.current() {
            None => r == Ok::<usize, Errno>(new_fd) && n == k,
            Some(h) => {
                let o = k.tasks.arena@[h as int];
                let t = n.tasks.arena@[h as int];
                &&& t == (Task { files: t.files, ..o })
                &&& task_replaced(k, n, h as int, t)
                &&& fds_unique(t.files@)
                &&& has_fd(o.files@, old_fd) ==> r == Ok::<usize, Errno>(new_fd) && fd_map(t.files@) == fd_map(
                    o.files@,
                ).insert(new_fd, dup_of(fd_obj(o.files@, old_fd), false))
                &&& !has_fd(o.files@, old_fd) ==> r == Err::<usize, Errno>(Errno::Ebadf) && fd_map(t.files@)
                    == fd_map(o.files@).remove(new_fd)
            },
        }
    }
}

/// `n` is `k` after `fork()` answered `r`: an id is drawn (the counter
/// moves on even when the answer is `Enomem`); no task is made.
pub open spec fn fork_post(k: Kernel, n: Kernel, r: Result<usize, Errno>) -> bool {
    let free = count_free(k.pool@);
    let cost = (if free < 256 { free } else { 256 }) + k.tasks.map@.len() * 2;
    let ratio = (N_FRAMES - free) * 100 / (N_FRAMES as int);
    &&& n == (Kernel { tasks: TaskTable { seq: crate::task_table::next_id(k.tasks.seq), ..k.tasks }, ..k })
    &&& r == if ratio > 90 {
        Err::<usize, Errno>(Errno::Enomem)
    } else if free < cost / (PAGE_SZ as nat) {
        Err::<usize, Errno>(Errno::Enomem)
    } else {
        Ok::<usize, Errno>(k.tasks.seq)
    }
}

/// `n` is table `o` with one signal `signo` from `sender` queued on the task
/// at `p` (when there is one).
pub open spec fn notified(o: TaskTable, n: TaskTable, p: Option<usize>, signo: i32, sender: isize) -> bool {
    match p {
        None => n == o,
        Some(q) => signalled_all(o, n, seq![q], signo, sender),
    }
}

/// `n` is table `o` with the tasks at `ch` handed to the task at `ini`
/// (when there is one).
pub open spec fn handed_over(o: TaskTable, n: TaskTable, ch: Seq<usize>, ini: Option<usize>) -> bool {
    match ini {
        None => n == o,
        Some(i) => {
            &&& n.wf()
            &&& n.map@ == o.map@ && n.seq == o.seq && n.root == o.root
            &&& n.arena@.len() == o.arena@.len()
            &&& forall|j: int|
                #![trigger n.arena@[j]]
                0 <= j < o.arena@.len() ==> {
                    &&& n.arena@[j].parent == if ch.contains(j as usize) { Some(i) } else { o.arena@[j].parent }
                    &&& n.arena@[j].subtasks@ == if j == i { o.arena@[j].subtasks@ + ch } else { o.arena@[j].subtasks@ }
                    &&& n.arena@[j] == (Task { parent: n.arena@[j].parent, subtasks: n.arena@[j].subtasks, ..o.arena@[j] })
                }
        },
    }
}

/// `n` is `k` after `exit(status)` answered 0: the caller exits (see
/// `exit_task_post`), its parent is sent `SIGCHLD` from it, and its
/// children go to the task registered as pid 1.
pub open spec fn exit_post(k: Kernel, n: Kernel, status: usize, r: Result<usize, Errno>) -> bool {
    &&& r == Ok::<usize, Errno>(0)
    &&& match k.current() {
        None => n == k,
        Some(h) => {
            let o = k.tasks.arena@[h as int];
            &&& exists|t1: TaskTable, t2: TaskTable|
                exit_task_post(k.tasks, t1, h as int, status) && notified(
                    t1,
                    t2,
                    o.parent,
                    SIGCHLD as i32,
                    o.info.id as isize,
                ) && handed_over(t2, n.tasks, o.subtasks@, k.tasks.lookup(1))
            &&& n == (Kernel { tasks: n.tasks, ..k })
        },
    }
}

/// Selects the position of a registered task without an exit status and
/// with an id above 1.
pub open spec fn killable_sel(arena: Seq<Task>) -> spec_fn((usize, usize)) -> Option<usize> {
    |e: (usize, usize)| if arena[e.1 as int].info.status is None && e.0 > 1 { Some(e.1) } else { None }
}

/// `n` is `k` after `kill(pid, sig)` answered `r`.
pub open spec fn kill_post(k: Kernel, n: Kernel, pid: isize, sig: usize, r: Result<usize, Errno>) -> bool {
    let target = if pid < 0 { -pid } else { pid as int };
    if sig > NSIG {
        r == Err::<usize, Errno>(Errno::Einval) && n == k
    } else if (sig == SIGKILL || sig == SIGSTOP) && target <= 1 {
        r == Err::<usize, Errno>(Errno::Eperm) && n == k
    } else if pid == 0 {
        match k.current() {
            None => r == Ok::<usize, Errno>(0) && n == k,
            Some(h) => {
                let g = k.tasks.map@.filter_map(pgid_sel(k.tasks.arena@, k.tasks.arena@[h as int].pgid));
                r == Ok::<usize, Errno>(g.len() as usize) && signalled_all(k.tasks, n.tasks, g, sig as i32, -1isize)
                    && n == (Kernel { tasks: n.tasks, ..k })
            },
        }
    } else if pid == -1 {
        let hs = k.tasks.map@.filter_map(killable_sel(k.tasks.arena@));
        &&& r == if hs.len() == 0 { Err::<usize, Errno>(Errno::Esrch) } else { Ok::<usize, Errno>(hs.len() as usize) }
        &&& signalled_all(k.tasks, n.tasks, hs, sig as i32, -1isize)
        &&& n == (Kernel { tasks: n.tasks, ..k })
    } else if pid > 0 {
        match k.tasks.lookup(pid as usize) {
            None => r == Err::<usize, Errno>(Errno::Esrch) && n == k,
            Some(h) => if k.tasks.arena@[h as int].info.status is Some && sig != 0 {
                r == Err::<usize, Errno>(Errno::Esrch) && n == k
            } else {
                r == Ok::<usize, Errno>(0) && signalled_all(k.tasks, n.tasks, seq![h], sig as i32, -1isize) && n == (
                Kernel { tasks: n.tasks, ..k })
            },
        }
    } else {
        let g = k.tasks.map@.filter_map(pgid_sel(k.tasks.arena@, (-pid) as i32));
        &&& r == if g.len() == 0 { Err::<usize, Errno>(Errno::Esrch) } else { Ok::<usize, Errno>(g.len() as usize) }
        &&& signalled_all(k.tasks, n.tasks, g, sig as i32, -1isize)
        &&& n == (Kernel { tasks: n.tasks, ..k })
    }
}

/// `kill(pid, sig)` with a positive pid (not 1 for SIGKILL or SIGSTOP) and a
/// signal number from 1 to `NSIG`: a registered task without an exit status
/// gets `(sig, -1)` queued once and the answer is 0, every other task
/// unchanged; a registered task with an exit status is refused with `Esrch`
/// and nothing changes.
pub proof fn law_kill_signals_live_task(k: Kernel, n: Kernel, pid: isize, sig: usize, r: Result<usize, Errno>, h: usize)
    requires
        k.wf(),
        kill_post(k, n, pid, sig, r),
        pid > 0,
        1 <= sig <= NSIG,
        !((sig == SIGKILL || sig == SIGSTOP) && pid <= 1),
        k.tasks.lookup(pid as usize) == Some(h),
    ensures
        k.tasks.arena@[h as int].info.status is None ==> {
            &&& r == Ok::<usize, Errno>(0)
            &&& n.tasks.arena@.len() == k.tasks.arena@.len()
            &&& n.tasks.arena@[h as int].sig_queue@ == k.tasks.arena@[h as int].sig_queue@.push((sig as i32, -1isize))
            &&& forall|j: int|
                0 <= j < k.tasks.arena@.len() && j != h ==> #[trigger] n.tasks.arena@[j].sig_queue@ == k.tasks.arena@[j].sig_queue@
                    && n.tasks.arena@[j] == (Task { sig_queue: n.tasks.arena@[j].sig_queue, ..k.tasks.arena@[j] })
        },
        k.tasks.arena@[h as int].info.status is Some ==> r == Err::<usize, Errno>(Errno::Esrch) && n == k,
{
    if k.tasks.arena@[h as int].info.status is None {
        let hs = seq![h];
        assert(hs.drop_last() =~= Seq::<usize>::empty());
        assert(hs.last() == h);
        reveal_with_fuel(occurrences, 2);
        assert(occurrences(hs, h) == 1);
        assert forall|j: int| 0 <= j < k.tasks.arena@.len() && j != h implies #[trigger] n.tasks.arena@[j].sig_queue@ == k.tasks.arena@[j].sig_queue@
            && n.tasks.arena@[j] == (Task { sig_queue: n.tasks.arena@[j].sig_queue, ..k.tasks.arena@[j] }) by {
            reveal_with_fuel(occurrences, 2);
            assert(k.tasks.arena@.len() == k.tasks.arena.len());
            assert((j as usize) != h);
            assert(occurrences(hs, j as usize) == 0);
            assert(signalled(n.tasks.arena@[j], k.tasks.arena@[j], sig as i32, -1isize, 0));
            assert(k.tasks.arena@[j].sig_queue@ + Seq::new(0, |i: int| (sig as i32, -1isize)) =~= k.tasks.arena@[j].sig_queue@);
        }
        assert(h < k.tasks.arena@.len()) by {
            let ghost m = k.tasks.map@;
            let i = choose|i: int| 0 <= i < m.len() && #[trigger] m[i].0 == pid as usize;
        }
        assert(signalled(n.tasks.arena@[h as int], k.tasks.arena@[h as int], sig as i32, -1isize, 1));
        assert(k.tasks.arena@[h as int].sig_queue@ + Seq::new(1, |i: int| (sig as i32, -1isize)) =~= k.tasks.arena@[
            h as int].sig_queue@.push((sig as i32, -1isize)));
    }
}

/// `kill(pid, sig)` refuses without changing anything: a signal number past
/// `NSIG` with `Einval`; SIGKILL or SIGSTOP aimed at pid 1, 0 or -1 with
/// `Eperm`; a positive pid nobody is registered under with `Esrch`.
pub proof fn law_kill_refusals(k: Kernel, n: Kernel, pid: isize, sig: usize, r: Result<usize, Errno>)
    requires
        kill_post(k, n, pid, sig, r),
    ensures
        sig > NSIG ==> r == Err::<usize, Errno>(Errno::Einval) && n == k,
        sig <= NSIG && (sig == SIGKILL || sig == SIGSTOP) && -1 <= pid <= 1 ==> r == Err::<usize, Errno>(Errno::Eperm)
            && n == k,
        sig <= NSIG && pid > 1 && k.tasks.lookup(pid as usize) is None ==> r == Err::<usize, Errno>(Errno::Esrch) && n
            == k,
{
}

/// `n` is `k` after `setpgid(pid, pgid)` answered `r`: the caller (or, pid
/// 1 without one) may move itself or a child of its own.
pub open spec fn setpgid_post(k: Kernel, n: Kernel, pid: usize, pgid: usize, r: Result<usize, Errno>) -> bool {
    let caller = current_id(k, 1);
    let target = if pid == 0 { caller } else { pid };
    let newp = if pgid == 0 { target } else { pgid };
    let is_child = match k.tasks.lookup(target) {
        Some(t) => match k.tasks.arena@[t as int].parent {
            Some(q) => k.tasks.arena@[q as int].info.id == caller,
            None => false,
        },
        None => false,
    };
    if target != caller && !is_child {
        r == Err::<usize, Errno>(Errno::Esrch) && n == k
    } else {
        &&& r == Ok::<usize, Errno>(0)
        &&& match k.tasks.lookup(target) {
            Some(t) => task_replaced(k, n, t as int, Task { pgid: newp as i32, ..k.tasks.arena@[t as int] }),
            None => n == k,
        }
    }
}

/// `n` is `k` after `setsid()` answered `r`: the caller becomes leader of
/// the group named by its id, unless it is already.
pub open spec fn setsid_post(k: Kernel, n: Kernel, r: Result<usize, Errno>) -> bool {
    match k.current() {
        None => r == Err::<usize, Errno>(Errno::Esrch) && n == k,
        Some(h) => {
            let o = k.tasks.arena@[h as int];
            if o.pgid as usize == o.info.id {
                r == Err::<usize, Errno>(Errno::Eperm) && n == k
            } else {
                r == Ok::<usize, Errno>(o.info.id) && task_replaced(k, n, h as int, Task { pgid: o.info.id as i32, ..o })
            }
        },
    }
}

/// The signals no mask can block.
pub open spec fn unmaskable() -> u64 {
    (1u64 << 9u64) | (1u64 << 19u64)
}

/// The caller's mask after `sigprocmask(how, set)`.
pub open spec fn new_mask(mask: u64, how: usize, set: u64) -> u64 {
    if how == 0 {
        (mask | set) & !unmaskable()
    } else if how == 1 {
        mask & !set
    } else {
        set & !unmaskable()
    }
}

/// `n` is `k` after `sigprocmask(how, set, oldset)` answered `r` (the set
/// is its address's value).
pub open spec fn sigprocmask_post(k: Kernel, n: Kernel, how: usize, set: usize, oldset: usize, r: Result<usize, Errno>) -> bool {
    if set != 0 && !user_range(set, 8) {
        r == Err::<usize, Errno>(Errno::Efault) && n == k
    } else if oldset != 0 && !user_range(oldset, 8) {
        r == Err::<usize, Errno>(Errno::Efault) && n == k
    } else {
        match k.current() {
            None => r == Ok::<usize, Errno>(0) && n == k,
            Some(h) => if set == 0 {
                r == Ok::<usize, Errno>(0) && n == k
            } else if how > 2 {
                r == Err::<usize, Errno>(Errno::Einval) && n == k
            } else {
                let o = k.tasks.arena@[h as int];
                r == Ok::<usize, Errno>(0) && task_replaced(
                    k,
                    n,
                    h as int,
                    Task { sig_mask: new_mask(o.sig_mask, how, set as u64), ..o },
                )
            },
        }
    }
}

/// The first free slot of a cyclic scan is unique.
proof fn lemma_first_in_scan_unique(s: Seq<bool>, st: int, o1: int, o2: int)
    requires
        first_in_scan(s, st, o1),
        first_in_scan(s, st, o2),
    ensures
        o1 == o2,
{
    let len = s.len() as int;
    if o1 < o2 {
        assert(!s[cyclic(len, st, o1)]);
    } else if o2 < o1 {
        assert(!s[cyclic(len, st, o2)]);
    }
}

/// Taking a frame with `frame_alloc` is one `scan_take`.
fn take_frame(pool: &mut FramePool, now: usize)
    ensures
        final(pool).cap == old(pool).cap,
        final(pool)@ == scan_take(old(pool)@, now),
{
    let ghost s = pool.slots@;
    let _frame = frame_alloc(pool, now);
    proof {
        if exists|j: int| 0 <= j < s.len() && s[j] {
            let st = scan_origin(s, now);
            let o = choose|o: int| #[trigger] first_in_scan(s, st, o) && pool@ == s.update(cyclic(s.len() as int, st, o), false)
                && _frame == crate::mm::frame::frame_addr(cyclic(s.len() as int, st, o));
            let o2 = choose|o: int| #[trigger] first_in_scan(s, st, o);
            lemma_first_in_scan_unique(s, st, o, o2);
        }
    }
}

impl Kernel {
    /// `write(fd, buf, count)`.
    pub(crate) fn sys_write(&mut self, fd: usize, buf: usize, count: usize) -> (r: Result<usize, Errno>)
        requires
            old(self).wf(),
        ensures
            final(self).wf(),
            write_post(*old(self), *final(self), fd, buf, count, r),
    {
        if buf == 0 && count > 0 {
            return Err(Errno::Efault);
        }
        if count == 0 {
            return Ok(0);
        }
        if !check_access(buf, count) {
            return Err(Errno::Efault);
        }
        let page_off = buf & (PAGE_SZ - 1);
        proof { crate::util::bitfacts::lemma_page_bits(buf, buf); }
        let remaining_in_page = PAGE_SZ - page_off;
        let actual_len = if count <= remaining_in_page {
            count
        } else {
            let full_pages = (count - remaining_in_page) / PAGE_SZ;
            let tail = (count - remaining_in_page) % PAGE_SZ;
            proof {
                vstd::arithmetic::div_mod::lemma_fundamental_div_mod((count - remaining_in_page) as int, PAGE_SZ as int);
            }
            assert(full_pages * PAGE_SZ + tail == count - remaining_in_page);
            remaining_in_page + full_pages * PAGE_SZ + tail + page_off
        };
        let ci = fd % self.cache.width;
        self.cache.mark_modified(ci, fd);
        if fd <= 2 {
            self.disk.ops = self.disk.ops.wrapping_add(1);
        }
        Ok(actual_len)
    }

    /// `open(path, flags, mode)`.
    pub(crate) fn sys_open(&mut self, path: usize, flags: usize) -> (r: Result<usize, Errno>)
        requires
            old(self).wf(),
            old(self).current() matches Some(h) ==> old(self).tasks.arena@[h as int].files@.len() < usize::MAX,
        ensures
            final(self).wf(),
            open_post(*old(self), *final(self), path, flags, r),
    {
        if path == 0 {
            return Err(Errno::Efault);
        }
        if !check_access(path, 256) {
            return Err(Errno::Efault);
        }
        let acc_mode = flags & 0x3;
        let rdonly = acc_mode == 0;
        let wronly = acc_mode == 1;
        let rdwr = acc_mode == 2;
        let create = (flags & 0o100) != 0;
        let excl = (flags & 0o200) != 0;
        let nonblock = (flags & O_NONBLOCK) != 0;
        let append = (flags & O_APPEND) != 0;
        if create && excl {
            let ci = path % self.cache.width;
            if self.cache.has_slot(ci, path) {
                return Err(Errno::Eexist);
            }
        }
        match self.cur_task(0) {
            Some(h) => {
                let ghost k0 = *self;
                let opt = FdOpt { rd: rdonly || rdwr, wr: wronly || rdwr, ap: append, nb: nonblock };
                let fh = FHandle::new("anon", opt, false, excl);
                assert(self.tasks.arena@[h as int].wf());
                let fd = self.tasks.arena[h].add_file(FLike::File(fh));
                proof {
                    assert(links_ok(k0.tasks.arena@[h as int], k0.tasks.arena@.len() as int));
                    assert(self.tasks.arena@ =~= k0.tasks.arena@.update(h as int, self.tasks.arena@[h as int]));
                    lemma_update_wf(k0.tasks, self.tasks, h as int);
                    lemma_tasks_changed_wf(k0, *self);
                    assert(self.tasks.arena@[h as int].files@.drop_last() =~= k0.tasks.arena@[h as int].files@);
                }
                Ok(fd)
            },
            None => Ok(3 + (path % 64)),
        }
    }

    /// `close(fd)`.
    pub(crate) fn sys_close(&mut self, fd: usize) -> (r: Result<usize, Errno>)
        requires
            old(self).wf(),
        ensures
            final(self).wf(),
            close_post(*old(self), *final(self), fd, r),
    {
        if fd > N_PROC * 4 {
            return Err(Errno::Ebadf);
        }
        let ci = fd % self.cache.width;
        let was_cached = self.cache.evict(ci, fd);
        if was_cached {
            self.disk.ops = self.disk.ops.wrapping_add(1);
        }
        Ok(0)
    }

    /// `brk(new_brk)`.
    pub(crate) fn sys_brk(&mut self, new_brk: usize) -> (r: Result<usize, Errno>)
        requires
            old(self).wf(),
        ensures
            final(self).wf(),
            brk_post(*old(self), *final(self), new_brk, r),
    {
        if new_brk == 0 {
            return Ok(0x0040_0000);
        }
        if new_brk >= KERN_BASE {
            return Err(Errno::Enomem);
        }
        let aligned = (new_brk + PAGE_SZ - 1) & !(PAGE_SZ - 1);
        match self.cur_task(0) {
            Some(h) => {
                let ghost k0 = *self;
                let old_brk = self.tasks.arena[h].vm_token;
                if aligned > old_brk {
                    let pages_needed = (aligned - old_brk) / PAGE_SZ;
                    let free = self.pool.free_count();
                    if free < pages_needed {
                        return Err(Errno::Enomem);
                    }
                    let mut p: usize = 0;
                    while p < pages_needed
                        invariant
                            p <= pages_needed,
                            self.pool.cap == k0.pool.cap,
                            self.pool@ == scan_take_n(k0.pool@, k0.clk, p as nat),
                            *self == (Kernel { pool: self.pool, ..k0 }),
                        decreases pages_needed - p,
                    {
                        take_frame(&mut self.pool, self.clk);
                        p += 1;
                    }
                }
                self.tasks.arena[h].vm_token = aligned;
                proof {
                    let t = self.tasks.arena@[h as int];
                    assert(t.wf() && links_ok(t, k0.tasks.arena@.len() as int)) by {
                        assert(k0.tasks.arena@[h as int].wf());
                        assert(links_ok(k0.tasks.arena@[h as int], k0.tasks.arena@.len() as int));
                    }
                    assert(self.tasks.arena@ =~= k0.tasks.arena@.update(h as int, t));
                    lemma_update_wf(k0.tasks, self.tasks, h as int);
                    assert(scan_take_n(k0.pool@, k0.clk, 0) == k0.pool@);
                    lemma_scan_take_n_len(k0.pool@, k0.clk, ((aligned - old_brk) / (PAGE_SZ as int)) as nat);
                    assert forall|i: int| 0 <= i < crate::config::MAX_CPU implies (#[trigger] self.cpus@[i] matches Some(h2) ==> h2
                        < self.tasks.arena@.len()) by {
                        assert(k0.cpus@[i] matches Some(h2) ==> h2 < k0.tasks.arena@.len());
                    }
                }
            },
            None => {},
        }
        Ok(aligned)
    }
    /// `pipe(fds, flags)`.
    pub(crate) fn sys_pipe(&mut self, fds: usize) -> (r: Result<usize, Errno>)
        requires
            old(self).wf(),
            (fds != 0 && user_range(fds, 8) && old(self).current() is Some) ==> usize::BITS == 64,
            old(self).current() matches Some(h) ==> old(self).tasks.arena@[h as int].files@.len() + 2 <= usize::MAX,
        ensures
            final(self).wf(),
            pipe_post(*old(self), *final(self), fds, r),
    {
        if fds == 0 {
            return Err(Errno::Efault);
        }
        if !check_access(fds, 8) {
            return Err(Errno::Efault);
        }
        match self.cur_task(0) {
            Some(h) => {
                let ghost k0 = *self;
                let ghost o = k0.tasks.arena@[h as int];
                if self.tasks.arena[h].fd_count() + 2 > N_PROC {
                    return Err(Errno::Emfile);
                }
                let (rd, wr) = PipeNode::pair();
                assert(o.wf());
                let rd_fd = self.tasks.arena[h].add_file(FLike::Pipe(rd));
                let wr_fd = self.tasks.arena[h].add_file(FLike::Pipe(wr));
                proof {
                    assert(rd == PipeNode { read_end: true });
                    assert(wr == PipeNode { read_end: false });
                    assert(links_ok(o, k0.tasks.arena@.len() as int));
                    assert(self.tasks.arena@ =~= k0.tasks.arena@.update(h as int, self.tasks.arena@[h as int]));
                    lemma_update_wf(k0.tasks, self.tasks, h as int);
                    lemma_tasks_changed_wf(k0, *self);
                }
                Ok(rd_fd | (wr_fd << 32))
            },
            None => Err(Errno::Esrch),
        }
    }

    /// `dup2(old_fd, new_fd)`.
    pub(crate) fn sys_dup2(&mut self, old_fd: usize, new_fd: usize) -> (r: Result<usize, Errno>)
        requires
            old(self).wf(),
        ensures
            final(self).wf(),
            dup2_post(*old(self), *final(self), old_fd, new_fd, r),
    {
        if old_fd >= N_PROC * 4 {
            return Err(Errno::Ebadf);
        }
        if new_fd >= N_PROC * 4 {
            return Err(Errno::Ebadf);
        }
        if old_fd == new_fd {
            return Ok(new_fd);
        }
        match self.cur_task(0) {
            Some(h) => {
                let ghost k0 = *self;
                let ghost o = k0.tasks.arena@[h as int];
                assert(o.wf());
                let _closed_prev = fd_remove(&mut self.tasks.arena[h].files, new_fd);
                let ghost f1 = self.tasks.arena@[h as int].files@;
                let res = match find_fd(&self.tasks.arena[h].files, old_fd) {
                    Some(i) => {
                        proof {
                            lemma_fd_obj_at(f1, i as int);
                            assert(fd_map(f1)[old_fd] == fd_map(o.files@)[old_fd]);
                        }
                        let nfl = self.tasks.arena[h].files[i].1.dup(false);
                        fd_insert(&mut self.tasks.arena[h].files, new_fd, nfl);
                        assert(fd_map(o.files@).remove(new_fd).insert(new_fd, nfl) =~= fd_map(o.files@).insert(new_fd, nfl));
                        Ok(new_fd)
                    },
                    None => {
                        assert(!fd_map(o.files@).dom().contains(old_fd) ==> !has_fd(o.files@, old_fd));
                        Err(Errno::Ebadf)
                    },
                };
                proof {
                    assert(links_ok(o, k0.tasks.arena@.len() as int));
                    assert(self.tasks.arena@ =~= k0.tasks.arena@.update(h as int, self.tasks.arena@[h as int]));
                    lemma_update_wf(k0.tasks, self.tasks, h as int);
                    lemma_tasks_changed_wf(k0, *self);
                    if has_fd(o.files@, old_fd) {
                        assert(fd_map(o.files@).dom().contains(old_fd));
                        assert(fd_map(f1).dom().contains(old_fd));
                    } else {
                        assert(!fd_map(f1).dom().contains(old_fd));
                    }
                }
                res
            },
            None => Ok(new_fd),
        }
    }

    /// `fork()`: only an id is drawn.
    pub(crate) fn sys_fork(&mut self) -> (r: Result<usize, Errno>)
        requires
            old(self).wf(),
            count_free(old(self).pool@) <= N_FRAMES,
            old(self).tasks.map@.len() * 2 + 256 <= usize::MAX,
        ensures
            final(self).wf(),
            fork_post(*old(self), *final(self), r),
    {
        let free = self.pool.free_count();
        let active = self.tasks.count();
        let cost = (if free < 256 { free } else { 256 }) + active * 2;
        let new_pid = self.tasks.seq;
        self.tasks.seq = self.tasks.seq.wrapping_add(1);
        let used = N_FRAMES - self.pool.free_count();
        let ratio = (used * 100) / N_FRAMES;
        if ratio > 90 {
            return Err(Errno::Enomem);
        }
        let avail_after = self.pool.free_count();
        if avail_after < cost / PAGE_SZ {
            return Err(Errno::Enomem);
        }
        Ok(new_pid)
    }

    /// `exit(status)`.
    pub(crate) fn sys_exit(&mut self, status: usize) -> (r: Result<usize, Errno>)
        requires
            old(self).wf(),
        ensures
            final(self).wf(),
            exit_post(*old(self), *final(self), status, r),
    {
        match self.cur_task(0) {
            Some(h) => {
                let ghost k0 = *self;
                let ghost o = k0.tasks.arena@[h as int];
                self.tasks.exit_task(h, status);
                let ghost t1 = self.tasks;
                let p = self.tasks.arena[h].parent;
                let id = self.tasks.arena[h].info.id;
                assert(p == o.parent && id == o.info.id);
                match p {
                    Some(q) => {
                        assert(links_ok(o, k0.tasks.arena@.len() as int));
                        let v = vec![q];
                        assert(v@ =~= seq![q]);
                        self.tasks.signal_each(&v, SIGCHLD as i32, id as isize);
                    },
                    None => {},
                }
                let ghost t2 = self.tasks;
                let n = self.tasks.arena[h].subtasks.len();
                let mut children: Vec<usize> = Vec::new();
                let mut j: usize = 0;
                while j < n
                    invariant
                        j <= n,
                        n == self.tasks.arena@[h as int].subtasks@.len(),
                        h < self.tasks.arena@.len(),
                        children@ == self.tasks.arena@[h as int].subtasks@.take(j as int),
                    decreases n - j,
                {
                    children.push(self.tasks.arena[h].subtasks[j]);
                    j += 1;
                    assert(children@ =~= self.tasks.arena@[h as int].subtasks@.take(j as int));
                }
                assert(self.tasks.arena@[h as int].subtasks@.take(n as int) =~= self.tasks.arena@[h as int].subtasks@);
                let ghost ch = children@;
                assert(ch == o.subtasks@) by {
                    assert(t1.arena@[h as int].subtasks == o.subtasks);
                    if let Some(q) = p {
                        assert(signalled(t2.arena@[h as int], t1.arena@[h as int], SIGCHLD as i32, id as isize, occurrences(seq![q], h)));
                    }
                }
                assert(t2.wf());
                assert(links_ok(t2.arena@[h as int], t2.arena@.len() as int));
                assert(t2.arena@.len() == self.tasks.arena.len());
                let ini = self.tasks.find(1);
                match ini {
                    Some(i) => {
                        proof {
                            let w = choose|w: int| 0 <= w < t2.map@.len() && #[trigger] t2.map@[w].0 == 1usize;
                            lemma_sorted_unique(t2.map@);
                            crate::files::lemma_fd_obj_at(t2.map@, w);
                            assert(t2.map@[w].1 < t2.arena@.len());
                            assert(ch.take(0) =~= Seq::<usize>::empty());
                            assert forall|x: int| #![trigger self.tasks.arena@[x]] 0 <= x < t2.arena@.len() implies
                                self.tasks.arena@[x].subtasks@ == if x == i { t2.arena@[x].subtasks@ + ch.take(0) } else { t2.arena@[x].subtasks@ } by {
                                if x == i { assert(t2.arena@[x].subtasks@ + ch.take(0) =~= t2.arena@[x].subtasks@); }
                            }
                        }
                        let mut k: usize = 0;
                        while k < children.len()
                            invariant
                                children@ == ch,
                                k <= ch.len(),
                                i < t2.arena@.len(),
                                t2.arena@.len() <= usize::MAX,
                                forall|x: int| 0 <= x < ch.len() ==> #[trigger] ch[x] < t2.arena@.len(),
                                self.tasks.map@ == t2.map@ && self.tasks.seq == t2.seq && self.tasks.root == t2.root,
                                self.tasks.arena@.len() == t2.arena@.len(),
                                *self == (Kernel { tasks: self.tasks, ..k0 }),
                                forall|x: int|
                                    #![trigger self.tasks.arena@[x]]
                                    0 <= x < t2.arena@.len() ==> {
                                        &&& self.tasks.arena@[x].parent == if ch.take(k as int).contains(x as usize) { Some(i) } else { t2.arena@[x].parent }
                                        &&& self.tasks.arena@[x].subtasks@ == if x == i { t2.arena@[x].subtasks@ + ch.take(k as int) } else { t2.arena@[x].subtasks@ }
                                        &&& self.tasks.arena@[x] == (Task {
                                            parent: self.tasks.arena@[x].parent,
                                            subtasks: self.tasks.arena@[x].subtasks,
                                            ..t2.arena@[x]
                                        })
                                    },
                            decreases ch.len() - k,
                        {
                            let c = children[k];
                            let ghost b = self.tasks.arena@;
                            self.tasks.arena[c].parent = Some(i);
                            self.tasks.arena[i].subtasks.push(c);
                            proof {
                                assert(ch.take(k + 1) =~= ch.take(k as int).push(c));
                                assert forall|x: int|
                                    #![trigger self.tasks.arena@[x]]
                                    0 <= x < t2.arena@.len() implies {
                                    &&& self.tasks.arena@[x].parent == if ch.take(k + 1).contains(x as usize) { Some(i) } else { t2.arena@[x].parent }
                                    &&& self.tasks.arena@[x].subtasks@ == if x == i { t2.arena@[x].subtasks@ + ch.take(k + 1) } else { t2.arena@[x].subtasks@ }
                                    &&& self.tasks.arena@[x] == (Task {
                                        parent: self.tasks.arena@[x].parent,
                                        subtasks: self.tasks.arena@[x].subtasks,
                                        ..t2.arena@[x]
                                    })
                                } by {
                                    let t0 = ch.take(k as int);
                                    let tt = ch.take(k + 1);
                                    assert(b[x] == (Task { parent: b[x].parent, subtasks: b[x].subtasks, ..t2.arena@[x] }));
                                    if tt.contains(x as usize) && !t0.contains(x as usize) {
                                        let y = choose|y: int| 0 <= y < tt.len() && tt[y] == x as usize;
                                        if y < k {
                                            assert(t0[y] == x as usize);
                                        }
                                        assert(tt[k as int] == ch[k as int]);
                                        assert(ch[k as int] == c);
                                        assert(x as usize == c);
                                        assert(x == c);
                                    }
                                    if t0.contains(x as usize) {
                                        let y = choose|y: int| 0 <= y < t0.len() && t0[y] == x as usize;
                                        assert(tt[y] == x as usize);
                                    }
                                    if x == i {
                                        assert(t2.arena@[x].subtasks@ + tt =~= (t2.arena@[x].subtasks@ + t0).push(c));
                                    }
                                    if x == c {
                                        assert(tt[k as int] == ch[k as int]);
                                        assert(tt.contains(x as usize));
                                    }
                                    assert(self.tasks.arena@[x].parent == if tt.contains(x as usize) { Some(i) } else { t2.arena@[x].parent });
                                    assert(self.tasks.arena@[x].subtasks@ == if x == i { t2.arena@[x].subtasks@ + tt } else { t2.arena@[x].subtasks@ });
                                    assert(self.tasks.arena@[x] == (Task {
                                            parent: self.tasks.arena@[x].parent,
                                            subtasks: self.tasks.arena@[x].subtasks,
                                            ..t2.arena@[x]
                                        }));
                                }
                            }
                            k += 1;
                        }
                        assert(ch.take(k as int) =~= ch);
                        proof {
                            assert forall|x: int|
                                #![trigger self.tasks.arena@[x]]
                                0 <= x < self.tasks.arena@.len() implies self.tasks.arena@[x].wf() && links_ok(
                                self.tasks.arena@[x],
                                self.tasks.arena@.len() as int,
                            ) by {
                                assert(t2.arena@[x].wf() && links_ok(t2.arena@[x], t2.arena@.len() as int));
                                let sub = self.tasks.arena@[x].subtasks@;
                                if x == i {
                                    assert forall|y: int| 0 <= y < sub.len() implies #[trigger] sub[y] < self.tasks.arena@.len() by {
                                        if y < t2.arena@[x].subtasks@.len() {
                                            assert(sub[y] == t2.arena@[x].subtasks@[y]);
                                        } else {
                                            assert(sub[y] == ch[y - t2.arena@[x].subtasks@.len()]);
                                        }
                                    }
                                }
                            }
                        }
                    },
                    None => {},
                }
                proof {
                    lemma_tasks_changed_wf(k0, *self);
                    assert(k0.tasks.lookup(1) == t2.lookup(1));
                    assert(exit_task_post(k0.tasks, t1, h as int, status));
                    assert(notified(t1, t2, o.parent, SIGCHLD as i32, o.info.id as isize));
                    assert(handed_over(t2, self.tasks, o.subtasks@, k0.tasks.lookup(1)));
                }
            },
            None => {},
        }
        Ok(0)
    }

    /// `kill(pid, sig)`.
    pub(crate) fn sys_kill(&mut self, pid: isize, sig: usize) -> (r: Result<usize, Errno>)
        requires
            old(self).wf(),
            pid != isize::MIN,
        ensures
            final(self).wf(),
            kill_post(*old(self), *final(self), pid, sig, r),
    {
        if sig > NSIG as usize {
            return Err(Errno::Einval);
        }
        if sig == SIGKILL as usize || sig == SIGSTOP as usize {
            let target_pid = if pid < 0 { (-pid) as usize } else { pid as usize };
            if target_pid <= 1 {
                return Err(Errno::Eperm);
            }
        }
        let ghost k0 = *self;
        if pid == 0 {
            match self.cur_task(0) {
                Some(h) => {
                    let pg = self.tasks.arena[h].pgid;
                    let n = self.tasks.send_signal_group(pg, sig as i32);
                    proof { lemma_tasks_changed_wf(k0, *self); }
                    Ok(n)
                },
                None => Ok(0),
            }
        } else if pid == -1 {
            let mut hs: Vec<usize> = Vec::new();
            let mut i: usize = 0;
            while i < self.tasks.map.len()
                invariant
                    *self == k0,
                    k0.wf(),
                    i <= k0.tasks.map@.len(),
                    hs@ == k0.tasks.map@.take(i as int).filter_map(killable_sel(k0.tasks.arena@)),
                    forall|x: int| 0 <= x < hs@.len() ==> #[trigger] hs@[x] < k0.tasks.arena@.len(),
                decreases k0.tasks.map@.len() - i,
            {
                let e0 = self.tasks.map[i].0;
                let e1 = self.tasks.map[i].1;
                assert(k0.tasks.map@[i as int].1 < k0.tasks.arena@.len());
                assert(k0.tasks.map@.take(i + 1).drop_last() =~= k0.tasks.map@.take(i as int));
                if !self.tasks.arena[e1].done() && e0 > 1 {
                    hs.push(e1);
                }
                i += 1;
            }
            assert(k0.tasks.map@.take(i as int) =~= k0.tasks.map@);
            self.tasks.signal_each(&hs, sig as i32, -1);
            proof { lemma_tasks_changed_wf(k0, *self); }
            if hs.len() == 0 {
                Err(Errno::Esrch)
            } else {
                Ok(hs.len())
            }
        } else if pid > 0 {
            match self.tasks.find(pid as usize) {
                Some(x) => {
                    proof {
                        let w = choose|w: int| 0 <= w < k0.tasks.map@.len() && #[trigger] k0.tasks.map@[w].0 == pid as usize;
                        lemma_sorted_unique(k0.tasks.map@);
                        crate::files::lemma_fd_obj_at(k0.tasks.map@, w);
                        assert(k0.tasks.map@[w].1 < k0.tasks.arena@.len());
                    }
                    if self.tasks.arena[x].done() && sig != 0 {
                        return Err(Errno::Esrch);
                    }
                    let v = vec![x];
                    assert(v@ =~= seq![x]);
                    self.tasks.signal_each(&v, sig as i32, -1);
                    proof { lemma_tasks_changed_wf(k0, *self); }
                    Ok(0)
                },
                None => Err(Errno::Esrch),
            }
        } else {
            let pg = (-pid) as i32;
            let n = self.tasks.send_signal_group(pg, sig as i32);
            proof { lemma_tasks_changed_wf(k0, *self); }
            if n == 0 {
                Err(Errno::Esrch)
            } else {
                Ok(n)
            }
        }
    }

    /// `setpgid(pid, pgid)`.
    pub(crate) fn sys_setpgid(&mut self, pid: usize, pgid: usize) -> (r: Result<usize, Errno>)
        requires
            old(self).wf(),
        ensures
            final(self).wf(),
            setpgid_post(*old(self), *final(self), pid, pgid, r),
    {
        let ghost k0 = *self;
        let caller = match self.cur_task(0) {
            Some(h) => self.tasks.arena[h].info.id,
            None => 1,
        };
        let target = if pid == 0 { caller } else { pid };
        let new_pgid = if pgid == 0 { target } else { pgid };
        let found = self.tasks.find(target);
        proof {
            if let Some(t) = found {
                let w = choose|w: int| 0 <= w < k0.tasks.map@.len() && #[trigger] k0.tasks.map@[w].0 == target;
                lemma_sorted_unique(k0.tasks.map@);
                crate::files::lemma_fd_obj_at(k0.tasks.map@, w);
                assert(k0.tasks.map@[w].1 < k0.tasks.arena@.len());
                assert(links_ok(k0.tasks.arena@[t as int], k0.tasks.arena@.len() as int));
            }
        }
        if target != caller {
            match found {
                Some(t) => {
                    let is_child = match self.tasks.arena[t].parent {
                        Some(q) => self.tasks.arena[q].info.id == caller,
                        None => false,
                    };
                    if !is_child {
                        return Err(Errno::Esrch);
                    }
                },
                None => {
                    return Err(Errno::Esrch);
                },
            }
        }
        match found {
            Some(t) => {
                self.tasks.arena[t].pgid = new_pgid as i32;
                proof {
                    assert(self.tasks.arena@ =~= k0.tasks.arena@.update(t as int, self.tasks.arena@[t as int]));
                    assert(k0.tasks.arena@[t as int].wf());
                    lemma_update_wf(k0.tasks, self.tasks, t as int);
                    lemma_tasks_changed_wf(k0, *self);
                }
            },
            None => {},
        }
        Ok(0)
    }

    /// `setsid()`.
    pub(crate) fn sys_setsid(&mut self) -> (r: Result<usize, Errno>)
        requires
            old(self).wf(),
        ensures
            final(self).wf(),
            setsid_post(*old(self), *final(self), r),
    {
        match self.cur_task(0) {
            Some(h) => {
                let ghost k0 = *self;
                let tid = self.tasks.arena[h].info.id;
                let pgid = self.tasks.arena[h].pgid;
                if pgid as usize == tid {
                    return Err(Errno::Eperm);
                }
                self.tasks.arena[h].pgid = tid as i32;
                proof {
                    assert(self.tasks.arena@ =~= k0.tasks.arena@.update(h as int, self.tasks.arena@[h as int]));
                    assert(k0.tasks.arena@[h as int].wf());
                    assert(links_ok(k0.tasks.arena@[h as int], k0.tasks.arena@.len() as int));
                    lemma_update_wf(k0.tasks, self.tasks, h as int);
                    lemma_tasks_changed_wf(k0, *self);
                }
                Ok(tid)
            },
            None => Err(Errno::Esrch),
        }
    }

    /// `sigprocmask(how, set, oldset)`.
    pub(crate) fn sys_sigprocmask(&mut self, how: usize, set: usize, oldset: usize) -> (r: Result<usize, Errno>)
        requires
            old(self).wf(),
        ensures
            final(self).wf(),
            sigprocmask_post(*old(self), *final(self), how, set, oldset, r),
    {
        if set != 0 && !check_access(set, 8) {
            return Err(Errno::Efault);
        }
        if oldset != 0 && !check_access(oldset, 8) {
            return Err(Errno::Efault);
        }
        let unmaskable_bits: u64 = (1u64 << 9u64) | (1u64 << 19u64);
        match self.cur_task(0) {
            Some(h) => {
                if set != 0 {
                    let ghost k0 = *self;
                    let new_set: u64 = set as u64;
                    let mask = self.tasks.arena[h].sig_mask;
                    let m = if how == 0 {
                        (mask | new_set) & !unmaskable_bits
                    } else if how == 1 {
                        mask & !new_set
                    } else if how == 2 {
                        new_set & !unmaskable_bits
                    } else {
                        return Err(Errno::Einval);
                    };
                    self.tasks.arena[h].sig_mask = m;
                    proof {
                        assert(self.tasks.arena@ =~= k0.tasks.arena@.update(h as int, self.tasks.arena@[h as int]));
                        assert(k0.tasks.arena@[h as int].wf());
                        assert(links_ok(k0.tasks.arena@[h as int], k0.tasks.arena@.len() as int));
                        lemma_update_wf(k0.tasks, self.tasks, h as int);
                        lemma_tasks_changed_wf(k0, *self);
                    }
                }
                Ok(0)
            },
            None => Ok(0),
        }
    }
}

/// Taking frames keeps the pool's size.
proof fn lemma_scan_take_n_len(s: Seq<bool>, now: usize, n: nat)
    ensures
        scan_take_n(s, now, n).len() == s.len(),
    decreases n,
{
    if n > 0 {
        lemma_scan_take_n_len(s, now, (n - 1) as nat);
    }
}

} // verus!
