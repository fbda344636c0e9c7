use vstd::prelude::*;
use crate::config::{EV_CHILD_QUIT, EV_PROC_QUIT, EV_RECV_SIG, N_REGS};
use crate::errno::Errno;
use crate::files::{
    FLike, dup_of, fds_unique, has_fd, fd_obj, fd_map, is_lowest_free_from, lemma_free_fd_exists,
    lemma_fd_obj_at, lemma_fd_map_push, lowest_free_from, find_fd, fd_insert, fd_remove,
};
use crate::mm::kstk::KStk;
use crate::trap::context::Context;

verus! {

/// A process id.
#[derive(Clone, Copy, Debug, PartialEq, Eq, Structural)]
pub struct Pid(pub usize);

/// The id of the first process.
pub const PID_INIT: usize = 1;

impl Pid {
    /// Pid 0, held by a task that has not been registered.
    pub fn new() -> (r: Self)
        ensures
            r.0 == 0,
    {
        Pid(0)
    }

    /// The number.
    pub fn get(&self) -> (r: usize)
        ensures
            r == self.0,
    {
        self.0
    }

    /// Whether this is the first process.
    pub fn is_init(&self) -> (r: bool)
        ensures
            r == (self.0 == PID_INIT),
    {
        self.0 == PID_INIT
    }
}

/// What the task table knows of a task: its id, its tag, its exit status
/// once it has one, and its descriptor names.
pub struct TaskInfo {
    pub id: usize,
    pub tag: String,
    pub status: Option<i32>,
    pub fds: Vec<String>,
}

/// A thread's saved user context, the address cleared when it exits and its
/// signal mask.
#[derive(Clone, Copy)]
pub struct ThdCtx {
    pub uctx: Context,
    pub clear_tid: usize,
    pub smask: u64,
}

/// All registers and flags zero.
pub open spec fn zero_context(c: Context) -> bool {
    &&& forall|i: int| 0 <= i < N_REGS ==> c.r[i] == 0
    &&& c.ip == 0
    &&& c.flags == 0
}

/// A fresh thread context.
pub open spec fn fresh_thd(t: ThdCtx) -> bool {
    zero_context(t.uctx) && t.clear_tid == 0 && t.smask == 0
}

impl Default for ThdCtx {
    fn default() -> (r: Self)
        ensures
            fresh_thd(r),
    {
        ThdCtx { uctx: Context::new(), clear_tid: 0, smask: 0 }
    }
}

/// An epoll instance: the watched event masks, the ready descriptors and
/// the descriptors changed since the last wait.
pub struct EpInst {
    pub events: Vec<u64>,
    pub ready: Vec<usize>,
    pub new_ctl: Vec<usize>,
}

impl View for EpInst {
    type V = (Seq<u64>, Seq<usize>, Seq<usize>);

    open spec fn view(&self) -> (Seq<u64>, Seq<usize>, Seq<usize>) {
        (self.events@, self.ready@, self.new_ctl@)
    }
}

/// A copy of a sequence of words.
fn copy_words(v: &Vec<usize>) -> (r: Vec<usize>)
    ensures
        r@ == v@,
{
    let mut r: Vec<usize> = Vec::new();
    let mut i: usize = 0;
    while i < v.len()
        invariant
            i <= v@.len(),
            r@ == v@.take(i as int),
        decreases v@.len() - i,
    {
        r.push(v[i]);
        i += 1;
        assert(r@ =~= v@.take(i as int));
    }
    assert(v@.take(i as int) =~= v@);
    r
}

impl EpInst {
    /// An instance watching nothing.
    pub fn new() -> (r: Self)
        ensures
            r@ == (Seq::<u64>::empty(), Seq::<usize>::empty(), Seq::<usize>::empty()),
    {
        EpInst { events: Vec::new(), ready: Vec::new(), new_ctl: Vec::new() }
    }

    /// A copy of the instance.
    pub fn copy(&self) -> (r: Self)
        ensures
            r@ == self@,
    {
        let mut events: Vec<u64> = Vec::new();
        let mut i: usize = 0;
        while i < self.events.len()
            invariant
                i <= self.events@.len(),
                events@ == self.events@.take(i as int),
            decreases self.events@.len() - i,
        {
            events.push(self.events[i]);
            i += 1;
            assert(events@ =~= self.events@.take(i as int));
        }
        assert(self.events@.take(i as int) =~= self.events@);
        EpInst { events, ready: copy_words(&self.ready), new_ctl: copy_words(&self.new_ctl) }
    }
}

/// The waiters parked on one futex word.
#[derive(Clone, Copy)]
pub struct FutexBucket {
    pub waiters: usize,
}

impl FutexBucket {
    /// A bucket nobody waits on.
    pub fn new() -> (r: Self)
        ensures
            r.waiters == 0,
    {
        FutexBucket { waiters: 0 }
    }
}

/// A task. Tasks live in the task table and refer to one another (parent,
/// children) by their position there.
pub struct Task {
    pub info: TaskInfo,
    pub parent: Option<usize>,
    pub subtasks: Vec<usize>,
    pub files: Vec<(usize, FLike)>,
    pub cwd: String,
    pub exec_path: String,
    pub futexes: Vec<(usize, FutexBucket)>,
    pub pid: Pid,
    pub pgid: i32,
    pub threads: Vec<usize>,
    pub ev: u32,
    pub exit_code: usize,
    pub sig_queue: Vec<(i32, isize)>,
    pub sig_mask: u64,
    pub ep_inst: Vec<(usize, EpInst)>,
    pub kstk: Option<KStk>,
    pub thd_ctx: Option<ThdCtx>,
    pub vm_token: usize,
}

/// The mask bit of signal `s` (none outside `0..64`).
pub open spec fn sig_bit(s: i32) -> u64 {
    if 0 <= s < 64 { 1u64 << (s as u64) } else { 0 }
}

/// Queued signal `e` (number, sender) can be taken by thread `tid` under
/// `mask`: it was sent to the whole process (-1) or to `tid`, and its bit is
/// not masked.
pub open spec fn sig_ready(e: (i32, isize), mask: u64, tid: usize) -> bool {
    &&& (e.1 == -1 || e.1 as usize == tid)
    &&& sig_bit(e.0) != 0
    &&& mask & sig_bit(e.0) == 0
}

/// A signal whose bit is set in the mask is never ready, whoever it was
/// sent to: with every queued signal masked, none is ready. A signal sent
/// to the whole process, or to the thread itself, with a number below 64
/// and its bit clear in the mask is ready; one sent to another thread, or
/// with a number outside 0 to 63, is not.
pub proof fn law_mask_decides_readiness(q: Seq<(i32, isize)>, mask: u64, tid: usize, e: (i32, isize))
    ensures
        (forall|i: int| 0 <= i < q.len() ==> mask & sig_bit(#[trigger] q[i].0) != 0) ==> !(exists|i: int|
            0 <= i < q.len() && #[trigger] sig_ready(q[i], mask, tid)),
        (e.1 == -1 && 0 <= e.0 < 64 && mask & sig_bit(e.0) == 0) ==> sig_ready(e, mask, tid),
        (e.1 >= 0 && e.1 as usize == tid && 0 <= e.0 < 64 && mask & sig_bit(e.0) == 0) ==> sig_ready(e, mask, tid),
        (e.1 != -1 && e.1 as usize != tid) ==> !sig_ready(e, mask, tid),
        !(0 <= e.0 < 64) ==> !sig_ready(e, mask, tid),
{
    if 0 <= e.0 < 64 {
        crate::util::bitfacts::lemma_one_bit_nonzero(e.0 as u64);
    }
    if forall|i: int| 0 <= i < q.len() ==> mask & sig_bit(#[trigger] q[i].0) != 0 {
        assert forall|i: int| 0 <= i < q.len() implies !#[trigger] sig_ready(q[i], mask, tid) by {
            assert(mask & sig_bit(q[i].0) != 0);
        }
    }
}

/// What every new task starts with: id `id`, tag `tag`, no status, parent,
/// children, futexes, events, exit code, signals or epoll instances, working
/// directory `/`, process group 0 and no kernel stack.
pub open spec fn fresh_core(t: Task, id: usize, tag: Seq<char>) -> bool {
    &&& t.wf()
    &&& t.info.id == id && t.info.tag@ == tag && t.info.status is None && t.info.fds@.len() == 0
    &&& t.parent is None && t.subtasks@.len() == 0
    &&& t.cwd@ == "/"@
    &&& t.futexes@.len() == 0 && t.pgid == 0
    &&& t.ev == 0 && t.exit_code == 0 && t.sig_queue@.len() == 0 && t.sig_mask == 0
    &&& t.ep_inst@.len() == 0 && t.kstk is None
}

/// `t` is a task just made with id `id` and tag `tag`.
pub open spec fn fresh_task(t: Task, id: usize, tag: Seq<char>) -> bool {
    &&& fresh_core(t, id, tag)
    &&& t.files@.len() == 0 && t.exec_path@.len() == 0 && t.pid.0 == 0 && t.threads@.len() == 0
    &&& t.vm_token == 0
    &&& t.thd_ctx matches Some(c) && fresh_thd(c)
}

/// `n` is `o` after exiting with `code`, but for its events: no descriptor
/// open, the exit code kept, no thread left, the status the low byte of the
/// code, and nothing else changed.
pub open spec fn exit_fields(n: Task, o: Task, code: usize) -> bool {
    &&& n.files@.len() == 0
    &&& n.exit_code == code
    &&& n.threads@.len() == 0
    &&& n.info.status == Some((code & 0xFF) as i32)
    &&& n == (Task {
        files: n.files,
        ev: n.ev,
        exit_code: n.exit_code,
        threads: n.threads,
        info: TaskInfo { status: n.info.status, ..o.info },
        ..o
    })
}

impl Task {
    /// No descriptor, futex or epoll number occurs twice.
    pub open spec fn wf(&self) -> bool {
        &&& fds_unique(self.files@)
        &&& fds_unique(self.futexes@)
        &&& fds_unique(self.ep_inst@)
    }

    /// A task with id `id` and tag `tag`: no parent, children, files or
    /// threads, working directory `/`, a fresh thread context.
    pub fn make(id: usize, tag: &str) -> (r: Self)
        ensures
            fresh_task(r, id, tag@),
    {
        Task {
            info: TaskInfo { id, tag: tag.to_owned(), status: None, fds: Vec::new() },
            parent: None,
            subtasks: Vec::new(),
            files: Vec::new(),
            cwd: "/".to_owned(),
            exec_path: String::new(),
            futexes: Vec::new(),
            pid: Pid::new(),
            pgid: 0,
            threads: Vec::new(),
            ev: 0,
            exit_code: 0,
            sig_queue: Vec::new(),
            sig_mask: 0,
            ep_inst: Vec::new(),
            kstk: None,
            thd_ctx: Some(ThdCtx::default()),
            vm_token: 0,
        }
    }

    /// The task's id.
    pub fn id(&self) -> (r: usize)
        ensures
            r == self.info.id,
    {
        self.info.id
    }

    /// A copy of the task's tag.
    pub fn tag(&self) -> (r: String)
        ensures
            r@ == self.info.tag@,
    {
        self.info.tag.clone()
    }

    /// Makes the task at position `p` the parent.
    pub fn link_parent(&mut self, p: usize)
        ensures
            *final(self) == (Task { parent: Some(p), ..*old(self) }),
    {
        self.parent = Some(p);
    }

    /// Adds the task at position `c` to the children.
    pub fn link_child(&mut self, c: usize)
        ensures
            final(self).subtasks@ == old(self).subtasks@.push(c),
            *final(self) == (Task { subtasks: final(self).subtasks, ..*old(self) }),
    {
        self.subtasks.push(c);
    }

    /// Whether the task has an exit status.
    pub fn done(&self) -> (r: bool)
        ensures
            r == self.info.status is Some,
    {
        self.info.status.is_some()
    }

    /// The number of children (counted with repeats).
    pub fn n_children(&self) -> (r: usize)
        ensures
            r == self.subtasks@.len(),
    {
        self.subtasks.len()
    }

    /// The lowest descriptor number not open.
    pub fn get_free_fd(&self) -> (r: usize)
        requires
            self.files@.len() < usize::MAX,
        ensures
            is_lowest_free_from(self.files@, 0, r),
    {
        proof { lemma_free_fd_exists(self.files@); }
        lowest_free_from(&self.files, 0)
    }

    /// The lowest descriptor number from `arg` up that is not open.
    pub fn get_free_fd_from(&self, arg: usize) -> (r: usize)
        requires
            exists|k: usize| arg <= k && !has_fd(self.files@, k),
        ensures
            is_lowest_free_from(self.files@, arg, r),
    {
        lowest_free_from(&self.files, arg)
    }

    /// Opens `fl` at the lowest free descriptor and answers it.
    pub fn add_file(&mut self, fl: FLike) -> (r: usize)
        requires
            old(self).wf(),
            old(self).files@.len() < usize::MAX,
        ensures
            final(self).wf(),
            is_lowest_free_from(old(self).files@, 0, r),
            fd_map(final(self).files@) == fd_map(old(self).files@).insert(r, fl),
            final(self).files@ == old(self).files@.push((r, fl)),
            *final(self) == (Task { files: final(self).files, ..*old(self) }),
    {
        let fd = self.get_free_fd();
        proof { lemma_fd_map_push(self.files@, fd, fl); }
        self.files.push((fd, fl));
        fd
    }

    /// A copy of the object of descriptor `fd`, if it is open.
    pub fn get_file(&self, fd: usize) -> (r: Option<FLike>)
        requires
            self.wf(),
        ensures
            r == if has_fd(self.files@, fd) { Some(fd_obj(self.files@, fd)) } else { None },
    {
        match find_fd(&self.files, fd) {
            Some(i) => {
                proof { lemma_fd_obj_at(self.files@, i as int); }
                Some(self.files[i].1.copy())
            },
            None => None,
        }
    }

    /// The position of the futex bucket of `uaddr`, made empty first if there
    /// is none.
    pub fn get_futex(&mut self, uaddr: usize) -> (r: usize)
        requires
            old(self).wf(),
        ensures
            final(self).wf(),
            r < final(self).futexes@.len(),
            final(self).futexes@[r as int].0 == uaddr,
            has_fd(old(self).futexes@, uaddr) ==> final(self).futexes@ == old(self).futexes@,
            !has_fd(old(self).futexes@, uaddr) ==> final(self).futexes@ == old(self).futexes@.push(
                (uaddr, FutexBucket { waiters: 0 }),
            ),
            *final(self) == (Task { futexes: final(self).futexes, ..*old(self) }),
    {
        match find_fd(&self.futexes, uaddr) {
            Some(i) => i,
            None => {
                let b = FutexBucket::new();
                proof { lemma_fd_map_push(self.futexes@, uaddr, b); }
                self.futexes.push((uaddr, b));
                self.futexes.len() - 1
            },
        }
    }

    /// Ends the task with `code`: every descriptor is closed, the task's
    /// process-quit event is raised, the parent's child-quit event is raised
    /// (when there is a parent), the exit code is kept, the threads are
    /// cleared and the status becomes the low byte of the code.
    pub fn exit_proc(&mut self, code: usize, parent: Option<&mut Task>)
        ensures
            exit_fields(*final(self), *old(self), code),
            final(self).ev == old(self).ev | EV_PROC_QUIT,
            match parent {
                Some(p) => *final(p) == (Task { ev: p.ev | EV_CHILD_QUIT, ..*p }),
                None => true,
            },
    {
        match parent {
            Some(p) => {
                p.ev = p.ev | EV_CHILD_QUIT;
            },
            None => {},
        }
        self.files = Vec::new();
        self.ev = self.ev | EV_PROC_QUIT;
        let ec = (code & 0xFF) | ((code >> 8) << 8);
        assert(ec == code) by (bit_vector)
            requires
                ec == (code & 0xFF) | ((code >> 8) << 8),
        ;
        self.exit_code = ec;
        self.threads = Vec::new();
        let low = code & 0xFF;
        assert(low < 256) by (bit_vector)
            requires
                low == code & 0xFF,
        ;
        self.info.status = Some(low as i32);
    }

    /// Whether the task has no thread left or has an exit status.
    pub fn exited(&self) -> (r: bool)
        ensures
            r == (self.threads@.len() == 0 || self.info.status is Some),
    {
        self.threads.len() == 0 || self.info.status.is_some()
    }

    /// A copy of the epoll instance of `epfd`; `Eperm` when there is none.
    pub fn get_ep_mut(&self, fd: usize) -> (r: Result<EpInst, Errno>)
        requires
            self.wf(),
        ensures
            has_fd(self.ep_inst@, fd) ==> (r matches Ok(e) && e@ == fd_obj(self.ep_inst@, fd)@),
            !has_fd(self.ep_inst@, fd) ==> r matches Err(Errno::Eperm),
    {
        match find_fd(&self.ep_inst, fd) {
            Some(i) => {
                proof { lemma_fd_obj_at(self.ep_inst@, i as int); }
                Ok(self.ep_inst[i].1.copy())
            },
            None => Err(Errno::Eperm),
        }
    }

    /// The same as `get_ep_mut`.
    pub fn get_ep_ref(&self, fd: usize) -> (r: Result<EpInst, Errno>)
        requires
            self.wf(),
        ensures
            has_fd(self.ep_inst@, fd) ==> (r matches Ok(e) && e@ == fd_obj(self.ep_inst@, fd)@),
            !has_fd(self.ep_inst@, fd) ==> r matches Err(Errno::Eperm),
    {
        self.get_ep_mut(fd)
    }

    /// Sets the epoll instance of `fd` to `inst`.
    pub fn set_ep(&mut self, fd: usize, inst: EpInst)
        requires
            old(self).wf(),
        ensures
            final(self).wf(),
            fd_map(final(self).ep_inst@) == fd_map(old(self).ep_inst@).insert(fd, inst),
            *final(self) == (Task { ep_inst: final(self).ep_inst, ..*old(self) }),
    {
        fd_insert(&mut self.ep_inst, fd, inst);
    }

    /// Takes the saved thread context out (a fresh one when none is saved).
    pub fn begin_run(&mut self) -> (r: ThdCtx)
        ensures
            old(self).thd_ctx matches Some(c) ==> r == c,
            old(self).thd_ctx is None ==> fresh_thd(r),
            *final(self) == (Task { thd_ctx: None, ..*old(self) }),
    {
        let g = self.thd_ctx;
        self.thd_ctx = None;
        match g {
            Some(ctx) => ctx,
            None => ThdCtx::default(),
        }
    }

    /// Saves the thread context `cx`.
    pub fn end_run(&mut self, cx: ThdCtx)
        ensures
            *final(self) == (Task { thd_ctx: Some(cx), ..*old(self) }),
    {
        self.thd_ctx = Some(cx);
    }

    /// Whether some signal in the queue is ready for delivery: addressed to
    /// every thread or to this one, and not blocked by the signal mask.
    pub fn has_sig(&self) -> (r: bool)
        ensures
            r == exists|i: int| 0 <= i < self.sig_queue@.len() && #[trigger] sig_ready(
                self.sig_queue@[i],
                self.sig_mask,
                self.info.id,
            ),
    {
        if self.sig_queue.len() == 0 {
            return false;
        }
        let sm = self.sig_mask;
        let tid = self.info.id;
        let mut found = false;
        let mut i: usize = 0;
        while i < self.sig_queue.len() && !found
            invariant
                i <= self.sig_queue@.len(),
                sm == self.sig_mask && tid == self.info.id,
                found ==> exists|j: int| 0 <= j < self.sig_queue@.len() && #[trigger] sig_ready(
                    self.sig_queue@[j],
                    sm,
                    tid,
                ),
                !found ==> forall|j: int| 0 <= j < i ==> !#[trigger] sig_ready(self.sig_queue@[j], sm, tid),
            decreases self.sig_queue@.len() - i,
        {
            let s = self.sig_queue[i].0;
            let snd = self.sig_queue[i].1;
            if snd != -1 && snd as usize != tid {
                assert(!sig_ready(self.sig_queue@[i as int], sm, tid));
            } else {
                let bit: u64 = if s >= 0 && s < 64 { 1u64 << (s as u64) } else { 0 };
                assert(bit == sig_bit(s));
                if bit != 0 && (sm & bit) == 0 {
                    assert(sig_ready(self.sig_queue@[i as int], sm, tid));
                    found = true;
                }
            }
            i += 1;
        }
        found
    }

    /// Queues signal `signo` from sender `sender_tid` (-1 for the whole
    /// process) and raises the task's signal event.
    pub fn send_sig(&mut self, signo: i32, sender_tid: isize)
        ensures
            final(self).sig_queue@ == old(self).sig_queue@.push((signo, sender_tid)),
            final(self).ev == old(self).ev | EV_RECV_SIG,
            *final(self) == (Task { sig_queue: final(self).sig_queue, ev: final(self).ev, ..*old(self) }),
    {
        self.sig_queue.push((signo, sender_tid));
        self.ev = self.ev | EV_RECV_SIG;
    }

    /// Closes descriptor `fd`; `Ebadf` when it is not open.
    pub fn close_fd(&mut self, fd: usize) -> (r: Result<(), Errno>)
        requires
            old(self).wf(),
        ensures
            final(self).wf(),
            has_fd(old(self).files@, fd) ==> r is Ok,
            !has_fd(old(self).files@, fd) ==> r matches Err(Errno::Ebadf),
            fd_map(final(self).files@) == fd_map(old(self).files@).remove(fd),
            *final(self) == (Task { files: final(self).files, ..*old(self) }),
    {
        match fd_remove(&mut self.files, fd) {
            Some(_) => Ok(()),
            None => Err(Errno::Ebadf),
        }
    }

    /// Duplicates descriptor `old_fd` at the lowest free number, with
    /// close-on-exec set to `cloexec`; `Ebadf` when it is not open.
    pub fn dup_fd(&mut self, old_fd: usize, cloexec: bool) -> (r: Result<usize, Errno>)
        requires
            old(self).wf(),
            old(self).files@.len() < usize::MAX,
        ensures
            final(self).wf(),
            !has_fd(old(self).files@, old_fd) ==> (r matches Err(Errno::Ebadf) && *final(self) == *old(self)),
            has_fd(old(self).files@, old_fd) ==> (r matches Ok(n) && is_lowest_free_from(old(self).files@, 0, n)
                && fd_map(final(self).files@) == fd_map(old(self).files@).insert(
                n,
                dup_of(fd_obj(old(self).files@, old_fd), cloexec),
            )),
            *final(self) == (Task { files: final(self).files, ..*old(self) }),
    {
        match find_fd(&self.files, old_fd) {
            Some(i) => {
                proof { lemma_fd_obj_at(self.files@, i as int); }
                let nfl = self.files[i].1.dup(cloexec);
                let nfd = self.get_free_fd();
                fd_insert(&mut self.files, nfd, nfl);
                Ok(nfd)
            },
            None => Err(Errno::Ebadf),
        }
    }

    /// Makes `new_fd` a duplicate of `old_fd` (close-on-exec off), closing
    /// what `new_fd` held; the same number twice changes nothing, and `Ebadf`
    /// comes when `old_fd` is not open.
    pub fn dup2_fd(&mut self, old_fd: usize, new_fd: usize) -> (r: Result<usize, Errno>)
        requires
            old(self).wf(),
        ensures
            final(self).wf(),
            old_fd == new_fd ==> r == Ok::<usize, Errno>(new_fd) && *final(self) == *old(self),
            old_fd != new_fd && !has_fd(old(self).files@, old_fd) ==> (r matches Err(Errno::Ebadf)
                && *final(self) == *old(self)),
            old_fd != new_fd && has_fd(old(self).files@, old_fd) ==> r == Ok::<usize, Errno>(new_fd)
                && fd_map(final(self).files@) == fd_map(old(self).files@).insert(
                new_fd,
                dup_of(fd_obj(old(self).files@, old_fd), false),
            ),
            *final(self) == (Task { files: final(self).files, ..*old(self) }),
    {
        if old_fd == new_fd {
            return Ok(new_fd);
        }
        match find_fd(&self.files, old_fd) {
            Some(i) => {
                proof { lemma_fd_obj_at(self.files@, i as int); }
                let nfl = self.files[i].1.dup(false);
                let _prev = fd_remove(&mut self.files, new_fd);
                fd_insert(&mut self.files, new_fd, nfl);
                assert(fd_map(old(self).files@).remove(new_fd).insert(new_fd, nfl) =~= fd_map(
                    old(self).files@,
                ).insert(new_fd, nfl));
                Ok(new_fd)
            },
            None => Err(Errno::Ebadf),
        }
    }

    /// The number of open descriptors.
    pub fn fd_count(&self) -> (r: usize)
        ensures
            r == self.files@.len(),
    {
        self.files.len()
    }

    /// Accepts a close-on-exec request for an open descriptor (the flag is
    /// not recorded); `Ebadf` when `fd` is not open.
    pub fn set_cloexec(&self, fd: usize, val: bool) -> (r: Result<(), Errno>)
        ensures
            has_fd(self.files@, fd) ==> r is Ok,
            !has_fd(self.files@, fd) ==> r matches Err(Errno::Ebadf),
    {
        match find_fd(&self.files, fd) {
            Some(_) => Ok(()),
            None => Err(Errno::Ebadf),
        }
    }
}

/// Closing the descriptor just opened gives back the table it was
/// opened in, and while it is open it reads back as the object opened.
pub proof fn law_add_then_close(files: Seq<(usize, FLike)>, fd: usize, fl: FLike)
    requires
        is_lowest_free_from(files, 0, fd),
    ensures
        fd_map(files).insert(fd, fl).remove(fd) == fd_map(files),
        fd_map(files).insert(fd, fl)[fd] == fl,
{
    assert(!fd_map(files).dom().contains(fd));
    assert(fd_map(files).insert(fd, fl).remove(fd) =~= fd_map(files));
}

/// After `dup2(old_fd, new_fd)` on an open `old_fd`, `new_fd` refers
/// to the same object as `old_fd` (with close-on-exec off), and every
/// other descriptor is as it was.
pub proof fn law_dup2_aliases(files: Seq<(usize, FLike)>, old_fd: usize, new_fd: usize, x: usize)
    requires
        has_fd(files, old_fd),
        x != new_fd,
    ensures
        ({
            let m = fd_map(files).insert(new_fd, dup_of(fd_obj(files, old_fd), false));
            &&& m[new_fd] == dup_of(fd_map(files)[old_fd], false)
            &&& m.dom().contains(x) == fd_map(files).dom().contains(x)
            &&& fd_map(files).dom().contains(x) ==> m[x] == fd_map(files)[x]
        }),
{
}

} // verus!
