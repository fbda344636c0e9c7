use vstd::prelude::*;
use crate::util::bitfacts::lemma_or_flag;
use crate::config::{EV_CHILD_QUIT, EV_RECV_SIG};
use crate::files::{
    FLike, FHandle, FdOpt, dup_of, fds_unique, has_fd, fd_obj, fd_map, lemma_fd_obj_at, lemma_fd_map_remove, find_fd,
};
use crate::config::{N_REGS, USR_STK_OFF, USR_STK_SZ};
use crate::trap::context::{REG_RET, REG_SP, REG_TLS};
use crate::procinit::{ProcInit, init_fits, init_stack, align16};
use std::collections::BTreeMap;
use crate::task::{Task, TaskInfo, Pid, ThdCtx, fresh_task, fresh_core, fresh_thd, exit_fields};
use crate::config::EV_PROC_QUIT;

verus! {

/// The id after `x`, wrapping to 0 past the largest word.
pub open spec fn next_id(x: usize) -> usize {
    if x == usize::MAX { 0 } else { (x + 1) as usize }
}

/// The entries are in strictly increasing order of key.
pub open spec fn keys_sorted(m: Seq<(usize, usize)>) -> bool {
    forall|i: int, j: int| 0 <= i < j < m.len() ==> #[trigger] m[i].0 < #[trigger] m[j].0
}

/// Every value of `m` is below `n`.
pub open spec fn values_below(m: Seq<(usize, usize)>, n: int) -> bool {
    forall|i: int| 0 <= i < m.len() ==> #[trigger] m[i].1 < n
}

/// The parent and children of `t` are positions below `n`.
pub open spec fn links_ok(t: Task, n: int) -> bool {
    &&& (t.parent matches Some(p) ==> p < n)
    &&& forall|j: int| 0 <= j < t.subtasks@.len() ==> #[trigger] t.subtasks@[j] < n
}

/// Sorted keys do not repeat.
pub proof fn lemma_sorted_unique(m: Seq<(usize, usize)>)
    requires
        keys_sorted(m),
    ensures
        fds_unique(m),
{
    assert forall|i: int, j: int| 0 <= i < j < m.len() implies m[i].0 != m[j].0 by {
        assert(m[i].0 < m[j].0);
    }
}

/// The value under key `k`, if any.
fn map_get(m: &Vec<(usize, usize)>, k: usize) -> (r: Option<usize>)
    requires
        keys_sorted(m@),
    ensures
        r == if has_fd(m@, k) { Some(fd_obj(m@, k)) } else { None },
{
    proof { lemma_sorted_unique(m@); }
    match find_fd(m, k) {
        Some(i) => {
            proof { lemma_fd_obj_at(m@, i as int); }
            Some(m[i].1)
        },
        None => None,
    }
}

/// Puts `v` under key `k`, keeping the keys sorted.
fn map_put(m: &mut Vec<(usize, usize)>, k: usize, v: usize, Ghost(n): Ghost<int>)
    requires
        keys_sorted(old(m)@),
        values_below(old(m)@, n),
        v < n,
    ensures
        keys_sorted(final(m)@),
        values_below(final(m)@, n),
        fd_map(final(m)@) == fd_map(old(m)@).insert(k, v),
        forall|x: usize| has_fd(final(m)@, x) <==> (has_fd(old(m)@, x) || x == k),
{
    let mut i: usize = 0;
    while i < m.len() && m[i].0 < k
        invariant
            i <= m@.len(),
            m@ == old(m)@,
            forall|j: int| 0 <= j < i ==> #[trigger] m@[j].0 < k,
        decreases m@.len() - i,
    {
        i += 1;
    }
    let ghost t = m@;
    proof { lemma_sorted_unique(t); }
    if i < m.len() && m[i].0 == k {
        m.set(i, (k, v));
        let ghost u = m@;
        proof {
            assert forall|a: int, b: int| 0 <= a < b < u.len() implies #[trigger] u[a].0 < #[trigger] u[b].0 by {
                assert(t[a].0 < t[b].0);
            }
            lemma_sorted_unique(u);
            assert forall|x: usize| has_fd(u, x) <==> (has_fd(t, x) || x == k) by {
                if has_fd(u, x) {
                    let a = choose|a: int| 0 <= a < u.len() && #[trigger] u[a].0 == x;
                    assert(t[a].0 == x);
                }
                if has_fd(t, x) {
                    let a = choose|a: int| 0 <= a < t.len() && #[trigger] t[a].0 == x;
                    assert(u[a].0 == x);
                }
                if x == k {
                    assert(u[i as int].0 == x);
                }
            }
            assert forall|x: usize| #[trigger] fd_map(u).dom().contains(x) implies fd_map(u)[x] == fd_map(
                t,
            ).insert(k, v)[x] by {
                let a = choose|a: int| 0 <= a < u.len() && #[trigger] u[a].0 == x;
                lemma_fd_obj_at(u, a);
                if a != i {
                    assert(t[a] == u[a]);
                    lemma_fd_obj_at(t, a);
                }
            }
            assert(fd_map(u) =~= fd_map(t).insert(k, v));
        }
    } else {
        m.insert(i, (k, v));
        let ghost u = m@;
        proof {
            assert forall|a: int| 0 <= a < t.len() implies #[trigger] t[a].0 != k by {
                if a >= i {
                    if a > i {
                        assert(t[i as int].0 < t[a].0);
                    }
                }
            }
            assert forall|a: int, b: int| 0 <= a < b < u.len() implies #[trigger] u[a].0 < #[trigger] u[b].0 by {
                if b < i {
                    assert(t[a].0 < t[b].0);
                } else if b == i {
                    assert(u[a] == t[a]);
                } else if a < i {
                    assert(u[b] == t[b - 1]);
                    if a < i { assert(t[a].0 < k); }
                    assert(t[i as int].0 <= t[b - 1].0) by {
                        if i < b - 1 { assert(t[i as int].0 < t[b - 1].0); }
                    }
                } else if a == i {
                    assert(u[b] == t[b - 1]);
                    assert(t[i as int].0 <= t[b - 1].0) by {
                        if i < b - 1 { assert(t[i as int].0 < t[b - 1].0); }
                    }
                } else {
                    assert(u[a] == t[a - 1]);
                    assert(u[b] == t[b - 1]);
                    assert(t[a - 1].0 < t[b - 1].0);
                }
            }
            lemma_sorted_unique(u);
            assert forall|x: usize| has_fd(u, x) <==> (has_fd(t, x) || x == k) by {
                if has_fd(u, x) && x != k {
                    let a = choose|a: int| 0 <= a < u.len() && #[trigger] u[a].0 == x;
                    if a < i {
                        assert(t[a].0 == x);
                    } else {
                        assert(a != i);
                        assert(t[a - 1].0 == x);
                    }
                }
                if has_fd(t, x) {
                    let a = choose|a: int| 0 <= a < t.len() && #[trigger] t[a].0 == x;
                    if a < i {
                        assert(u[a].0 == x);
                    } else {
                        assert(u[a + 1].0 == x);
                    }
                }
                if x == k {
                    assert(u[i as int].0 == x);
                }
            }
            assert forall|x: usize| #[trigger] fd_map(u).dom().contains(x) implies fd_map(u)[x] == fd_map(
                t,
            ).insert(k, v)[x] by {
                let a = choose|a: int| 0 <= a < u.len() && #[trigger] u[a].0 == x;
                lemma_fd_obj_at(u, a);
                if a < i {
                    assert(t[a] == u[a]);
                    lemma_fd_obj_at(t, a);
                } else if a > i {
                    assert(t[a - 1] == u[a]);
                    lemma_fd_obj_at(t, a - 1);
                }
            }
            assert(fd_map(u) =~= fd_map(t).insert(k, v));
        }
    }
}

/// Takes key `k` out.
fn map_del(m: &mut Vec<(usize, usize)>, k: usize, Ghost(n): Ghost<int>)
    requires
        keys_sorted(old(m)@),
        values_below(old(m)@, n),
    ensures
        keys_sorted(final(m)@),
        values_below(final(m)@, n),
        fd_map(final(m)@) == fd_map(old(m)@).remove(k),
        forall|x: usize| has_fd(final(m)@, x) <==> (has_fd(old(m)@, x) && x != k),
{
    proof { lemma_sorted_unique(m@); }
    match find_fd(m, k) {
        Some(i) => {
            let ghost t = m@;
            proof { lemma_fd_map_remove(t, i as int); }
            let _ = m.remove(i);
            let ghost u = m@;
            assert forall|a: int, b: int| 0 <= a < b < u.len() implies #[trigger] u[a].0 < #[trigger] u[b].0 by {
                let a2 = if a < i { a } else { a + 1 };
                let b2 = if b < i { b } else { b + 1 };
                assert(u[a] == t[a2]);
                assert(u[b] == t[b2]);
                assert(t[a2].0 < t[b2].0);
            }
            assert forall|a: int| 0 <= a < u.len() implies #[trigger] u[a].1 < n by {
                let a2 = if a < i { a } else { a + 1 };
                assert(u[a] == t[a2]);
            }
        },
        None => {
            assert(fd_map(old(m)@).remove(k) =~= fd_map(old(m)@));
        },
    }
}


/// Selects the position of a registered task whose tag is `tag`.
pub open spec fn tag_sel(arena: Seq<Task>, tag: Seq<char>) -> spec_fn((usize, usize)) -> Option<usize> {
    |e: (usize, usize)| if arena[e.1 as int].info.tag@ == tag { Some(e.1) } else { None }
}

/// Selects the position of a registered task in process group `pgid`.
pub open spec fn pgid_sel(arena: Seq<Task>, pgid: i32) -> spec_fn((usize, usize)) -> Option<usize> {
    |e: (usize, usize)| if arena[e.1 as int].pgid == pgid { Some(e.1) } else { None }
}

/// Selects the id of a registered task without an exit status.
pub open spec fn active_sel(arena: Seq<Task>) -> spec_fn((usize, usize)) -> Option<usize> {
    |e: (usize, usize)| if arena[e.1 as int].info.status is None { Some(e.0) } else { None }
}

/// Selects the id of a registered task with an exit status.
pub open spec fn zombie_sel(arena: Seq<Task>) -> spec_fn((usize, usize)) -> Option<usize> {
    |e: (usize, usize)| if arena[e.1 as int].info.status is Some { Some(e.0) } else { None }
}

/// How many times `x` occurs in `s`.
pub open spec fn occurrences(s: Seq<usize>, x: usize) -> nat
    decreases s.len(),
{
    if s.len() == 0 {
        0
    } else {
        occurrences(s.drop_last(), x) + if s.last() == x { 1nat } else { 0nat }
    }
}

/// `n` is `o` after `k` signals `signo` from `sender` were queued on it.
pub open spec fn signalled(n: Task, o: Task, signo: i32, sender: isize, k: nat) -> bool {
    &&& n.sig_queue@ == o.sig_queue@ + Seq::new(k, |i: int| (signo, sender))
    &&& n.ev == if k > 0 { o.ev | EV_RECV_SIG } else { o.ev }
    &&& n == (Task { sig_queue: n.sig_queue, ev: n.ev, ..o })
}

/// `n` is `o` with a new exit status, parent and children only.
pub open spec fn same_but_links(n: Task, o: Task) -> bool {
    n == (Task {
        info: TaskInfo { status: n.info.status, ..o.info },
        parent: n.parent,
        subtasks: n.subtasks,
        ..o
    })
}

/// The children of the task at `j` after the task at `h` with children
/// `ch` is reaped and its children handed to `root`.
pub open spec fn children_after_reap(a: Seq<Task>, j: int, h: int, root: Option<usize>, ch: Seq<usize>) -> Seq<usize> {
    match root {
        Some(r) => if j == r {
            (if r == h { Seq::<usize>::empty() } else { a[j].subtasks@ }) + ch
        } else if j == h {
            Seq::<usize>::empty()
        } else {
            a[j].subtasks@
        },
        None => if j == h { Seq::<usize>::empty() } else { a[j].subtasks@ },
    }
}

/// `b` is arena `a` after the task at `h` is reaped: its status becomes 0,
/// and its children `ch` (the first `k` of them, when `k` is their number)
/// move to `root` when there is one.
pub open spec fn reaped(a: Seq<Task>, b: Seq<Task>, h: int, root: Option<usize>, ch: Seq<usize>, k: int) -> bool {
    &&& b.len() == a.len()
    &&& forall|j: int|
        #![trigger b[j]]
        0 <= j < a.len() ==> {
            &&& b[j].info.status == if j == h { Some(0i32) } else { a[j].info.status }
            &&& b[j].parent == if root is Some && ch.take(k).contains(j as usize) { root } else { a[j].parent }
            &&& b[j].subtasks@ == children_after_reap(a, j, h, root, ch.take(k))
            &&& same_but_links(b[j], a[j])
        }
}

/// `n` is table `o` after the task registered under `id` is reaped: its
/// status becomes 0, its children move to the root (when there is one) and
/// the id is unregistered; an unknown id changes nothing.
pub open spec fn reap_post(o: TaskTable, n: TaskTable, id: usize) -> bool {
    &&& n.wf()
    &&& n.seq == o.seq && n.root == o.root
    &&& o.lookup(id) is None ==> n == o
    &&& o.lookup(id) matches Some(h) ==> {
        &&& fd_map(n.map@) == fd_map(o.map@).remove(id)
        &&& reaped(o.arena@, n.arena@, h as int, o.root, o.arena@[h as int].subtasks@, o.arena@[h as int].subtasks@.len() as int)
    }
}

/// `n` is table `o` after the task at `h` exits with `code` (see
/// `Task::exit_proc`) and its parent's child-quit event is raised.
pub open spec fn exit_task_post(o: TaskTable, n: TaskTable, h: int, code: usize) -> bool {
    &&& n.wf()
    &&& n.map@ == o.map@ && n.seq == o.seq && n.root == o.root
    &&& n.arena@.len() == o.arena@.len()
    &&& exit_fields(n.arena@[h], o.arena@[h], code)
    &&& n.arena@[h].ev == (o.arena@[h].ev | EV_PROC_QUIT) | (if o.arena@[h].parent == Some(h as usize) {
        EV_CHILD_QUIT
    } else {
        0u32
    })
    &&& match o.arena@[h].parent {
        Some(p) => p != h ==> n.arena@[p as int] == (Task { ev: o.arena@[p as int].ev | EV_CHILD_QUIT, ..o.arena@[p as int] }),
        None => true,
    }
    &&& forall|j: int|
        0 <= j < o.arena@.len() && j != h && o.arena@[h].parent != Some(j as usize) ==> #[trigger] n.arena@[j]
            == o.arena@[j]
}

/// The registrations of a well-formed table, read as the map `fd_map`:
/// `lookup` answers from it, and the table holds one entry per registered
/// id (so `count` is the size of its domain).
pub proof fn lemma_registered(t: TaskTable)
    requires
        t.wf(),
    ensures
        forall|id: usize|
            #[trigger] t.lookup(id) == if fd_map(t.map@).dom().contains(id) {
                Some(fd_map(t.map@)[id])
            } else {
                None
            },
        fd_map(t.map@).dom().finite(),
        fd_map(t.map@).dom().len() == t.map@.len(),
{
    let m = t.map@;
    let keys = m.map_values(|e: (usize, usize)| e.0);
    lemma_sorted_unique(m);
    assert(keys.no_duplicates()) by {
        assert forall|i: int, j: int| 0 <= i < keys.len() && 0 <= j < keys.len() && i != j implies keys[i]
            != keys[j] by {
            if i < j {
                assert(m[i].0 != m[j].0);
            } else {
                assert(m[j].0 != m[i].0);
            }
        }
    }
    assert(fd_map(m).dom() =~= keys.to_set()) by {
        assert forall|x: usize| fd_map(m).dom().contains(x) <==> keys.to_set().contains(x) by {
            if has_fd(m, x) {
                let i = choose|i: int| 0 <= i < m.len() && #[trigger] m[i].0 == x;
                assert(keys[i] == x);
            }
            if keys.to_set().contains(x) {
                let i = choose|i: int| 0 <= i < keys.len() && keys[i] == x;
                assert(m[i].0 == x);
            }
        }
    }
    keys.unique_seq_to_set();
}

/// `n` is table `o` with signal `signo` from `sender` queued on the task at
/// each position of `hs` (as often as it occurs there).
pub open spec fn signalled_all(o: TaskTable, n: TaskTable, hs: Seq<usize>, signo: i32, sender: isize) -> bool {
    &&& n.wf()
    &&& n.map@ == o.map@ && n.seq == o.seq && n.root == o.root
    &&& n.arena@.len() == o.arena@.len()
    &&& forall|j: int|
        #![trigger n.arena@[j]]
        0 <= j < o.arena@.len() ==> signalled(n.arena@[j], o.arena@[j], signo, sender, occurrences(hs, j as usize))
}

/// Replacing one task by a well-formed one with links inside the arena
/// keeps the table well formed.
pub proof fn lemma_update_wf(o: TaskTable, n: TaskTable, h: int)
    requires
        o.wf(),
        0 <= h < o.arena@.len(),
        n.map@ == o.map@,
        n.root == o.root,
        n.arena@ == o.arena@.update(h, n.arena@[h]),
        n.arena@[h].wf(),
        links_ok(n.arena@[h], o.arena@.len() as int),
    ensures
        n.wf(),
{
    assert forall|j: int|
        #![trigger n.arena@[j]]
        0 <= j < n.arena@.len() implies n.arena@[j].wf() && links_ok(n.arena@[j], n.arena@.len() as int) by {
        if j != h {
            assert(n.arena@[j] == o.arena@[j]);
            assert(o.arena@[j].wf() && links_ok(o.arena@[j], o.arena@.len() as int));
        }
    }
}

/// Whether `v` holds `x`.
fn holds(v: &Vec<usize>, x: usize) -> (r: bool)
    ensures
        r == v@.contains(x),
{
    let mut i: usize = 0;
    while i < v.len()
        invariant
            i <= v@.len(),
            forall|j: int| 0 <= j < i ==> v@[j] != x,
        decreases v@.len() - i,
    {
        if v[i] == x {
            assert(v@[i as int] == x);
            return true;
        }
        i += 1;
    }
    false
}


/// The descriptors of a forked child: the parent's, each duplicated with
/// close-on-exec off.
pub open spec fn dup_files_of(t: Seq<(usize, FLike)>) -> Seq<(usize, FLike)> {
    t.map_values(|e: (usize, FLike)| (e.0, dup_of(e.1, false)))
}

/// `c` is the child forked from `src` (at position `srch`) with id `nid`:
/// the parent's tag, descriptors (duplicated), directories, process group
/// and signal mask; pid `nid` and one thread `nid`; nothing else.
pub open spec fn forked(c: Task, src: Task, nid: usize, srch: usize) -> bool {
    &&& c.wf()
    &&& c.info.id == nid && c.info.tag@ == src.info.tag@ && c.info.status is None && c.info.fds@.len() == 0
    &&& c.parent == Some(srch) && c.subtasks@.len() == 0
    &&& c.files@ == dup_files_of(src.files@)
    &&& c.cwd@ == src.cwd@ && c.exec_path@ == src.exec_path@
    &&& c.futexes@.len() == 0 && c.pid == Pid(nid) && c.pgid == src.pgid && c.threads@ == seq![nid]
    &&& c.ev == 0 && c.exit_code == 0 && c.sig_queue@.len() == 0 && c.sig_mask == src.sig_mask
    &&& c.ep_inst@.len() == 0 && c.kstk is None && c.vm_token == 0
    &&& c.thd_ctx matches Some(x) && fresh_thd(x)
}

/// All registers zero but the given return value, stack pointer and
/// thread-local storage pointer.
pub open spec fn regs_with(ret: u64, sp: u64, tls: u64) -> Seq<u64> {
    Seq::new(N_REGS as nat, |i: int| 0u64).update(REG_RET as int, ret).update(REG_SP as int, sp).update(
        REG_TLS as int,
        tls,
    )
}

/// `f` is an open terminal: path `/dev/tty`, readable or writable as given,
/// nothing else set.
pub open spec fn tty_file(f: FLike, rd: bool, wr: bool) -> bool {
    f matches FLike::File(h) && h.path@ == "/dev/tty"@ && h.opt == (FdOpt { rd, wr, ap: false, nb: false })
        && !h.cloexec && !h.excl && h.size == 0
}

/// A copy of a descriptor table, each object duplicated with close-on-exec
/// off.
fn dup_files(t: &Vec<(usize, FLike)>) -> (r: Vec<(usize, FLike)>)
    requires
        fds_unique(t@),
    ensures
        r@ == dup_files_of(t@),
        fds_unique(r@),
{
    let mut out: Vec<(usize, FLike)> = Vec::new();
    let mut i: usize = 0;
    while i < t.len()
        invariant
            i <= t@.len(),
            out@ == dup_files_of(t@.take(i as int)),
        decreases t@.len() - i,
    {
        let d = t[i].1.dup(false);
        out.push((t[i].0, d));
        i += 1;
        assert(out@ =~= dup_files_of(t@.take(i as int)));
    }
    assert(t@.take(i as int) =~= t@);
    assert forall|a: int, b: int| 0 <= a < b < out@.len() implies out@[a].0 != out@[b].0 by {
        assert(out@[a].0 == t@[a].0);
        assert(out@[b].0 == t@[b].0);
    }
    out
}

/// Every task ever made, addressed by position, with a map from id to
/// position (in increasing id order), the next id to hand out and the
/// position of the first task.
pub struct TaskTable {
    pub arena: Vec<Task>,
    pub map: Vec<(usize, usize)>,
    pub seq: usize,
    pub root: Option<usize>,
}

impl TaskTable {
    /// The ids are sorted, every position is inside the arena, and every
    /// task is well formed with its links inside the arena.
    pub open spec fn wf(&self) -> bool {
        &&& keys_sorted(self.map@)
        &&& values_below(self.map@, self.arena@.len() as int)
        &&& (self.root matches Some(r) ==> r < self.arena@.len())
        &&& forall|h: int|
            #![trigger self.arena@[h]]
            0 <= h < self.arena@.len() ==> self.arena@[h].wf() && links_ok(self.arena@[h], self.arena@.len() as int)
    }

    /// The position registered under id `id`.
    pub open spec fn lookup(&self, id: usize) -> Option<usize> {
        if has_fd(self.map@, id) { Some(fd_obj(self.map@, id)) } else { None }
    }

    /// An empty table handing out ids from 1.
    pub fn new() -> (r: Self)
        ensures
            r.wf(),
            r.arena@.len() == 0 && r.map@.len() == 0 && r.seq == 1 && r.root is None,
    {
        TaskTable { arena: Vec::new(), map: Vec::new(), seq: 1, root: None }
    }

    /// Makes a task with the next id and tag `tag`, registers it under that
    /// id and answers its position.
    pub fn spawn(&mut self, tag: &str) -> (h: usize)
        requires
            old(self).wf(),
        ensures
            final(self).wf(),
            h == old(self).arena@.len(),
            final(self).arena@ == old(self).arena@.push(final(self).arena@[h as int]),
            fresh_task(final(self).arena@[h as int], old(self).seq, tag@),
            fd_map(final(self).map@) == fd_map(old(self).map@).insert(old(self).seq, h),
            final(self).seq == next_id(old(self).seq),
            final(self).root == old(self).root,
    {
        let id = self.seq;
        self.seq = self.seq.wrapping_add(1);
        let t = Task::make(id, tag);
        let h = self.arena.len();
        self.arena.push(t);
        map_put(&mut self.map, id, h, Ghost(self.arena@.len() as int));
        assert forall|j: int|
            #![trigger self.arena@[j]]
            0 <= j < self.arena@.len() implies self.arena@[j].wf() && links_ok(
            self.arena@[j],
            self.arena@.len() as int,
        ) by {
            if j < h {
                assert(self.arena@[j] == old(self).arena@[j]);
                assert(links_ok(old(self).arena@[j], old(self).arena@.len() as int));
            }
        }
        h
    }

    /// Spawns the first task, tagged `init`, and remembers it as the root.
    pub fn spawn_root(&mut self) -> (h: usize)
        requires
            old(self).wf(),
        ensures
            final(self).wf(),
            h == old(self).arena@.len(),
            final(self).arena@ == old(self).arena@.push(final(self).arena@[h as int]),
            fresh_task(final(self).arena@[h as int], old(self).seq, "init"@),
            fd_map(final(self).map@) == fd_map(old(self).map@).insert(old(self).seq, h),
            final(self).seq == next_id(old(self).seq),
            final(self).root == Some(h),
    {
        let h = self.spawn("init");
        self.root = Some(h);
        h
    }

    /// The position of the task registered under `id`.
    pub fn find(&self, id: usize) -> (r: Option<usize>)
        requires
            self.wf(),
        ensures
            r == self.lookup(id),
    {
        map_get(&self.map, id)
    }

    /// Registers the task at `h` under `pid`, which becomes its pid.
    pub fn register(&mut self, h: usize, pid: Pid)
        requires
            old(self).wf(),
            h < old(self).arena@.len(),
        ensures
            final(self).wf(),
            final(self).arena@ == old(self).arena@.update(h as int, Task { pid, ..old(self).arena@[h as int] }),
            fd_map(final(self).map@) == fd_map(old(self).map@).insert(pid.0, h),
            final(self).seq == old(self).seq && final(self).root == old(self).root,
    {
        self.arena[h].pid = pid;
        map_put(&mut self.map, pid.0, h, Ghost(self.arena@.len() as int));
        assert forall|j: int|
            #![trigger self.arena@[j]]
            0 <= j < self.arena@.len() implies self.arena@[j].wf() && links_ok(
            self.arena@[j],
            self.arena@.len() as int,
        ) by {
            assert(links_ok(old(self).arena@[j], old(self).arena@.len() as int));
        }
    }

    /// The positions of the registered tasks tagged `tag`, by increasing id.
    pub fn find_by_tag(&self, tag: &str) -> (r: Vec<usize>)
        requires
            self.wf(),
        ensures
            r@ == self.map@.filter_map(tag_sel(self.arena@, tag@)),
    {
        let key = tag.to_owned();
        let mut out: Vec<usize> = Vec::new();
        let mut i: usize = 0;
        while i < self.map.len()
            invariant
                self.wf(),
                key@ == tag@,
                i <= self.map@.len(),
                out@ == self.map@.take(i as int).filter_map(tag_sel(self.arena@, tag@)),
            decreases self.map@.len() - i,
        {
            let h = self.map[i].1;
            assert(self.map@[i as int].1 < self.arena@.len());
            assert(self.map@.take(i + 1).drop_last() =~= self.map@.take(i as int));
            if self.arena[h].info.tag == key {
                out.push(h);
            }
            i += 1;
        }
        assert(self.map@.take(i as int) =~= self.map@);
        out
    }

    /// The position of the first registered task (by id) one of whose
    /// threads is `tid`.
    pub fn process_of_tid(&self, tid: usize) -> (r: Option<usize>)
        requires
            self.wf(),
        ensures
            r matches Some(h) ==> exists|i: int|
                0 <= i < self.map@.len() && self.map@[i].1 == h && self.arena@[h as int].threads@.contains(tid)
                    && forall|j: int| 0 <= j < i ==> !#[trigger] self.arena@[self.map@[j].1 as int].threads@.contains(tid),
            r is None ==> forall|i: int|
                0 <= i < self.map@.len() ==> !#[trigger] self.arena@[self.map@[i].1 as int].threads@.contains(tid),
    {
        let mut i: usize = 0;
        while i < self.map.len()
            invariant
                self.wf(),
                i <= self.map@.len(),
                forall|j: int| 0 <= j < i ==> !#[trigger] self.arena@[self.map@[j].1 as int].threads@.contains(tid),
            decreases self.map@.len() - i,
        {
            let h = self.map[i].1;
            assert(self.map@[i as int].1 < self.arena@.len());
            if holds(&self.arena[h].threads, tid) {
                return Some(h);
            }
            i += 1;
        }
        None
    }

    /// The positions of the registered tasks in process group `pgid`, by
    /// increasing id.
    pub fn pgid_group(&self, pgid: i32) -> (r: Vec<usize>)
        requires
            self.wf(),
        ensures
            r@ == self.map@.filter_map(pgid_sel(self.arena@, pgid)),
            forall|i: int| 0 <= i < r@.len() ==> #[trigger] r@[i] < self.arena@.len(),
    {
        let mut out: Vec<usize> = Vec::new();
        let mut i: usize = 0;
        while i < self.map.len()
            invariant
                self.wf(),
                i <= self.map@.len(),
                out@ == self.map@.take(i as int).filter_map(pgid_sel(self.arena@, pgid)),
                forall|j: int| 0 <= j < out@.len() ==> #[trigger] out@[j] < self.arena@.len(),
            decreases self.map@.len() - i,
        {
            let h = self.map[i].1;
            assert(self.map@[i as int].1 < self.arena@.len());
            assert(self.map@.take(i + 1).drop_last() =~= self.map@.take(i as int));
            if self.arena[h].pgid == pgid {
                out.push(h);
            }
            i += 1;
        }
        assert(self.map@.take(i as int) =~= self.map@);
        out
    }

    /// The ids of the registered tasks without an exit status, increasing.
    pub fn active_tasks(&self) -> (r: Vec<usize>)
        requires
            self.wf(),
        ensures
            r@ == self.map@.filter_map(active_sel(self.arena@)),
    {
        let mut out: Vec<usize> = Vec::new();
        let mut i: usize = 0;
        while i < self.map.len()
            invariant
                self.wf(),
                i <= self.map@.len(),
                out@ == self.map@.take(i as int).filter_map(active_sel(self.arena@)),
            decreases self.map@.len() - i,
        {
            let h = self.map[i].1;
            assert(self.map@[i as int].1 < self.arena@.len());
            assert(self.map@.take(i + 1).drop_last() =~= self.map@.take(i as int));
            if !self.arena[h].done() {
                out.push(self.map[i].0);
            }
            i += 1;
        }
        assert(self.map@.take(i as int) =~= self.map@);
        out
    }

    /// The ids of the registered tasks with an exit status, increasing.
    pub fn zombie_tasks(&self) -> (r: Vec<usize>)
        requires
            self.wf(),
        ensures
            r@ == self.map@.filter_map(zombie_sel(self.arena@)),
    {
        let mut out: Vec<usize> = Vec::new();
        let mut i: usize = 0;
        while i < self.map.len()
            invariant
                self.wf(),
                i <= self.map@.len(),
                out@ == self.map@.take(i as int).filter_map(zombie_sel(self.arena@)),
            decreases self.map@.len() - i,
        {
            let h = self.map[i].1;
            assert(self.map@[i as int].1 < self.arena@.len());
            assert(self.map@.take(i + 1).drop_last() =~= self.map@.take(i as int));
            if self.arena[h].done() {
                out.push(self.map[i].0);
            }
            i += 1;
        }
        assert(self.map@.take(i as int) =~= self.map@);
        out
    }

    /// Ends the task at `h` with `code` (see `Task::exit_proc`), which also
    /// raises the child-quit event of its parent.
    pub fn exit_task(&mut self, h: usize, code: usize)
        requires
            old(self).wf(),
            h < old(self).arena@.len(),
        ensures
            exit_task_post(*old(self), *final(self), h as int, code),
    {
        let ghost a = self.arena@;
        let mut child = Task::make(0, "");
        std::mem::swap(&mut child, &mut self.arena[h]);
        assert(child == a[h as int]);
        assert(links_ok(a[h as int], a.len() as int));
        match child.parent {
            Some(p) => {
                if p != h {
                    child.exit_proc(code, Some(&mut self.arena[p]));
                    proof { lemma_or_flag(a[h as int].ev | EV_PROC_QUIT, 0); }
                } else {
                    child.exit_proc(code, None);
                    child.ev = child.ev | EV_CHILD_QUIT;
                }
            },
            None => {
                child.exit_proc(code, None);
                proof { lemma_or_flag(a[h as int].ev | EV_PROC_QUIT, 0); }
            },
        }
        std::mem::swap(&mut child, &mut self.arena[h]);
        assert forall|j: int|
            #![trigger self.arena@[j]]
            0 <= j < self.arena@.len() implies self.arena@[j].wf() && links_ok(
            self.arena@[j],
            self.arena@.len() as int,
        ) by {
            assert(links_ok(a[j], a.len() as int));
            assert(a[j].wf());
            if j == h {
                assert(self.arena@[j].files@.len() == 0);
                assert(self.arena@[j].subtasks == a[j].subtasks);
                assert(self.arena@[j].futexes == a[j].futexes);
                assert(self.arena@[j].ep_inst == a[j].ep_inst);
            }
        }
    }

    /// Reaps the task registered under `id`: its status becomes 0, its
    /// children move to the root (when there is one; else they are dropped
    /// from its list) and the id is unregistered. An unknown id changes
    /// nothing.
    pub fn reap(&mut self, id: usize)
        requires
            old(self).wf(),
        ensures
            reap_post(*old(self), *final(self), id),
    {
        let found = map_get(&self.map, id);
        match found {
            None => {},
            Some(h) => {
                let ghost a = self.arena@;
                let ghost ch0 = a[h as int].subtasks@;
                assert(self.map@[choose|i: int| 0 <= i < self.map@.len() && #[trigger] self.map@[i].0 == id].1
                    < self.arena@.len());
                self.arena[h].info.status = Some(0);
                let mut ch: Vec<usize> = Vec::new();
                std::mem::swap(&mut ch, &mut self.arena[h].subtasks);
                assert(links_ok(a[h as int], a.len() as int));
                proof {
                    assert(ch0.take(0) =~= Seq::<usize>::empty());
                    assert forall|j: int| 0 <= j < a.len() implies #[trigger] self.arena@[j].subtasks@
                        == children_after_reap(a, j, h as int, self.root, ch0.take(0)) by {
                        if let Some(r) = self.root {
                            if j == r {
                                if r == h {
                                    assert(self.arena@[j].subtasks@ =~= Seq::<usize>::empty() + Seq::<usize>::empty());
                                } else {
                                    assert(self.arena@[j].subtasks@ =~= a[j].subtasks@ + Seq::<usize>::empty());
                                }
                            }
                        }
                    }
                }
                assert(a.len() == self.arena.len());
                match self.root {
                    Some(r) => {
                        let mut k: usize = 0;
                        while k < ch.len()
                            invariant
                                ch@ == ch0,
                                k <= ch@.len(),
                                self.root == Some(r),
                                r < a.len(),
                                h < a.len(),
                                a.len() <= usize::MAX,
                                forall|i: int| 0 <= i < ch0.len() ==> #[trigger] ch0[i] < a.len(),
                                reaped(a, self.arena@, h as int, self.root, ch0, k as int),
                                self.map@ == old(self).map@,
                                self.seq == old(self).seq,
                            decreases ch@.len() - k,
                        {
                            let c = ch[k];
                            let ghost b = self.arena@;
                            self.arena[c].parent = Some(r);
                            self.arena[r].subtasks.push(c);
                            proof {
                                assert(ch0.take(k + 1) =~= ch0.take(k as int).push(c));
                                assert forall|j: int|
                                    #![trigger self.arena@[j]]
                                    0 <= j < a.len() implies {
                                    &&& self.arena@[j].info.status == if j == h { Some(0i32) } else { a[j].info.status }
                                    &&& self.arena@[j].parent == if self.root is Some && ch0.take(k + 1).contains(j as usize) { self.root } else { a[j].parent }
                                    &&& self.arena@[j].subtasks@ == children_after_reap(a, j, h as int, self.root, ch0.take(k + 1))
                                    &&& same_but_links(self.arena@[j], a[j])
                                } by {
                                    assert(b[j].info.status == if j == h { Some(0i32) } else { a[j].info.status });
                                    assert(same_but_links(b[j], a[j]));
                                    let t0 = ch0.take(k as int);
                                    let t1 = ch0.take(k + 1);
                                    if t1.contains(j as usize) && !t0.contains(j as usize) {
                                        let i = choose|i: int| 0 <= i < t1.len() && t1[i] == j as usize;
                                        if i < k {
                                            assert(t0[i] == j as usize);
                                        }
                                        assert(t1[k as int] == ch0[k as int]);
                                        assert(ch0[k as int] == c);
                                        assert(j as usize == c);
                                        assert(j == c);
                                    }
                                    if t0.contains(j as usize) {
                                        let i = choose|i: int| 0 <= i < t0.len() && t0[i] == j as usize;
                                        assert(t1[i] == j as usize);
                                    }
                                    if j == c {
                                        assert(ch0.take(k + 1)[k as int] == c);
                                    }
                                    if j == r {
                                        assert(children_after_reap(a, j, h as int, self.root, ch0.take(k + 1)) =~= children_after_reap(a, j, h as int, self.root, ch0.take(k as int)).push(c));
                                    }
                                }
                            }
                            k += 1;
                        }
                        assert(ch0.take(k as int) =~= ch0);
                    },
                    None => {},
                }
                assert(ch0.take(ch0.len() as int) =~= ch0);
                map_del(&mut self.map, id, Ghost(self.arena@.len() as int));
                assert forall|j: int|
                    #![trigger self.arena@[j]]
                    0 <= j < self.arena@.len() implies self.arena@[j].wf() && links_ok(
                    self.arena@[j],
                    self.arena@.len() as int,
                ) by {
                    assert(links_ok(a[j], a.len() as int));
                    assert(a[j].wf());
                    assert(same_but_links(self.arena@[j], a[j]));
                    let sub = self.arena@[j].subtasks@;
                    assert forall|i: int| 0 <= i < sub.len() implies #[trigger] sub[i] < self.arena@.len() by {
                        if let Some(r) = self.root {
                            if j == r && r != h && i >= a[j].subtasks@.len() {
                                assert(sub[i] == ch0[i - a[j].subtasks@.len()]);
                            } else if j == r && r != h {
                                assert(sub[i] == a[j].subtasks@[i]);
                            } else if j == r {
                                assert(sub[i] == ch0[i]);
                            } else if j != h {
                                assert(sub[i] == a[j].subtasks@[i]);
                            }
                        } else if j != h {
                            assert(sub[i] == a[j].subtasks@[i]);
                        }
                    }
                }
            },
        }
    }

    /// Ends the task registered under `id` with `code` and reaps it;
    /// whether there was one.
    pub fn terminate_and_collect(&mut self, id: usize, code: usize) -> (r: bool)
        requires
            old(self).wf(),
        ensures
            final(self).wf(),
            r == old(self).lookup(id) is Some,
            !r ==> *final(self) == *old(self),
            r ==> fd_map(final(self).map@) == fd_map(old(self).map@).remove(id),
            final(self).seq == old(self).seq && final(self).root == old(self).root,
    {
        match map_get(&self.map, id) {
            Some(h) => {
                assert(self.map@[choose|i: int| 0 <= i < self.map@.len() && #[trigger] self.map@[i].0 == id].1
                    < self.arena@.len());
                self.exit_task(h, code);
                self.reap(id);
                true
            },
            None => false,
        }
    }

    /// Queues signal `signo` from `sender` on the task at each position of
    /// `hs`.
    pub fn signal_each(&mut self, hs: &Vec<usize>, signo: i32, sender: isize)
        requires
            old(self).wf(),
            forall|i: int| 0 <= i < hs@.len() ==> #[trigger] hs@[i] < old(self).arena@.len(),
        ensures
            signalled_all(*old(self), *final(self), hs@, signo, sender),
    {
        let ghost a = self.arena@;
        assert(a.len() == self.arena.len());
        let mut k: usize = 0;
        assert forall|j: int| #![trigger self.arena@[j]] 0 <= j < a.len() implies signalled(
            self.arena@[j],
            a[j],
            signo,
            sender,
            occurrences(hs@.take(0), j as usize),
        ) by {
            assert(hs@.take(0).len() == 0);
            assert(self.arena@[j].sig_queue@ =~= a[j].sig_queue@ + Seq::new(0, |i: int| (signo, sender)));
        }
        while k < hs.len()
            invariant
                k <= hs@.len(),
                forall|i: int| 0 <= i < hs@.len() ==> #[trigger] hs@[i] < a.len(),
                self.arena@.len() == a.len(),
                a.len() <= usize::MAX,
                self.map@ == old(self).map@ && self.seq == old(self).seq && self.root == old(self).root,
                a == old(self).arena@,
                forall|j: int|
                    #![trigger self.arena@[j]]
                    0 <= j < a.len() ==> signalled(self.arena@[j], a[j], signo, sender, occurrences(hs@.take(k as int), j as usize)),
            decreases hs@.len() - k,
        {
            let g = hs[k];
            let ghost b = self.arena@;
            self.arena[g].send_sig(signo, sender);
            proof {
                assert(hs@.take(k + 1).drop_last() =~= hs@.take(k as int));
                assert forall|j: int|
                    #![trigger self.arena@[j]]
                    0 <= j < a.len() implies signalled(self.arena@[j], a[j], signo, sender, occurrences(hs@.take(k + 1), j as usize)) by {
                    let m = occurrences(hs@.take(k as int), j as usize);
                    assert(signalled(b[j], a[j], signo, sender, m));
                    if j == g {
                        assert(occurrences(hs@.take(k + 1), j as usize) == m + 1);
                        assert(self.arena@[j].sig_queue@ =~= a[j].sig_queue@ + Seq::new(m + 1, |i: int| (signo, sender)));
                        let e0 = a[j].ev;
                        lemma_or_flag(e0, EV_RECV_SIG);
                    } else {
                        assert(hs@.take(k + 1).last() == g);
                        assert(j as usize != g);
                        assert(occurrences(hs@.take(k + 1), j as usize) == m);
                    }
                }
            }
            k += 1;
        }
        assert(hs@.take(k as int) =~= hs@);
        proof {
            assert forall|j: int|
                #![trigger self.arena@[j]]
                0 <= j < self.arena@.len() implies self.arena@[j].wf() && links_ok(
                self.arena@[j],
                self.arena@.len() as int,
            ) by {
                assert(links_ok(a[j], a.len() as int));
                assert(a[j].wf());
            }
        }
    }

    /// Queues signal `signo` (from the whole process) on every registered
    /// task of process group `pgid` and answers how many were signalled.
    pub fn send_signal_group(&mut self, pgid: i32, signo: i32) -> (r: usize)
        requires
            old(self).wf(),
        ensures
            r == old(self).map@.filter_map(pgid_sel(old(self).arena@, pgid)).len(),
            signalled_all(*old(self), *final(self), old(self).map@.filter_map(pgid_sel(old(self).arena@, pgid)), signo, -1isize),
    {
        let group = self.pgid_group(pgid);
        self.signal_each(&group, signo, -1);
        group.len()
    }

    /// Forks the task at `src`: a child with the next id (see `forked`) is
    /// registered, and the parent lists it as a child twice.
    pub fn fork_task(&mut self, src: usize) -> (h: usize)
        requires
            old(self).wf(),
            src < old(self).arena@.len(),
        ensures
            final(self).wf(),
            h == old(self).arena@.len(),
            final(self).arena@.len() == old(self).arena@.len() + 1,
            forked(final(self).arena@[h as int], old(self).arena@[src as int], old(self).seq, src),
            final(self).arena@[src as int].subtasks@ == old(self).arena@[src as int].subtasks@.push(h).push(h),
            final(self).arena@[src as int] == (Task {
                subtasks: final(self).arena@[src as int].subtasks,
                ..old(self).arena@[src as int]
            }),
            forall|j: int|
                0 <= j < old(self).arena@.len() && j != src ==> #[trigger] final(self).arena@[j] == old(self).arena@[j],
            fd_map(final(self).map@) == fd_map(old(self).map@).insert(old(self).seq, h),
            final(self).seq == next_id(old(self).seq),
            final(self).root == old(self).root,
    {
        let ghost a = self.arena@;
        let nid = self.seq;
        self.seq = self.seq.wrapping_add(1);
        let ns = self.arena[src].tag();
        let mut tgt = Task::make(nid, ns.as_str());
        assert(a[src as int].wf());
        tgt.cwd = self.arena[src].cwd.clone();
        tgt.exec_path = self.arena[src].exec_path.clone();
        tgt.files = dup_files(&self.arena[src].files);
        tgt.pgid = self.arena[src].pgid;
        tgt.sig_mask = self.arena[src].sig_mask;
        tgt.parent = Some(src);
        let h = self.arena.len();
        self.arena.push(tgt);
        self.arena[src].subtasks.push(h);
        assert forall|j: int|
            #![trigger self.arena@[j]]
            0 <= j < self.arena@.len() implies self.arena@[j].wf() && links_ok(
            self.arena@[j],
            self.arena@.len() as int,
        ) by {
            if j < h {
                assert(links_ok(a[j], a.len() as int));
                assert(a[j].wf());
                if j == src {
                    let sub = self.arena@[j].subtasks@;
                    assert forall|i: int| 0 <= i < sub.len() implies #[trigger] sub[i] < self.arena@.len() by {
                        if i < a[j].subtasks@.len() {
                            assert(sub[i] == a[j].subtasks@[i]);
                        }
                    }
                }
            }
        }
        self.register(h, Pid(nid));
        self.arena[h].threads.push(nid);
        self.arena[src].subtasks.push(h);
        assert(self.arena@[h as int].threads@ =~= seq![nid]);
        assert forall|j: int|
            #![trigger self.arena@[j]]
            0 <= j < self.arena@.len() implies self.arena@[j].wf() && links_ok(
            self.arena@[j],
            self.arena@.len() as int,
        ) by {
            if j < h {
                assert(links_ok(a[j], a.len() as int));
                assert(a[j].wf());
                if j == src {
                    let sub = self.arena@[j].subtasks@;
                    assert forall|i: int| 0 <= i < sub.len() implies #[trigger] sub[i] < self.arena@.len() by {
                        if i < a[j].subtasks@.len() {
                            assert(sub[i] == a[j].subtasks@[i]);
                        }
                    }
                }
            }
        }
        h
    }

    /// Makes a thread of the task at `src`: a task with the next id and the
    /// parent's tag and address-space token, whose saved context returns 0
    /// and has stack pointer `stack_top`, thread-local storage `tls`,
    /// clear-on-exit address `clear_tid` and the parent's signal mask. It is
    /// registered under its id and added to the parent's threads.
    pub fn clone_thread(&mut self, src: usize, stack_top: u64, tls: u64, clear_tid: usize) -> (h: usize)
        requires
            old(self).wf(),
            src < old(self).arena@.len(),
        ensures
            final(self).wf(),
            h == old(self).arena@.len(),
            final(self).arena@.len() == old(self).arena@.len() + 1,
            fresh_core(final(self).arena@[h as int], old(self).seq, old(self).arena@[src as int].info.tag@),
            final(self).arena@[h as int].files@.len() == 0 && final(self).arena@[h as int].exec_path@.len() == 0,
            final(self).arena@[h as int].pid.0 == 0 && final(self).arena@[h as int].threads@.len() == 0,
            final(self).arena@[h as int].vm_token == old(self).arena@[src as int].vm_token,
            final(self).arena@[h as int].thd_ctx matches Some(c) && c.uctx.r@ == regs_with(0, stack_top, tls)
                && c.uctx.ip == 0 && c.uctx.flags == 0 && c.clear_tid == clear_tid
                && c.smask == old(self).arena@[src as int].sig_mask,
            final(self).arena@[src as int] == (Task {
                threads: final(self).arena@[src as int].threads,
                ..old(self).arena@[src as int]
            }),
            final(self).arena@[src as int].threads@ == old(self).arena@[src as int].threads@.push(old(self).seq),
            forall|j: int|
                0 <= j < old(self).arena@.len() && j != src ==> #[trigger] final(self).arena@[j] == old(self).arena@[j],
            fd_map(final(self).map@) == fd_map(old(self).map@).insert(old(self).seq, h),
            final(self).seq == next_id(old(self).seq),
            final(self).root == old(self).root,
    {
        let ghost a = self.arena@;
        let id = self.seq;
        self.seq = self.seq.wrapping_add(1);
        let tg = self.arena[src].tag();
        let mut t = Task::make(id, tg.as_str());
        let mut ctx = ThdCtx::default();
        ctx.uctx.set_ret(0);
        ctx.uctx.set_sp(stack_top);
        ctx.uctx.set_tls(tls);
        ctx.clear_tid = clear_tid;
        ctx.smask = self.arena[src].sig_mask;
        assert(ctx.uctx.r@ =~= regs_with(0, stack_top, tls));
        t.thd_ctx = Some(ctx);
        t.vm_token = self.arena[src].vm_token;
        let h = self.arena.len();
        self.arena.push(t);
        map_put(&mut self.map, id, h, Ghost(self.arena@.len() as int));
        self.arena[src].threads.push(id);
        assert forall|j: int|
            #![trigger self.arena@[j]]
            0 <= j < self.arena@.len() implies self.arena@[j].wf() && links_ok(
            self.arena@[j],
            self.arena@.len() as int,
        ) by {
            if j < h {
                assert(links_ok(a[j], a.len() as int));
                assert(a[j].wf());
            }
        }
        h
    }

    /// Makes a user task for program `path` with arguments `args` and
    /// environment `envs`: tagged `path`, its stack pointer where the
    /// initial stack lays out below the top of the user stack, descriptors
    /// 0 (terminal, read), 1 and 2 (terminal, write), pid its id and one
    /// thread, its id.
    pub fn new_user_task(&mut self, path: &str, args: Vec<String>, envs: Vec<String>) -> (h: usize)
        requires
            old(self).wf(),
            init_fits(args@, envs@, 0, USR_STK_OFF + USR_STK_SZ),
        ensures
            final(self).wf(),
            h == old(self).arena@.len(),
            final(self).arena@.len() == old(self).arena@.len() + 1,
            fresh_core(final(self).arena@[h as int], old(self).seq, path@),
            final(self).arena@[h as int].exec_path@ == path@,
            final(self).arena@[h as int].pid == Pid(old(self).seq),
            final(self).arena@[h as int].threads@ == seq![old(self).seq],
            final(self).arena@[h as int].vm_token == 0,
            final(self).arena@[h as int].thd_ctx matches Some(c) && c.uctx.r@ == regs_with(
                0,
                align16(init_stack(args@, envs@, 0, USR_STK_OFF + USR_STK_SZ)) as u64,
                0,
            ) && c.uctx.ip == 0 && c.uctx.flags == 0 && c.clear_tid == 0 && c.smask == 0,
            final(self).arena@[h as int].files@.len() == 3,
            final(self).arena@[h as int].files@[0].0 == 0 && tty_file(final(self).arena@[h as int].files@[0].1, true, false),
            final(self).arena@[h as int].files@[1].0 == 1 && tty_file(final(self).arena@[h as int].files@[1].1, false, true),
            final(self).arena@[h as int].files@[2].0 == 2 && tty_file(final(self).arena@[h as int].files@[2].1, false, true),
            forall|j: int| 0 <= j < old(self).arena@.len() ==> #[trigger] final(self).arena@[j] == old(self).arena@[j],
            fd_map(final(self).map@) == fd_map(old(self).map@).insert(old(self).seq, h),
            final(self).seq == next_id(old(self).seq),
            final(self).root == old(self).root,
    {
        let ghost a = self.arena@;
        let h = self.spawn(path);
        self.arena[h].exec_path = path.to_owned();
        let mut ctx = ThdCtx::default();
        let auxv: BTreeMap<u8, usize> = BTreeMap::new();
        let init = ProcInit { args, envs, auxv };
        proof {
            broadcast use vstd::std_specs::btree::axiom_spec_btree_map_len;
            assert(init.auxv@.len() == 0);
        }
        assert(init.auxv.len() == 0);
        let sp = init.push_at(USR_STK_OFF + USR_STK_SZ);
        ctx.uctx.set_sp(sp as u64);
        assert(ctx.uctx.r@ =~= regs_with(0, sp as u64, 0));
        self.arena[h].thd_ctx = Some(ctx);
        let fd0 = FHandle::new("/dev/tty", FdOpt { rd: true, wr: false, ap: false, nb: false }, false, false);
        let fd1 = FHandle::new("/dev/tty", FdOpt { rd: false, wr: true, ap: false, nb: false }, false, false);
        let fd2 = fd1.dup(false);
        self.arena[h].files.push((0, FLike::File(fd0)));
        self.arena[h].files.push((1, FLike::File(fd1)));
        self.arena[h].files.push((2, FLike::File(fd2)));
        assert forall|j: int|
            #![trigger self.arena@[j]]
            0 <= j < self.arena@.len() implies self.arena@[j].wf() && links_ok(
            self.arena@[j],
            self.arena@.len() as int,
        ) by {
            if j == h {
                let f = self.arena@[j].files@;
                assert(f.len() == 3 && f[0].0 == 0 && f[1].0 == 1 && f[2].0 == 2);
            }
        }
        let id = self.arena[h].info.id;
        self.register(h, Pid(id));
        self.arena[h].threads.push(id);
        assert(self.arena@[h as int].threads@ =~= seq![id]);
        assert forall|j: int|
            #![trigger self.arena@[j]]
            0 <= j < self.arena@.len() implies self.arena@[j].wf() && links_ok(
            self.arena@[j],
            self.arena@.len() as int,
        ) by {
            if j != h {
                assert(self.arena@[j] == a[j]);
                assert(links_ok(a[j], a.len() as int));
            }
        }
        assert(fd_map(self.map@) =~= fd_map(old(self).map@).insert(old(self).seq, h));
        h
    }

    /// The number of registered ids.
    pub fn count(&self) -> (r: usize)
        ensures
            r == self.map@.len(),
    {
        self.map.len()
    }
}

} // verus!
