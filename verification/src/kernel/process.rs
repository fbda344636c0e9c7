use vstd::prelude::*;
use std::collections::BTreeMap;
use crate::config::{MAX_CPU, USR_STK_OFF, USR_STK_SZ};
use crate::errno::Errno;
use crate::files::{FLike, PipeNode, fds_unique, fd_map, is_lowest_free_from};
use crate::kernel::state::{Kernel, kept_on_exec, wait_matches, lemma_filter_unique};
use crate::procinit::{ProcInit, init_fits, init_stack, align16};
use crate::task::{Task, ThdCtx};
use crate::task_table::{links_ok, regs_with, forked, next_id, reap_post, lemma_sorted_unique};

verus! {

/// Address where an executed program starts.
pub const EXEC_ENTRY: u64 = 0x0040_0000;

/// The child at `ch[i]` is the first of `ch` that has exited and matches
/// wait target `target` of a parent in group `ppgid`.
pub open spec fn first_waitable(a: Seq<Task>, ch: Seq<usize>, ppgid: i32, target: isize, i: int) -> bool {
    &&& 0 <= i < ch.len()
    &&& wait_matches(a[ch[i] as int], ppgid, target) && a[ch[i] as int].info.status is Some
    &&& forall|j: int|
        0 <= j < i ==> !(wait_matches(a[#[trigger] ch[j] as int], ppgid, target) && a[ch[j] as int].info.status is Some)
}

/// Waiting for a positive pid takes only the child with that id: any child
/// chosen has that id and has exited, and one is chosen whenever a child
/// with that id has exited.
pub proof fn law_wait_pid_takes_that_child(a: Seq<Task>, ch: Seq<usize>, pg: i32, target: isize, i: int, j: int)
    requires
        target > 0,
    ensures
        first_waitable(a, ch, pg, target, i) ==> a[ch[i] as int].info.id == target as usize && a[ch[i] as int].info.status is Some,
        (0 <= j < ch.len() && a[ch[j] as int].info.id == target as usize && a[ch[j] as int].info.status is Some)
            ==> exists|k: int| #[trigger] first_waitable(a, ch, pg, target, k),
{
    if 0 <= j < ch.len() && a[ch[j] as int].info.id == target as usize && a[ch[j] as int].info.status is Some {
        lemma_first_waitable_exists(a, ch, pg, target, j);
    }
}

/// The child a wait takes for the other targets: for -1 the first child,
/// in the parent's order, that has exited; for 0 one of the parent's own
/// group; for a pid below -1 one of group `-pid`.
pub proof fn law_wait_group_targets(a: Seq<Task>, ch: Seq<usize>, pg: i32, target: isize, i: int)
    requires
        first_waitable(a, ch, pg, target, i),
    ensures
        a[ch[i] as int].info.status is Some,
        target == -1 ==> forall|m: int| 0 <= m < i ==> (#[trigger] a[ch[m] as int]).info.status is None,
        target == 0 ==> a[ch[i] as int].pgid == pg,
        target < -1 ==> a[ch[i] as int].pgid == (-target) as i32,
{
    if target == -1 {
        assert forall|m: int| 0 <= m < i implies (#[trigger] a[ch[m] as int]).info.status is None by {
            assert(!(wait_matches(a[ch[m] as int], pg, target) && a[ch[m] as int].info.status is Some));
        }
    }
}

/// Some child matching and exited up to position `j` gives a first one.
proof fn lemma_first_waitable_exists(a: Seq<Task>, ch: Seq<usize>, pg: i32, target: isize, j: int)
    requires
        0 <= j < ch.len(),
        wait_matches(a[ch[j] as int], pg, target) && a[ch[j] as int].info.status is Some,
    ensures
        exists|k: int| #[trigger] first_waitable(a, ch, pg, target, k),
    decreases j,
{
    if forall|m: int| 0 <= m < j ==> !(wait_matches(a[#[trigger] ch[m] as int], pg, target) && a[ch[m] as int].info.status is Some) {
        assert(first_waitable(a, ch, pg, target, j));
    } else {
        let m = choose|m: int| 0 <= m < j && (wait_matches(a[#[trigger] ch[m] as int], pg, target) && a[ch[m] as int].info.status is Some);
        lemma_first_waitable_exists(a, ch, pg, target, m);
    }
}

impl Kernel {
    /// The task table's position for `id`, with the facts callers need.
    fn find_task(&self, id: usize) -> (r: Option<usize>)
        requires
            self.wf(),
        ensures
            r == self.tasks.lookup(id),
            r matches Some(h) ==> h < self.tasks.arena@.len(),
    {
        let r = self.tasks.find(id);
        proof {
            if let Some(h) = r {
                let i = choose|i: int| 0 <= i < self.tasks.map@.len() && #[trigger] self.tasks.map@[i].0 == id;
                lemma_sorted_unique(self.tasks.map@);
                crate::files::lemma_fd_obj_at(self.tasks.map@, i);
            }
        }
        r
    }

    /// Forks the task registered under `parent_id` (see
    /// `TaskTable::fork_task`); the child shares the parent's address-space
    /// token. Answers the child's id; `Esrch` for an unknown parent.
    pub fn do_fork(&mut self, parent_id: usize) -> (r: Result<usize, Errno>)
        requires
            old(self).wf(),
        ensures
            final(self).wf(),
            old(self).tasks.lookup(parent_id) is None ==> r == Err::<usize, Errno>(Errno::Esrch) && *final(self)
                == *old(self),
            old(self).tasks.lookup(parent_id) matches Some(p) ==> {
                let n = old(self).tasks.arena@.len();
                let child = final(self).tasks.arena@[n as int];
                &&& r == Ok::<usize, Errno>(old(self).tasks.seq)
                &&& final(self).tasks.arena@.len() == n + 1
                &&& forked(Task { vm_token: 0, ..child }, old(self).tasks.arena@[p as int], old(self).tasks.seq, p)
                &&& child.vm_token == old(self).tasks.arena@[p as int].vm_token
                &&& final(self).tasks.arena@[p as int].subtasks@ == old(self).tasks.arena@[p as int].subtasks@.push(
                    n as usize,
                ).push(n as usize)
                &&& final(self).tasks.arena@[p as int] == (Task {
                    subtasks: final(self).tasks.arena@[p as int].subtasks,
                    ..old(self).tasks.arena@[p as int]
                })
                &&& forall|j: int|
                    0 <= j < n && j != p ==> #[trigger] final(self).tasks.arena@[j] == old(self).tasks.arena@[j]
                &&& fd_map(final(self).tasks.map@) == fd_map(old(self).tasks.map@).insert(old(self).tasks.seq, n as usize)
                &&& final(self).tasks.seq == next_id(old(self).tasks.seq)
                &&& final(self).tasks.root == old(self).tasks.root
                &&& *final(self) == (Kernel { tasks: final(self).tasks, ..*old(self) })
            },
    {
        let p = match self.find_task(parent_id) {
            Some(p) => p,
            None => return Err(Errno::Esrch),
        };
        let h = self.tasks.fork_task(p);
        let child_id = self.tasks.arena[h].info.id;
        let tok = self.tasks.arena[p].vm_token;
        self.tasks.arena[h].vm_token = tok;
        proof {
            assert(self.tasks.arena@[h as int].wf());
            assert forall|j: int|
                #![trigger self.tasks.arena@[j]]
                0 <= j < self.tasks.arena@.len() implies self.tasks.arena@[j].wf() && links_ok(
                self.tasks.arena@[j],
                self.tasks.arena@.len() as int,
            ) by {}
            assert forall|i: int| 0 <= i < MAX_CPU implies (#[trigger] self.cpus@[i] matches Some(h2) ==> h2
                < self.tasks.arena@.len()) by {
                assert(old(self).cpus@[i] matches Some(h2) ==> h2 < old(self).tasks.arena@.len());
            }
        }
        Ok(child_id)
    }

    /// Executes program `path` in the task registered under `task_id`: its
    /// program path becomes `path`, its close-on-exec files are closed and
    /// its saved context starts at `EXEC_ENTRY` with the stack laid out for
    /// `args` and `envs`. `Esrch` for an unknown task.
    pub fn do_exec(&mut self, task_id: usize, path: &str, args: Vec<String>, envs: Vec<String>) -> (r: Result<(), Errno>)
        requires
            old(self).wf(),
            init_fits(args@, envs@, 0, USR_STK_OFF + USR_STK_SZ),
        ensures
            final(self).wf(),
            old(self).tasks.lookup(task_id) is None ==> r == Err::<(), Errno>(Errno::Esrch) && *final(self)
                == *old(self),
            old(self).tasks.lookup(task_id) matches Some(h) ==> {
                let t = final(self).tasks.arena@[h as int];
                &&& r == Ok::<(), Errno>(())
                &&& t.exec_path@ == path@
                &&& t.files@ == old(self).tasks.arena@[h as int].files@.filter(kept_on_exec())
                &&& t.thd_ctx matches Some(c) && c.uctx.r@ == regs_with(
                    0,
                    align16(init_stack(args@, envs@, 0, USR_STK_OFF + USR_STK_SZ)) as u64,
                    0,
                ) && c.uctx.ip == EXEC_ENTRY && c.uctx.flags == 0 && c.clear_tid == 0 && c.smask == 0
                &&& t == (Task {
                    exec_path: t.exec_path,
                    files: t.files,
                    thd_ctx: t.thd_ctx,
                    ..old(self).tasks.arena@[h as int]
                })
                &&& final(self).tasks.arena@ == old(self).tasks.arena@.update(h as int, t)
                &&& *final(self) == (Kernel {
                    tasks: crate::task_table::TaskTable { arena: final(self).tasks.arena, ..old(self).tasks },
                    ..*old(self)
                })
            },
    {
        let h = match self.find_task(task_id) {
            Some(h) => h,
            None => return Err(Errno::Esrch),
        };
        let ghost a = self.tasks.arena@;
        self.tasks.arena[h].exec_path = path.to_owned();
        let mut kept: Vec<(usize, FLike)> = Vec::new();
        let mut files: Vec<(usize, FLike)> = Vec::new();
        std::mem::swap(&mut files, &mut self.tasks.arena[h].files);
        let ghost f0 = files@;
        assert(f0 == a[h as int].files@);
        let mut i: usize = 0;
        while i < files.len()
            invariant
                i <= f0.len(),
                files@ == f0,
                kept@ == f0.take(i as int).filter(kept_on_exec()),
            decreases f0.len() - i,
        {
            proof {
                assert(f0.take(i + 1).drop_last() =~= f0.take(i as int));
                reveal(Seq::filter);
            }
            if !files[i].1.is_cloexec_file() {
                kept.push((files[i].0, files[i].1.copy()));
            }
            i += 1;
        }
        assert(f0.take(i as int) =~= f0);
        proof { lemma_filter_unique(f0, kept_on_exec()); }
        self.tasks.arena[h].files = kept;
        let auxv: BTreeMap<u8, usize> = BTreeMap::new();
        let init = ProcInit { args, envs, auxv };
        proof {
            broadcast use vstd::std_specs::btree::axiom_spec_btree_map_len;
            assert(init.auxv@.len() == 0);
        }
        let sp = init.push_at(USR_STK_OFF + USR_STK_SZ);
        let mut ctx = ThdCtx::default();
        ctx.uctx.set_sp(sp as u64);
        ctx.uctx.set_ip(EXEC_ENTRY);
        assert(ctx.uctx.r@ =~= regs_with(0, sp as u64, 0));
        self.tasks.arena[h].thd_ctx = Some(ctx);
        proof {
            assert forall|j: int|
                #![trigger self.tasks.arena@[j]]
                0 <= j < self.tasks.arena@.len() implies self.tasks.arena@[j].wf() && links_ok(
                self.tasks.arena@[j],
                self.tasks.arena@.len() as int,
            ) by {
                assert(links_ok(a[j], a.len() as int));
                assert(a[j].wf());
            }
            assert(self.tasks.arena@ =~= a.update(h as int, self.tasks.arena@[h as int]));
        }
        Ok(())
    }

    /// Opens a pipe in the task registered under `task_id`: the reading end
    /// at the lowest free descriptor, then the writing end at the next
    /// lowest. `Esrch` for an unknown task.
    pub fn do_pipe(&mut self, task_id: usize) -> (r: Result<(usize, usize), Errno>)
        requires
            old(self).wf(),
            old(self).tasks.lookup(task_id) matches Some(h) ==> old(self).tasks.arena@[h as int].files@.len() + 1
                < usize::MAX,
        ensures
            final(self).wf(),
            old(self).tasks.lookup(task_id) is None ==> r == Err::<(usize, usize), Errno>(Errno::Esrch) 
                && *final(self) == *old(self),
            old(self).tasks.lookup(task_id) matches Some(h) ==> {
                let o = old(self).tasks.arena@[h as int];
                let t = final(self).tasks.arena@[h as int];
                &&& r matches Ok((rd, wr)) && is_lowest_free_from(o.files@, 0, rd) && is_lowest_free_from(
                    o.files@.push((rd, FLike::Pipe(PipeNode { read_end: true }))),
                    0,
                    wr,
                ) && fd_map(t.files@) == fd_map(o.files@).insert(rd, FLike::Pipe(PipeNode { read_end: true })).insert(
                    wr,
                    FLike::Pipe(PipeNode { read_end: false }),
                )
                &&& t == (Task { files: t.files, ..o })
                &&& final(self).tasks.arena@ == old(self).tasks.arena@.update(h as int, t)
                &&& *final(self) == (Kernel {
                    tasks: crate::task_table::TaskTable { arena: final(self).tasks.arena, ..old(self).tasks },
                    ..*old(self)
                })
            },
    {
        let h = match self.find_task(task_id) {
            Some(h) => h,
            None => return Err(Errno::Esrch),
        };
        let ghost a = self.tasks.arena@;
        let (rd, wr) = PipeNode::pair();
        assert(a[h as int].wf());
        let rd_fd = self.tasks.arena[h].add_file(FLike::Pipe(rd));
        let ghost mid = self.tasks.arena@[h as int].files@;
        assert(mid =~= a[h as int].files@.push((rd_fd, FLike::Pipe(PipeNode { read_end: true })))) by {
            assert(rd == PipeNode { read_end: true });
        }
        let wr_fd = self.tasks.arena[h].add_file(FLike::Pipe(wr));
        proof {
            assert(wr == PipeNode { read_end: false });
            assert forall|j: int|
                #![trigger self.tasks.arena@[j]]
                0 <= j < self.tasks.arena@.len() implies self.tasks.arena@[j].wf() && links_ok(
                self.tasks.arena@[j],
                self.tasks.arena@.len() as int,
            ) by {
                assert(links_ok(a[j], a.len() as int));
                assert(a[j].wf());
            }
            assert(self.tasks.arena@ =~= a.update(h as int, self.tasks.arena@[h as int]));
        }
        Ok((rd_fd, wr_fd))
    }

    /// Waits (without blocking) for a child of the task registered under
    /// `parent_id` that matches `target_pid` (see `wait_matches`): the first
    /// such child, in the parent's child order, that has exited is reaped
    /// and its id and exit code answered. `Esrch` for an unknown parent,
    /// `Echild` when it has no children or, without `WNOHANG` (bit 0 of
    /// `options`), when none matches; with `WNOHANG` then `(0, 0)`.
    pub fn do_wait(&mut self, parent_id: usize, target_pid: isize, options: usize) -> (r: Result<(usize, usize), Errno>)
        requires
            old(self).wf(),
            target_pid != isize::MIN,
        ensures
            final(self).wf(),
            old(self).tasks.lookup(parent_id) is None ==> r == Err::<(usize, usize), Errno>(Errno::Esrch) 
                && *final(self) == *old(self),
            old(self).tasks.lookup(parent_id) matches Some(p) ==> {
                let a = old(self).tasks.arena@;
                let ch = a[p as int].subtasks@;
                let pg = a[p as int].pgid;
                &&& ch.len() == 0 ==> r == Err::<(usize, usize), Errno>(Errno::Echild) && *final(self) == *old(self)
                &&& ch.len() > 0 && (exists|i: int| #[trigger] first_waitable(a, ch, pg, target_pid, i)) ==> {
                    let i = choose|i: int| #[trigger] first_waitable(a, ch, pg, target_pid, i);
                    let c = a[ch[i] as int];
                    &&& r == Ok::<(usize, usize), Errno>((c.info.id, c.exit_code))
                    &&& reap_post(old(self).tasks, final(self).tasks, c.info.id)
                    &&& *final(self) == (Kernel { tasks: final(self).tasks, ..*old(self) })
                }
                &&& ch.len() > 0 && !(exists|i: int| #[trigger] first_waitable(a, ch, pg, target_pid, i)) ==> {
                    &&& *final(self) == *old(self)
                    &&& options & 1 != 0 ==> r == Ok::<(usize, usize), Errno>((0, 0))
                    &&& options & 1 == 0 ==> r == Err::<(usize, usize), Errno>(Errno::Echild)
                }
            },
    {
        let p = match self.find_task(parent_id) {
            Some(p) => p,
            None => return Err(Errno::Esrch),
        };
        let ghost a = self.tasks.arena@;
        let wnohang = (options & 1) != 0;
        let n = self.tasks.arena[p].subtasks.len();
        if n == 0 {
            return Err(Errno::Echild);
        }
        assert(links_ok(a[p as int], a.len() as int));
        let pg = self.tasks.arena[p].pgid;
        let mut found: Option<(usize, usize)> = None;
        let mut i: usize = 0;
        while i < n && found.is_none()
            invariant
                self.wf(),
                *self == *old(self),
                a == self.tasks.arena@,
                p < a.len(),
                n == a[p as int].subtasks@.len(),
                pg == a[p as int].pgid,
                target_pid != isize::MIN,
                i <= n,
                forall|k: int| 0 <= k < n ==> #[trigger] a[p as int].subtasks@[k] < a.len(),
                found is None ==> forall|j: int|
                    0 <= j < i ==> !(wait_matches(a[#[trigger] a[p as int].subtasks@[j] as int], pg, target_pid)
                        && a[a[p as int].subtasks@[j] as int].info.status is Some),
                found matches Some(v) ==> exists|j: int|
                    #[trigger] first_waitable(a, a[p as int].subtasks@, pg, target_pid, j) && v == (
                    a[a[p as int].subtasks@[j] as int].info.id,
                    a[a[p as int].subtasks@[j] as int].exit_code,
                ),
            decreases n - i,
        {
            let c = self.tasks.arena[p].subtasks[i];
            let ct = &self.tasks.arena[c];
            let matches = if target_pid == -1 {
                true
            } else if target_pid == 0 {
                ct.pgid == pg
            } else if target_pid > 0 {
                ct.info.id == target_pid as usize
            } else {
                ct.pgid == (-target_pid) as i32
            };
            assert(matches == wait_matches(a[c as int], pg, target_pid));
            if matches && ct.done() {
                found = Some((ct.info.id, ct.exit_code));
                assert(first_waitable(a, a[p as int].subtasks@, pg, target_pid, i as int));
            }
            i += 1;
        }
        proof {
            let ch = a[p as int].subtasks@;
            if found is None {
                assert forall|j: int| !first_waitable(a, ch, pg, target_pid, j) by {
                    if 0 <= j < ch.len() {
                        assert(!(wait_matches(a[ch[j] as int], pg, target_pid) && a[ch[j] as int].info.status is Some));
                    }
                }
            } else {
                let j = choose|j: int| #[trigger] first_waitable(a, ch, pg, target_pid, j) && found == Some((
                    a[ch[j] as int].info.id,
                    a[ch[j] as int].exit_code,
                ));
                let k = choose|k: int| #[trigger] first_waitable(a, ch, pg, target_pid, k);
                if k < j {
                    assert(!(wait_matches(a[ch[k] as int], pg, target_pid) && a[ch[k] as int].info.status is Some));
                }
                if j < k {
                    assert(!(wait_matches(a[ch[j] as int], pg, target_pid) && a[ch[j] as int].info.status is Some));
                }
                assert(j == k);
            }
        }
        match found {
            Some((id, code)) => {
                self.tasks.reap(id);
                proof {
                    assert forall|i: int| 0 <= i < MAX_CPU implies (#[trigger] self.cpus@[i] matches Some(h2) ==> h2
                        < self.tasks.arena@.len()) by {
                        assert(old(self).cpus@[i] matches Some(h2) ==> h2 < old(self).tasks.arena@.len());
                    }
                }
                Ok((id, code))
            },
            None => {
                if wnohang {
                    Ok((0, 0))
                } else {
                    Err(Errno::Echild)
                }
            },
        }
    }
}

} // verus!
