use vstd::prelude::*;
use std::collections::{BTreeMap, VecDeque};
use crate::config::{AUDIT_CAPACITY, MAX_CPU, MEM_OFF, N_CHAINS, PAGE_SZ, TTY_BUF_MAX, USR_STK_OFF, USR_STK_SZ};
use crate::errno::Errno;
use crate::files::{FLike, PipeNode, fds_unique, fd_map, is_lowest_free_from};
use crate::fs::audit::AuditLog;
use crate::kernel::cache::{BlockCache, CacheSlot, Disk, total_slots, dirty_slots, dirty_in};
use crate::sync::kernlock::{reenters, entered, left, is_free};
use crate::mm::frame::{FramePool, count_free, free_indices, take_slots, lemma_count_free_bound};
use crate::mm::kstk::KStk;
use crate::procinit::{ProcInit, init_fits, init_stack, align16};
use crate::sched::{compute_load_balance, best_cpu, balance_fits};
use crate::sync::kernlock::KernLock;
use crate::task::{Task, ThdCtx, fresh_thd};
use crate::task_table::{TaskTable, links_ok, regs_with, zombie_sel, reaped, forked, next_id};

verus! {

/// The kernel: tasks, block cache, frame pool, the task each CPU runs (by
/// position in the task table), terminal input, disk, audit log, the big
/// kernel lock and the clock.
pub struct Kernel {
    pub tasks: TaskTable,
    pub cache: BlockCache,
    pub pool: FramePool,
    pub cpus: Vec<Option<usize>>,
    pub tty_buf: VecDeque<u8>,
    pub disk: Disk,
    pub audit: AuditLog,
    pub gkl: KernLock,
    pub clk: usize,
}

/// The byte the terminal stores for input byte `c`: carriage return reads
/// as newline.
pub open spec fn tty_byte(c: u8) -> u8 {
    if c == 13 { 10 } else { c }
}

/// The frames `alloc_pages(count)` takes from pool `s`: the lowest `count`
/// free ones (all of them if fewer are free).
pub open spec fn alloc_taken(s: Seq<bool>, count: usize) -> Seq<usize> {
    free_indices(s).take(if count < free_indices(s).len() { count as int } else { free_indices(s).len() as int })
}

/// One of the addresses `pages` falls in frame `i`.
pub open spec fn returned(pages: Seq<usize>, i: int) -> bool {
    exists|j: int| 0 <= j < pages.len() && (pages[j] - MEM_OFF) / (PAGE_SZ as int) == i
}

/// The physical address of frame `i`.
pub open spec fn page_addr(i: usize) -> usize {
    (i * PAGE_SZ + MEM_OFF) as usize
}

/// Keeps the descriptors that are not close-on-exec files.
pub open spec fn kept_on_exec() -> spec_fn((usize, FLike)) -> bool {
    |e: (usize, FLike)| !(e.1 matches FLike::File(h) && h.cloexec)
}

/// Child `c` of a task in group `ppgid` matches wait target `target`: any
/// child (-1), one of the caller's group (0), the child with that id
/// (positive) or one of group `-target` (below -1).
pub open spec fn wait_matches(c: Task, ppgid: i32, target: isize) -> bool {
    if target == -1 {
        true
    } else if target == 0 {
        c.pgid == ppgid
    } else if target > 0 {
        c.info.id == target as usize
    } else {
        c.pgid == (-target) as i32
    }
}

/// Filtering keeps the numbers of a table apart.
pub proof fn lemma_filter_unique(t: Seq<(usize, FLike)>, p: spec_fn((usize, FLike)) -> bool)
    requires
        fds_unique(t),
    ensures
        fds_unique(t.filter(p)),
    decreases t.len(),
{
    reveal(Seq::filter);
    if t.len() > 0 {
        let d = t.drop_last();
        assert(fds_unique(d));
        lemma_filter_unique(d, p);
        let f = d.filter(p);
        if p(t.last()) {
            assert forall|i: int| 0 <= i < f.len() implies f[i].0 != t.last().0 by {
                assert(f.contains(f[i]));
                d.lemma_filter_contains_rev(p, f[i]);
                let j = choose|j: int| 0 <= j < d.len() && d[j] == f[i];
                assert(t[j] == d[j]);
            }
        }
    }
}

/// A kernel whose task table alone changed, staying well formed and not
/// shrinking, is well formed.
pub proof fn lemma_tasks_changed_wf(k: Kernel, n: Kernel)
    requires
        k.wf(),
        n == (Kernel { tasks: n.tasks, ..k }),
        n.tasks.wf(),
        n.tasks.arena@.len() >= k.tasks.arena@.len(),
    ensures
        n.wf(),
{
    assert forall|i: int| 0 <= i < MAX_CPU implies (#[trigger] n.cpus@[i] matches Some(h) ==> h
        < n.tasks.arena@.len()) by {
        assert(k.cpus@[i] matches Some(h) ==> h < k.tasks.arena@.len());
    }
}

impl Kernel {
    /// The tables agree: the task table is well formed, the cache and pool
    /// are, there is a slot for every CPU, and every running task is in the
    /// table.
    pub open spec fn wf(&self) -> bool {
        &&& self.tasks.wf()
        &&& self.cache.wf()
        &&& self.pool.wf()
        &&& self.cpus@.len() == MAX_CPU
        &&& forall|i: int|
            0 <= i < MAX_CPU ==> (#[trigger] self.cpus@[i] matches Some(h) ==> h < self.tasks.arena@.len())
    }

    /// The position of the task CPU 0 runs.
    pub open spec fn current(&self) -> Option<usize> {
        self.cpus@[0]
    }

    /// A kernel with `nf` free frames, no task, an empty cache of
    /// `N_CHAINS` chains, idle CPUs, an empty terminal, disk `disk0`, a
    /// disabled audit log, a free lock and the clock at 0.
    pub fn new(nf: usize) -> (r: Self)
        ensures
            r.wf(),
            r.tasks.arena@.len() == 0 && r.tasks.map@.len() == 0 && r.tasks.seq == 1 && r.tasks.root is None,
            r.cache.width == N_CHAINS,
            r.cache.slots() == Seq::new(N_CHAINS as nat, |i: int| Seq::<CacheSlot>::empty()),
            r.pool.cap == nf && r.pool@ == Seq::new(nf as nat, |i: int| true),
            forall|i: int| 0 <= i < MAX_CPU ==> #[trigger] r.cpus@[i] is None,
            r.tty_buf@.len() == 0,
            r.disk.label@ == "disk0"@ && r.disk.ops == 0,
            r.audit.log().len() == 0 && !r.audit.enabled && r.audit.capacity == AUDIT_CAPACITY
                && r.audit.dropped == 0 && r.audit.seq_next == 0,
            !r.gkl.flag && r.gkl.holder == 0 && r.gkl.depth == 0 && r.gkl.tid_holder == 0,
            r.clk == 0,
    {
        let mut cpus: Vec<Option<usize>> = Vec::new();
        let mut i: usize = 0;
        while i < MAX_CPU
            invariant
                i <= MAX_CPU,
                cpus@.len() == i,
                forall|j: int| 0 <= j < i ==> #[trigger] cpus@[j] is None,
            decreases MAX_CPU - i,
        {
            cpus.push(None);
            i += 1;
        }
        Kernel {
            tasks: TaskTable::new(),
            cache: BlockCache::new(N_CHAINS),
            pool: FramePool::new(nf),
            cpus,
            tty_buf: VecDeque::new(),
            disk: Disk::new("disk0"),
            audit: AuditLog::new(AUDIT_CAPACITY),
            gkl: KernLock::new(),
            clk: 0,
        }
    }

    /// A clock tick on behalf of thread `tid` with id `id`: enters the big
    /// lock (a re-entry when `tid` holds it) and leaves it once, so the lock
    /// ends as it was; the cached blocks keep their dirty flags.
    pub fn tick(&mut self, tid: usize, id: usize)
        requires
            old(self).wf(),
            tid != 0,
            reenters(old(self).gkl, tid, id) || !old(self).gkl.flag,
            reenters(old(self).gkl, tid, id) ==> old(self).gkl.depth < usize::MAX,
        ensures
            final(self).wf(),
            *final(self) == (Kernel { gkl: left(entered(old(self).gkl, tid, id)), ..*old(self) }),
    {
        self.gkl.enter(tid, id);
        self.gkl.leave();
    }

    /// The position of the task CPU `cpu` runs (`None` for an idle or
    /// unknown CPU).
    pub fn cur_task(&self, cpu: usize) -> (r: Option<usize>)
        requires
            self.wf(),
        ensures
            r == if cpu < MAX_CPU { self.cpus@[cpu as int] } else { None },
            r matches Some(h) ==> h < self.tasks.arena@.len(),
    {
        if cpu >= self.cpus.len() {
            return None;
        }
        self.cpus[cpu]
    }

    /// Makes CPU `cpu` run the task at `t` (idle for `None`); an unknown CPU
    /// is ignored.
    pub fn set_cur(&mut self, cpu: usize, t: Option<usize>)
        requires
            old(self).wf(),
            t matches Some(h) ==> h < old(self).tasks.arena@.len(),
        ensures
            final(self).wf(),
            final(self).cpus@ == if cpu < MAX_CPU { old(self).cpus@.update(cpu as int, t) } else { old(self).cpus@ },
            *final(self) == (Kernel { cpus: final(self).cpus, ..*old(self) }),
    {
        if cpu < self.cpus.len() {
            self.cpus.set(cpu, t);
        }
    }

    /// A page fault at `addr` is handled when CPU 0 runs a task.
    pub fn handle_pgfault(&self, addr: usize) -> (r: bool)
        requires
            self.wf(),
        ensures
            r == self.current() is Some,
    {
        self.cur_task(0).is_some()
    }

    /// The same as `handle_pgfault`, whatever the access.
    pub fn handle_pgfault_ext(&self, addr: usize, access: u8) -> (r: bool)
        requires
            self.wf(),
        ensures
            r == self.current() is Some,
    {
        if access & 0x2 != 0 {
            return self.handle_pgfault(addr);
        }
        self.handle_pgfault(addr)
    }

    /// Starts the first process: the root task, its own first thread, with a
    /// kernel stack.
    pub fn proc_init(&mut self)
        requires
            old(self).wf(),
        ensures
            final(self).wf(),
            final(self).tasks.root == Some(old(self).tasks.arena@.len() as usize),
            final(self).tasks.arena@.len() == old(self).tasks.arena@.len() + 1,
            ({
                let t = final(self).tasks.arena@[old(self).tasks.arena@.len() as int];
                &&& t.info.id == old(self).tasks.seq && t.info.tag@ == "init"@
                &&& t.threads@ == seq![old(self).tasks.seq]
                &&& t.kstk is Some
            }),
            fd_map(final(self).tasks.map@) == fd_map(old(self).tasks.map@).insert(
                old(self).tasks.seq,
                old(self).tasks.arena@.len() as usize,
            ),
            final(self).tasks.seq == next_id(old(self).tasks.seq),
            *final(self) == (Kernel { tasks: final(self).tasks, ..*old(self) }),
    {
        let h = self.tasks.spawn_root();
        let rid = self.tasks.arena[h].info.id;
        self.tasks.arena[h].threads.push(rid);
        let k = KStk::new();
        self.tasks.arena[h].kstk = Some(k);
        assert(self.tasks.arena@[h as int].threads@ =~= seq![rid]);
        assert forall|j: int|
            #![trigger self.tasks.arena@[j]]
            0 <= j < self.tasks.arena@.len() implies self.tasks.arena@[j].wf() && links_ok(
            self.tasks.arena@[j],
            self.tasks.arena@.len() as int,
        ) by {
            if j < h {
                assert(self.tasks.arena@[j] == old(self).tasks.arena@[j]);
                assert(links_ok(old(self).tasks.arena@[j], old(self).tasks.arena@.len() as int));
            }
        }
        assert forall|i: int| 0 <= i < MAX_CPU implies (#[trigger] self.cpus@[i] matches Some(h2) ==> h2
            < self.tasks.arena@.len()) by {
            assert(old(self).cpus@[i] matches Some(h2) ==> h2 < old(self).tasks.arena@.len());
        }
    }

    /// Queues terminal input byte `c` (carriage return as newline) unless
    /// `TTY_BUF_MAX` bytes are waiting.
    pub fn tty_push(&mut self, c: u8)
        ensures
            final(self).tty_buf@ == if old(self).tty_buf@.len() < TTY_BUF_MAX {
                old(self).tty_buf@.push(tty_byte(c))
            } else {
                old(self).tty_buf@
            },
            *final(self) == (Kernel { tty_buf: final(self).tty_buf, ..*old(self) }),
    {
        let byte = if c == 13u8 { 10u8 } else { c };
        if self.tty_buf.len() < TTY_BUF_MAX {
            self.tty_buf.push_back(byte);
        }
    }

    /// Takes the oldest waiting terminal byte.
    pub fn tty_pop(&mut self) -> (r: Option<u8>)
        ensures
            old(self).tty_buf@.len() == 0 ==> r is None && final(self).tty_buf@ == old(self).tty_buf@,
            old(self).tty_buf@.len() > 0 ==> r == Some(old(self).tty_buf@[0]) && final(self).tty_buf@
                == old(self).tty_buf@.drop_first(),
            *final(self) == (Kernel { tty_buf: final(self).tty_buf, ..*old(self) }),
    {
        self.tty_buf.pop_front()
    }

    /// Advances the clock by one tick (wrapping) on behalf of CPU `cpu`.
    pub fn schedule_tick(&mut self, cpu: usize)
        ensures
            final(self).clk == if old(self).clk == usize::MAX { 0 } else { (old(self).clk + 1) as usize },
            *final(self) == (Kernel { clk: final(self).clk, ..*old(self) }),
    {
        self.clk = self.clk.wrapping_add(1);
    }

    /// The CPU to place work on (see `compute_load_balance`), from each
    /// CPU's load (children of its task plus one, 0 when idle), priority
    /// (its task's group) and whether its task has exited.
    pub fn balance_load(&self) -> (r: usize)
        requires
            self.wf(),
            forall|i: int|
                0 <= i < MAX_CPU ==> (#[trigger] self.cpus@[i] matches Some(h) ==> self.tasks.arena@[h as int].subtasks@.len()
                    < usize::MAX),
            load_sum(cpu_loads(*self)) <= u64::MAX,
            balance_fits(cpu_loads(*self), cpu_prios(*self), cpu_blocked(*self)),
        ensures
            best_cpu(cpu_loads(*self), cpu_prios(*self), cpu_blocked(*self), r),
    {
        let mut counts: Vec<usize> = Vec::new();
        let mut prios: Vec<i32> = Vec::new();
        let mut blocked: Vec<bool> = Vec::new();
        let mut i: usize = 0;
        while i < MAX_CPU
            invariant
                self.wf(),
                forall|j: int|
                    0 <= j < MAX_CPU ==> (#[trigger] self.cpus@[j] matches Some(h) ==> self.tasks.arena@[h as int].subtasks@.len()
                        < usize::MAX),
                balance_fits(cpu_loads(*self), cpu_prios(*self), cpu_blocked(*self)),
                i <= MAX_CPU,
                counts@ == cpu_loads(*self).take(i as int),
                prios@ == cpu_prios(*self).take(i as int),
                blocked@ == cpu_blocked(*self).take(i as int),
            decreases MAX_CPU - i,
        {
            match self.cpus[i] {
                Some(h) => {
                    let n = self.tasks.arena[h].subtasks.len();
                    assert(self.cpus@[i as int] == Some(h));
                    counts.push(n + 1);
                    prios.push(self.tasks.arena[h].pgid);
                    blocked.push(self.tasks.arena[h].done());
                },
                None => {
                    counts.push(0);
                    prios.push(0);
                    blocked.push(false);
                },
            }
            i += 1;
            assert(counts@ =~= cpu_loads(*self).take(i as int));
            assert(prios@ =~= cpu_prios(*self).take(i as int));
            assert(blocked@ =~= cpu_blocked(*self).take(i as int));
        }
        assert(counts@ =~= cpu_loads(*self));
        assert(prios@ =~= cpu_prios(*self));
        assert(blocked@ =~= cpu_blocked(*self));
        compute_load_balance(counts.as_slice(), prios.as_slice(), blocked.as_slice())
    }

    /// Reaps every registered task that has exited and answers how many.
    pub fn reclaim_zombies(&mut self) -> (r: usize)
        requires
            old(self).wf(),
        ensures
            final(self).wf(),
            r == old(self).tasks.map@.filter_map(zombie_sel(old(self).tasks.arena@)).len(),
            forall|id: usize|
                #![trigger fd_map(final(self).tasks.map@).dom().contains(id)]
                fd_map(final(self).tasks.map@).dom().contains(id) <==> fd_map(old(self).tasks.map@).dom().contains(id)
                    && !old(self).tasks.map@.filter_map(zombie_sel(old(self).tasks.arena@)).contains(id),
            final(self).tasks.arena@.len() == old(self).tasks.arena@.len(),
            final(self).tasks.seq == old(self).tasks.seq && final(self).tasks.root == old(self).tasks.root,
            *final(self) == (Kernel { tasks: final(self).tasks, ..*old(self) }),
    {
        let zombies = self.tasks.zombie_tasks();
        let ghost z = zombies@;
        let mut k: usize = 0;
        while k < zombies.len()
            invariant
                self.wf(),
                zombies@ == z,
                k <= z.len(),
                self.tasks.arena@.len() == old(self).tasks.arena@.len(),
                self.tasks.seq == old(self).tasks.seq && self.tasks.root == old(self).tasks.root,
                *self == (Kernel { tasks: self.tasks, ..*old(self) }),
                forall|id: usize|
                    #![trigger fd_map(self.tasks.map@).dom().contains(id)]
                    fd_map(self.tasks.map@).dom().contains(id) <==> fd_map(old(self).tasks.map@).dom().contains(id)
                        && !z.take(k as int).contains(id),
            decreases z.len() - k,
        {
            let id = zombies[k];
            let ghost before = self.tasks;
            self.tasks.reap(id);
            proof {
                assert(z.take(k + 1) =~= z.take(k as int).push(id));
                assert forall|x: usize|
                    #![trigger fd_map(self.tasks.map@).dom().contains(x)]
                    fd_map(self.tasks.map@).dom().contains(x) <==> fd_map(before.map@).dom().contains(x) && x != id by {
                    if before.lookup(id) is Some {
                        assert(fd_map(self.tasks.map@) == fd_map(before.map@).remove(id));
                    } else {
                        assert(!fd_map(before.map@).dom().contains(id));
                    }
                }
                assert forall|x: usize|
                    #![trigger fd_map(self.tasks.map@).dom().contains(x)]
                    fd_map(self.tasks.map@).dom().contains(x) <==> fd_map(old(self).tasks.map@).dom().contains(x)
                        && !z.take(k + 1).contains(x) by {
                    assert(fd_map(before.map@).dom().contains(x) <==> fd_map(old(self).tasks.map@).dom().contains(x)
                        && !z.take(k as int).contains(x));
                    if z.take(k + 1).contains(x) && !z.take(k as int).contains(x) {
                        let i = choose|i: int| 0 <= i < z.take(k + 1).len() && #[trigger] z.take(k + 1)[i] == x;
                        if i < k {
                            assert(z.take(k as int)[i] == x);
                        }
                    }
                    if z.take(k as int).contains(x) {
                        let i = choose|i: int| 0 <= i < z.take(k as int).len() && #[trigger] z.take(k as int)[i] == x;
                        assert(z.take(k + 1)[i] == x);
                    }
                    if x == id {
                        assert(z.take(k + 1)[k as int] == x);
                    }
                }
                assert forall|i: int| 0 <= i < MAX_CPU implies (#[trigger] self.cpus@[i] matches Some(h2) ==> h2
                    < self.tasks.arena@.len()) by {
                    assert(old(self).cpus@[i] matches Some(h2) ==> h2 < old(self).tasks.arena@.len());
                }
            }
            k += 1;
        }
        assert(z.take(k as int) =~= z);
        zombies.len()
    }

    /// Takes the lowest `count` free frames (as many as there are) and
    /// answers their physical addresses, lowest first.
    pub fn alloc_pages(&mut self, count: usize) -> (r: Vec<usize>)
        requires
            old(self).wf(),
            old(self).pool@.len() * PAGE_SZ + MEM_OFF <= usize::MAX,
        ensures
            final(self).wf(),
            r@ == alloc_taken(old(self).pool@, count).map_values(|i: usize| page_addr(i)),
            final(self).pool@ == take_slots(old(self).pool@, alloc_taken(old(self).pool@, count)),
            final(self).pool.cap == old(self).pool.cap,
            *final(self) == (Kernel { pool: final(self).pool, ..*old(self) }),
    {
        let idx = self.pool.batch_alloc(count);
        let ghost len = old(self).pool@.len();
        let mut out: Vec<usize> = Vec::new();
        let mut i: usize = 0;
        proof { lemma_free_indices_below(old(self).pool@); }
        while i < idx.len()
            invariant
                i <= idx@.len(),
                len * PAGE_SZ + MEM_OFF <= usize::MAX,
                forall|j: int| 0 <= j < idx@.len() ==> #[trigger] idx@[j] < len,
                out@ == idx@.take(i as int).map_values(|x: usize| page_addr(x)),
            decreases idx@.len() - i,
        {
            let f = idx[i];
            assert(f < len);
            assert(f * PAGE_SZ <= len * PAGE_SZ) by (nonlinear_arith)
                requires
                    f < len,
            ;
            out.push(f * PAGE_SZ + MEM_OFF);
            i += 1;
            assert(out@ =~= idx@.take(i as int).map_values(|x: usize| page_addr(x)));
        }
        assert(idx@.take(i as int) =~= idx@);
        out
    }

    /// Returns the frames at the given physical addresses to the pool (an
    /// address past the pool is ignored).
    pub fn free_pages(&mut self, pages: &[usize])
        requires
            old(self).wf(),
            forall|j: int| 0 <= j < pages@.len() ==> #[trigger] pages@[j] >= MEM_OFF,
        ensures
            final(self).wf(),
            final(self).pool.cap == old(self).pool.cap,
            final(self).pool@.len() == old(self).pool@.len(),
            forall|i: int|
                0 <= i < old(self).pool@.len() ==> #[trigger] final(self).pool@[i] == (old(self).pool@[i] || returned(
                    pages@,
                    i,
                )),
            *final(self) == (Kernel { pool: final(self).pool, ..*old(self) }),
    {
        let mut k: usize = 0;
        while k < pages.len()
            invariant
                k <= pages@.len(),
                forall|j: int| 0 <= j < pages@.len() ==> #[trigger] pages@[j] >= MEM_OFF,
                self.pool.cap == old(self).pool.cap,
                self.pool@.len() == old(self).pool@.len(),
                *self == (Kernel { pool: self.pool, ..*old(self) }),
                forall|i: int|
                    0 <= i < old(self).pool@.len() ==> #[trigger] self.pool@[i] == (old(self).pool@[i] || exists|j: int|
                        0 <= j < k && (pages@[j] - MEM_OFF) / (PAGE_SZ as int) == i),
            decreases pages@.len() - k,
        {
            let pa = pages[k];
            let idx = (pa - MEM_OFF) / PAGE_SZ;
            if idx < self.pool.slots.len() {
                self.pool.slots.set(idx, true);
            }
            proof {
                assert forall|i: int| 0 <= i < old(self).pool@.len() implies #[trigger] self.pool@[i] == (old(self).pool@[i]
                    || exists|j: int| 0 <= j < k + 1 && (pages@[j] - MEM_OFF) / (PAGE_SZ as int) == i) by {
                    if i == idx {
                        assert((pages@[k as int] - MEM_OFF) / (PAGE_SZ as int) == i);
                    }
                    if exists|j: int| 0 <= j < k + 1 && (pages@[j] - MEM_OFF) / (PAGE_SZ as int) == i {
                        if i != idx {
                            let j = choose|j: int| 0 <= j < k + 1 && (pages@[j] - MEM_OFF) / (PAGE_SZ as int) == i;
                            assert(j < k);
                        }
                    }
                }
            }
            k += 1;
        }
    }

    /// The share of frames in use, in percent (100 for an empty pool).
    pub fn memory_pressure(&self) -> (r: usize)
        requires
            self.wf(),
            (self.pool.cap - count_free(self.pool@)) * 100 <= usize::MAX,
        ensures
            self.pool.cap == 0 ==> r == 100,
            self.pool.cap > 0 ==> r == (self.pool.cap - count_free(self.pool@)) * 100 / (self.pool.cap as int),
    {
        let total = self.pool.cap;
        let free = self.pool.free_count();
        if total == 0 {
            return 100;
        }
        proof { lemma_count_free_bound(self.pool@); }
        let used = total - free;
        (used * 100) / total
    }

    /// The number of cached blocks and of dirty ones.
    pub fn cache_stats(&self) -> (r: (usize, usize))
        requires
            self.wf(),
        ensures
            r.0 == total_slots(self.cache.slots()),
            r.1 == dirty_slots(self.cache.slots()),
    {
        (self.cache.total_entries(), self.cache.dirty_count())
    }
}

/// Each CPU's load: the children of its task plus one, 0 when idle.
pub open spec fn cpu_loads(k: Kernel) -> Seq<usize> {
    Seq::new(
        MAX_CPU as nat,
        |i: int|
            match k.cpus@[i] {
                Some(h) => (k.tasks.arena@[h as int].subtasks@.len() + 1) as usize,
                None => 0usize,
            },
    )
}

/// The sum of the loads.
pub open spec fn load_sum(s: Seq<usize>) -> int
    decreases s.len(),
{
    if s.len() == 0 { 0 } else { load_sum(s.drop_last()) + s.last() }
}

/// Each CPU's priority: its task's process group, 0 when idle.
pub open spec fn cpu_prios(k: Kernel) -> Seq<i32> {
    Seq::new(MAX_CPU as nat, |i: int| match k.cpus@[i] {
        Some(h) => k.tasks.arena@[h as int].pgid,
        None => 0i32,
    })
}

/// Whether each CPU's task has exited (false when idle).
pub open spec fn cpu_blocked(k: Kernel) -> Seq<bool> {
    Seq::new(MAX_CPU as nat, |i: int| match k.cpus@[i] {
        Some(h) => k.tasks.arena@[h as int].info.status is Some,
        None => false,
    })
}

/// The free frames of a pool are inside it.
proof fn lemma_free_indices_below(s: Seq<bool>)
    ensures
        forall|j: int| 0 <= j < free_indices(s).len() ==> #[trigger] free_indices(s)[j] < s.len(),
    decreases s.len(),
{
    if s.len() > 0 {
        let d = s.drop_last();
        lemma_free_indices_below(d);
        assert forall|j: int| 0 <= j < free_indices(s).len() implies #[trigger] free_indices(s)[j] < s.len() by {
            if j < free_indices(d).len() {
                assert(free_indices(s)[j] == free_indices(d)[j]);
            }
        }
    }
}

/// Terminal input comes out in the order it went in: after a byte is
/// queued (with room), the next byte taken is the oldest waiting one, or
/// that byte when none was waiting, and the rest stay in order.
pub proof fn law_tty_fifo(buf: Seq<u8>, c: u8)
    requires
        buf.len() < TTY_BUF_MAX,
    ensures
        buf.push(tty_byte(c))[0] == if buf.len() == 0 { tty_byte(c) } else { buf[0] },
        buf.len() > 0 ==> buf.push(tty_byte(c)).drop_first() == buf.drop_first().push(tty_byte(c)),
{
    if buf.len() > 0 {
        assert(buf.push(tty_byte(c)).drop_first() =~= buf.drop_first().push(tty_byte(c)));
    }
}

/// The free frames listed by `free_indices` are free.
proof fn lemma_free_indices_free(s: Seq<bool>)
    requires
        s.len() <= usize::MAX,
    ensures
        forall|j: int| 0 <= j < free_indices(s).len() ==> s[#[trigger] free_indices(s)[j] as int],
        forall|i: int| 0 <= i < s.len() && s[i] ==> #[trigger] free_indices(s).contains(i as usize),
    decreases s.len(),
{
    if s.len() > 0 {
        let d = s.drop_last();
        lemma_free_indices_free(d);
        lemma_free_indices_below(d);
        assert(free_indices(s) == if s.last() { free_indices(d).push((s.len() - 1) as usize) } else { free_indices(d) });
        assert forall|j: int| 0 <= j < free_indices(s).len() implies s[#[trigger] free_indices(s)[j] as int] by {
            if j < free_indices(d).len() {
                assert(free_indices(s)[j] == free_indices(d)[j]);
                assert(free_indices(d)[j] < d.len());
                assert(d[free_indices(d)[j] as int]);
                assert(d[free_indices(d)[j] as int] == s[free_indices(d)[j] as int]);
            } else {
                assert(s.last());
                assert(free_indices(s)[j] == (s.len() - 1) as usize);
            }
        }
        assert forall|i: int| 0 <= i < s.len() && s[i] implies #[trigger] free_indices(s).contains(i as usize) by {
            if i < s.len() - 1 {
                assert(d[i]);
                assert(free_indices(d).contains(i as usize));
                let w = choose|w: int| 0 <= w < free_indices(d).len() && #[trigger] free_indices(d)[w] == i as usize;
                assert(free_indices(s)[w] == i as usize);
            } else {
                assert(free_indices(s).last() == i as usize);
            }
        }
    }
}

/// Returning the frames `alloc_pages` handed out restores the pool:
/// with `taken` the frames taken and `addrs` their addresses, a slot of the
/// pool after `free_pages(addrs)` (see its contract) is free exactly when it
/// was free before `alloc_pages`.
pub proof fn law_alloc_then_free_restores(s: Seq<bool>, count: usize)
    requires
        s.len() * PAGE_SZ + MEM_OFF <= usize::MAX,
    ensures
        forall|i: int|
            0 <= i < s.len() ==> (#[trigger] take_slots(s, alloc_taken(s, count))[i] || returned(
                alloc_taken(s, count).map_values(|x: usize| page_addr(x)),
                i,
            )) == s[i],
{
    let taken = alloc_taken(s, count);
    let after = take_slots(s, taken);
    let addrs = taken.map_values(|x: usize| page_addr(x));
    lemma_free_indices_free(s);
    lemma_free_indices_below(s);
    assert forall|i: int| 0 <= i < s.len() implies (#[trigger] after[i] || returned(addrs, i)) == s[i] by {
        assert forall|j: int| 0 <= j < addrs.len() implies (addrs[j] - MEM_OFF) / (PAGE_SZ as int) == taken[j] by {
            let x = taken[j];
            assert(taken[j] == free_indices(s)[j]);
            assert(x < s.len());
            assert(x * PAGE_SZ <= s.len() * PAGE_SZ) by (nonlinear_arith)
                requires
                    x < s.len(),
            ;
            assert(addrs[j] == x * PAGE_SZ + MEM_OFF);
            assert((x * PAGE_SZ) / (PAGE_SZ as int) == x) by (nonlinear_arith);
        }
        if exists|j: int| 0 <= j < addrs.len() && (addrs[j] - MEM_OFF) / (PAGE_SZ as int) == i {
            let j = choose|j: int| 0 <= j < addrs.len() && (addrs[j] - MEM_OFF) / (PAGE_SZ as int) == i;
            assert(taken[j] == free_indices(s)[j]);
            assert(s[free_indices(s)[j] as int]);
        }
        if s[i] && !after[i] {
            assert(taken.contains(i as usize));
            let j = choose|j: int| 0 <= j < taken.len() && taken[j] == i as usize;
            assert((addrs[j] - MEM_OFF) / (PAGE_SZ as int) == i);
        }
    }
}

/// A tick leaves the kernel as it found it: the lock free, or held by the
/// ticking thread at the same depth, and every cached block as it was.
pub proof fn law_tick_keeps_state(k: Kernel, tid: usize, id: usize)
    requires
        tid != 0,
        is_free(k.gkl) || (k.gkl.flag && reenters(k.gkl, tid, id) && 1 <= k.gkl.depth < usize::MAX),
    ensures
        (Kernel { gkl: left(entered(k.gkl, tid, id)), ..k }) == k,
{
}

/// Memory pressure is a percentage.
pub proof fn law_pressure_at_most_100(cap: usize, free: nat)
    requires
        cap > 0,
        free <= cap,
    ensures
        0 <= (cap - free) * 100 / (cap as int) <= 100,
{
    assert((cap - free) * 100 <= cap * 100) by (nonlinear_arith)
        requires
            free <= cap,
    ;
    assert((cap - free) * 100 / (cap as int) <= (cap * 100) / (cap as int)) by (nonlinear_arith)
        requires
            (cap - free) * 100 <= cap * 100,
            cap > 0,
            (cap - free) * 100 >= 0,
    ;
    assert((cap * 100) / (cap as int) == 100) by (nonlinear_arith)
        requires
            cap > 0,
    ;
    assert((cap - free) * 100 / (cap as int) >= 0) by (nonlinear_arith)
        requires
            cap > 0,
            (cap - free) * 100 >= 0,
    ;
}

} // verus!
