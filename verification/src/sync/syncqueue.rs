use vstd::prelude::*;
use std::collections::VecDeque;

verus! {

/// An epoll registration: the task, its epoll descriptor and the watched
/// descriptor.
#[derive(Clone, Copy, PartialEq, Eq, Structural)]
pub struct RegEp {
    pub task_id: usize,
    pub epfd: usize,
    pub fd: usize,
}

/// A condition-variable queue: the parked threads (by id) in arrival order,
/// the epoll registrations, and the signals that came while no thread was
/// parked, so that none is lost.
pub struct SyncQueue {
    pub q: VecDeque<usize>,
    pub eq: VecDeque<RegEp>,
    pub pending: usize,
}

/// The position of the first registration of `s` equal to `e`.
pub open spec fn first_reg(s: Seq<RegEp>, e: RegEp, p: int) -> bool {
    &&& 0 <= p < s.len()
    &&& s[p] == e
    &&& forall|j: int| 0 <= j < p ==> s[j] != e
}

/// `s` without its first occurrence of `w`, if any.
pub open spec fn without_first(s: Seq<usize>, w: usize) -> Seq<usize> {
    if s.contains(w) {
        s.remove(s.index_of_first(w)->0)
    } else {
        s
    }
}

/// Every queue of `before` with `waiter` parked at its end.
pub open spec fn all_parked(before: Seq<SyncQueue>, after: Seq<SyncQueue>, waiter: usize) -> bool {
    &&& after.len() == before.len()
    &&& forall|i: int| 0 <= i < before.len() ==> {
        &&& (#[trigger] after[i]).q@ == before[i].q@.push(waiter)
        &&& after[i].eq@ == before[i].eq@
        &&& after[i].pending == before[i].pending
    }
}

/// A signal sent while no thread is parked is not lost: it pends, the
/// next wait that finds its condition false consumes it and goes on at
/// once, and the pending count is back where it was.
pub proof fn law_signal_not_lost(pending: usize)
    requires
        pending < usize::MAX,
    ensures
        pending.wrapping_add(1) > 0,
        pending.wrapping_add(1) - 1 == pending,
{
}

impl SyncQueue {
    /// An empty queue with no pending signal.
    pub fn new() -> (r: Self)
        ensures
            r.q@.len() == 0 && r.eq@.len() == 0 && r.pending == 0,
    {
        SyncQueue { q: VecDeque::new(), eq: VecDeque::new(), pending: 0 }
    }

    /// Decides a wait for a condition whose current value is `satisfied`:
    /// `Some(true)` when it holds, or when a pending signal is there to be
    /// consumed (one fewer then pends); otherwise `waiter` is queued and
    /// `None` tells the caller to park it, then `leave` and test the
    /// condition again.
    pub fn park_on(&mut self, satisfied: bool, waiter: usize) -> (r: Option<bool>)
        ensures
            final(self).eq == old(self).eq,
            satisfied ==> r == Some(true) && final(self).q@ == old(self).q@ && final(self).pending == old(self).pending,
            !satisfied && old(self).pending > 0 ==> r == Some(true) && final(self).q@ == old(self).q@
                && final(self).pending == old(self).pending - 1,
            !satisfied && old(self).pending == 0 ==> r is None && final(self).q@ == old(self).q@.push(waiter)
                && final(self).pending == 0,
    {
        if satisfied {
            return Some(true);
        }
        if self.pending > 0 {
            self.pending = self.pending - 1;
            return Some(true);
        }
        self.q.push_back(waiter);
        None
    }

    /// After waking: takes `waiter` out of the queue if it is still there
    /// (its first place).
    pub fn leave(&mut self, waiter: usize)
        ensures
            final(self).q@ == without_first(old(self).q@, waiter),
            final(self).eq == old(self).eq && final(self).pending == old(self).pending,
    {
        let ghost s = self.q@;
        let n = self.q.len();
        let mut i: usize = 0;
        while i < n
            invariant
                n == s.len(),
                i <= n,
                self.q@ == s,
                s == old(self).q@,
                self.eq == old(self).eq && self.pending == old(self).pending,
                forall|j: int| 0 <= j < i ==> s[j] != waiter,
            decreases n - i,
        {
            if self.q[i] == waiter {
                proof {
                    assert(s.contains(waiter));
                    let f = s.index_of_first(waiter);
                    s.index_of_first_ensures(waiter);
                    assert(f == Some(i as int));
                }
                let _ = self.q.remove(i);
                return;
            }
            i += 1;
        }
        proof {
            if s.contains(waiter) {
                let j = choose|j: int| 0 <= j < s.len() && s[j] == waiter;
                assert(s[j] != waiter);
            }
        }
    }

    /// Wakes the thread parked longest and answers it for the caller to
    /// unpark; with none parked the signal pends instead (wrapping count).
    pub fn signal(&mut self) -> (r: Option<usize>)
        ensures
            final(self).eq == old(self).eq,
            old(self).q@.len() > 0 ==> r == Some(old(self).q@[0]) && final(self).q@ == old(self).q@.drop_first()
                && final(self).pending == old(self).pending,
            old(self).q@.len() == 0 ==> r is None && final(self).q@ == old(self).q@ && final(self).pending
                == old(self).pending.wrapping_add(1),
    {
        match self.q.pop_front() {
            Some(t) => Some(t),
            None => {
                self.pending = self.pending.wrapping_add(1);
                None
            },
        }
    }

    /// Wakes every parked thread: empties the queue and answers them in
    /// order for the caller to unpark.
    pub fn broadcast(&mut self) -> (r: Vec<usize>)
        ensures
            r@ == old(self).q@,
            final(self).q@.len() == 0,
            final(self).eq == old(self).eq && final(self).pending == old(self).pending,
    {
        let ghost s = self.q@;
        let mut batch: Vec<usize> = Vec::new();
        while self.q.len() > 0
            invariant
                s == old(self).q@,
                batch@ + self.q@ == s,
                self.eq == old(self).eq && self.pending == old(self).pending,
            decreases self.q@.len(),
        {
            let ghost before = self.q@;
            match self.q.pop_front() {
                Some(t) => {
                    batch.push(t);
                    assert(batch@ + self.q@ =~= s) by {
                        assert(before =~= seq![t] + self.q@);
                        assert(batch@ =~= (batch@.drop_last()).push(t));
                    }
                },
                None => {},
            }
        }
        assert(batch@ + self.q@ =~= batch@);
        batch
    }

    /// Wakes the `n` threads parked longest (all of them when fewer are
    /// parked) and answers them in order for the caller to unpark.
    pub fn signal_n(&mut self, n: usize) -> (r: Vec<usize>)
        ensures
            r@ == old(self).q@.take(if n < old(self).q@.len() { n as int } else { old(self).q@.len() as int }),
            final(self).q@ == old(self).q@.skip(r@.len() as int),
            final(self).eq == old(self).eq && final(self).pending == old(self).pending,
    {
        let ghost s = self.q@;
        let avail = self.q.len();
        let to_wake = if n < avail { n } else { avail };
        let mut woken: Vec<usize> = Vec::new();
        let mut k: usize = 0;
        while k < to_wake
            invariant
                s == old(self).q@,
                avail == s.len(),
                to_wake <= avail,
                k <= to_wake,
                woken@ == s.take(k as int),
                self.q@ == s.skip(k as int),
                self.eq == old(self).eq && self.pending == old(self).pending,
            decreases to_wake - k,
        {
            match self.q.pop_front() {
                Some(t) => {
                    woken.push(t);
                    assert(woken@ =~= s.take(k + 1));
                },
                None => {},
            }
            k += 1;
            assert(self.q@ =~= s.skip(k as int));
        }
        woken
    }

    /// The number of parked threads.
    pub fn pending(&self) -> (r: usize)
        ensures
            r == self.q@.len(),
    {
        self.q.len()
    }

    /// Decides one round of a wait on a condition whose verdict is
    /// `verdict`: a verdict is answered as it is; without one, `waiter` is
    /// queued and `None` tells the caller to park it and try again.
    pub fn wait_ev(&mut self, verdict: Option<bool>, waiter: usize) -> (r: Option<bool>)
        ensures
            r == verdict,
            final(self).eq == old(self).eq && final(self).pending == old(self).pending,
            verdict is Some ==> final(self).q@ == old(self).q@,
            verdict is None ==> final(self).q@ == old(self).q@.push(waiter),
    {
        match verdict {
            Some(b) => Some(b),
            None => {
                self.q.push_back(waiter);
                None
            },
        }
    }

    /// As `wait_ev` over several queues: without a verdict, `waiter` is
    /// queued on each of them.
    pub fn wait_events(queues: &mut Vec<SyncQueue>, verdict: Option<bool>, waiter: usize) -> (r: Option<bool>)
        ensures
            r == verdict,
            verdict is Some ==> final(queues)@ == old(queues)@,
            verdict is None ==> all_parked(old(queues)@, final(queues)@, waiter),
    {
        if let Some(b) = verdict {
            return Some(b);
        }
        let n = queues.len();
        let mut i: usize = 0;
        while i < n
            invariant
                n == old(queues)@.len(),
                i <= n,
                queues@.len() == n,
                forall|j: int| 0 <= j < i ==> {
                    &&& (#[trigger] queues@[j]).q@ == old(queues)@[j].q@.push(waiter)
                    &&& queues@[j].eq@ == old(queues)@[j].eq@
                    &&& queues@[j].pending == old(queues)@[j].pending
                },
                forall|j: int| i <= j < n ==> #[trigger] queues@[j] == old(queues)@[j],
            decreases n - i,
        {
            queues[i].q.push_back(waiter);
            i += 1;
        }
        None
    }

    /// Queues `waiter` before the caller releases the guard and parks.
    pub fn wait_guard(&mut self, waiter: usize)
        ensures
            final(self).q@ == old(self).q@.push(waiter),
            final(self).eq == old(self).eq && final(self).pending == old(self).pending,
    {
        self.q.push_back(waiter);
    }

    /// Queues `waiter` before the caller releases the guard and parks for a
    /// bounded time; the wait always counts as done.
    pub fn wait_timeout(&mut self, waiter: usize) -> (r: bool)
        ensures
            r,
            final(self).q@ == old(self).q@.push(waiter),
            final(self).eq == old(self).eq && final(self).pending == old(self).pending,
    {
        self.q.push_back(waiter);
        true
    }

    /// Registers descriptor `fd` of task `task_id` with epoll descriptor
    /// `epfd`.
    pub fn reg_epoll(&mut self, task_id: usize, epfd: usize, fd: usize)
        ensures
            final(self).eq@ == old(self).eq@.push(RegEp { task_id, epfd, fd }),
            final(self).q == old(self).q && final(self).pending == old(self).pending,
    {
        self.eq.push_back(RegEp { task_id, epfd, fd });
    }

    /// Drops the first registration of `fd` of task `task_id` with `epfd`
    /// and answers whether there was one.
    pub fn unreg_epoll(&mut self, task_id: usize, epfd: usize, fd: usize) -> (r: bool)
        ensures
            final(self).q == old(self).q && final(self).pending == old(self).pending,
            ({
                let e = RegEp { task_id, epfd, fd };
                let s = old(self).eq@;
                if exists|p: int| first_reg(s, e, p) {
                    r && final(self).eq@ == s.remove(choose|p: int| first_reg(s, e, p))
                } else {
                    !r && final(self).eq@ == s && forall|j: int| 0 <= j < s.len() ==> s[j] != e
                }
            }),
    {
        let ghost s = self.eq@;
        let ghost e = RegEp { task_id, epfd, fd };
        let n = self.eq.len();
        let mut i: usize = 0;
        while i < n
            invariant
                n == s.len(),
                i <= n,
                self.eq@ == s,
                s == old(self).eq@,
                e == (RegEp { task_id, epfd, fd }),
                self.q == old(self).q && self.pending == old(self).pending,
                forall|j: int| 0 <= j < i ==> s[j] != e,
            decreases n - i,
        {
            let r = self.eq[i];
            if r.task_id == task_id && r.epfd == epfd && r.fd == fd {
                proof {
                    assert(first_reg(s, e, i as int));
                    let p = choose|p: int| first_reg(s, e, p);
                    if p < i {
                        assert(s[p] != e);
                    } else if p > i {
                        assert(s[i as int] != e);
                    }
                }
                let _ = self.eq.remove(i);
                return true;
            }
            i += 1;
        }
        proof {
            if exists|p: int| first_reg(s, e, p) {
                let p = choose|p: int| first_reg(s, e, p);
                assert(s[p] != e);
            }
        }
        false
    }
}

} // verus!
