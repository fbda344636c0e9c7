use vstd::prelude::*;
use crate::config::EV_RECV_SIG;
use crate::task::Task;
use crate::task_table::{TaskTable, links_ok, occurrences, signalled};

verus! {

/// A process group: its id, leader, members (no pid twice), session and
/// whether it is in the foreground.
pub struct ProcessGroup {
    pub pgid: i32,
    pub leader: usize,
    pub members: Vec<usize>,
    pub session_id: usize,
    pub foreground: bool,
}

/// Holds of every pid but `x`.
pub open spec fn other_than(x: usize) -> spec_fn(usize) -> bool {
    |m: usize| m != x
}

/// The registered positions of the pids in `pids`, in order (unknown pids
/// left out).
pub open spec fn registered_of(t: TaskTable, pids: Seq<usize>) -> Seq<usize> {
    pids.filter_map(|pid: usize| t.lookup(pid))
}

impl ProcessGroup {
    /// No member occurs twice.
    pub open spec fn wf(&self) -> bool {
        self.members@.no_duplicates()
    }

    /// A background group `pgid` of session `session` whose only member is
    /// its leader.
    pub fn new(pgid: i32, leader: usize, session: usize) -> (r: Self)
        ensures
            r.wf(),
            r.pgid == pgid && r.leader == leader && r.session_id == session && !r.foreground,
            r.members@ == seq![leader],
    {
        let mut members: Vec<usize> = Vec::new();
        members.push(leader);
        assert(members@ =~= seq![leader]);
        ProcessGroup { pgid, leader, members, session_id: session, foreground: false }
    }

    /// Adds `pid` to the members unless it is one already.
    pub fn add_member(&mut self, pid: usize)
        requires
            old(self).wf(),
        ensures
            final(self).wf(),
            final(self).members@ == if old(self).members@.contains(pid) {
                old(self).members@
            } else {
                old(self).members@.push(pid)
            },
            *final(self) == (ProcessGroup { members: final(self).members, ..*old(self) }),
    {
        let mut i: usize = 0;
        let mut present = false;
        while i < self.members.len() && !present
            invariant
                i <= self.members@.len(),
                present ==> self.members@.contains(pid),
                !present ==> forall|j: int| 0 <= j < i ==> self.members@[j] != pid,
            decreases self.members@.len() - i,
        {
            if self.members[i] == pid {
                assert(self.members@[i as int] == pid);
                present = true;
            }
            i += 1;
        }
        if !present {
            self.members.push(pid);
            assert forall|a: int, b: int| 0 <= a < b < self.members@.len() implies self.members@[a] != self.members@[b] by {
                if b == old(self).members@.len() {
                    assert(old(self).members@[a] != pid);
                } else {
                    assert(old(self).members@.no_duplicates());
                }
            }
        }
    }

    /// Takes `pid` out of the members; whether it was one.
    pub fn remove_member(&mut self, pid: usize) -> (r: bool)
        requires
            old(self).wf(),
        ensures
            final(self).wf(),
            r == old(self).members@.contains(pid),
            final(self).members@ == old(self).members@.filter(other_than(pid)),
            *final(self) == (ProcessGroup { members: final(self).members, ..*old(self) }),
    {
        let ghost s = self.members@;
        let mut kept: Vec<usize> = Vec::new();
        let mut i: usize = 0;
        while i < self.members.len()
            invariant
                i <= s.len(),
                self.members@ == s,
                kept@ == s.take(i as int).filter(other_than(pid)),
                kept@.len() <= i,
            decreases s.len() - i,
        {
            let m = self.members[i];
            proof {
                assert(s.take(i + 1).drop_last() =~= s.take(i as int));
                reveal(Seq::filter);
            }
            if m != pid {
                kept.push(m);
            }
            i += 1;
        }
        assert(s.take(i as int) =~= s);
        let removed = kept.len() < self.members.len();
        proof {
            if s.contains(pid) {
                let k = choose|k: int| 0 <= k < s.len() && s[k] == pid;
                lemma_filter_drops(s, pid, k);
            } else {
                assert forall|k: int| 0 <= k < s.len() implies s[k] != pid by {}
                lemma_filter_keeps_all(s, pid);
            }
            assert(s.filter(other_than(pid)).no_duplicates()) by {
                lemma_filter_no_dups(s, pid);
            }
        }
        self.members = kept;
        removed
    }

    /// Whether the group has no member.
    pub fn is_empty(&self) -> (r: bool)
        ensures
            r == (self.members@.len() == 0),
    {
        self.members.len() == 0
    }

    /// The number of members.
    pub fn member_count(&self) -> (r: usize)
        ensures
            r == self.members@.len(),
    {
        self.members.len()
    }

    /// Whether `pid` leads the group.
    pub fn is_leader(&self, pid: usize) -> (r: bool)
        ensures
            r == (self.leader == pid),
    {
        self.leader == pid
    }

    /// Moves the group to the foreground (`true`) or background.
    pub fn set_foreground(&mut self, fg: bool)
        ensures
            *final(self) == (ProcessGroup { foreground: fg, ..*old(self) }),
    {
        self.foreground = fg;
    }

    /// Whether the group is in the foreground.
    pub fn is_foreground(&self) -> (r: bool)
        ensures
            r == self.foreground,
    {
        self.foreground
    }

    /// Queues signal `signo`, sent by the leader, on every member that is
    /// registered in `tasks`.
    pub fn broadcast_signal(&self, signo: i32, tasks: &mut TaskTable)
        requires
            old(tasks).wf(),
        ensures
            final(tasks).wf(),
            final(tasks).map@ == old(tasks).map@ && final(tasks).seq == old(tasks).seq
                && final(tasks).root == old(tasks).root,
            final(tasks).arena@.len() == old(tasks).arena@.len(),
            forall|j: int|
                #![trigger final(tasks).arena@[j]]
                0 <= j < old(tasks).arena@.len() ==> signalled(
                    final(tasks).arena@[j],
                    old(tasks).arena@[j],
                    signo,
                    self.leader as isize,
                    occurrences(registered_of(*old(tasks), self.members@), j as usize),
                ),
    {
        let ghost a = tasks.arena@;
        let ghost t0 = *tasks;
        let ghost ms = self.members@;
        let sender = self.leader as isize;
        assert(a.len() == tasks.arena.len());
        assert forall|j: int| #![trigger tasks.arena@[j]] 0 <= j < a.len() implies signalled(
            tasks.arena@[j],
            a[j],
            signo,
            sender,
            occurrences(registered_of(t0, ms.take(0)), j as usize),
        ) by {
            assert(registered_of(t0, ms.take(0)).len() == 0);
            assert(tasks.arena@[j].sig_queue@ =~= a[j].sig_queue@ + Seq::new(0, |i: int| (signo, sender)));
        }
        let mut k: usize = 0;
        while k < self.members.len()
            invariant
                k <= ms.len(),
                ms == self.members@,
                t0 == *old(tasks),
                a == t0.arena@,
                a.len() <= usize::MAX,
                t0.wf(),
                sender == self.leader as isize,
                tasks.arena@.len() == a.len(),
                tasks.map@ == t0.map@ && tasks.seq == t0.seq && tasks.root == t0.root,
                forall|j: int|
                    #![trigger tasks.arena@[j]]
                    0 <= j < a.len() ==> signalled(
                        tasks.arena@[j],
                        a[j],
                        signo,
                        sender,
                        occurrences(registered_of(t0, ms.take(k as int)), j as usize),
                    ),
            decreases ms.len() - k,
        {
            let pid = self.members[k];
            let ghost b = tasks.arena@;
            proof {
                assert(ms.take(k + 1).drop_last() =~= ms.take(k as int));
                assert(ms.take(k + 1).last() == pid);
            }
            let found = tasks.find(pid);
            proof {
                assert(tasks.lookup(pid) == t0.lookup(pid));
            }
            match found {
                Some(h) => {
                    proof {
                        let i = choose|i: int| 0 <= i < t0.map@.len() && #[trigger] t0.map@[i].0 == pid;
                        crate::task_table::lemma_sorted_unique(t0.map@);
                        crate::files::lemma_fd_obj_at(t0.map@, i);
                        assert(t0.map@[i].1 < a.len());
                    }
                    tasks.arena[h].send_sig(signo, sender);
                    proof {
                        assert(registered_of(t0, ms.take(k + 1)) =~= registered_of(t0, ms.take(k as int)).push(h));
                        assert forall|j: int|
                            #![trigger tasks.arena@[j]]
                            0 <= j < a.len() implies signalled(
                            tasks.arena@[j],
                            a[j],
                            signo,
                            sender,
                            occurrences(registered_of(t0, ms.take(k + 1)), j as usize),
                        ) by {
                            let m = occurrences(registered_of(t0, ms.take(k as int)), j as usize);
                            assert(signalled(b[j], a[j], signo, sender, m));
                            let hs = registered_of(t0, ms.take(k + 1));
                            assert(hs.drop_last() =~= registered_of(t0, ms.take(k as int)));
                            if j == h {
                                assert(tasks.arena@[j].sig_queue@ =~= a[j].sig_queue@ + Seq::new(
                                    m + 1,
                                    |i: int| (signo, sender),
                                ));
                                let e0 = a[j].ev;
                                crate::util::bitfacts::lemma_or_flag(e0, EV_RECV_SIG);
                            } else {
                                assert(j as usize != h);
                            }
                        }
                    }
                },
                None => {
                    proof {
                        assert(registered_of(t0, ms.take(k + 1)) =~= registered_of(t0, ms.take(k as int)));
                    }
                },
            }
            k += 1;
        }
        assert(ms.take(k as int) =~= ms);
        proof {
            assert forall|j: int|
                #![trigger tasks.arena@[j]]
                0 <= j < tasks.arena@.len() implies tasks.arena@[j].wf() && links_ok(
                tasks.arena@[j],
                tasks.arena@.len() as int,
            ) by {
                assert(links_ok(a[j], a.len() as int));
                assert(a[j].wf());
            }
        }
    }
}

/// Filtering out `x` from a sequence holding it makes it shorter.
proof fn lemma_filter_drops(s: Seq<usize>, x: usize, k: int)
    requires
        0 <= k < s.len(),
        s[k] == x,
    ensures
        s.filter(other_than(x)).len() < s.len(),
    decreases s.len(),
{
    reveal(Seq::filter);
    let p = other_than(x);
    s.drop_last().lemma_filter_len(p);
    if k == s.len() - 1 {
        assert(s.filter(p) == s.drop_last().filter(p));
    } else {
        lemma_filter_drops(s.drop_last(), x, k);
    }
}

/// Filtering out `x` from a sequence without it keeps it whole.
proof fn lemma_filter_keeps_all(s: Seq<usize>, x: usize)
    requires
        forall|k: int| 0 <= k < s.len() ==> s[k] != x,
    ensures
        s.filter(other_than(x)) == s,
    decreases s.len(),
{
    reveal(Seq::filter);
    if s.len() > 0 {
        lemma_filter_keeps_all(s.drop_last(), x);
        assert(s.drop_last().push(s.last()) =~= s);
    } else {
        assert(s.filter(other_than(x)) =~= s);
    }
}

/// Filtering keeps a sequence without repeats free of them.
proof fn lemma_filter_no_dups(s: Seq<usize>, x: usize)
    requires
        s.no_duplicates(),
    ensures
        s.filter(other_than(x)).no_duplicates(),
    decreases s.len(),
{
    reveal(Seq::filter);
    if s.len() > 0 {
        let d = s.drop_last();
        assert(d.no_duplicates());
        lemma_filter_no_dups(d, x);
        let f = d.filter(other_than(x));
        if s.last() != x {
            assert forall|i: int| 0 <= i < f.len() implies f[i] != s.last() by {
                assert(f.contains(f[i]));
                d.lemma_filter_contains_rev(other_than(x), f[i]);
                assert(d.contains(f[i]));
                let j = choose|j: int| 0 <= j < d.len() && d[j] == f[i];
                assert(s[j] == d[j]);
            }
        }
    }
}

/// A pid added to a group it was not in and then removed leaves the
/// members as they were.
pub proof fn law_add_then_remove_member(s: Seq<usize>, pid: usize)
    requires
        !s.contains(pid),
    ensures
        s.push(pid).filter(other_than(pid)) == s,
{
    reveal(Seq::filter);
    assert(s.push(pid).drop_last() =~= s);
    assert forall|k: int| 0 <= k < s.len() implies s[k] != pid by {
        if s[k] == pid {
            assert(s.contains(pid));
        }
    }
    lemma_filter_keeps_all(s, pid);
}

} // verus!
