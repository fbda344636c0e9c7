use vstd::prelude::*;
use std::collections::VecDeque;
use crate::errno::{Errno, errno_name};

verus! {

/// The file-system operations the audit log records.
#[derive(Clone, Copy, Debug, PartialEq, Eq, Structural)]
pub enum AuditOp {
    Read,
    Write,
    Open,
    Close,
    Stat,
    Fstat,
    Mmap,
    Munmap,
    Pipe,
    Dup,
    Dup2,
    Fcntl,
}

/// How an audited operation ended.
#[derive(Clone, Copy, Debug, PartialEq, Eq, Structural)]
pub enum AuditResult {
    Success,
    Failure(Errno),
}

impl AuditResult {
    /// Whether the operation succeeded.
    pub fn is_success(&self) -> (r: bool)
        ensures
            r == (*self is Success),
    {
        match self {
            AuditResult::Success => true,
            AuditResult::Failure(_) => false,
        }
    }

    /// The name of the error a failed operation ended with.
    pub fn errno(&self) -> (r: Option<&'static str>)
        ensures
            *self is Success ==> r is None,
            *self matches AuditResult::Failure(e) ==> (r matches Some(s) && s@ == errno_name(e)@),
    {
        match self {
            AuditResult::Failure(e) => Some(e.as_str()),
            AuditResult::Success => None,
        }
    }
}

/// One audited operation.
pub struct AuditRecord {
    pub seq: usize,
    pub timestamp: usize,
    pub pid: usize,
    pub op: AuditOp,
    pub fd: Option<usize>,
    pub path: Option<String>,
    pub result: AuditResult,
    pub bytes: Option<usize>,
}

/// An audited operation that has begun and not yet ended.
pub struct AuditDraft {
    pub seq: usize,
    pub timestamp: usize,
    pub pid: usize,
    pub op: AuditOp,
    pub fd: Option<usize>,
    pub path: Option<String>,
}

/// The text of an optional path.
pub open spec fn path_view(p: Option<String>) -> Option<Seq<char>> {
    match p {
        Some(s) => Some(s@),
        None => None,
    }
}

/// The contents of a record, with the path taken as text.
pub struct RecordView {
    pub seq: usize,
    pub timestamp: usize,
    pub pid: usize,
    pub op: AuditOp,
    pub fd: Option<usize>,
    pub path: Option<Seq<char>>,
    pub result: AuditResult,
    pub bytes: Option<usize>,
}

impl View for AuditRecord {
    type V = RecordView;

    open spec fn view(&self) -> RecordView {
        RecordView {
            seq: self.seq,
            timestamp: self.timestamp,
            pid: self.pid,
            op: self.op,
            fd: self.fd,
            path: path_view(self.path),
            result: self.result,
            bytes: self.bytes,
        }
    }
}

/// A copy of an optional path.
fn copy_path(p: &Option<String>) -> (r: Option<String>)
    ensures
        path_view(r) == path_view(*p),
{
    match p {
        Some(s) => Some(s.clone()),
        None => None,
    }
}

impl AuditRecord {
    /// A field-by-field copy of the record.
    pub fn copy(&self) -> (r: AuditRecord)
        ensures
            r@ == self@,
    {
        AuditRecord {
            seq: self.seq,
            timestamp: self.timestamp,
            pid: self.pid,
            op: self.op,
            fd: self.fd,
            path: copy_path(&self.path),
            result: self.result,
            bytes: self.bytes,
        }
    }
}

/// The views of a sequence of records.
pub open spec fn views(s: Seq<AuditRecord>) -> Seq<RecordView> {
    s.map_values(|r: AuditRecord| r@)
}

/// The number of records of operation `op`.
pub open spec fn count_op(s: Seq<RecordView>, op: AuditOp) -> nat {
    s.filter(|r: RecordView| r.op == op).len()
}

/// The records of process `pid`, in order.
pub open spec fn of_pid(s: Seq<RecordView>, pid: usize) -> Seq<RecordView> {
    s.filter(|r: RecordView| r.pid == pid)
}

/// The record that ending `d` with `result` and `bytes` produces.
pub open spec fn finished(d: AuditDraft, result: AuditResult, bytes: Option<usize>) -> RecordView {
    RecordView {
        seq: d.seq,
        timestamp: d.timestamp,
        pid: d.pid,
        op: d.op,
        fd: d.fd,
        path: path_view(d.path),
        result,
        bytes,
    }
}

/// A bounded log of audited file-system operations; when full, the oldest
/// record is evicted and counted as dropped.
pub struct AuditLog {
    pub records: VecDeque<AuditRecord>,
    pub enabled: bool,
    pub capacity: usize,
    pub dropped: usize,
    pub seq_next: usize,
}

/// `x + 1`, wrapping to 0 past the largest word.
pub open spec fn bump(x: usize) -> usize {
    if x == usize::MAX { 0 } else { (x + 1) as usize }
}

/// The log `log` (holding at most `cap`) after record `rec` is added: the
/// oldest record is evicted first when the log is full.
pub open spec fn log_after_end(log: Seq<RecordView>, cap: usize, rec: RecordView) -> Seq<RecordView> {
    (if log.len() >= cap && log.len() > 0 { log.drop_first() } else { log }).push(rec)
}

/// The dropped count after a record is added to a log of `len` records.
pub open spec fn dropped_after_end(len: nat, cap: usize, dropped: usize) -> usize {
    if len >= cap { bump(dropped) } else { dropped }
}

/// The log after the records `recs` are added one by one, in order.
pub open spec fn log_after_ends(log: Seq<RecordView>, cap: usize, recs: Seq<RecordView>) -> Seq<RecordView>
    decreases recs.len(),
{
    if recs.len() == 0 {
        log
    } else {
        log_after_end(log_after_ends(log, cap, recs.drop_last()), cap, recs.last())
    }
}

/// The dropped count after the records `recs` are added one by one.
pub open spec fn dropped_after_ends(log: Seq<RecordView>, cap: usize, dropped: usize, recs: Seq<RecordView>) -> usize
    decreases recs.len(),
{
    if recs.len() == 0 {
        dropped
    } else {
        dropped_after_end(
            log_after_ends(log, cap, recs.drop_last()).len(),
            cap,
            dropped_after_ends(log, cap, dropped, recs.drop_last()),
        )
    }
}

/// The records added by a run of events, in order: `Some(rec)` adds
/// `rec`, `None` drains the log.
pub open spec fn written(evs: Seq<Option<RecordView>>) -> Seq<RecordView>
    decreases evs.len(),
{
    if evs.len() == 0 {
        Seq::empty()
    } else {
        match evs.last() {
            Some(r) => written(evs.drop_last()).push(r),
            None => written(evs.drop_last()),
        }
    }
}

/// The log after a run of events.
pub open spec fn run_log(log: Seq<RecordView>, cap: usize, evs: Seq<Option<RecordView>>) -> Seq<RecordView>
    decreases evs.len(),
{
    if evs.len() == 0 {
        log
    } else {
        match evs.last() {
            Some(r) => log_after_end(run_log(log, cap, evs.drop_last()), cap, r),
            None => Seq::empty(),
        }
    }
}

/// Everything the drains of a run of events took out, in order.
pub open spec fn run_drained(log: Seq<RecordView>, cap: usize, evs: Seq<Option<RecordView>>) -> Seq<RecordView>
    decreases evs.len(),
{
    if evs.len() == 0 {
        Seq::empty()
    } else {
        match evs.last() {
            Some(_) => run_drained(log, cap, evs.drop_last()),
            None => run_drained(log, cap, evs.drop_last()) + run_log(log, cap, evs.drop_last()),
        }
    }
}

/// The sequence number handed out by the `n`-th `begin` from `s`.
pub open spec fn seq_after(s: usize, n: nat) -> usize
    decreases n,
{
    if n == 0 { s } else { bump(seq_after(s, (n - 1) as nat)) }
}

/// While the log has room for them, records added one by one are all
/// kept, in order, and none is dropped.
pub proof fn law_no_record_lost(log: Seq<RecordView>, cap: usize, dropped: usize, recs: Seq<RecordView>)
    requires
        log.len() + recs.len() <= cap,
    ensures
        log_after_ends(log, cap, recs) == log + recs,
        dropped_after_ends(log, cap, dropped, recs) == dropped,
    decreases recs.len(),
{
    if recs.len() > 0 {
        law_no_record_lost(log, cap, dropped, recs.drop_last());
        assert(log + recs =~= (log + recs.drop_last()).push(recs.last()));
    }
}

/// Where records are added and the log drained in any interleaving, and
/// the log never fills, every record added lands in exactly one drain or
/// stays in the log: what the drains took, followed by what is left, is the
/// starting log followed by the records added, in order.
pub proof fn law_each_record_drained_once(log: Seq<RecordView>, cap: usize, evs: Seq<Option<RecordView>>)
    requires
        log.len() + written(evs).len() <= cap,
    ensures
        run_drained(log, cap, evs) + run_log(log, cap, evs) == log + written(evs),
    decreases evs.len(),
{
    if evs.len() > 0 {
        let prev = evs.drop_last();
        assert(written(prev).len() <= written(evs).len());
        law_each_record_drained_once(log, cap, prev);
        let d = run_drained(log, cap, prev);
        let l = run_log(log, cap, prev);
        assert(l.len() <= log.len() + written(prev).len()) by {
            assert((d + l).len() == (log + written(prev)).len());
        }
        match evs.last() {
            Some(r) => {
                assert(d + l.push(r) =~= (d + l).push(r));
                assert(log + written(evs) =~= (log + written(prev)).push(r));
            },
            None => {
                assert(d + l + Seq::<RecordView>::empty() =~= d + l);
            },
        }
    }
}

/// Successive `begin`s hand out distinct sequence numbers while the counter
/// does not wrap.
pub proof fn law_begin_seqs_distinct(s: usize, n: nat)
    requires
        s + n <= usize::MAX + 1,
    ensures
        forall|i: nat, j: nat| i < j < n ==> #[trigger] seq_after(s, i) != #[trigger] seq_after(s, j),
{
    assert forall|i: nat, j: nat| i < j < n implies #[trigger] seq_after(s, i) != #[trigger] seq_after(s, j) by {
        lemma_seq_after(s, i);
        lemma_seq_after(s, j);
    }
}

/// Without wrapping, the `i`-th sequence number from `s` is `s + i`.
proof fn lemma_seq_after(s: usize, i: nat)
    requires
        s + i <= usize::MAX,
    ensures
        seq_after(s, i) == s + i,
    decreases i,
{
    if i > 0 {
        lemma_seq_after(s, (i - 1) as nat);
    }
}

impl AuditLog {
    /// The records, oldest first, as views.
    pub open spec fn log(&self) -> Seq<RecordView> {
        views(self.records@)
    }

    /// An empty, disabled log holding up to `capacity` records.
    pub fn new(capacity: usize) -> (r: Self)
        ensures
            r.log() == Seq::<RecordView>::empty(),
            !r.enabled && r.capacity == capacity && r.dropped == 0 && r.seq_next == 0,
    {
        let q: VecDeque<AuditRecord> = VecDeque::new();
        assert(views(q@) =~= Seq::<RecordView>::empty());
        AuditLog { records: q, enabled: false, capacity, dropped: 0, seq_next: 0 }
    }

    /// Turns recording on.
    pub fn enable(&mut self)
        ensures
            final(self).enabled,
            final(self).log() == old(self).log(),
            final(self).capacity == old(self).capacity && final(self).dropped == old(self).dropped
                && final(self).seq_next == old(self).seq_next,
    {
        self.enabled = true;
    }

    /// Turns recording off.
    pub fn disable(&mut self)
        ensures
            !final(self).enabled,
            final(self).log() == old(self).log(),
            final(self).capacity == old(self).capacity && final(self).dropped == old(self).dropped
                && final(self).seq_next == old(self).seq_next,
    {
        self.enabled = false;
    }

    /// Whether recording is on.
    pub fn is_enabled(&self) -> (r: bool)
        ensures
            r == self.enabled,
    {
        self.enabled
    }

    /// Begins auditing operation `op` of process `pid` at time `now`: a
    /// draft with the next sequence number, or `None` when recording is off.
    pub fn begin(&mut self, op: AuditOp, pid: usize, fd: Option<usize>, path: Option<String>, now: usize) -> (r: Option<AuditDraft>)
        ensures
            !old(self).enabled ==> r is None && final(self).seq_next == old(self).seq_next,
            old(self).enabled ==> (r matches Some(d) && d.seq == old(self).seq_next && d.timestamp == now
                && d.pid == pid && d.op == op && d.fd == fd && path_view(d.path) == path_view(path))
                && final(self).seq_next == bump(old(self).seq_next),
            final(self).log() == old(self).log(),
            final(self).enabled == old(self).enabled && final(self).capacity == old(self).capacity
                && final(self).dropped == old(self).dropped,
    {
        if !self.enabled {
            return None;
        }
        let seq = self.seq_next;
        self.seq_next = self.seq_next.wrapping_add(1);
        Some(AuditDraft { seq, timestamp: now, pid, op, fd, path })
    }

    /// Ends an audited operation: the finished record goes to the back of
    /// the log; when the log already holds `capacity` records, the oldest is
    /// evicted first and counted as dropped. `None` records nothing.
    pub fn end(&mut self, draft: Option<AuditDraft>, result: AuditResult, bytes: Option<usize>)
        ensures
            final(self).enabled == old(self).enabled && final(self).capacity == old(self).capacity
                && final(self).seq_next == old(self).seq_next,
            draft is None ==> final(self).log() == old(self).log() && final(self).dropped == old(self).dropped,
            draft matches Some(d) ==> {
                &&& final(self).log() == log_after_end(old(self).log(), old(self).capacity, finished(d, result, bytes))
                &&& final(self).dropped == dropped_after_end(old(self).log().len(), old(self).capacity, old(self).dropped)
            },
    {
        let draft = match draft {
            Some(d) => d,
            None => return,
        };
        let ghost dv = finished(draft, result, bytes);
        let record = AuditRecord {
            seq: draft.seq,
            timestamp: draft.timestamp,
            pid: draft.pid,
            op: draft.op,
            fd: draft.fd,
            path: draft.path,
            result,
            bytes,
        };
        assert(record@ == dv);
        let ghost before = self.records@;
        if self.records.len() >= self.capacity {
            let _ = self.records.pop_front();
            self.dropped = self.dropped.wrapping_add(1);
        }
        let ghost mid = self.records@;
        self.records.push_back(record);
        proof {
            assert(views(self.records@) =~= views(mid).push(dv));
            if before.len() >= self.capacity {
                if before.len() > 0 {
                    assert(views(mid) =~= views(before).drop_first());
                } else {
                    assert(views(mid) =~= views(before));
                }
            }
        }
    }

    /// The number of records held.
    pub fn count(&self) -> (r: usize)
        ensures
            r == self.log().len(),
    {
        self.records.len()
    }

    /// The number of records evicted so far.
    pub fn dropped(&self) -> (r: usize)
        ensures
            r == self.dropped,
    {
        self.dropped
    }

    /// Takes every record out of the log, oldest first.
    pub fn drain(&mut self) -> (r: Vec<AuditRecord>)
        ensures
            views(r@) == old(self).log(),
            final(self).log() == Seq::<RecordView>::empty(),
            final(self).enabled == old(self).enabled && final(self).capacity == old(self).capacity
                && final(self).dropped == old(self).dropped && final(self).seq_next == old(self).seq_next,
    {
        let mut out: Vec<AuditRecord> = Vec::new();
        let ghost orig = self.records@;
        while self.records.len() > 0
            invariant
                orig == out@ + self.records@,
                self.enabled == old(self).enabled,
                self.capacity == old(self).capacity,
                self.dropped == old(self).dropped,
                self.seq_next == old(self).seq_next,
                orig == old(self).records@,
            decreases self.records@.len(),
        {
            let ghost before = self.records@;
            match self.records.pop_front() {
                Some(rec) => {
                    out.push(rec);
                    assert(orig =~= out@ + self.records@);
                },
                None => {},
            }
        }
        assert(out@ =~= orig);
        assert(views(self.records@) =~= Seq::<RecordView>::empty());
        out
    }

    /// Copies of every record, oldest first.
    pub fn snapshot(&self) -> (r: Vec<AuditRecord>)
        ensures
            views(r@) == self.log(),
    {
        let mut out: Vec<AuditRecord> = Vec::new();
        let mut i: usize = 0;
        while i < self.records.len()
            invariant
                i <= self.records@.len(),
                views(out@) == views(self.records@.take(i as int)),
            decreases self.records@.len() - i,
        {
            let ghost o0 = out@;
            let c = self.records[i].copy();
            out.push(c);
            assert(views(out@) =~= views(o0).push(c@));
            assert(views(self.records@.take(i + 1)) =~= views(self.records@.take(i as int)).push(self.records@[i as int]@));
            i += 1;
        }
        assert(self.records@.take(i as int) =~= self.records@);
        out
    }

    /// The number of records of operation `op`.
    pub fn count_by_op(&self, op: AuditOp) -> (r: usize)
        ensures
            r == count_op(self.log(), op),
    {
        let mut n: usize = 0;
        let mut i: usize = 0;
        while i < self.records.len()
            invariant
                i <= self.records@.len(),
                n == count_op(views(self.records@.take(i as int)), op),
                n <= i,
            decreases self.records@.len() - i,
        {
            let ghost pre = views(self.records@.take(i as int));
            proof {
                assert(views(self.records@.take(i + 1)) =~= pre.push(self.records@[i as int]@));
                pre.lemma_filter_len_push(|r: RecordView| r.op == op, self.records@[i as int]@);
            }
            if self.records[i].op == op {
                n += 1;
            }
            i += 1;
        }
        assert(self.records@.take(i as int) =~= self.records@);
        n
    }

    /// Copies of the records of process `pid`, oldest first.
    pub fn find_by_pid(&self, pid: usize) -> (r: Vec<AuditRecord>)
        ensures
            views(r@) == of_pid(self.log(), pid),
    {
        let mut out: Vec<AuditRecord> = Vec::new();
        let mut i: usize = 0;
        while i < self.records.len()
            invariant
                i <= self.records@.len(),
                views(out@) == of_pid(views(self.records@.take(i as int)), pid),
            decreases self.records@.len() - i,
        {
            let ghost pre = views(self.records@.take(i as int));
            proof {
                assert(views(self.records@.take(i + 1)) =~= pre.push(self.records@[i as int]@));
                pre.lemma_filter_push(self.records@[i as int]@, |r: RecordView| r.pid == pid);
            }
            if self.records[i].pid == pid {
                let ghost o0 = out@;
                let c = self.records[i].copy();
                out.push(c);
                assert(views(out@) =~= views(o0).push(c@));
            }
            assert(views(out@) =~= of_pid(views(self.records@.take(i + 1)), pid));
            i += 1;
        }
        assert(self.records@.take(i as int) =~= self.records@);
        out
    }

    /// Clears the records, the dropped count and the sequence numbers.
    pub fn reset(&mut self)
        ensures
            final(self).log() == Seq::<RecordView>::empty(),
            final(self).dropped == 0,
            final(self).seq_next == 0,
            final(self).enabled == old(self).enabled && final(self).capacity == old(self).capacity,
    {
        self.records.clear();
        self.dropped = 0;
        self.seq_next = 0;
        assert(views(self.records@) =~= Seq::<RecordView>::empty());
    }
}

} // verus!
