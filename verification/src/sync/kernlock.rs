use vstd::prelude::*;

verus! {

/// The big kernel lock, re-entrant for the thread that holds it. `holder`
/// is the caller-supplied id kept for diagnostics, `tid_holder` the thread
/// that holds it (0 when none), `depth` the nesting level.
pub struct KernLock {
    pub flag: bool,
    pub holder: usize,
    pub depth: usize,
    pub tid_holder: usize,
}

/// `x + 1`, wrapping to 0 past the largest word.
pub open spec fn inc_wrap(x: usize) -> usize {
    if x == usize::MAX { 0 } else { (x + 1) as usize }
}

/// Entry by thread `tid` with id `id` is a re-entry of the holder.
pub open spec fn reenters(l: KernLock, tid: usize, id: usize) -> bool {
    l.tid_holder == tid && id != 0
}

/// The lock after thread `tid` enters it with id `id`.
pub open spec fn entered(l: KernLock, tid: usize, id: usize) -> KernLock {
    if reenters(l, tid, id) {
        KernLock { depth: inc_wrap(l.depth), ..l }
    } else {
        KernLock { flag: true, holder: id, depth: 1, tid_holder: tid }
    }
}

/// The lock after one leave.
pub open spec fn left(l: KernLock) -> KernLock {
    if l.depth == 1 {
        KernLock { flag: false, holder: 0, depth: 0, tid_holder: 0 }
    } else if l.depth > 1 {
        KernLock { depth: (l.depth - 1) as usize, ..l }
    } else {
        l
    }
}

/// A lock that nobody holds.
pub open spec fn is_free(l: KernLock) -> bool {
    !l.flag && l.holder == 0 && l.depth == 0 && l.tid_holder == 0
}

impl KernLock {
    /// An unheld lock.
    pub fn new() -> (r: Self)
        ensures
            !r.flag && r.holder == 0 && r.depth == 0 && r.tid_holder == 0,
    {
        KernLock { flag: false, holder: 0, depth: 0, tid_holder: 0 }
    }

    /// Enters the lock as thread `tid` with id `id`: a re-entry by the
    /// holding thread (with a non-zero id) deepens the nesting; otherwise the
    /// lock is taken, which needs it free (another holder would be waited for).
    pub fn enter(&mut self, tid: usize, id: usize)
        requires
            tid != 0,
            reenters(*old(self), tid, id) || !old(self).flag,
        ensures
            *final(self) == entered(*old(self), tid, id),
    {
        if self.tid_holder == tid && id != 0 {
            self.depth = self.depth.wrapping_add(1);
            return;
        }
        self.flag = true;
        self.tid_holder = tid;
        self.holder = id;
        self.depth = 1;
    }

    /// Leaves the lock once: the last leave releases it.
    pub fn leave(&mut self)
        requires
            old(self).depth >= 1,
        ensures
            *final(self) == left(*old(self)),
    {
        let d = self.depth;
        if d == 1 {
            self.holder = 0;
            self.depth = 0;
            self.flag = false;
            self.tid_holder = 0;
        } else if d > 1 {
            self.depth = d - 1;
        }
    }

    /// Whether the lock is held.
    pub fn held(&self) -> (r: bool)
        ensures
            r == self.flag,
    {
        self.flag
    }

    /// The id the holder entered with.
    pub fn owner(&self) -> (r: usize)
        ensures
            r == self.holder,
    {
        self.holder
    }

    /// The nesting level.
    pub fn level(&self) -> (r: usize)
        ensures
            r == self.depth,
    {
        self.depth
    }

    /// Enters the lock without waiting: a re-entry deepens the nesting, a
    /// free lock is taken, a lock held by another thread is refused.
    pub fn try_enter(&mut self, tid: usize, id: usize) -> (r: bool)
        requires
            tid != 0,
        ensures
            r == (reenters(*old(self), tid, id) || !old(self).flag),
            r ==> *final(self) == entered(*old(self), tid, id),
            !r ==> *final(self) == *old(self),
    {
        if self.tid_holder == tid && id != 0 {
            self.depth = self.depth.wrapping_add(1);
            return true;
        }
        if !self.flag {
            self.flag = true;
            self.holder = id;
            self.depth = 1;
            self.tid_holder = tid;
            true
        } else {
            false
        }
    }
}

/// A thread that enters a free lock and leaves it once leaves it free.
pub proof fn law_enter_leave_restores_free(l: KernLock, tid: usize, id: usize)
    requires
        is_free(l),
        tid != 0,
    ensures
        left(entered(l, tid, id)) == l,
{
}

/// Every re-entry by the holder is undone by one leave, so `n` nested
/// entries above the first need `n` leaves to get back to depth 1.
pub proof fn law_reentry_undone_by_leave(l: KernLock, tid: usize, id: usize)
    requires
        l.flag,
        l.tid_holder == tid,
        id != 0,
        1 <= l.depth < usize::MAX,
    ensures
        left(entered(l, tid, id)) == l,
{
}

} // verus!
