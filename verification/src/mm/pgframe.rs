use vstd::prelude::*;

verus! {

/// A reference-counted page frame. The count wraps like a machine word.
pub struct PgFrame {
    pub rc: usize,
}

/// `x + 1`, wrapping to 0 past the largest word.
pub open spec fn wrap_inc(x: usize) -> usize {
    if x == usize::MAX { 0 } else { (x + 1) as usize }
}

/// `x - 1`, wrapping to the largest word below 0.
pub open spec fn wrap_dec(x: usize) -> usize {
    if x == 0 { usize::MAX } else { (x - 1) as usize }
}

impl PgFrame {
    /// A frame with no references.
    pub fn new() -> (r: Self)
        ensures
            r.rc == 0,
    {
        PgFrame { rc: 0 }
    }

    /// A frame with `n` references.
    pub fn with_rc(n: usize) -> (r: Self)
        ensures
            r.rc == n,
    {
        PgFrame { rc: n }
    }

    /// Adds a reference; answers the count before.
    pub fn up(&mut self) -> (prev: usize)
        ensures
            prev == old(self).rc,
            final(self).rc == wrap_inc(old(self).rc),
    {
        let prev = self.rc;
        self.rc = self.rc.wrapping_add(1);
        prev
    }

    /// Drops a reference; answers the count before.
    pub fn down(&mut self) -> (prev: usize)
        ensures
            prev == old(self).rc,
            final(self).rc == wrap_dec(old(self).rc),
    {
        let prev = self.rc;
        self.rc = self.rc.wrapping_sub(1);
        prev
    }

    /// The reference count.
    pub fn count(&self) -> (r: usize)
        ensures
            r == self.rc,
    {
        self.rc
    }

    /// Sets the reference count to `n`.
    pub fn set(&mut self, n: usize)
        ensures
            final(self).rc == n,
    {
        self.rc = n;
    }

    /// Sets the count to `desired` when it is `expected`; answers whether it did.
    pub fn cas(&mut self, expected: usize, desired: usize) -> (r: bool)
        ensures
            r == (old(self).rc == expected),
            final(self).rc == if r { desired } else { old(self).rc },
    {
        if self.rc == expected {
            self.rc = desired;
            true
        } else {
            false
        }
    }

    /// Adds a reference unless the count is 0; answers whether it did.
    pub fn inc_if_nonzero(&mut self) -> (r: bool)
        requires
            old(self).rc < usize::MAX,
        ensures
            r == (old(self).rc != 0),
            final(self).rc == if r { (old(self).rc + 1) as usize } else { old(self).rc },
    {
        let cur = self.rc;
        if cur == 0 {
            return false;
        }
        self.rc = cur + 1;
        true
    }
}

} // verus!
