use vstd::prelude::*;

verus! {

/// A one-bit spinlock.
pub struct Spin {
    pub v: bool,
}

impl Spin {
    /// An unheld lock.
    pub fn new() -> (r: Self)
        ensures
            !r.v,
    {
        Spin { v: false }
    }

    /// Takes the lock; the caller waits while another holder has it, so a
    /// free lock is required here.
    pub fn acquire(&mut self)
        requires
            !old(self).v,
        ensures
            final(self).v,
    {
        self.v = true;
    }

    /// Takes the lock if it is free; answers whether it did.
    pub fn try_acquire(&mut self) -> (r: bool)
        ensures
            r == !old(self).v,
            final(self).v,
    {
        if !self.v {
            self.v = true;
            true
        } else {
            false
        }
    }

    /// Releases the lock.
    pub fn release(&mut self)
        ensures
            !final(self).v,
    {
        self.v = false;
    }

    /// Whether the lock is held.
    pub fn is_held(&self) -> (r: bool)
        ensures
            r == self.v,
    {
        self.v
    }
}

} // verus!
