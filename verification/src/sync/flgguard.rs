use vstd::prelude::*;

verus! {

/// The global nesting depth that guards count.
pub struct FlgDepth {
    pub count: usize,
}

/// A nesting guard; it records the depth at which it was entered.
pub struct FlgGuard(pub usize);

impl FlgDepth {
    /// Depth 0.
    pub fn new() -> (r: Self)
        ensures
            r.count == 0,
    {
        FlgDepth { count: 0 }
    }
}

impl FlgGuard {
    /// Enters one level deeper.
    pub fn enter(d: &mut FlgDepth) -> (r: Self)
        ensures
            r.0 == old(d).count,
            final(d).count == if old(d).count == usize::MAX { 0 } else { (old(d).count + 1) as usize },
    {
        let prev = d.count;
        d.count = d.count.wrapping_add(1);
        FlgGuard(prev)
    }

    /// The depth of this guard, counting from 1.
    pub fn depth(&self) -> (r: usize)
        requires
            self.0 < usize::MAX,
        ensures
            r == self.0 + 1,
    {
        self.0 + 1
    }

    /// Whether this is the outermost guard.
    pub fn is_outermost(&self) -> (r: bool)
        ensures
            r == (self.0 == 0),
    {
        self.0 == 0
    }

    /// Leaves the level this guard entered.
    pub fn release(self, d: &mut FlgDepth)
        ensures
            final(d).count == if old(d).count == 0 { usize::MAX } else { (old(d).count - 1) as usize },
    {
        d.count = d.count.wrapping_sub(1);
    }
}

} // verus!
