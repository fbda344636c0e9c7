use vstd::prelude::*;
use crate::errno::Errno;
use crate::mm::frame::{FramePool, cyclic, first_in_scan};
use crate::mm::pgframe::{PgFrame, wrap_dec};

verus! {

/// Copy-on-write state of a page shared between address spaces.
pub struct SharedPage {
    pub frame: usize,
    pub w: bool,
    pub pending: bool,
}

impl SharedPage {
    /// A shared page on frame `f`, its copy still pending.
    pub fn new(f: usize) -> (r: Self)
        ensures
            r.frame == f,
            !r.w,
            r.pending,
    {
        SharedPage { frame: f, w: false, pending: true }
    }

    /// Resolves a write fault: with no copy pending, answers the current
    /// frame; otherwise takes a free frame (scanning cyclically from the old
    /// frame's slot), moves the page to it, drops a reference from `src` and
    /// marks the page writable. `Oom` when no frame is free.
    pub fn fault(&mut self, pool: &mut FramePool, src: &mut PgFrame) -> (r: Result<usize, Errno>)
        ensures
            final(pool).cap == old(pool).cap,
            !old(self).pending ==> r == Ok::<usize, Errno>(old(self).frame) && *final(self) == *old(self)
                && final(pool)@ == old(pool)@ && final(src).rc == old(src).rc,
            old(self).pending && (forall|j: int| 0 <= j < old(pool)@.len() ==> !old(pool)@[j]) ==> r
                == Err::<usize, Errno>(Errno::Oom) && *final(self) == *old(self) && final(pool)@ == old(pool)@
                && final(src).rc == old(src).rc,
            old(self).pending && (exists|j: int| 0 <= j < old(pool)@.len() && old(pool)@[j]) ==> exists|o: int|
                #[trigger] first_in_scan(old(pool)@, fault_origin(old(pool)@, old(self).frame), o) && ({
                    let nf = cyclic(old(pool)@.len() as int, fault_origin(old(pool)@, old(self).frame), o);
                    &&& final(pool)@ == old(pool)@.update(nf, false)
                    &&& r == Ok::<usize, Errno>(nf as usize)
                    &&& final(self).frame == nf
                    &&& final(self).w
                    &&& !final(self).pending
                    &&& final(src).rc == wrap_dec(old(src).rc)
                }),
    {
        if !self.pending {
            return Ok(self.frame);
        }
        let len = pool.slots.len();
        let start = if len == 0 { 0 } else { self.frame % len };
        let mut off: usize = 0;
        let mut found: Option<usize> = None;
        while off < len && found.is_none()
            invariant
                len == pool.slots@.len(),
                pool.slots@ == old(pool).slots@,
                pool.cap == old(pool).cap,
                off <= len,
                start == fault_origin(pool.slots@, self.frame),
                forall|o2: int| 0 <= o2 < off ==> !pool.slots@[#[trigger] cyclic(len as int, start as int, o2)],
                found matches Some(i) ==> off < len && i == cyclic(len as int, start as int, off as int)
                    && pool.slots@[i as int],
            decreases len - off + (if found is None { 1int } else { 0int }),
        {
            let idx = ((start as u128 + off as u128) % len as u128) as usize;
            if pool.slots[idx] {
                found = Some(idx);
            } else {
                off += 1;
            }
        }
        match found {
            Some(nf) => {
                proof {
                    assert(first_in_scan(pool.slots@, start as int, off as int));
                    assert(old(pool)@[nf as int]);
                }
                pool.slots.set(nf, false);
                self.frame = nf;
                src.rc = src.rc.wrapping_sub(1);
                self.w = true;
                self.pending = false;
                Ok(nf)
            },
            None => {
                proof {
                    assert forall|j: int| 0 <= j < len implies !pool.slots@[j] by {
                        let o = if j >= start { j - start } else { j + len - start };
                        vstd::arithmetic::div_mod::lemma_small_mod(j as nat, len as nat);
                        vstd::arithmetic::div_mod::lemma_mod_add_multiples_vanish(j, len as int);
                        assert(cyclic(len as int, start as int, o) == j);
                    }
                }
                Err(Errno::Oom)
            },
        }
    }

    /// The page has its own writable copy.
    pub fn is_cow_resolved(&self) -> (r: bool)
        ensures
            r == (!self.pending && self.w),
    {
        !self.pending && self.w
    }

    /// The frame the page lives on.
    pub fn frame_id(&self) -> (r: usize)
        ensures
            r == self.frame,
    {
        self.frame
    }
}

/// Where the search for a copy frame starts: the old frame's slot.
pub open spec fn fault_origin(s: Seq<bool>, frame: usize) -> int {
    if s.len() == 0 { 0 } else { (frame as int) % (s.len() as int) }
}

} // verus!
