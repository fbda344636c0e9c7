use vstd::prelude::*;
use crate::config::{MEM_OFF, PAGE_SZ, VM_WRITE};
use crate::errno::Errno;
use crate::files::{fds_unique, has_fd, fd_obj, fd_map, find_fd, fd_insert, lemma_fd_obj_at};
use crate::mm::frame::{FramePool, get_first_free, frame_addr};
use crate::mm::pgframe::{PgFrame, wrap_inc};

verus! {

/// A mapped region: its first address, length, protection flags and the
/// number of address spaces sharing it.
#[derive(Clone, Copy, PartialEq, Eq, Structural)]
pub struct VmRegion {
    pub base: usize,
    pub len: usize,
    pub flags: u32,
    pub ref_count: usize,
}

/// Region `r` covers address `addr`.
pub open spec fn covers(r: VmRegion, addr: usize) -> bool {
    r.base <= addr < r.base + r.len
}

/// Region `r` lies wholly inside `[start, end)`.
pub open spec fn inside(r: VmRegion, start: int, end: int) -> bool {
    start <= r.base && r.base + r.len <= end
}

/// Keeps the regions not wholly inside `[start, end)`.
pub open spec fn outside_range(start: int, end: int) -> spec_fn(VmRegion) -> bool {
    |r: VmRegion| !inside(r, start, end)
}

/// Region `r` meets `[start, end)`.
pub open spec fn meets(r: VmRegion, start: int, end: int) -> bool {
    r.base < end && r.base + r.len > start
}

/// `s` with the regions meeting `[start, end)` given flags `flags`.
pub open spec fn protected(s: Seq<VmRegion>, start: int, end: int, flags: u32) -> Seq<VmRegion> {
    s.map_values(|r: VmRegion| if meets(r, start, end) { VmRegion { flags, ..r } } else { r })
}

/// Keeps the pages outside `[start, end)`.
pub open spec fn page_outside(start: int, end: int) -> spec_fn((usize, PgFrame)) -> bool {
    |e: (usize, PgFrame)| !(start <= e.0 < end)
}

/// The number of pages shared by more than one space.
pub open spec fn shared_count(s: Seq<(usize, PgFrame)>) -> nat
    decreases s.len(),
{
    if s.len() == 0 { 0 } else { shared_count(s.drop_last()) + if s.last().1.rc > 1 { 1nat } else { 0nat } }
}

/// The position of the first region of `s` that covers `addr`.
pub open spec fn first_cover(s: Seq<VmRegion>, addr: usize, i: int) -> bool {
    &&& 0 <= i < s.len()
    &&& covers(s[i], addr)
    &&& forall|j: int| 0 <= j < i ==> !#[trigger] covers(s[j], addr)
}

impl VmRegion {
    /// A region of `len` bytes at `base` with `flags`, not yet shared.
    pub fn new(base: usize, len: usize, flags: u32) -> (r: Self)
        ensures
            r == (VmRegion { base, len, flags, ref_count: 0 }),
    {
        VmRegion { base, len, flags, ref_count: 0 }
    }

    /// One more space shares the region (wrapping).
    pub fn ref_up(&mut self)
        ensures
            *final(self) == (VmRegion { ref_count: wrap_inc(old(self).ref_count), ..*old(self) }),
    {
        self.ref_count = self.ref_count.wrapping_add(1);
    }

    /// The address just past the region.
    pub fn end(&self) -> (r: usize)
        requires
            self.base + self.len <= usize::MAX,
        ensures
            r == self.base + self.len,
    {
        self.base + self.len
    }
}

/// The regions of an address space, its program break and where it maps
/// files from.
pub struct VmMap {
    pub regions: Vec<VmRegion>,
    pub brk: usize,
    pub mmap_base: usize,
}

impl VmMap {
    /// Every region ends inside the address range.
    pub open spec fn wf(&self) -> bool {
        forall|i: int| 0 <= i < self.regions@.len() ==> #[trigger] self.regions@[i].base + self.regions@[i].len <= usize::MAX
    }

    /// No regions, break and mapping base at 0.
    pub fn new() -> (r: Self)
        ensures
            r.wf(),
            r.regions@.len() == 0 && r.brk == 0 && r.mmap_base == 0,
    {
        VmMap { regions: Vec::new(), brk: 0, mmap_base: 0 }
    }

    /// Adds region `r`; `Einval` when it would end past the address range.
    pub fn insert(&mut self, r: VmRegion) -> (res: Result<(), Errno>)
        requires
            old(self).wf(),
        ensures
            final(self).wf(),
            r.base + r.len <= usize::MAX ==> res is Ok && final(self).regions@ == old(self).regions@.push(r),
            r.base + r.len > usize::MAX ==> (res matches Err(Errno::Einval) && final(self).regions@ == old(self).regions@),
            final(self).brk == old(self).brk && final(self).mmap_base == old(self).mmap_base,
    {
        if r.base > usize::MAX - r.len {
            return Err(Errno::Einval);
        }
        self.regions.push(r);
        Ok(())
    }

    /// The position of the first region covering `addr`.
    pub fn find(&self, addr: usize) -> (r: Option<usize>)
        requires
            self.wf(),
        ensures
            r matches Some(i) ==> first_cover(self.regions@, addr, i as int),
            r is None ==> forall|j: int| 0 <= j < self.regions@.len() ==> !#[trigger] covers(self.regions@[j], addr),
    {
        let mut i: usize = 0;
        while i < self.regions.len()
            invariant
                self.wf(),
                i <= self.regions@.len(),
                forall|j: int| 0 <= j < i ==> !#[trigger] covers(self.regions@[j], addr),
            decreases self.regions@.len() - i,
        {
            let r = self.regions[i];
            assert(self.regions@[i as int].base + self.regions@[i as int].len <= usize::MAX);
            if r.base <= addr && addr < r.base + r.len {
                return Some(i);
            }
            i += 1;
        }
        None
    }

    /// Drops the regions lying wholly inside `[start, start + len)` and
    /// answers how many.
    pub fn remove_range(&mut self, start: usize, len: usize) -> (r: usize)
        requires
            old(self).wf(),
            start + len <= usize::MAX,
        ensures
            final(self).wf(),
            final(self).regions@ == old(self).regions@.filter(outside_range(start as int, start + len)),
            r == old(self).regions@.len() - final(self).regions@.len(),
            final(self).brk == old(self).brk && final(self).mmap_base == old(self).mmap_base,
    {
        let end = start + len;
        let ghost s = self.regions@;
        let mut kept: Vec<VmRegion> = Vec::new();
        let mut i: usize = 0;
        while i < self.regions.len()
            invariant
                self.wf(),
                self.regions@ == s,
                s == old(self).regions@,
                end == start + len,
                i <= s.len(),
                kept@ == s.take(i as int).filter(outside_range(start as int, end as int)),
                kept@.len() <= i,
            decreases s.len() - i,
        {
            let r = self.regions[i];
            proof {
                assert(s.take(i + 1).drop_last() =~= s.take(i as int));
                reveal(Seq::filter);
            }
            assert(s[i as int].base + s[i as int].len <= usize::MAX);
            if !(start <= r.base && r.base + r.len <= end) {
                kept.push(r);
            }
            i += 1;
        }
        assert(s.take(i as int) =~= s);
        let n = self.regions.len() - kept.len();
        proof {
            assert forall|j: int| 0 <= j < kept@.len() implies #[trigger] kept@[j].base + kept@[j].len <= usize::MAX by {
                assert(kept@.contains(kept@[j]));
                s.lemma_filter_contains_rev(outside_range(start as int, end as int), kept@[j]);
            }
        }
        self.regions = kept;
        n
    }
}

/// A process address space: its regions, page-table root, address-space id,
/// sharing count and the copy-on-write pages (by page address, no page
/// twice) with their frames.
pub struct AddrSpace {
    pub vm_map: VmMap,
    pub page_table_root: usize,
    pub asid: u16,
    pub ref_count: usize,
    pub cow_pages: Vec<(usize, PgFrame)>,
}

/// The regions of a forked child: the parent's, each unshared.
pub open spec fn fresh_regions(s: Seq<VmRegion>) -> Seq<VmRegion> {
    s.map_values(|r: VmRegion| VmRegion { ref_count: 1, ..r })
}

/// The parent's regions after a fork: writable ones gain two sharers.
pub open spec fn forked_regions(s: Seq<VmRegion>) -> Seq<VmRegion> {
    s.map_values(
        |r: VmRegion|
            if r.flags & VM_WRITE != 0 {
                VmRegion { ref_count: wrap_inc(wrap_inc(r.ref_count)), ..r }
            } else {
                r
            },
    )
}

/// The copy-on-write pages after a fork, on either side: one more sharer
/// each.
pub open spec fn bumped_pages(s: Seq<(usize, PgFrame)>) -> Seq<(usize, PgFrame)> {
    s.map_values(|e: (usize, PgFrame)| (e.0, PgFrame { rc: wrap_inc(e.1.rc) }))
}

impl AddrSpace {
    /// The regions end inside the address range and no page occurs twice.
    pub open spec fn wf(&self) -> bool {
        self.vm_map.wf() && fds_unique(self.cow_pages@)
    }

    /// An empty space with id `asid`, shared once.
    pub fn new(asid: u16) -> (r: Self)
        ensures
            r.wf(),
            r.vm_map.regions@.len() == 0 && r.vm_map.brk == 0 && r.vm_map.mmap_base == 0,
            r.page_table_root == 0 && r.asid == asid && r.ref_count == 1 && r.cow_pages@.len() == 0,
    {
        AddrSpace { vm_map: VmMap::new(), page_table_root: 0, asid, ref_count: 1, cow_pages: Vec::new() }
    }

    /// The space of a child forked from `parent`: the parent's break,
    /// mapping base and regions (unshared copies), and its copy-on-write
    /// pages, each now with one more sharer on both sides; the parent's
    /// writable regions gain two sharers.
    pub fn fork_from(parent: &mut AddrSpace, new_asid: u16) -> (r: Self)
        requires
            old(parent).wf(),
        ensures
            r.wf(),
            final(parent).wf(),
            r.asid == new_asid && r.page_table_root == 0 && r.ref_count == 1,
            r.vm_map.brk == old(parent).vm_map.brk && r.vm_map.mmap_base == old(parent).vm_map.mmap_base,
            r.vm_map.regions@ == fresh_regions(old(parent).vm_map.regions@),
            r.cow_pages@ == bumped_pages(old(parent).cow_pages@),
            final(parent).vm_map.regions@ == forked_regions(old(parent).vm_map.regions@),
            final(parent).cow_pages@ == bumped_pages(old(parent).cow_pages@),
            final(parent).vm_map.brk == old(parent).vm_map.brk && final(parent).vm_map.mmap_base
                == old(parent).vm_map.mmap_base,
            final(parent).page_table_root == old(parent).page_table_root && final(parent).asid == old(parent).asid
                && final(parent).ref_count == old(parent).ref_count,
    {
        let mut child = AddrSpace::new(new_asid);
        child.vm_map.brk = parent.vm_map.brk;
        child.vm_map.mmap_base = parent.vm_map.mmap_base;
        let ghost s = parent.vm_map.regions@;
        let n = parent.vm_map.regions.len();
        let mut i: usize = 0;
        while i < n
            invariant
                n == s.len(),
                i <= n,
                s == old(parent).vm_map.regions@,
                old(parent).wf(),
                parent.vm_map.regions@.len() == n,
                forall|j: int| 0 <= j < i ==> #[trigger] parent.vm_map.regions@[j] == (if s[j].flags & VM_WRITE != 0 {
                    VmRegion { ref_count: wrap_inc(s[j].ref_count), ..s[j] }
                } else {
                    s[j]
                }),
                forall|j: int| i <= j < n ==> #[trigger] parent.vm_map.regions@[j] == s[j],
                child.vm_map.regions@ == fresh_regions(s.take(i as int)),
                child.vm_map.wf(),
                parent.cow_pages == old(parent).cow_pages,
                parent.vm_map.brk == old(parent).vm_map.brk && parent.vm_map.mmap_base == old(parent).vm_map.mmap_base,
                parent.page_table_root == old(parent).page_table_root && parent.asid == old(parent).asid
                    && parent.ref_count == old(parent).ref_count,
                child.asid == new_asid && child.page_table_root == 0 && child.ref_count == 1,
                child.vm_map.brk == old(parent).vm_map.brk && child.vm_map.mmap_base == old(parent).vm_map.mmap_base,
                child.cow_pages@.len() == 0,
            decreases n - i,
        {
            let region = parent.vm_map.regions[i];
            let mut nr = VmRegion::new(region.base, region.len, region.flags);
            nr.ref_count = 1;
            if region.flags & VM_WRITE != 0 {
                parent.vm_map.regions[i].ref_up();
            }
            assert(s[i as int].base + s[i as int].len <= usize::MAX);
            let _ = child.vm_map.insert(nr);
            i += 1;
            assert(child.vm_map.regions@ =~= fresh_regions(s.take(i as int)));
        }
        assert(s.take(n as int) =~= s);
        let ghost r1 = parent.vm_map.regions@;
        let ghost c = parent.cow_pages@;
        let m = parent.cow_pages.len();
        let mut k: usize = 0;
        while k < m
            invariant
                m == c.len(),
                k <= m,
                c == old(parent).cow_pages@,
                fds_unique(c),
                parent.cow_pages@.len() == m,
                forall|j: int| 0 <= j < k ==> #[trigger] parent.cow_pages@[j] == (c[j].0, PgFrame { rc: wrap_inc(c[j].1.rc) }),
                forall|j: int| k <= j < m ==> #[trigger] parent.cow_pages@[j] == c[j],
                child.cow_pages@ == bumped_pages(c.take(k as int)),
                child.vm_map.regions@ == fresh_regions(s),
                child.vm_map.wf(),
                parent.vm_map.regions@ == r1,
                child.asid == new_asid && child.page_table_root == 0 && child.ref_count == 1,
                child.vm_map.brk == old(parent).vm_map.brk && child.vm_map.mmap_base == old(parent).vm_map.mmap_base,
                parent.vm_map.brk == old(parent).vm_map.brk && parent.vm_map.mmap_base == old(parent).vm_map.mmap_base,
                parent.page_table_root == old(parent).page_table_root && parent.asid == old(parent).asid
                    && parent.ref_count == old(parent).ref_count,
            decreases m - k,
        {
            parent.cow_pages[k].1.up();
            let addr = parent.cow_pages[k].0;
            let cnt = parent.cow_pages[k].1.count();
            child.cow_pages.push((addr, PgFrame::with_rc(cnt)));
            k += 1;
            assert(child.cow_pages@ =~= bumped_pages(c.take(k as int)));
        }
        assert(c.take(m as int) =~= c);
        let ghost cw = parent.cow_pages@;
        assert(cw =~= bumped_pages(c));
        let mut i2: usize = 0;
        while i2 < n
            invariant
                n == s.len(),
                i2 <= n,
                parent.cow_pages@ == cw,
                parent.vm_map.regions@.len() == n,
                forall|j: int| 0 <= j < i2 ==> #[trigger] parent.vm_map.regions@[j] == (if s[j].flags & VM_WRITE != 0 {
                    VmRegion { ref_count: wrap_inc(wrap_inc(s[j].ref_count)), ..s[j] }
                } else {
                    s[j]
                }),
                forall|j: int| i2 <= j < n ==> #[trigger] parent.vm_map.regions@[j] == (if s[j].flags & VM_WRITE != 0 {
                    VmRegion { ref_count: wrap_inc(s[j].ref_count), ..s[j] }
                } else {
                    s[j]
                }),
                parent.vm_map.brk == old(parent).vm_map.brk && parent.vm_map.mmap_base == old(parent).vm_map.mmap_base,
                parent.page_table_root == old(parent).page_table_root && parent.asid == old(parent).asid
                    && parent.ref_count == old(parent).ref_count,
            decreases n - i2,
        {
            if parent.vm_map.regions[i2].flags & VM_WRITE != 0 {
                parent.vm_map.regions[i2].ref_up();
            }
            i2 += 1;
        }
        proof {
            assert(parent.vm_map.regions@ =~= forked_regions(s));
            assert forall|a: int, b: int| 0 <= a < b < child.cow_pages@.len() implies child.cow_pages@[a].0 != child.cow_pages@[b].0 by {
                assert(c[a].0 != c[b].0);
            }
            assert forall|a: int, b: int| 0 <= a < b < parent.cow_pages@.len() implies parent.cow_pages@[a].0 != parent.cow_pages@[b].0 by {
                assert(c[a].0 != c[b].0);
            }
            assert forall|j: int| 0 <= j < parent.vm_map.regions@.len() implies #[trigger] parent.vm_map.regions@[j].base
                + parent.vm_map.regions@[j].len <= usize::MAX by {
                assert(s[j].base + s[j].len <= usize::MAX);
            }
        }
        child
    }

    /// Resolves a write fault at `addr` against the copy-on-write pages:
    /// `Segfault` outside a writable region; a page no one else shares is
    /// answered as it is; a shared page, or one not yet tracked, gets a
    /// fresh frame from `pool` (now unshared) whose physical address is
    /// answered, `Oom` when the pool is empty.
    pub fn handle_cow_fault(&mut self, addr: usize, pool: &mut FramePool) -> (r: Result<usize, Errno>)
        requires
            old(self).wf(),
            old(pool)@.len() * PAGE_SZ + MEM_OFF <= usize::MAX,
        ensures
            final(self).wf(),
            final(self).vm_map == old(self).vm_map && final(self).page_table_root == old(self).page_table_root
                && final(self).asid == old(self).asid && final(self).ref_count == old(self).ref_count,
            final(pool).cap == old(pool).cap,
            ({
                let page = addr & !0xFFFusize;
                let s = old(self).vm_map.regions@;
                let c = old(self).cow_pages@;
                if !(exists|i: int| first_cover(s, addr, i) && s[i].flags & VM_WRITE != 0) {
                    r == Err::<usize, Errno>(Errno::Segfault) && final(self).cow_pages@ == c && final(pool)@ == old(pool)@
                } else if has_fd(c, page) && fd_obj(c, page).rc <= 1 {
                    r == Ok::<usize, Errno>(page) && final(self).cow_pages@ == c && final(pool)@ == old(pool)@
                } else if exists|j: int| 0 <= j < old(pool)@.len() && old(pool)@[j] {
                    exists|id: usize|
                        get_first_free(old(pool)@, final(pool)@, Some(id)) && r == Ok::<usize, Errno>(
                            (id * PAGE_SZ + MEM_OFF) as usize,
                        ) && fd_map(final(self).cow_pages@) == fd_map(c).insert(page, PgFrame { rc: 1 })
                } else {
                    r == Err::<usize, Errno>(Errno::Oom) && final(self).cow_pages@ == c && final(pool)@ == old(pool)@
                }
            }),
    {
        let page_addr = addr & !(PAGE_SZ - 1);
        let found = self.vm_map.find(addr);
        let ghost s = self.vm_map.regions@;
        let i = match found {
            Some(i) => i,
            None => {
                return Err(Errno::Segfault);
            },
        };
        if self.vm_map.regions[i].flags & VM_WRITE == 0 {
            proof {
                assert forall|j: int| first_cover(s, addr, j) implies !(s[j].flags & VM_WRITE != 0) by {
                    if j < i {
                        assert(!covers(s[j], addr));
                    } else if j > i {
                        assert(!covers(s[i as int], addr));
                    }
                }
            }
            return Err(Errno::Segfault);
        }
        let ghost c = self.cow_pages@;
        let ghost plen = old(pool)@.len();
        match find_fd(&self.cow_pages, page_addr) {
            Some(j) => {
                proof { lemma_fd_obj_at(c, j as int); }
                let rc = self.cow_pages[j].1.count();
                if rc <= 1 {
                    return Ok(page_addr);
                }
                let new_frame_id = match pool.get_inner() {
                    Some(id) => id,
                    None => {
                        return Err(Errno::Oom);
                    },
                };
                assert(new_frame_id * PAGE_SZ <= plen * PAGE_SZ) by (nonlinear_arith)
                    requires
                        new_frame_id < plen,
                ;
                self.cow_pages[j].1.down();
                fd_insert(&mut self.cow_pages, page_addr, PgFrame::with_rc(1));
                assert(fd_map(self.cow_pages@) =~= fd_map(c).insert(page_addr, PgFrame { rc: 1 })) by {
                    assert(fd_map(self.cow_pages@) == fd_map(c.update(j as int, (c[j as int].0, PgFrame { rc: (c[j as int].1.rc - 1) as usize }))).insert(page_addr, PgFrame { rc: 1 }));
                    lemma_map_update_same_key(c, j as int, PgFrame { rc: (c[j as int].1.rc - 1) as usize });
                }
                Ok(new_frame_id * PAGE_SZ + MEM_OFF)
            },
            None => {
                let frame_id = match pool.get_inner() {
                    Some(id) => id,
                    None => {
                        return Err(Errno::Oom);
                    },
                };
                assert(frame_id * PAGE_SZ <= plen * PAGE_SZ) by (nonlinear_arith)
                    requires
                        frame_id < plen,
                ;
                fd_insert(&mut self.cow_pages, page_addr, PgFrame::with_rc(1));
                Ok(frame_id * PAGE_SZ + MEM_OFF)
            },
        }
    }

    /// Unmaps `[start, start + len)`: drops the regions wholly inside it and
    /// the copy-on-write pages in it, answering how many of both.
    pub fn unmap_range(&mut self, start: usize, len: usize) -> (r: usize)
        requires
            old(self).wf(),
            start + len <= usize::MAX,
            old(self).vm_map.regions@.len() + old(self).cow_pages@.len() <= usize::MAX,
        ensures
            final(self).wf(),
            final(self).vm_map.regions@ == old(self).vm_map.regions@.filter(outside_range(start as int, start + len)),
            final(self).cow_pages@ == old(self).cow_pages@.filter(page_outside(start as int, start + len)),
            r == (old(self).vm_map.regions@.len() - final(self).vm_map.regions@.len()) + (old(self).cow_pages@.len()
                - final(self).cow_pages@.len()),
            final(self).vm_map.brk == old(self).vm_map.brk && final(self).vm_map.mmap_base == old(self).vm_map.mmap_base,
            final(self).page_table_root == old(self).page_table_root && final(self).asid == old(self).asid
                && final(self).ref_count == old(self).ref_count,
    {
        let end = start + len;
        let removed = self.vm_map.remove_range(start, len);
        let ghost c = self.cow_pages@;
        let mut kept: Vec<(usize, PgFrame)> = Vec::new();
        let mut old_pages: Vec<(usize, PgFrame)> = Vec::new();
        std::mem::swap(&mut old_pages, &mut self.cow_pages);
        let mut dropped: usize = 0;
        let n = old_pages.len();
        let mut i: usize = 0;
        while i < n
            invariant
                n == c.len(),
                i <= n,
                old_pages@.len() == n,
                forall|j: int| i <= j < n ==> #[trigger] old_pages@[j] == c[j],
                kept@ == c.take(i as int).filter(page_outside(start as int, end as int)),
                dropped == i - kept@.len(),
                kept@.len() <= i,
                end == start + len,
            decreases n - i,
        {
            let mut e = (0usize, PgFrame::new());
            std::mem::swap(&mut e, &mut old_pages[i]);
            proof {
                assert(e == c[i as int]);
                assert(c.take(i + 1).drop_last() =~= c.take(i as int));
                reveal(Seq::filter);
            }
            if start <= e.0 && e.0 < end {
                let mut f = e.1;
                f.down();
                dropped = dropped + 1;
            } else {
                kept.push(e);
            }
            i += 1;
        }
        assert(c.take(n as int) =~= c);
        proof { lemma_filter_pages_unique(c, page_outside(start as int, end as int)); }
        self.cow_pages = kept;
        removed + dropped
    }

    /// Gives every region meeting `[start, start + len)` the flags
    /// `new_flags`.
    pub fn protect(&mut self, start: usize, len: usize, new_flags: u32) -> (r: Result<(), Errno>)
        requires
            old(self).wf(),
            start + len <= usize::MAX,
        ensures
            final(self).wf(),
            r is Ok,
            final(self).vm_map.regions@ == protected(old(self).vm_map.regions@, start as int, start + len, new_flags),
            final(self).cow_pages == old(self).cow_pages,
            final(self).vm_map.brk == old(self).vm_map.brk && final(self).vm_map.mmap_base == old(self).vm_map.mmap_base,
            final(self).page_table_root == old(self).page_table_root && final(self).asid == old(self).asid
                && final(self).ref_count == old(self).ref_count,
    {
        let end = start + len;
        let ghost s = self.vm_map.regions@;
        let n = self.vm_map.regions.len();
        let mut i: usize = 0;
        while i < n
            invariant
                n == s.len(),
                i <= n,
                end == start + len,
                s == old(self).vm_map.regions@,
                old(self).wf(),
                self.vm_map.regions@.len() == n,
                forall|j: int| 0 <= j < i ==> #[trigger] self.vm_map.regions@[j] == protected(s, start as int, end as int, new_flags)[j],
                forall|j: int| i <= j < n ==> #[trigger] self.vm_map.regions@[j] == s[j],
                self.cow_pages == old(self).cow_pages,
                self.vm_map.brk == old(self).vm_map.brk && self.vm_map.mmap_base == old(self).vm_map.mmap_base,
                self.page_table_root == old(self).page_table_root && self.asid == old(self).asid
                    && self.ref_count == old(self).ref_count,
            decreases n - i,
        {
            let r = self.vm_map.regions[i];
            assert(s[i as int].base + s[i as int].len <= usize::MAX);
            if r.base < end && r.base + r.len > start {
                self.vm_map.regions.set(i, VmRegion { flags: new_flags, ..r });
            }
            i += 1;
        }
        assert(self.vm_map.regions@ =~= protected(s, start as int, end as int, new_flags));
        assert forall|j: int| 0 <= j < self.vm_map.regions@.len() implies #[trigger] self.vm_map.regions@[j].base
            + self.vm_map.regions@[j].len <= usize::MAX by {
            assert(s[j].base + s[j].len <= usize::MAX);
        }
        Ok(())
    }

    /// The number of copy-on-write pages held.
    pub fn rss_pages(&self) -> (r: usize)
        ensures
            r == self.cow_pages@.len(),
    {
        self.cow_pages.len()
    }

    /// The number of copy-on-write pages shared with another space.
    pub fn cow_sharers(&self) -> (r: usize)
        ensures
            r == shared_count(self.cow_pages@),
    {
        let mut n: usize = 0;
        let mut i: usize = 0;
        while i < self.cow_pages.len()
            invariant
                i <= self.cow_pages@.len(),
                n == shared_count(self.cow_pages@.take(i as int)),
                n <= i,
            decreases self.cow_pages@.len() - i,
        {
            assert(self.cow_pages@.take(i + 1).drop_last() =~= self.cow_pages@.take(i as int));
            if self.cow_pages[i].1.count() > 1 {
                n = n + 1;
            }
            i += 1;
        }
        assert(self.cow_pages@.take(i as int) =~= self.cow_pages@);
        n
    }

    /// Adds a region from `addr` to the end of the first region covering it
    /// (the covering region is left as it is); `Enomem` when none covers
    /// `addr`, `Einval` when `addr` is that region's start.
    pub fn split_region(&mut self, addr: usize) -> (r: Result<(), Errno>)
        requires
            old(self).wf(),
        ensures
            final(self).wf(),
            final(self).cow_pages == old(self).cow_pages,
            final(self).vm_map.brk == old(self).vm_map.brk && final(self).vm_map.mmap_base == old(self).vm_map.mmap_base,
            final(self).page_table_root == old(self).page_table_root && final(self).asid == old(self).asid
                && final(self).ref_count == old(self).ref_count,
            ({
                let s = old(self).vm_map.regions@;
                if !(exists|i: int| first_cover(s, addr, i)) {
                    r == Err::<(), Errno>(Errno::Enomem) && final(self).vm_map.regions@ == s
                } else {
                    let i = choose|i: int| first_cover(s, addr, i);
                    if addr == s[i].base {
                        r == Err::<(), Errno>(Errno::Einval) && final(self).vm_map.regions@ == s
                    } else {
                        r == Ok::<(), Errno>(()) && final(self).vm_map.regions@ == s.push(
                            VmRegion { base: addr, len: (s[i].len - (addr - s[i].base)) as usize, flags: s[i].flags, ref_count: 0 },
                        )
                    }
                }
            }),
    {
        let ghost s = self.vm_map.regions@;
        let i = match self.vm_map.find(addr) {
            Some(i) => i,
            None => {
                return Err(Errno::Enomem);
            },
        };
        proof {
            assert forall|j: int| first_cover(s, addr, j) implies j == i by {
                if j < i {
                    assert(!covers(s[j], addr));
                } else if j > i {
                    assert(!covers(s[i as int], addr));
                }
            }
        }
        let region = self.vm_map.regions[i];
        let offset = addr - region.base;
        if offset == 0 || offset >= region.len {
            return Err(Errno::Einval);
        }
        let second = VmRegion::new(addr, region.len - offset, region.flags);
        self.vm_map.regions.push(second);
        assert forall|j: int| 0 <= j < self.vm_map.regions@.len() implies #[trigger] self.vm_map.regions@[j].base
            + self.vm_map.regions@[j].len <= usize::MAX by {
            if j < s.len() {
                assert(s[j].base + s[j].len <= usize::MAX);
            } else {
                assert(s[i as int].base + s[i as int].len <= usize::MAX);
            }
        }
        Ok(())
    }
}

/// Changing the object of an entry leaves the map's other entries, and
/// putting a value under the same key makes them agree.
proof fn lemma_map_update_same_key(c: Seq<(usize, PgFrame)>, j: int, v: PgFrame)
    requires
        fds_unique(c),
        0 <= j < c.len(),
    ensures
        fds_unique(c.update(j, (c[j].0, v))),
        fd_map(c.update(j, (c[j].0, v))).insert(c[j].0, PgFrame { rc: 1 }) == fd_map(c).insert(c[j].0, PgFrame { rc: 1 }),
{
    let u = c.update(j, (c[j].0, v));
    assert forall|a: int, b: int| 0 <= a < b < u.len() implies u[a].0 != u[b].0 by {
        assert(c[a].0 != c[b].0);
    }
    assert forall|x: usize| has_fd(u, x) <==> has_fd(c, x) by {
        if has_fd(u, x) {
            let a = choose|a: int| 0 <= a < u.len() && #[trigger] u[a].0 == x;
            assert(c[a].0 == x);
        }
        if has_fd(c, x) {
            let a = choose|a: int| 0 <= a < c.len() && #[trigger] c[a].0 == x;
            assert(u[a].0 == x);
        }
    }
    assert forall|x: usize| x != c[j].0 && #[trigger] fd_map(u).dom().contains(x) implies fd_map(u)[x] == fd_map(c)[x] by {
        let a = choose|a: int| 0 <= a < u.len() && #[trigger] u[a].0 == x;
        lemma_fd_obj_at(u, a);
        lemma_fd_obj_at(c, a);
    }
    assert(fd_map(u).insert(c[j].0, PgFrame { rc: 1 }) =~= fd_map(c).insert(c[j].0, PgFrame { rc: 1 }));
}

/// Filtering keeps page addresses apart.
proof fn lemma_filter_pages_unique(t: Seq<(usize, PgFrame)>, p: spec_fn((usize, PgFrame)) -> bool)
    requires
        fds_unique(t),
    ensures
        fds_unique(t.filter(p)),
    decreases t.len(),
{
    reveal(Seq::filter);
    if t.len() > 0 {
        let d = t.drop_last();
        assert(fds_unique(d));
        lemma_filter_pages_unique(d, p);
        let f = d.filter(p);
        if p(t.last()) {
            assert forall|i: int| 0 <= i < f.len() implies f[i].0 != t.last().0 by {
                assert(f.contains(f[i]));
                d.lemma_filter_contains_rev(p, f[i]);
                let j = choose|j: int| 0 <= j < d.len() && d[j] == f[i];
                assert(t[j] == d[j]);
            }
        }
    }
}

} // verus!
