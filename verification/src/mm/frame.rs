use vstd::prelude::*;
use crate::config::{MEM_OFF, PAGE_SZ};
use crate::mm::pgframe::{wrap_inc, wrap_dec};
use crate::mm::zone::ZoneInfo;

verus! {

/// The number of free (`true`) slots in `s`.
pub open spec fn count_free(s: Seq<bool>) -> nat
    decreases s.len(),
{
    if s.len() == 0 {
        0
    } else {
        count_free(s.drop_last()) + if s.last() { 1nat } else { 0nat }
    }
}

/// The indices of the free slots of `s`, in increasing order.
pub open spec fn free_indices(s: Seq<bool>) -> Seq<usize>
    decreases s.len(),
{
    if s.len() == 0 {
        Seq::empty()
    } else if s.last() {
        free_indices(s.drop_last()).push((s.len() - 1) as usize)
    } else {
        free_indices(s.drop_last())
    }
}

/// `s` with the slots at the given indices marked in use.
pub open spec fn take_slots(s: Seq<bool>, idx: Seq<usize>) -> Seq<bool> {
    Seq::new(s.len(), |i: int| s[i] && !idx.contains(i as usize))
}

/// `[t, t + sz)` lies in `s` and every slot in it is free.
pub open spec fn run_free(s: Seq<bool>, t: int, sz: int) -> bool {
    &&& 0 <= t
    &&& t + sz <= s.len()
    &&& forall|i: int| t <= i < t + sz ==> s[i]
}

/// `s` with the slots `[t, t + sz)` marked in use.
pub open spec fn take_run(s: Seq<bool>, t: int, sz: int) -> Seq<bool> {
    Seq::new(s.len(), |i: int| if t <= i < t + sz { false } else { s[i] })
}

/// The slot visited `o` steps into a cyclic scan that starts at `start`.
pub open spec fn cyclic(len: int, start: int, o: int) -> int {
    (start + o) % len
}

/// The next multiple of `a` above `x` lies within `a` of it.
pub proof fn lemma_next_multiple(x: int, a: int)
    requires
        x >= 0,
        a >= 1,
    ensures
        (x / a + 1) * a > x,
        (x / a + 1) * a <= x + a,
        ((x / a + 1) * a) % a == 0,
{
    assert((x / a + 1) * a > x && (x / a + 1) * a <= x + a) by (nonlinear_arith)
        requires x >= 0, a >= 1;
    vstd::arithmetic::div_mod::lemma_mod_multiples_basic(x / a + 1, a);
}

/// A multiple of `a` above a non-multiple `x` is at least the next multiple.
pub proof fn lemma_multiple_above(u: int, x: int, a: int)
    requires
        x >= 0,
        a >= 1,
        u >= x,
        u % a == 0,
        x % a != 0,
    ensures
        u >= (x / a + 1) * a,
{
    assert(u >= (x / a + 1) * a) by (nonlinear_arith)
        requires
            x >= 0,
            a >= 1,
            u >= x,
            u % a == 0,
            x % a != 0,
    {
        vstd::arithmetic::div_mod::lemma_fundamental_div_mod(u, a);
        vstd::arithmetic::div_mod::lemma_fundamental_div_mod(x, a);
        vstd::arithmetic::div_mod::lemma_div_is_ordered(x, u, a);
    }
}

/// A pool of physical frames; each slot is one page, `true` when free.
pub struct FramePool {
    pub slots: Vec<bool>,
    pub cap: usize,
}

impl View for FramePool {
    type V = Seq<bool>;

    open spec fn view(&self) -> Seq<bool> {
        self.slots@
    }
}

pub proof fn lemma_count_free_bound(s: Seq<bool>)
    ensures
        count_free(s) <= s.len(),
        count_free(s) == free_indices(s).len(),
    decreases s.len(),
{
    if s.len() > 0 {
        lemma_count_free_bound(s.drop_last());
    }
}

/// Every index listed by `free_indices` is a free slot, the list is strictly
/// increasing, and every free slot is listed.
pub proof fn lemma_free_indices(s: Seq<bool>)
    requires
        s.len() <= usize::MAX,
    ensures
        forall|k: int| 0 <= k < free_indices(s).len() ==> {
            let i = #[trigger] free_indices(s)[k];
            i < s.len() && s[i as int]
        },
        forall|k1: int, k2: int|
            0 <= k1 < k2 < free_indices(s).len() ==> free_indices(s)[k1] < free_indices(s)[k2],
        forall|i: int| 0 <= i < s.len() && s[i] ==> free_indices(s).contains(i as usize),
    decreases s.len(),
{
    if s.len() > 0 {
        let p = s.drop_last();
        let fp = free_indices(p);
        let fs = free_indices(s);
        lemma_free_indices(p);
        assert forall|k: int| 0 <= k < fp.len() implies fs[k] == fp[k] by {}
        assert forall|i: int| 0 <= i < s.len() && s[i] implies fs.contains(i as usize) by {
            if i < s.len() - 1 {
                assert(p[i] == s[i]);
                let k = choose|k: int| 0 <= k < fp.len() && fp[k] == i as usize;
                assert(fs[k] == i as usize);
            } else {
                assert(fs[fs.len() - 1] == i as usize);
            }
        }
    }
}

/// The free indices of a prefix are a prefix of the free indices.
pub proof fn lemma_free_indices_prefix(s: Seq<bool>, n: int)
    requires
        0 <= n <= s.len(),
        s.len() <= usize::MAX,
    ensures
        free_indices(s.take(n)) =~= free_indices(s).take(free_indices(s.take(n)).len() as int),
        free_indices(s.take(n)).len() <= free_indices(s).len(),
        forall|k: int|
            free_indices(s.take(n)).len() <= k < free_indices(s).len() ==> free_indices(s)[k] >= n,
    decreases s.len(),
{
    if n == s.len() {
        assert(s.take(n) =~= s);
    } else {
        let p = s.drop_last();
        assert(s.take(n) =~= p.take(n));
        lemma_free_indices_prefix(p, n);
        let fp = free_indices(p);
        let fs = free_indices(s);
        assert forall|k: int| 0 <= k < fp.len() implies fs[k] == fp[k] by {}
        assert forall|k: int| free_indices(s.take(n)).len() <= k < fs.len() implies fs[k] >= n by {
            if k >= fp.len() {
                assert(fs[k] == (s.len() - 1) as usize);
            }
        }
    }
}

impl FramePool {
    /// The pool's slot count matches its capacity.
    pub open spec fn wf(&self) -> bool {
        self@.len() == self.cap
    }

    /// A pool of `n` free frames.
    pub fn new(n: usize) -> (r: Self)
        ensures
            r.wf(),
            r.cap == n,
            r@ == Seq::new(n as nat, |i: int| true),
    {
        let mut slots: Vec<bool> = Vec::new();
        let mut i: usize = 0;
        while i < n
            invariant
                i <= n,
                slots@ == Seq::new(i as nat, |j: int| true),
            decreases n - i,
        {
            slots.push(true);
            i += 1;
        }
        FramePool { slots, cap: n }
    }

    /// Takes the lowest free frame, on behalf of caller `id`.
    pub fn get(&mut self, id: usize) -> (r: Option<usize>)
        ensures
            get_first_free(old(self)@, final(self)@, r),
            final(self).cap == old(self).cap,
    {
        self.get_inner()
    }

    /// Takes the lowest free frame.
    pub fn get_inner(&mut self) -> (r: Option<usize>)
        ensures
            get_first_free(old(self)@, final(self)@, r),
            final(self).cap == old(self).cap,
    {
        let mut i: usize = 0;
        while i < self.slots.len()
            invariant
                i <= self.slots@.len(),
                self.slots@ == old(self).slots@,
                self.cap == old(self).cap,
                forall|j: int| 0 <= j < i ==> !self.slots@[j],
            decreases self.slots@.len() - i,
        {
            if self.slots[i] {
                self.slots.set(i, false);
                return Some(i);
            }
            i += 1;
        }
        None
    }

    /// Takes `sz` contiguous free frames starting at the lowest slot that is
    /// a multiple of `2^align_log2` (and lies inside the pool).
    pub fn get_contig(&mut self, sz: usize, align_log2: usize) -> (r: Option<usize>)
        requires
            align_log2 < usize::BITS,
        ensures
            final(self).cap == old(self).cap,
            ({
                let a = (1usize << align_log2) as int;
                let s = old(self)@;
                match r {
                    Some(t) => {
                        &&& t < s.len() && (t as int) % a == 0 && run_free(s, t as int, sz as int)
                        &&& forall|u: int| 0 <= u < t && u % a == 0 ==> !run_free(s, u, sz as int)
                        &&& final(self)@ == take_run(s, t as int, sz as int)
                    },
                    None => {
                        &&& forall|u: int| 0 <= u < s.len() && u % a == 0 ==> !run_free(s, u, sz as int)
                        &&& final(self)@ == s
                    },
                }
            }),
    {
        let a = 1usize << align_log2;
        assert(a >= 1) by (bit_vector)
            requires
                a == 1usize << align_log2,
                align_log2 < usize::BITS,
        ;
        let len = self.slots.len();
        let mut start: usize = 0;
        while start < len
            invariant
                a >= 1,
                a == 1usize << align_log2,
                len == self.slots@.len(),
                self.slots@ == old(self).slots@,
                self.cap == old(self).cap,
                (start as int) % (a as int) == 0,
                forall|u: int| 0 <= u < start && u % (a as int) == 0 ==> !run_free(self.slots@, u, sz as int),
            decreases len - start,
        {
            if sz > len - start {
                proof {
                    assert forall|u: int| start <= u < len && u % (a as int) == 0 implies !run_free(self.slots@, u, sz as int) by {}
                }
                return None;
            }
            let mut ok = true;
            let mut i: usize = start;
            while i < start + sz
                invariant
                    start <= i <= start + sz,
                    start + sz <= len,
                    len == self.slots@.len(),
                    ok ==> forall|k: int| start <= k < i ==> self.slots@[k],
                    self.slots@ == old(self).slots@,
                    !ok ==> !run_free(self.slots@, start as int, sz as int),
                decreases start + sz - i,
            {
                if !self.slots[i] {
                    ok = false;
                }
                i += 1;
            }
            if ok {
                let mut k: usize = start;
                while k < start + sz
                    invariant
                        start <= k <= start + sz,
                        start + sz <= len,
                        len == self.slots@.len(),
                        self.slots@ == Seq::new(len as nat, |x: int| if start <= x < k { false } else { old(self).slots@[x] }),
                        self.cap == old(self).cap,
                    decreases start + sz - k,
                {
                    self.slots.set(k, false);
                    k += 1;
                }
                assert(self.slots@ =~= take_run(old(self)@, start as int, sz as int));
                return Some(start);
            }
            if len - start <= a {
                proof {
                    assert forall|u: int| start <= u < len && u % (a as int) == 0 implies !run_free(self.slots@, u, sz as int) by {
                        if u > start {
                            assert(u >= start + a) by (nonlinear_arith)
                                requires u > start, u % (a as int) == 0, (start as int) % (a as int) == 0, a >= 1;
                        }
                    }
                }
                return None;
            }
            proof {
                assert forall|u: int| 0 <= u < start + a && u % (a as int) == 0 implies !run_free(self.slots@, u, sz as int) by {
                    if u > start {
                        assert(u >= start + a) by (nonlinear_arith)
                            requires u > start, u % (a as int) == 0, (start as int) % (a as int) == 0, a >= 1;
                    }
                }
                assert(((start + a) as int) % (a as int) == 0) by (nonlinear_arith)
                    requires (start as int) % (a as int) == 0, a >= 1;
            }
            start = start + a;
        }
        None
    }

    /// Returns frame `idx` to the pool; an index outside the pool is ignored.
    pub fn put(&mut self, idx: usize)
        ensures
            final(self).cap == old(self).cap,
            final(self)@ == if idx < old(self)@.len() { old(self)@.update(idx as int, true) } else { old(self)@ },
    {
        if idx < self.slots.len() {
            self.slots.set(idx, true);
        }
    }

    /// Whether frame `idx` is in the pool and free.
    pub fn avail(&self, idx: usize) -> (r: bool)
        ensures
            r == (idx < self@.len() && self@[idx as int]),
    {
        idx < self.slots.len() && self.slots[idx]
    }

    /// The number of free frames.
    pub fn free_count(&self) -> (r: usize)
        ensures
            r == count_free(self@),
    {
        let mut n: usize = 0;
        let mut i: usize = 0;
        while i < self.slots.len()
            invariant
                i <= self.slots@.len(),
                n == count_free(self.slots@.take(i as int)),
                n <= i,
            decreases self.slots@.len() - i,
        {
            proof {
                assert(self.slots@.take(i + 1).drop_last() =~= self.slots@.take(i as int));
            }
            if self.slots[i] {
                n += 1;
            }
            i += 1;
        }
        assert(self.slots@.take(i as int) =~= self.slots@);
        n
    }

    /// Takes the lowest free frame of `zone` (among its frames that lie in
    /// the pool) and counts it out of the zone; `None`, with nothing
    /// changed, when the zone cannot allocate or none of its frames is free.
    pub fn get_zone_aware(&mut self, zone: &mut ZoneInfo) -> (r: Option<usize>)
        requires
            old(zone).base_pfn + old(zone).page_count <= usize::MAX,
        ensures
            final(self).cap == old(self).cap,
            final(zone).base_pfn == old(zone).base_pfn && final(zone).page_count == old(zone).page_count,
            ({
                let s = old(self)@;
                let lo = old(zone).base_pfn as int;
                let hi = old(zone).base_pfn + old(zone).page_count;
                match r {
                    Some(i) => {
                        &&& old(zone).free_count > 0
                        &&& lo <= i < hi && i < s.len() && s[i as int]
                        &&& forall|j: int| lo <= j < i ==> !s[j]
                        &&& final(self)@ == s.update(i as int, false)
                        &&& final(zone).free_count == wrap_dec(old(zone).free_count)
                    },
                    None => {
                        &&& (old(zone).free_count == 0 || forall|j: int| lo <= j < hi && j < s.len() ==> !s[j])
                        &&& final(self)@ == s
                        &&& final(zone).free_count == old(zone).free_count
                    },
                }
            }),
    {
        if !zone.zone_can_alloc() {
            return None;
        }
        let base = zone.base_pfn;
        let limit = base + zone.page_count;
        let end = if limit < self.slots.len() { limit } else { self.slots.len() };
        let mut i: usize = base;
        while i < end
            invariant
                base <= i,
                i <= end || end < base,
                end <= limit && end <= self.slots@.len(),
                base == old(zone).base_pfn,
                limit == old(zone).base_pfn + old(zone).page_count,
                end == limit || end == self.slots@.len(),
                self.slots@ == old(self).slots@,
                self.cap == old(self).cap,
                *zone == *old(zone),
                old(zone).free_count > 0,
                forall|j: int| base <= j < i ==> !self.slots@[j],
            decreases end - i,
        {
            if self.slots[i] {
                self.slots.set(i, false);
                zone.free_count = zone.free_count.wrapping_sub(1);
                return Some(i);
            }
            i += 1;
        }
        None
    }

    /// Returns frame `idx` to the pool and counts it back into `zone`; an
    /// index outside the pool is ignored.
    pub fn put_zone_aware(&mut self, idx: usize, zone: &mut ZoneInfo)
        ensures
            final(self).cap == old(self).cap,
            final(zone).base_pfn == old(zone).base_pfn && final(zone).page_count == old(zone).page_count,
            idx < old(self)@.len() ==> final(self)@ == old(self)@.update(idx as int, true) && final(zone).free_count
                == wrap_inc(old(zone).free_count),
            idx >= old(self)@.len() ==> final(self)@ == old(self)@ && final(zone).free_count == old(zone).free_count,
    {
        if idx < self.slots.len() {
            self.slots.set(idx, true);
            zone.free_count = zone.free_count.wrapping_add(1);
        }
    }

    /// Takes the lowest `count` free frames (all of them if fewer are free)
    /// and lists them in increasing order.
    pub fn batch_alloc(&mut self, count: usize) -> (r: Vec<usize>)
        ensures
            final(self).cap == old(self).cap,
            r@ == free_indices(old(self)@).take(
                if count < free_indices(old(self)@).len() { count as int } else { free_indices(old(self)@).len() as int },
            ),
            final(self)@ == take_slots(old(self)@, r@),
    {
        let ghost s = self.slots@;
        let mut result: Vec<usize> = Vec::new();
        let mut i: usize = 0;
        while i < self.slots.len()
            invariant
                i <= s.len(),
                self.slots@.len() == s.len(),
                self.cap == old(self).cap,
                s == old(self)@,
                result@ == free_indices(s.take(i as int)),
                result@.len() <= count,
                self.slots@ == take_slots(s, result@),
                forall|k: int| 0 <= k < result@.len() ==> result@[k] < i,
            decreases s.len() - i,
        {
            if result.len() >= count {
                proof {
                    lemma_free_indices_prefix(s, i as int);
                }
                return result;
            }
            proof {
                assert(s.take(i + 1).drop_last() =~= s.take(i as int));
            }
            if self.slots[i] {
                let ghost old_result = result@;
                self.slots.set(i, false);
                result.push(i);
                proof {
                    assert forall|x: int| 0 <= x < s.len() implies self.slots@[x] == (s[x] && !result@.contains(x as usize)) by {
                        if x != i {
                            if result@.contains(x as usize) {
                                let k = choose|k: int| 0 <= k < result@.len() && result@[k] == x as usize;
                                if k < old_result.len() {
                                    assert(old_result[k] == x as usize);
                                }
                            }
                            if old_result.contains(x as usize) {
                                let k = choose|k: int| 0 <= k < old_result.len() && old_result[k] == x as usize;
                                assert(result@[k] == x as usize);
                            }
                        } else {
                            assert(result@[result@.len() - 1] == i);
                        }
                    }
                    assert(self.slots@ =~= take_slots(s, result@));
                }
            }
            i += 1;
        }
        proof {
            assert(s.take(i as int) =~= s);
        }
        result
    }
}

/// `r` is the lowest free slot of `before`, now taken in `after`, or `None`
/// with nothing changed when no slot is free.
pub open spec fn get_first_free(before: Seq<bool>, after: Seq<bool>, r: Option<usize>) -> bool {
    match r {
        Some(i) => {
            &&& i < before.len()
            &&& before[i as int]
            &&& forall|j: int| 0 <= j < i ==> !before[j]
            &&& after == before.update(i as int, false)
        },
        None => {
            &&& forall|j: int| 0 <= j < before.len() ==> !before[j]
            &&& after == before
        },
    }
}

/// The physical address of frame `i`, when it fits.
pub open spec fn frame_addr(i: int) -> Option<usize> {
    if i * PAGE_SZ + MEM_OFF <= usize::MAX {
        Some((i * PAGE_SZ + MEM_OFF) as usize)
    } else {
        None
    }
}

/// Step `o` of a cyclic scan of `s` from `start` is the first to meet a free slot.
pub open spec fn first_in_scan(s: Seq<bool>, start: int, o: int) -> bool {
    let len = s.len() as int;
    &&& 0 <= o < len
    &&& s[cyclic(len, start, o)]
    &&& forall|o2: int| 0 <= o2 < o ==> !s[#[trigger] cyclic(len, start, o2)]
}

/// Where a cyclic scan of `s` at time `now` starts.
pub open spec fn scan_origin(s: Seq<bool>, now: usize) -> int {
    if s.len() == 0 { 0 } else { (now as int) % (s.len() as int) }
}

/// Takes a free frame, scanning cyclically from slot `now % len`, and
/// answers its physical address (`None` when the address does not fit, the
/// frame staying taken).
pub fn frame_alloc(pool: &mut FramePool, now: usize) -> (r: Option<usize>)
    ensures
        final(pool).cap == old(pool).cap,
        (forall|j: int| 0 <= j < old(pool)@.len() ==> !old(pool)@[j]) ==> r is None && final(pool)@
            == old(pool)@,
        (exists|j: int| 0 <= j < old(pool)@.len() && old(pool)@[j]) ==> exists|o: int|
            #[trigger] first_in_scan(old(pool)@, scan_origin(old(pool)@, now), o) && final(pool)@
                == old(pool)@.update(cyclic(old(pool)@.len() as int, scan_origin(old(pool)@, now), o), false)
                && r == frame_addr(cyclic(old(pool)@.len() as int, scan_origin(old(pool)@, now), o)),
{
    let len = pool.slots.len();
    let scan_start = if len == 0 { 0 } else { now % len };
    let mut offset: usize = 0;
    let mut found: Option<usize> = None;
    while offset < len && found.is_none()
        invariant
            len == pool.slots@.len(),
            pool.slots@ == old(pool).slots@,
            pool.cap == old(pool).cap,
            offset <= len,
            scan_start == scan_origin(pool.slots@, now),
            forall|o2: int| 0 <= o2 < offset ==> !pool.slots@[#[trigger] cyclic(len as int, scan_start as int, o2)],
            found matches Some(i) ==> offset < len && i == cyclic(len as int, scan_start as int, offset as int)
                && pool.slots@[i as int],
        decreases len - offset + (if found is None { 1int } else { 0int }),
    {
        let i = ((scan_start as u128 + offset as u128) % len as u128) as usize;
        assert(i == cyclic(len as int, scan_start as int, offset as int));
        if pool.slots[i] {
            found = Some(i);
        } else {
            offset += 1;
        }
    }
    match found {
        Some(i) => {
            proof {
                assert(first_in_scan(pool.slots@, scan_start as int, offset as int));
                assert(old(pool)@[i as int]);
            }
            pool.slots.set(i, false);
            match i.checked_mul(PAGE_SZ) {
                Some(v) => v.checked_add(MEM_OFF),
                None => None,
            }
        },
        None => {
            proof {
                assert forall|j: int| 0 <= j < len implies !pool.slots@[j] by {
                    let o = if j >= scan_start { j - scan_start } else { j + len - scan_start };
                    vstd::arithmetic::div_mod::lemma_small_mod(j as nat, len as nat);
                    vstd::arithmetic::div_mod::lemma_mod_add_multiples_vanish(j, len as int);
                    assert(cyclic(len as int, scan_start as int, o) == j);
                }
            }
            None
        },
    }
}

/// Returns the frame at physical address `target`; an address below the
/// pool, not at a page boundary, or past its end is ignored.
pub fn frame_dealloc(pool: &mut FramePool, target: usize)
    ensures
        final(pool).cap == old(pool).cap,
        final(pool)@ == if target >= MEM_OFF && (target - MEM_OFF) % (PAGE_SZ as int) == 0 && (target
            - MEM_OFF) / (PAGE_SZ as int) < old(pool)@.len() {
            old(pool)@.update((target - MEM_OFF) / (PAGE_SZ as int), true)
        } else {
            old(pool)@
        },
{
    if target < MEM_OFF {
        return;
    }
    let idx = (target - MEM_OFF) / PAGE_SZ;
    let remainder = (target - MEM_OFF) % PAGE_SZ;
    if remainder != 0 {
        return;
    }
    if idx < pool.slots.len() {
        pool.slots.set(idx, true);
    }
}

/// Takes `sz` contiguous free frames starting at the lowest slot that is a
/// multiple of `2^align` (of 1 when `align` is 0) and answers the physical
/// address of the first; `None` for `sz == 0` or when no such run exists.
pub fn frame_alloc_contig(pool: &mut FramePool, sz: usize, align: usize) -> (r: Option<usize>)
    requires
        align < usize::BITS,
        old(pool)@.len() * PAGE_SZ + MEM_OFF <= usize::MAX,
    ensures
        final(pool).cap == old(pool).cap,
        ({
            let a = if align < 1 { 1int } else { (1usize << align) as int };
            let s = old(pool)@;
            match r {
                Some(addr) => exists|t: int|
                    #![trigger run_free(s, t, sz as int)]
                    0 <= t && t % a == 0 && run_free(s, t, sz as int) && (forall|u: int|
                        0 <= u < t && u % a == 0 ==> !run_free(s, u, sz as int)) && final(pool)@
                        == take_run(s, t, sz as int) && addr == t * PAGE_SZ + MEM_OFF && sz > 0,
                None => {
                    &&& sz == 0 || forall|u: int| 0 <= u && u % a == 0 ==> !run_free(s, u, sz as int)
                    &&& final(pool)@ == s
                },
            }
        }),
{
    if sz == 0 {
        return None;
    }
    let alignment: usize = if align < 1 {
        1
    } else {
        1usize << align
    };
    assert(alignment >= 1) by (bit_vector)
        requires
            align >= 1 ==> alignment == 1usize << align,
            align < 1 ==> alignment == 1,
            align < usize::BITS,
    ;
    let total = pool.slots.len();
    let ghost s = pool.slots@;
    let mut start: usize = 0;
    while sz <= total - start
        invariant
            alignment >= 1,
            alignment == if align < 1 { 1usize } else { 1usize << align },
            total == s.len(),
            s == old(pool)@,
            pool.slots@ == s,
            pool.cap == old(pool).cap,
            s.len() * PAGE_SZ + MEM_OFF <= usize::MAX,
            start <= total,
            sz > 0,
            forall|u: int| 0 <= u < start && u % (alignment as int) == 0 ==> !run_free(s, u, sz as int),
        decreases total - start,
    {
        let rem = start % alignment;
        if rem != 0 {
            let gap = alignment - rem;
            proof {
                vstd::arithmetic::div_mod::lemma_fundamental_div_mod(start as int, alignment as int);
                lemma_next_multiple(start as int, alignment as int);
                assert(start + gap == (start / alignment + 1) * alignment) by (nonlinear_arith)
                    requires
                        start as int == alignment * (start / alignment) + rem,
                        gap == alignment - rem;
                assert forall|u: int| 0 <= u < start + gap && u % (alignment as int) == 0 implies !run_free(s, u, sz as int) by {
                    if u >= start {
                        lemma_multiple_above(u, start as int, alignment as int);
                    }
                }
            }
            if gap > total - start {
                proof {
                    assert forall|u: int| 0 <= u && u % (alignment as int) == 0 implies !run_free(s, u, sz as int) by {
                        if u >= start + gap {
                            assert(u + sz > total);
                        }
                    }
                }
                return None;
            }
            start = start + gap;
            continue;
        }
        let mut ok = true;
        let mut j: usize = start;
        let mut next: usize = start;
        while ok && j < start + sz
            invariant
                start <= j <= start + sz,
                start + sz <= total,
                total == s.len(),
                pool.slots@ == s,
                ok ==> forall|k: int| start <= k < j ==> s[k],
                ok ==> next == start,
                !ok ==> start < next <= start + sz && !s[next - 1],
            decreases start + sz - j + (if ok { 1int } else { 0int }),
        {
            if !pool.slots[j] {
                ok = false;
                next = j + 1;
            } else {
                j += 1;
            }
        }
        if ok {
            let mut k: usize = start;
            while k < start + sz
                invariant
                    start <= k <= start + sz,
                    start + sz <= total,
                    total == pool.slots@.len(),
                    pool.cap == old(pool).cap,
                    pool.slots@ == Seq::new(total as nat, |x: int| if start <= x < k { false } else { s[x] }),
                decreases start + sz - k,
            {
                pool.slots.set(k, false);
                k += 1;
            }
            assert(pool.slots@ =~= take_run(s, start as int, sz as int));
            assert(run_free(s, start as int, sz as int));
            assert(start * PAGE_SZ <= s.len() * PAGE_SZ) by (nonlinear_arith)
                requires start <= s.len();
            proof {
                let a = if align < 1 { 1int } else { (1usize << align) as int };
                assert(a == alignment as int);
                assert((start as int) % a == 0);
                assert(forall|u: int| 0 <= u < start && u % a == 0 ==> !run_free(s, u, sz as int));
            }
            return Some(start * PAGE_SZ + MEM_OFF);
        }
        proof {
            assert forall|u: int| 0 <= u < next && u % (alignment as int) == 0 implies !run_free(s, u, sz as int) by {
                if u >= start {
                    assert(u <= next - 1 < u + sz);
                }
            }
        }
        start = next;
    }
    proof {
        assert forall|u: int| 0 <= u && u % (alignment as int) == 0 implies !run_free(s, u, sz as int) by {
            if u >= start {
                assert(u + sz > total);
            }
        }
    }
    None
}

} // verus!
