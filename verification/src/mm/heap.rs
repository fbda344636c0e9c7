use vstd::prelude::*;
use crate::config::{PAGE_SZ, PHYS_OFF};
use crate::mm::frame::{FramePool, count_free, cyclic, first_in_scan};

verus! {

/// The end of a heap placed at `base` (rounded up to a page) and `sz` bytes
/// long (rounded down to whole pages).
pub fn heap_init(base: usize, sz: usize) -> (r: usize)
    requires
        base + PAGE_SZ - 1 + sz <= usize::MAX,
    ensures
        r == (base + PAGE_SZ - 1) / (PAGE_SZ as int) * (PAGE_SZ as int) + (sz / PAGE_SZ) * PAGE_SZ,
{
    let aligned_base = (base + (PAGE_SZ - 1)) / PAGE_SZ * PAGE_SZ;
    let aligned_sz = sz / PAGE_SZ * PAGE_SZ;
    aligned_base + aligned_sz
}

/// The direct-map address of frame `pg`.
pub open spec fn page_va(pg: int) -> int {
    PHYS_OFF + pg * PAGE_SZ
}

/// Frame `pg` lies in one of the address ranges of `addrs`.
pub open spec fn covered(addrs: Seq<(usize, usize)>, pg: int) -> bool {
    exists|k: int|
        0 <= k < addrs.len() && #[trigger] addrs[k].0 <= page_va(pg) < addrs[k].0 + addrs[k].1
}

/// Each range starts at a frame of the direct map and spans whole pages.
pub open spec fn ranges_aligned(addrs: Seq<(usize, usize)>) -> bool {
    forall|k: int|
        0 <= k < addrs.len() ==> {
            &&& #[trigger] addrs[k].0 >= PHYS_OFF
            &&& (addrs[k].0 - PHYS_OFF) % (PAGE_SZ as int) == 0
            &&& addrs[k].1 % PAGE_SZ == 0
            &&& addrs[k].1 > 0
        }
}

/// The total length of the ranges.
pub open spec fn total_len(addrs: Seq<(usize, usize)>) -> int
    decreases addrs.len(),
{
    if addrs.len() == 0 {
        0
    } else {
        total_len(addrs.drop_last()) + addrs.last().1
    }
}

/// Taking a free slot lowers the free count by one.
pub proof fn lemma_count_free_take(s: Seq<bool>, i: int)
    requires
        0 <= i < s.len(),
        s[i],
    ensures
        count_free(s.update(i, false)) + 1 == count_free(s),
    decreases s.len(),
{
    let t = s.update(i, false);
    if i == s.len() - 1 {
        assert(t.drop_last() =~= s.drop_last());
    } else {
        assert(t.drop_last() =~= s.drop_last().update(i, false));
        lemma_count_free_take(s.drop_last(), i);
    }
}

/// With no slot free, the free count is 0; with one free, it is positive.
pub proof fn lemma_count_free_zero(s: Seq<bool>)
    ensures
        (forall|j: int| 0 <= j < s.len() ==> !s[j]) <==> count_free(s) == 0,
    decreases s.len(),
{
    if s.len() > 0 {
        lemma_count_free_zero(s.drop_last());
        if count_free(s) == 0 {
            assert forall|j: int| 0 <= j < s.len() implies !s[j] by {
                if j < s.len() - 1 {
                    assert(s.drop_last()[j] == s[j]);
                }
            }
        }
    }
}

/// Taking frame `pg` and widening (or adding) the last range by exactly
/// that frame keeps "taken since the start" equal to "covered by a range".
proof fn lemma_cover_step(
    s0: Seq<bool>,
    before: Seq<bool>,
    after: Seq<bool>,
    old_addrs: Seq<(usize, usize)>,
    na: Seq<(usize, usize)>,
    pg: int,
    len: int,
    merged: bool,
)
    requires
        s0.len() == len,
        before.len() == len,
        0 <= pg < len,
        before[pg],
        after == before.update(pg, false),
        forall|i: int| 0 <= i < len ==> (before[i] ==> s0[i]),
        forall|i: int| 0 <= i < len ==> ((s0[i] && !before[i]) <==> covered(old_addrs, i)),
        na.len() >= 1,
        merged ==> na.len() == old_addrs.len(),
        !merged ==> na.len() == old_addrs.len() + 1,
        forall|k: int| 0 <= k < na.len() - 1 ==> na[k] == old_addrs[k],
        merged ==> forall|p: int| #![trigger page_va(p)]
            (na[na.len() - 1].0 <= page_va(p) < na[na.len() - 1].0 + na[na.len() - 1].1) <==> (p == pg || (
            old_addrs[na.len() - 1].0 <= page_va(p) < old_addrs[na.len() - 1].0 + old_addrs[na.len() - 1].1)),
        !merged ==> forall|p: int| #![trigger page_va(p)]
            (na[na.len() - 1].0 <= page_va(p) < na[na.len() - 1].0 + na[na.len() - 1].1) <==> p == pg,
    ensures
        forall|i: int| 0 <= i < len ==> ((s0[i] && !after[i]) <==> covered(na, i)),
{
    let li = na.len() - 1;
    assert forall|i: int| 0 <= i < len implies ((s0[i] && !after[i]) <==> covered(na, i)) by {
        let in_new_last = na[li].0 <= page_va(i) < na[li].0 + na[li].1;
        if i == pg {
            assert(in_new_last);
        } else {
            assert(after[i] == before[i]);
            if covered(old_addrs, i) {
                let k = choose|k: int| 0 <= k < old_addrs.len() && #[trigger] old_addrs[k].0 <= page_va(i) < old_addrs[k].0 + old_addrs[k].1;
                if k < li {
                    assert(na[k].0 <= page_va(i) < na[k].0 + na[k].1);
                } else if merged {
                    assert(in_new_last);
                } else {
                    assert(na[k] == old_addrs[k]);
                    assert(na[k].0 <= page_va(i) < na[k].0 + na[k].1);
                }
            }
            if covered(na, i) {
                let k = choose|k: int| 0 <= k < na.len() && #[trigger] na[k].0 <= page_va(i) < na[k].0 + na[k].1;
                if k < li {
                    assert(old_addrs[k].0 <= page_va(i) < old_addrs[k].0 + old_addrs[k].1);
                } else if merged {
                    assert(old_addrs[li].0 <= page_va(i) < old_addrs[li].0 + old_addrs[li].1);
                } else {
                    assert(false);
                }
            }
        }
    }
}

/// Where the scan for the next heap frame starts: the frame just past the
/// last range taken (frame 0 before any).
pub open spec fn scan_start(addrs: Seq<(usize, usize)>) -> int {
    if addrs.len() == 0 {
        0
    } else {
        (addrs.last().0 - PHYS_OFF) / (PAGE_SZ as int) + (addrs.last().1 / PAGE_SZ) as int
    }
}

/// The ranges after frame `pg` is taken: it extends the last range when it
/// lies just past its end or just before its start, else it starts a range
/// of its own.
pub open spec fn add_frame(addrs: Seq<(usize, usize)>, pg: int) -> Seq<(usize, usize)> {
    let va = PHYS_OFF + pg * PAGE_SZ;
    let li = addrs.len() - 1;
    if addrs.len() > 0 && addrs[li].0 + addrs[li].1 == va {
        addrs.update(li, (addrs[li].0, (addrs[li].1 + PAGE_SZ) as usize))
    } else if addrs.len() > 0 && va + PAGE_SZ == addrs[li].0 {
        addrs.update(li, (va as usize, (addrs[li].1 + PAGE_SZ) as usize))
    } else {
        addrs.push((va as usize, PAGE_SZ))
    }
}

/// The pool slots and the ranges after `k` heap frames are taken from pool
/// `s`, each the first free frame in a cyclic scan from `scan_start` (the
/// state stays when no frame is free).
pub open spec fn grown(s: Seq<bool>, k: nat) -> (Seq<bool>, Seq<(usize, usize)>)
    decreases k,
{
    if k == 0 {
        (s, Seq::empty())
    } else {
        let prev = grown(s, (k - 1) as nat);
        let sl = prev.0;
        let ad = prev.1;
        let st = scan_start(ad);
        if exists|o: int| first_in_scan(sl, st, o) {
            let o = choose|o: int| first_in_scan(sl, st, o);
            let pg = cyclic(sl.len() as int, st, o);
            (sl.update(pg, false), add_frame(ad, pg))
        } else {
            prev
        }
    }
}

/// The first free frame of a cyclic scan is unique.
proof fn lemma_first_in_scan_unique(s: Seq<bool>, st: int, o1: int, o2: int)
    requires
        first_in_scan(s, st, o1),
        first_in_scan(s, st, o2),
    ensures
        o1 == o2,
{
    if o1 < o2 {
        assert(!s[cyclic(s.len() as int, st, o1)]);
    } else if o2 < o1 {
        assert(!s[cyclic(s.len() as int, st, o2)]);
    }
}

/// One step of `grown`: with `o` the first free frame of the scan, the
/// next state takes frame `pg` of that step.
proof fn lemma_grown_step(s: Seq<bool>, k: nat, o: int)
    requires
        first_in_scan(grown(s, k).0, scan_start(grown(s, k).1), o),
    ensures
        ({
            let pg = cyclic(grown(s, k).0.len() as int, scan_start(grown(s, k).1), o);
            grown(s, k + 1) == (grown(s, k).0.update(pg, false), add_frame(grown(s, k).1, pg))
        }),
{
    let prev = grown(s, k);
    let st = scan_start(prev.1);
    let o2 = choose|o2: int| first_in_scan(prev.0, st, o2);
    lemma_first_in_scan_unique(prev.0, st, o, o2);
    assert(grown(s, (k + 1) as nat) == {
        let pg = cyclic(prev.0.len() as int, st, o2);
        (prev.0.update(pg, false), add_frame(prev.1, pg))
    });
}

/// Takes up to `n` free frames for the kernel heap, scanning on from the end
/// of the last range taken, and answers them as direct-map address ranges
/// `(start, length)`, merging a frame into the last range when adjacent.
#[verifier::rlimit(40)]
pub fn heap_grow(pool: &mut FramePool, n: usize) -> (r: Vec<(usize, usize)>)
    requires
        n <= usize::MAX / 2,
        old(pool)@.len() * PAGE_SZ + PHYS_OFF <= usize::MAX,
    ensures
        final(pool).cap == old(pool).cap,
        final(pool)@.len() == old(pool)@.len(),
        count_free(final(pool)@) + (if n < count_free(old(pool)@) { n as int } else { count_free(old(pool)@) as int })
            == count_free(old(pool)@),
        forall|i: int| 0 <= i < old(pool)@.len() ==> (final(pool)@[i] ==> old(pool)@[i]),
        forall|i: int|
            0 <= i < old(pool)@.len() ==> ((old(pool)@[i] && !final(pool)@[i]) <==> covered(r@, i)),
        ranges_aligned(r@),
        total_len(r@) == (if n < count_free(old(pool)@) { n as int } else { count_free(old(pool)@) as int })
            * PAGE_SZ,
        ({
            let k = if n < count_free(old(pool)@) { n as nat } else { count_free(old(pool)@) };
            final(pool)@ == grown(old(pool)@, k).0 && r@ == grown(old(pool)@, k).1
        }),
{
    let ghost s0 = pool.slots@;
    let mut addrs: Vec<(usize, usize)> = Vec::new();
    let mut attempts: usize = 0;
    let max_attempts = n * 2;
    let mut acquired: usize = 0;
    let len = pool.slots.len();
    let mut done = false;
    while !done && acquired < n && attempts < max_attempts
        invariant
            len == pool.slots@.len(),
            len == s0.len(),
            s0 == old(pool)@,
            pool.cap == old(pool).cap,
            len * PAGE_SZ + PHYS_OFF <= usize::MAX,
            attempts == acquired + (if done { 1int } else { 0int }),
            acquired <= n,
            max_attempts == n * 2,
            count_free(pool.slots@) + acquired == count_free(s0),
            forall|i: int| 0 <= i < len ==> (pool.slots@[i] ==> s0[i]),
            forall|i: int| 0 <= i < len ==> ((s0[i] && !pool.slots@[i]) <==> covered(addrs@, i)),
            ranges_aligned(addrs@),
            forall|k: int| 0 <= k < addrs@.len() ==> #[trigger] addrs@[k].0 + addrs@[k].1 <= PHYS_OFF + len * PAGE_SZ,
            total_len(addrs@) == acquired * PAGE_SZ,
            done ==> count_free(pool.slots@) == 0,
            pool.slots@ == grown(s0, acquired as nat).0 && addrs@ == grown(s0, acquired as nat).1,
        decreases 2 * (n - acquired) + (if done { 0int } else { 1int }),
    {
        attempts += 1;
        let preferred_start: usize = if addrs.len() == 0 {
            0
        } else {
            let last = addrs[addrs.len() - 1];
            (last.0 - PHYS_OFF) / PAGE_SZ + last.1 / PAGE_SZ
        };
        assert(preferred_start <= len) by {
            if addrs.len() > 0 {
                let last = addrs@[addrs@.len() - 1];
                assert(last.0 + last.1 <= PHYS_OFF + len * PAGE_SZ);
                assert((last.0 - PHYS_OFF) / (PAGE_SZ as int) + (last.1 / PAGE_SZ) as int <= len);
            }
        }
        let mut offset: usize = 0;
        let mut found: Option<usize> = None;
        let ghost cur = pool.slots@;
        while offset < len && found.is_none()
            invariant
                pool.slots@ == cur,
                len == pool.slots@.len(),
                len * PAGE_SZ + PHYS_OFF <= usize::MAX,
                preferred_start <= len,
                offset <= len,
                forall|o2: int| 0 <= o2 < offset ==> !pool.slots@[#[trigger] cyclic(len as int, preferred_start as int, o2)],
                found matches Some(i) ==> i < len && pool.slots@[i as int] && offset < len && i == cyclic(
                    len as int,
                    preferred_start as int,
                    offset as int,
                ),
            decreases len - offset + (if found is None { 1int } else { 0int }),
        {
            let i = (preferred_start + offset) % len;
            assert(i == cyclic(len as int, preferred_start as int, offset as int));
            if pool.slots[i] {
                found = Some(i);
            } else {
                offset += 1;
            }
        }
        match found {
            Some(pg) => {
                let ghost before = pool.slots@;
                let ghost old_addrs = addrs@;
                proof {
                    lemma_count_free_take(before, pg as int);
                    assert(preferred_start == scan_start(old_addrs));
                    assert(first_in_scan(before, preferred_start as int, offset as int));
                    lemma_grown_step(s0, acquired as nat, offset as int);
                }
                pool.slots.set(pg, false);
                assert(pg * PAGE_SZ <= len * PAGE_SZ) by (nonlinear_arith)
                    requires pg < len;
                let va = PHYS_OFF + pg * PAGE_SZ;
                let mut merged = false;
                if addrs.len() > 0 {
                    let li = addrs.len() - 1;
                    let last = addrs[li];
                    if last.0 + last.1 == va {
                        addrs.set(li, (last.0, last.1 + PAGE_SZ));
                        merged = true;
                        proof {
                            assert forall|p: int| #![trigger page_va(p)]
                                (addrs@[li as int].0 <= page_va(p) < addrs@[li as int].0 + addrs@[li as int].1) <==> (p == pg || (last.0
                                <= page_va(p) < last.0 + last.1)) by {}
                        }
                    } else if va + PAGE_SZ == last.0 {
                        addrs.set(li, (va, last.1 + PAGE_SZ));
                        merged = true;
                        proof {
                            assert forall|p: int| #![trigger page_va(p)]
                                (addrs@[li as int].0 <= page_va(p) < addrs@[li as int].0 + addrs@[li as int].1) <==> (p == pg || (last.0
                                <= page_va(p) < last.0 + last.1)) by {}
                        }
                    }
                }
                if !merged {
                    addrs.push((va, PAGE_SZ));
                    proof {
                        let li = addrs@.len() - 1;
                        assert forall|p: int| #![trigger page_va(p)]
                            (addrs@[li].0 <= page_va(p) < addrs@[li].0 + addrs@[li].1) <==> p == pg by {}
                    }
                }
                proof {
                    let na = addrs@;
                    let li = na.len() - 1;
                    assert(na =~= add_frame(old_addrs, pg as int));
                    assert(na.len() >= 1);
                    assert(forall|k: int| 0 <= k < li ==> na[k] == old_addrs[k]);
                    assert(merged ==> na.len() == old_addrs.len());
                    assert(!merged ==> na.len() == old_addrs.len() + 1);
                    if merged {
                        assert(na.drop_last() =~= old_addrs.drop_last());
                    } else {
                        assert(na.drop_last() =~= old_addrs);
                    }
                    lemma_cover_step(s0, before, pool.slots@, old_addrs, na, pg as int, len as int, merged);
                    assert forall|k: int| 0 <= k < na.len() implies #[trigger] na[k].0 + na[k].1 <= PHYS_OFF + len * PAGE_SZ by {
                        if k < na.len() - 1 {
                            assert(na[k] == old_addrs[k]);
                        }
                    }
                    assert(ranges_aligned(na)) by {
                        assert forall|k: int| 0 <= k < na.len() implies {
                            &&& #[trigger] na[k].0 >= PHYS_OFF
                            &&& (na[k].0 - PHYS_OFF) % (PAGE_SZ as int) == 0
                            &&& na[k].1 % PAGE_SZ == 0
                            &&& na[k].1 > 0
                        } by {
                            if k < na.len() - 1 {
                                assert(na[k] == old_addrs[k]);
                            }
                        }
                    }
                }
                acquired += 1;
            },
            None => {
                proof {
                    assert forall|j: int| 0 <= j < len implies !pool.slots@[j] by {
                        let o = if j >= preferred_start { j - preferred_start } else { j + len - preferred_start };
                        if j >= preferred_start {
                            vstd::arithmetic::div_mod::lemma_small_mod(j as nat, len as nat);
                        } else {
                            vstd::arithmetic::div_mod::lemma_small_mod(j as nat, len as nat);
                            vstd::arithmetic::div_mod::lemma_mod_add_multiples_vanish(j, len as int);
                        }
                        assert(cyclic(len as int, preferred_start as int, o) == j);
                    }
                    lemma_count_free_zero(pool.slots@);
                }
                done = true;
            },
        }
    }
    proof {
        if !done && acquired < n {
            assert(false);
        }
    }
    addrs
}

} // verus!
