use vstd::prelude::*;

verus! {

/// A cached block: the descriptor (or address) it belongs to and whether it
/// is dirty.
#[derive(Clone, Copy, PartialEq, Eq, Structural)]
pub struct CacheSlot {
    pub id: usize,
    pub modified: bool,
}

/// The number of slots over all chains.
pub open spec fn total_slots(s: Seq<Seq<CacheSlot>>) -> nat
    decreases s.len(),
{
    if s.len() == 0 { 0 } else { total_slots(s.drop_last()) + s.last().len() }
}

/// The number of dirty slots in a chain.
pub open spec fn dirty_in(c: Seq<CacheSlot>) -> nat
    decreases c.len(),
{
    if c.len() == 0 { 0 } else { dirty_in(c.drop_last()) + if c.last().modified { 1nat } else { 0nat } }
}

/// The number of dirty slots over all chains.
pub open spec fn dirty_slots(s: Seq<Seq<CacheSlot>>) -> nat
    decreases s.len(),
{
    if s.len() == 0 { 0 } else { dirty_slots(s.drop_last()) + dirty_in(s.last()) }
}

/// Some slot of chain `c` belongs to `id`.
pub open spec fn chain_has(c: Seq<CacheSlot>, id: usize) -> bool {
    exists|j: int| 0 <= j < c.len() && #[trigger] c[j].id == id
}

/// Some slot of chain `c` belongs to `id` and is dirty.
pub open spec fn chain_dirty(c: Seq<CacheSlot>, id: usize) -> bool {
    exists|j: int| 0 <= j < c.len() && #[trigger] c[j].id == id && c[j].modified
}

/// Chain `d` is `c` with the first slot of `id` (if any) marked dirty.
pub open spec fn marked(c: Seq<CacheSlot>, d: Seq<CacheSlot>, id: usize) -> bool {
    &&& d.len() == c.len()
    &&& !chain_has(c, id) ==> d == c
    &&& chain_has(c, id) ==> exists|j: int|
        0 <= j < c.len() && #[trigger] c[j].id == id && (forall|k: int| 0 <= k < j ==> c[k].id != id) && d == c.update(
            j,
            CacheSlot { id, modified: true },
        )
}

/// Keeps the slots not belonging to `id`.
pub open spec fn not_of(id: usize) -> spec_fn(CacheSlot) -> bool {
    |s: CacheSlot| s.id != id
}

/// Replacing one chain changes the total by the difference of lengths.
pub proof fn lemma_total_update(s: Seq<Seq<CacheSlot>>, i: int, c: Seq<CacheSlot>)
    requires
        0 <= i < s.len(),
    ensures
        total_slots(s.update(i, c)) == total_slots(s) - s[i].len() + c.len(),
    decreases s.len(),
{
    if i < s.len() - 1 {
        assert(s.update(i, c).drop_last() =~= s.drop_last().update(i, c));
        lemma_total_update(s.drop_last(), i, c);
    } else {
        assert(s.update(i, c).drop_last() =~= s.drop_last());
    }
}

/// A hashed block cache: `width` chains of slots, a slot for block `id`
/// living in chain `id % width`.
pub struct BlockCache {
    pub chains: Vec<Vec<CacheSlot>>,
    pub width: usize,
}

impl BlockCache {
    /// The chains' slots.
    pub open spec fn slots(&self) -> Seq<Seq<CacheSlot>> {
        self.chains@.map_values(|c: Vec<CacheSlot>| c@)
    }

    /// As many chains as the width, at least one, and a slot count that
    /// fits in a word.
    pub open spec fn wf(&self) -> bool {
        &&& self.chains@.len() == self.width
        &&& self.width > 0
        &&& total_slots(self.slots()) <= usize::MAX
    }

    /// `width` empty chains.
    pub fn new(width: usize) -> (r: Self)
        ensures
            r.width == width,
            r.slots() == Seq::new(width as nat, |i: int| Seq::<CacheSlot>::empty()),
            width > 0 ==> r.wf(),
    {
        let mut chains: Vec<Vec<CacheSlot>> = Vec::new();
        let mut i: usize = 0;
        while i < width
            invariant
                i <= width,
                chains@.len() == i,
                forall|j: int| 0 <= j < i ==> #[trigger] chains@[j]@.len() == 0,
            decreases width - i,
        {
            chains.push(Vec::new());
            i += 1;
        }
        let r = BlockCache { chains, width };
        assert forall|k: int| 0 <= k < width implies #[trigger] r.slots()[k] == Seq::<CacheSlot>::empty() by {
            assert(r.chains@[k]@.len() == 0);
            assert(r.slots()[k] =~= Seq::<CacheSlot>::empty());
        }
        assert(r.slots() =~= Seq::new(width as nat, |i: int| Seq::<CacheSlot>::empty()));
        proof { lemma_total_empty(r.slots()); }
        r
    }

    /// The number of slots.
    pub fn total_entries(&self) -> (r: usize)
        requires
            self.wf(),
        ensures
            r == total_slots(self.slots()),
    {
        let mut n: usize = 0;
        let mut i: usize = 0;
        while i < self.chains.len()
            invariant
                i <= self.chains@.len(),
                self.wf(),
                n == total_slots(self.slots().take(i as int)),
            decreases self.chains@.len() - i,
        {
            proof {
                assert(self.slots().take(i + 1).drop_last() =~= self.slots().take(i as int));
                lemma_total_prefix(self.slots(), i + 1);
            }
            n = n + self.chains[i].len();
            i += 1;
        }
        assert(self.slots().take(i as int) =~= self.slots());
        n
    }

    /// The number of dirty slots.
    pub fn dirty_count(&self) -> (r: usize)
        requires
            self.wf(),
        ensures
            r == dirty_slots(self.slots()),
    {
        let mut n: usize = 0;
        let mut i: usize = 0;
        while i < self.chains.len()
            invariant
                i <= self.chains@.len(),
                self.wf(),
                n == dirty_slots(self.slots().take(i as int)),
                n <= total_slots(self.slots().take(i as int)),
            decreases self.chains@.len() - i,
        {
            let c = &self.chains[i];
            let mut j: usize = 0;
            let mut m: usize = 0;
            proof { lemma_total_prefix(self.slots(), i + 1); }
            assert(self.slots().take(i + 1).drop_last() =~= self.slots().take(i as int));
            assert(self.slots()[i as int] == c@);
            while j < c.len()
                invariant
                    j <= c@.len(),
                    m == dirty_in(c@.take(j as int)),
                    m <= j,
                decreases c@.len() - j,
            {
                assert(c@.take(j + 1).drop_last() =~= c@.take(j as int));
                if c[j].modified {
                    m = m + 1;
                }
                j += 1;
            }
            assert(c@.take(j as int) =~= c@);
            n = n + m;
            i += 1;
        }
        assert(self.slots().take(i as int) =~= self.slots());
        n
    }

    /// Whether chain `ci` holds a slot of `id`.
    pub fn has_slot(&self, ci: usize, id: usize) -> (r: bool)
        requires
            ci < self.chains@.len(),
        ensures
            r == chain_has(self.chains@[ci as int]@, id),
    {
        let c = &self.chains[ci];
        let mut j: usize = 0;
        while j < c.len()
            invariant
                j <= c@.len(),
                ci < self.chains@.len(),
                c@ == self.chains@[ci as int]@,
                forall|k: int| 0 <= k < j ==> c@[k].id != id,
            decreases c@.len() - j,
        {
            if c[j].id == id {
                assert(self.chains@[ci as int]@[j as int].id == id);
                return true;
            }
            j += 1;
        }
        false
    }

    /// Whether chain `ci` holds a dirty slot of `id`.
    pub fn has_dirty_slot(&self, ci: usize, id: usize) -> (r: bool)
        requires
            ci < self.chains@.len(),
        ensures
            r == chain_dirty(self.chains@[ci as int]@, id),
    {
        let c = &self.chains[ci];
        let mut j: usize = 0;
        while j < c.len()
            invariant
                j <= c@.len(),
                ci < self.chains@.len(),
                c@ == self.chains@[ci as int]@,
                forall|k: int| 0 <= k < j ==> !(c@[k].id == id && c@[k].modified),
            decreases c@.len() - j,
        {
            if c[j].id == id && c[j].modified {
                assert(self.chains@[ci as int]@[j as int].id == id);
                return true;
            }
            j += 1;
        }
        false
    }

    /// Marks the first slot of `id` in chain `ci` dirty.
    pub fn mark_modified(&mut self, ci: usize, id: usize)
        requires
            old(self).wf(),
            ci < old(self).chains@.len(),
        ensures
            final(self).wf(),
            final(self).width == old(self).width,
            final(self).slots().len() == old(self).slots().len(),
            marked(old(self).slots()[ci as int], final(self).slots()[ci as int], id),
            forall|i: int| 0 <= i < old(self).slots().len() && i != ci ==> #[trigger] final(self).slots()[i] == old(self).slots()[i],
    {
        let ghost c0 = self.chains@[ci as int]@;
        let n = self.chains[ci].len();
        let mut j: usize = 0;
        while j < n
            invariant
                j <= n,
                n == c0.len(),
                self.chains@ == old(self).chains@,
                self.width == old(self).width,
                c0 == self.chains@[ci as int]@,
                ci < self.chains@.len(),
                old(self).wf(),
                forall|k: int| 0 <= k < j ==> c0[k].id != id,
            decreases n - j,
        {
            if self.chains[ci][j].id == id {
                self.chains[ci].set(j, CacheSlot { id, modified: true });
                proof {
                    assert(self.slots() =~= old(self).slots().update(ci as int, c0.update(j as int, CacheSlot { id, modified: true })));
                    lemma_total_update(old(self).slots(), ci as int, c0.update(j as int, CacheSlot { id, modified: true }));
                    assert(c0[j as int].id == id);
                }
                return;
            }
            j += 1;
        }
        assert(self.slots() =~= old(self).slots());
    }

    /// Drops every slot of `id` from chain `ci`; whether there was one.
    pub fn evict(&mut self, ci: usize, id: usize) -> (r: bool)
        requires
            old(self).wf(),
            ci < old(self).chains@.len(),
        ensures
            final(self).wf(),
            final(self).width == old(self).width,
            r == chain_has(old(self).slots()[ci as int], id),
            final(self).slots() == old(self).slots().update(ci as int, old(self).slots()[ci as int].filter(not_of(id))),
    {
        let ghost c0 = self.chains@[ci as int]@;
        let mut kept: Vec<CacheSlot> = Vec::new();
        let mut j: usize = 0;
        let mut found = false;
        while j < self.chains[ci].len()
            invariant
                j <= c0.len(),
                self.chains@ == old(self).chains@,
                c0 == self.chains@[ci as int]@,
                ci < self.chains@.len(),
                old(self).wf(),
                kept@ == c0.take(j as int).filter(not_of(id)),
                found == chain_has(c0.take(j as int), id),
                kept@.len() <= j,
            decreases c0.len() - j,
        {
            let s = self.chains[ci][j];
            proof {
                assert(c0.take(j + 1).drop_last() =~= c0.take(j as int));
                reveal(Seq::filter);
                if s.id == id {
                    assert(c0.take(j + 1)[j as int].id == id);
                }
                if chain_has(c0.take(j as int), id) {
                    let k = choose|k: int| 0 <= k < j && #[trigger] c0.take(j as int)[k].id == id;
                    assert(c0.take(j + 1)[k].id == id);
                }
                if chain_has(c0.take(j + 1), id) && s.id != id {
                    let k = choose|k: int| 0 <= k < j + 1 && #[trigger] c0.take(j + 1)[k].id == id;
                    assert(k < j);
                    assert(c0.take(j as int)[k].id == id);
                }
            }
            if s.id != id {
                kept.push(s);
            } else {
                found = true;
            }
            j += 1;
        }
        assert(c0.take(j as int) =~= c0);
        self.chains.set(ci, kept);
        proof {
            assert(self.slots() =~= old(self).slots().update(ci as int, c0.filter(not_of(id))));
            lemma_total_update(old(self).slots(), ci as int, c0.filter(not_of(id)));
        }
        found
    }
}

/// Empty chains hold nothing.
proof fn lemma_total_empty(s: Seq<Seq<CacheSlot>>)
    requires
        forall|k: int| 0 <= k < s.len() ==> #[trigger] s[k].len() == 0,
    ensures
        total_slots(s) == 0,
    decreases s.len(),
{
    if s.len() > 0 {
        lemma_total_empty(s.drop_last());
    }
}

/// A prefix holds no more slots than the whole.
proof fn lemma_total_prefix(s: Seq<Seq<CacheSlot>>, n: int)
    requires
        0 <= n <= s.len(),
    ensures
        total_slots(s.take(n)) <= total_slots(s),
    decreases s.len(),
{
    if n < s.len() {
        assert(s.take(n) =~= s.drop_last().take(n));
        lemma_total_prefix(s.drop_last(), n);
    } else {
        assert(s.take(n) =~= s);
    }
}

/// A simulated disk: its label and the number of operations it served.
pub struct Disk {
    pub label: String,
    pub ops: usize,
}

impl Disk {
    /// A disk labelled `label` that served nothing yet.
    pub fn new(label: &str) -> (r: Self)
        ensures
            r.label@ == label@ && r.ops == 0,
    {
        Disk { label: label.to_owned(), ops: 0 }
    }
}

} // verus!
