use vstd::prelude::*;
use std::collections::VecDeque;

verus! {

/// `a + b`, wrapping like a machine word.
pub open spec fn wrap_add(a: usize, b: nat) -> usize {
    if a + b > usize::MAX { (a + b - (usize::MAX + 1)) as usize } else { (a + b) as usize }
}

/// The sleepers of `s` not marked in `d`, in queue order.
pub open spec fn kept_of(s: Seq<(usize, usize, u32)>, d: Seq<bool>) -> Seq<(usize, usize, u32)>
    decreases s.len(),
{
    if s.len() == 0 {
        Seq::empty()
    } else {
        let k = kept_of(s.drop_last(), d.take(s.len() - 1));
        if d[s.len() - 1] { k } else { k.push(s.last()) }
    }
}

/// The threads of the sleepers of `s` marked in `d`, in queue order.
pub open spec fn woken_of(s: Seq<(usize, usize, u32)>, d: Seq<bool>) -> Seq<usize>
    decreases s.len(),
{
    if s.len() == 0 {
        Seq::empty()
    } else {
        let w = woken_of(s.drop_last(), d.take(s.len() - 1));
        if d[s.len() - 1] { w.push(s.last().1) } else { w }
    }
}

/// Marks the sleepers of `s` waiting on `key`.
pub open spec fn key_marks(s: Seq<(usize, usize, u32)>, key: usize) -> Seq<bool> {
    Seq::new(s.len(), |i: int| s[i].0 == key)
}

/// `p` is the position of the first sleeper of `s` waiting on `key`.
pub open spec fn first_key(s: Seq<(usize, usize, u32)>, key: usize, p: int) -> bool {
    &&& 0 <= p < s.len()
    &&& s[p].0 == key
    &&& forall|j: int| 0 <= j < p ==> s[j].0 != key
}

/// Some sleeper of `s` waits on `key`.
pub open spec fn waits_on(s: Seq<(usize, usize, u32)>, key: usize) -> bool {
    exists|j: int| 0 <= j < s.len() && s[j].0 == key
}

/// The flags of every sleeper of `s` are in non-decreasing order.
pub open spec fn sorted_by_flags(s: Seq<(usize, usize, u32)>) -> bool {
    forall|i: int, j: int| 0 <= i <= j < s.len() ==> s[i].2 <= s[j].2
}

/// `x` placed into `t` just after the sleepers with flags no greater than
/// its own, looking from the back.
pub open spec fn insert_by_flags(t: Seq<(usize, usize, u32)>, x: (usize, usize, u32)) -> Seq<(usize, usize, u32)>
    decreases t.len(),
{
    if t.len() == 0 {
        seq![x]
    } else if t.last().2 <= x.2 {
        t.push(x)
    } else {
        insert_by_flags(t.drop_last(), x).push(t.last())
    }
}

/// `s` sorted by flags, sleepers with equal flags keeping their order.
pub open spec fn stable_by_flags(s: Seq<(usize, usize, u32)>) -> Seq<(usize, usize, u32)>
    decreases s.len(),
{
    if s.len() == 0 {
        Seq::empty()
    } else {
        insert_by_flags(stable_by_flags(s.drop_last()), s.last())
    }
}

/// The kept sleepers and the woken threads together account for the queue,
/// and some thread is woken exactly when some sleeper is marked.
pub proof fn lemma_split_lengths(s: Seq<(usize, usize, u32)>, d: Seq<bool>)
    requires
        d.len() == s.len(),
    ensures
        kept_of(s, d).len() + woken_of(s, d).len() == s.len(),
        woken_of(s, d).len() > 0 <==> exists|j: int| 0 <= j < s.len() && d[j],
    decreases s.len(),
{
    if s.len() > 0 {
        let d2 = d.take(s.len() - 1);
        lemma_split_lengths(s.drop_last(), d2);
        if exists|j: int| 0 <= j < s.len() && d[j] {
            let j = choose|j: int| 0 <= j < s.len() && d[j];
            if j < s.len() - 1 {
                assert(d2[j]);
            }
        }
        if exists|j: int| 0 <= j < s.len() - 1 && d2[j] {
            let j = choose|j: int| 0 <= j < s.len() - 1 && d2[j];
            assert(d[j]);
        }
    }
}

/// One step of a split: taking the next sleeper into account.
proof fn lemma_split_step(s: Seq<(usize, usize, u32)>, d: Seq<bool>, i: int)
    requires
        0 <= i < s.len(),
        d.len() == s.len(),
    ensures
        kept_of(s.take(i + 1), d.take(i + 1)) == if d[i] {
            kept_of(s.take(i), d.take(i))
        } else {
            kept_of(s.take(i), d.take(i)).push(s[i])
        },
        woken_of(s.take(i + 1), d.take(i + 1)) == if d[i] {
            woken_of(s.take(i), d.take(i)).push(s[i].1)
        } else {
            woken_of(s.take(i), d.take(i))
        },
{
    assert(s.take(i + 1).drop_last() =~= s.take(i));
    assert(d.take(i + 1).take(i) =~= d.take(i));
}

/// Inserting at the position found from the back is `insert_by_flags`.
proof fn lemma_insert_at(t: Seq<(usize, usize, u32)>, x: (usize, usize, u32), p: int)
    requires
        0 <= p <= t.len(),
        forall|j: int| p <= j < t.len() ==> t[j].2 > x.2,
        p == 0 || t[p - 1].2 <= x.2,
    ensures
        insert_by_flags(t, x) == t.insert(p, x),
    decreases t.len(),
{
    if t.len() == 0 {
        assert(t.insert(p, x) =~= seq![x]);
    } else if t.last().2 <= x.2 {
        assert(t.insert(p, x) =~= t.push(x));
    } else {
        lemma_insert_at(t.drop_last(), x, p);
        assert(t.insert(p, x) =~= t.drop_last().insert(p, x).push(t.last()));
    }
}

/// Inserting keeps the order by flags and adds exactly the one sleeper.
proof fn lemma_insert_sorted(t: Seq<(usize, usize, u32)>, x: (usize, usize, u32))
    requires
        sorted_by_flags(t),
    ensures
        sorted_by_flags(insert_by_flags(t, x)),
        insert_by_flags(t, x).to_multiset() == t.to_multiset().insert(x),
        insert_by_flags(t, x).len() == t.len() + 1,
    decreases t.len(),
{
    broadcast use vstd::seq_lib::group_to_multiset_ensures;
    if t.len() == 0 {
        assert(seq![x] =~= Seq::<(usize, usize, u32)>::empty().push(x));
    } else if t.last().2 <= x.2 {
    } else {
        let d = t.drop_last();
        let l = t.last();
        assert(sorted_by_flags(d));
        lemma_insert_sorted(d, x);
        let u = insert_by_flags(d, x);
        assert(t =~= d.push(l));
        assert forall|i: int| 0 <= i < u.len() implies #[trigger] u[i].2 <= l.2 by {
            assert(u.contains(u[i]));
            assert(u.to_multiset().count(u[i]) > 0);
            if u[i] != x {
                assert(d.to_multiset().count(u[i]) > 0);
                assert(d.contains(u[i]));
                let k = choose|k: int| 0 <= k < d.len() && d[k] == u[i];
                assert(t[k] == d[k]);
            }
        }
        assert forall|i: int, j: int| 0 <= i <= j < u.push(l).len() implies u.push(l)[i].2 <= u.push(l)[j].2 by {
            if j == u.len() && i < u.len() {
                assert(u[i].2 <= l.2);
            }
        }
        assert(u.push(l).to_multiset() =~= t.to_multiset().insert(x));
    }
}

/// The stable sort is sorted by flags and holds the same sleepers.
pub proof fn lemma_stable_sorted(s: Seq<(usize, usize, u32)>)
    ensures
        sorted_by_flags(stable_by_flags(s)),
        stable_by_flags(s).to_multiset() == s.to_multiset(),
        stable_by_flags(s).len() == s.len(),
    decreases s.len(),
{
    broadcast use vstd::seq_lib::group_to_multiset_ensures;
    if s.len() > 0 {
        lemma_stable_sorted(s.drop_last());
        lemma_insert_sorted(stable_by_flags(s.drop_last()), s.last());
        assert(s =~= s.drop_last().push(s.last()));
    }
}

/// Once every sleeper on a key is woken, no one sleeps on that key, and
/// every sleeper is either still queued or woken.
pub proof fn law_wake_all_clears(s: Seq<(usize, usize, u32)>, key: usize)
    ensures
        !waits_on(kept_of(s, key_marks(s, key)), key),
        kept_of(s, key_marks(s, key)).len() + woken_of(s, key_marks(s, key)).len() == s.len(),
    decreases s.len(),
{
    lemma_split_lengths(s, key_marks(s, key));
    if s.len() > 0 {
        let d = s.drop_last();
        assert(key_marks(s, key).take(s.len() - 1) =~= key_marks(d, key));
        law_wake_all_clears(d, key);
        let k = kept_of(d, key_marks(d, key));
        if !key_marks(s, key)[s.len() - 1] {
            assert forall|j: int| 0 <= j < k.push(s.last()).len() implies k.push(s.last())[j].0 != key by {
                if j < k.len() {
                    assert(!(0 <= j < k.len() && k[j].0 == key));
                }
            }
        }
    }
}

/// Threads asleep on keys: each sleeper holds its key, the id of its
/// thread and its flags, in arrival order; and the number of wake-ups so far.
pub struct WaitQueue {
    pub inner: VecDeque<(usize, usize, u32)>,
    pub wake_count: usize,
}

impl WaitQueue {
    /// An empty queue with no wake-ups yet.
    pub fn new() -> (r: Self)
        ensures
            r.inner@.len() == 0,
            r.wake_count == 0,
    {
        WaitQueue { inner: VecDeque::new(), wake_count: 0 }
    }

    /// Queues thread `waiter` asleep on `key` with `flags`; the caller then
    /// parks the thread.
    pub fn sleep(&mut self, key: usize, waiter: usize, flags: u32)
        ensures
            final(self).inner@ == old(self).inner@.push((key, waiter, flags)),
            final(self).wake_count == old(self).wake_count,
    {
        self.inner.push_back((key, waiter, flags));
    }

    /// Once a timed sleep on `key` is over: drops the sleepers still queued
    /// on `key` and answers whether there was one (the sleep timed out).
    pub fn sleep_timeout(&mut self, key: usize) -> (r: bool)
        ensures
            final(self).inner@ == kept_of(old(self).inner@, key_marks(old(self).inner@, key)),
            r == waits_on(old(self).inner@, key),
            final(self).wake_count == old(self).wake_count,
    {
        let before = self.inner.len();
        let _ = self.take_matching(key);
        let ghost s = old(self).inner@;
        proof {
            lemma_split_lengths(s, key_marks(s, key));
            if waits_on(s, key) {
                let j = choose|j: int| 0 <= j < s.len() && s[j].0 == key;
                assert(key_marks(s, key)[j]);
            }
        }
        self.inner.len() < before
    }

    /// Removes the sleepers on `key`, answering their threads in order.
    fn take_matching(&mut self, key: usize) -> (r: Vec<usize>)
        ensures
            final(self).inner@ == kept_of(old(self).inner@, key_marks(old(self).inner@, key)),
            r@ == woken_of(old(self).inner@, key_marks(old(self).inner@, key)),
            final(self).wake_count == old(self).wake_count,
    {
        let ghost s = self.inner@;
        let ghost d = key_marks(s, key);
        let mut remaining: VecDeque<(usize, usize, u32)> = VecDeque::new();
        let mut woken: Vec<usize> = Vec::new();
        let n = self.inner.len();
        let mut i: usize = 0;
        while i < n
            invariant
                n == s.len(),
                i <= n,
                self.inner@ == s,
                s == old(self).inner@,
                d == key_marks(s, key),
                self.wake_count == old(self).wake_count,
                remaining@ == kept_of(s.take(i as int), d.take(i as int)),
                woken@ == woken_of(s.take(i as int), d.take(i as int)),
            decreases n - i,
        {
            let e = self.inner[i];
            proof { lemma_split_step(s, d, i as int); }
            if e.0 == key {
                woken.push(e.1);
            } else {
                remaining.push_back(e);
            }
            i += 1;
        }
        assert(s.take(n as int) =~= s);
        assert(d.take(n as int) =~= d);
        self.inner = remaining;
        woken
    }

    /// Wakes the first sleeper on `key`: removes it, counts the wake-up and
    /// answers its thread for the caller to unpark; `None`, with nothing
    /// changed, when no one sleeps on `key`.
    pub fn wake_one(&mut self, key: usize) -> (r: Option<usize>)
        ensures
            match r {
                Some(w) => exists|p: int|
                    first_key(old(self).inner@, key, p) && w == old(self).inner@[p].1 && final(self).inner@
                        == old(self).inner@.remove(p) && final(self).wake_count == wrap_add(old(self).wake_count, 1),
                None => !waits_on(old(self).inner@, key) && final(self).inner@ == old(self).inner@
                    && final(self).wake_count == old(self).wake_count,
            },
    {
        let n = self.inner.len();
        let mut i: usize = 0;
        while i < n
            invariant
                n == self.inner@.len(),
                i <= n,
                self.inner@ == old(self).inner@,
                self.wake_count == old(self).wake_count,
                forall|j: int| 0 <= j < i ==> self.inner@[j].0 != key,
            decreases n - i,
        {
            if self.inner[i].0 == key {
                let ghost s = self.inner@;
                match self.inner.remove(i) {
                    Some(e) => {
                        self.wake_count = self.wake_count.wrapping_add(1);
                        assert(first_key(s, key, i as int));
                        return Some(e.1);
                    },
                    None => {
                        return None;
                    },
                }
            }
            i += 1;
        }
        None
    }

    /// Wakes every sleeper on `key`: removes them, counts the wake-ups and
    /// answers their threads, in queue order, for the caller to unpark.
    pub fn wake_all(&mut self, key: usize) -> (r: Vec<usize>)
        ensures
            final(self).inner@ == kept_of(old(self).inner@, key_marks(old(self).inner@, key)),
            r@ == woken_of(old(self).inner@, key_marks(old(self).inner@, key)),
            final(self).wake_count == wrap_add(old(self).wake_count, r@.len()),
    {
        let woken = self.take_matching(key);
        self.wake_count = self.wake_count.wrapping_add(woken.len());
        woken
    }

    /// Wakes every sleeper whose key and flags `pred` accepts, as
    /// `wake_all` does for one key.
    pub fn wake_filtered<F: Fn(usize, u32) -> bool>(&mut self, pred: F) -> (r: Vec<usize>)
        requires
            forall|k: usize, f: u32| pred.requires((k, f)),
        ensures
            exists|d: Seq<bool>|
                {
                    &&& d.len() == old(self).inner@.len()
                    &&& forall|i: int| 0 <= i < d.len() ==> pred.ensures((old(self).inner@[i].0, old(self).inner@[i].2), #[trigger] d[i])
                    &&& final(self).inner@ == kept_of(old(self).inner@, d)
                    &&& r@ == woken_of(old(self).inner@, d)
                },
            final(self).wake_count == wrap_add(old(self).wake_count, r@.len()),
    {
        let ghost s = self.inner@;
        let ghost mut d: Seq<bool> = Seq::empty();
        let mut remaining: VecDeque<(usize, usize, u32)> = VecDeque::new();
        let mut woken: Vec<usize> = Vec::new();
        let n = self.inner.len();
        let mut i: usize = 0;
        while i < n
            invariant
                n == s.len(),
                i <= n,
                self.inner@ == s,
                s == old(self).inner@,
                self.wake_count == old(self).wake_count,
                forall|k: usize, f: u32| pred.requires((k, f)),
                d.len() == i,
                forall|j: int| 0 <= j < i ==> pred.ensures((s[j].0, s[j].2), #[trigger] d[j]),
                remaining@ == kept_of(s.take(i as int), d),
                woken@ == woken_of(s.take(i as int), d),
            decreases n - i,
        {
            let e = self.inner[i];
            let b = pred(e.0, e.2);
            let ghost d2 = d.push(b);
            proof {
                lemma_split_step(s.take(i + 1), d2, i as int);
                assert(s.take(i + 1).take(i + 1) =~= s.take(i + 1));
                assert(s.take(i + 1).take(i as int) =~= s.take(i as int));
                assert(d2.take(i + 1) =~= d2);
                assert(d2.take(i as int) =~= d);
            }
            if b {
                woken.push(e.1);
            } else {
                remaining.push_back(e);
            }
            proof { d = d2; }
            i += 1;
        }
        assert(s.take(n as int) =~= s);
        self.inner = remaining;
        self.wake_count = self.wake_count.wrapping_add(woken.len());
        woken
    }

    /// The number of sleepers.
    pub fn pending_count(&self) -> (r: usize)
        ensures
            r == self.inner@.len(),
    {
        self.inner.len()
    }

    /// The number of wake-ups so far (wrapping).
    pub fn total_wakes(&self) -> (r: usize)
        ensures
            r == self.wake_count,
    {
        self.wake_count
    }

    /// Whether some thread sleeps on `key`.
    pub fn has_waiters_for(&self, key: usize) -> (r: bool)
        ensures
            r == waits_on(self.inner@, key),
    {
        let n = self.inner.len();
        let mut i: usize = 0;
        while i < n
            invariant
                n == self.inner@.len(),
                i <= n,
                forall|j: int| 0 <= j < i ==> self.inner@[j].0 != key,
            decreases n - i,
        {
            if self.inner[i].0 == key {
                return true;
            }
            i += 1;
        }
        false
    }

    /// Sorts the sleepers by flags, those with equal flags keeping their
    /// order.
    pub fn reorder_by_priority(&mut self)
        ensures
            final(self).inner@ == stable_by_flags(old(self).inner@),
            sorted_by_flags(final(self).inner@),
            final(self).inner@.to_multiset() == old(self).inner@.to_multiset(),
            final(self).wake_count == old(self).wake_count,
    {
        let ghost s = self.inner@;
        let mut sorted: VecDeque<(usize, usize, u32)> = VecDeque::new();
        let n = self.inner.len();
        let mut i: usize = 0;
        while i < n
            invariant
                n == s.len(),
                i <= n,
                self.inner@ == s,
                s == old(self).inner@,
                self.wake_count == old(self).wake_count,
                sorted@ == stable_by_flags(s.take(i as int)),
            decreases n - i,
        {
            let e = self.inner[i];
            proof {
                lemma_stable_sorted(s.take(i as int));
                assert(s.take(i + 1).drop_last() =~= s.take(i as int));
            }
            let mut p: usize = sorted.len();
            while p > 0 && sorted[p - 1].2 > e.2
                invariant
                    p <= sorted@.len(),
                    forall|j: int| p <= j < sorted@.len() ==> sorted@[j].2 > e.2,
                decreases p,
            {
                p -= 1;
            }
            proof { lemma_insert_at(sorted@, e, p as int); }
            sorted.insert(p, e);
            i += 1;
        }
        assert(s.take(n as int) =~= s);
        proof { lemma_stable_sorted(s); }
        self.inner = sorted;
    }
}

} // verus!
