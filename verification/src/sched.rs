use vstd::prelude::*;
use std::cmp::Ordering;
use crate::config::{PRIO_DEFAULT, SCHED_NORMAL};

verus! {

/// Scheduling parameters of one task.
#[derive(Clone, Copy)]
pub struct SchedulePolicy {
    pub policy: u8,
    pub prio: i32,
    pub nice: i32,
    pub time_slice: usize,
    pub vruntime: u64,
}

/// The load weight of a nice value.
pub open spec fn nice_weight(nice: i32) -> u64 {
    if nice < -10 {
        88761
    } else if nice < 0 {
        29154
    } else if nice == 0 {
        1024
    } else if nice < 10 {
        335
    } else {
        110
    }
}

/// Truncating division, rounding toward zero.
pub open spec fn trunc_div(a: int, b: int) -> int {
    if a >= 0 { a / b } else { -((-a) / b) }
}

/// The virtual runtime read as a signed word.
pub open spec fn vr(p: SchedulePolicy) -> int {
    p.vruntime as i64 as int
}

/// The key the run queue keeps its entries ordered by when enqueueing.
pub open spec fn enqueue_key(p: SchedulePolicy) -> int {
    p.prio * 1000 - p.nice * 50 + vr(p) - nice_weight(p.nice)
}

/// The key under which `dequeue` takes the entry with the lowest value.
pub open spec fn dequeue_key(p: SchedulePolicy) -> int {
    p.prio * 1000 + vr(p) - nice_weight(p.nice)
}

/// The key under which `pick_next` chooses the entry with the lowest value.
pub open spec fn pick_key(p: SchedulePolicy) -> int {
    p.prio * 100 + vr(p)
}

/// The key two policies are compared by when two policies are compared.
pub open spec fn order_key(p: SchedulePolicy) -> int {
    p.prio * 100 - p.nice * 10 + trunc_div(vr(p), nice_weight(p.nice) as int)
}

/// `x` fits a signed word.
pub open spec fn fits_i64(x: int) -> bool {
    i64::MIN <= x <= i64::MAX
}

/// The entry `pick_next` answers (one of lowest pick key) has, among the
/// entries of its priority, the lowest virtual runtime (read as a signed
/// word), and among entries of its virtual runtime, the lowest priority
/// number.
pub proof fn law_pick_prefers_lower_vruntime(q: Seq<(usize, SchedulePolicy)>, b: int)
    requires
        0 <= b < q.len(),
        forall|i: int| 0 <= i < q.len() ==> pick_key(#[trigger] q[i].1) >= pick_key(q[b].1),
    ensures
        forall|i: int|
            0 <= i < q.len() && #[trigger] q[i].1.prio == q[b].1.prio ==> (q[i].1.vruntime as i64) >= (
            q[b].1.vruntime as i64),
        forall|i: int|
            0 <= i < q.len() && (#[trigger] q[i].1.vruntime as i64) == (q[b].1.vruntime as i64) ==> q[i].1.prio
                >= q[b].1.prio,
{
    assert forall|i: int| 0 <= i < q.len() && #[trigger] q[i].1.prio == q[b].1.prio implies (q[i].1.vruntime as i64)
        >= (q[b].1.vruntime as i64) by {
        assert(pick_key(q[i].1) >= pick_key(q[b].1));
    }
    assert forall|i: int| 0 <= i < q.len() && (#[trigger] q[i].1.vruntime as i64) == (q[b].1.vruntime as i64) implies q[i].1.prio
        >= q[b].1.prio by {
        assert(pick_key(q[i].1) >= pick_key(q[b].1));
    }
}

impl SchedulePolicy {
    /// A normal policy at the default priority.
    pub fn new() -> (r: Self)
        ensures
            r == (SchedulePolicy { policy: SCHED_NORMAL, prio: PRIO_DEFAULT, nice: 0, time_slice: 10, vruntime: 0 }),
    {
        SchedulePolicy { policy: SCHED_NORMAL, prio: PRIO_DEFAULT, nice: 0, time_slice: 10, vruntime: 0 }
    }

    /// A normal policy at priority `prio` (also its nice value), whose time
    /// slice shrinks as the priority number grows.
    pub fn with_prio(prio: i32) -> (r: Self)
        requires
            0 <= prio <= 20,
        ensures
            r == (SchedulePolicy {
                policy: SCHED_NORMAL,
                prio,
                nice: prio,
                time_slice: (20 - prio) as usize,
                vruntime: 0,
            }),
    {
        SchedulePolicy { policy: SCHED_NORMAL, prio, nice: prio, time_slice: 20 - prio as usize, vruntime: 0 }
    }

    /// The load weight of the policy's nice value.
    pub fn weight(&self) -> (r: u64)
        ensures
            r == nice_weight(self.nice),
    {
        let n = self.nice;
        if n < -10 {
            88761
        } else if n < 0 {
            29154
        } else if n == 0 {
            1024
        } else if n < 10 {
            335
        } else {
            110
        }
    }
}

/// The comparison key of `p`.
fn priority_key(p: &SchedulePolicy) -> (k: i64)
    ensures
        k == order_key(*p),
{
    let w = p.weight();
    let v = p.vruntime as i64;
    let q = v / (w as i64);
    assert(q == trunc_div(vr(*p), nice_weight(p.nice) as int));
    p.prio as i64 * 100 - p.nice as i64 * 10 + q
}

/// Computing `enqueue_key(p)` step by step stays within a signed word.
pub open spec fn enqueue_key_ok(p: SchedulePolicy) -> bool {
    fits_i64(p.prio * 1000 - p.nice * 50 + vr(p)) && fits_i64(enqueue_key(p))
}

/// Computing `dequeue_key(p)` step by step stays within a signed word.
pub open spec fn dequeue_key_ok(p: SchedulePolicy) -> bool {
    fits_i64(p.prio * 1000 + vr(p)) && fits_i64(dequeue_key(p))
}

/// Entries `s` are in non-decreasing order of `enqueue_key`.
pub open spec fn sorted_by_key(s: Seq<(usize, SchedulePolicy)>) -> bool {
    forall|i: int, j: int| 0 <= i < j < s.len() ==> enqueue_key(s[i].1) <= enqueue_key(s[j].1)
}

/// Entries `s` are in non-decreasing order of virtual runtime.
pub open spec fn sorted_by_vruntime(s: Seq<(usize, SchedulePolicy)>) -> bool {
    forall|i: int, j: int| 0 <= i < j < s.len() ==> s[i].1.vruntime <= s[j].1.vruntime
}

fn key_enqueue(p: &SchedulePolicy) -> (k: i64)
    requires
        enqueue_key_ok(*p),
    ensures
        k == enqueue_key(*p),
{
    let w = p.weight();
    let prio_a = p.prio as i64 * 1000 - p.nice as i64 * 50;
    let vrt_a = p.vruntime as i64;
    prio_a + vrt_a - w as i64
}

fn key_dequeue(p: &SchedulePolicy) -> (k: i64)
    requires
        dequeue_key_ok(*p),
    ensures
        k == dequeue_key(*p),
{
    p.prio as i64 * 1000 + p.vruntime as i64 - p.weight() as i64
}

fn key_pick(p: &SchedulePolicy) -> (k: i64)
    requires
        fits_i64(pick_key(*p)),
    ensures
        k == pick_key(*p),
{
    p.prio as i64 * 100 + p.vruntime as i64
}

/// Selects the entries whose `enqueue_key` is `k`.
pub open spec fn key_is(k: int) -> spec_fn((usize, SchedulePolicy)) -> bool {
    |e: (usize, SchedulePolicy)| enqueue_key(e.1) == k
}

/// Swapping two neighbouring entries of different keys keeps, for every
/// key, the entries of that key in the same order.
proof fn lemma_swap_keeps_key_order(s: Seq<(usize, SchedulePolicy)>, j: int)
    requires
        0 <= j,
        j + 1 < s.len(),
        enqueue_key(s[j].1) != enqueue_key(s[j + 1].1),
    ensures
        forall|k: int| #[trigger] s.update(j, s[j + 1]).update(j + 1, s[j]).filter(key_is(k)) == s.filter(key_is(k)),
{
    let t = s.update(j, s[j + 1]).update(j + 1, s[j]);
    let pre = s.take(j);
    let post = s.skip(j + 2);
    let mid_s = seq![s[j], s[j + 1]];
    let mid_t = seq![s[j + 1], s[j]];
    assert(s =~= pre + mid_s + post);
    assert(t =~= pre + mid_t + post);
    assert forall|k: int| #[trigger] t.filter(key_is(k)) == s.filter(key_is(k)) by {
        let p = key_is(k);
        Seq::filter_distributes_over_add(pre + mid_s, post, p);
        Seq::filter_distributes_over_add(pre, mid_s, p);
        Seq::filter_distributes_over_add(pre + mid_t, post, p);
        Seq::filter_distributes_over_add(pre, mid_t, p);
        reveal_with_fuel(Seq::filter, 3);
        assert(mid_s.drop_last() =~= seq![s[j]]);
        assert(mid_t.drop_last() =~= seq![s[j + 1]]);
        assert(seq![s[j]].drop_last() =~= Seq::<(usize, SchedulePolicy)>::empty());
        assert(seq![s[j + 1]].drop_last() =~= Seq::<(usize, SchedulePolicy)>::empty());
        assert(mid_s.filter(p) =~= mid_t.filter(p));
    }
}

/// Swapping two entries keeps the same entries.
proof fn lemma_swap_multiset<A>(s: Seq<A>, i: int, j: int)
    requires
        0 <= i < s.len(),
        0 <= j < s.len(),
    ensures
        s.update(i, s[j]).update(j, s[i]).to_multiset() == s.to_multiset(),
{
    broadcast use vstd::seq_lib::to_multiset_update, vstd::multiset::group_multiset_axioms,
        vstd::seq_lib::group_to_multiset_ensures;
    let t = s.update(i, s[j]);
    let m = s.to_multiset();
    if i == j {
        assert(s.update(i, s[j]).update(j, s[i]) =~= s);
    } else {
        assert(t[j] == s[j]);
        assert(s.contains(s[i]));
        assert(s.contains(s[j]));
        assert(t.to_multiset() == m.insert(s[j]).remove(s[i]));
        assert(t.update(j, s[i]).to_multiset() == t.to_multiset().insert(s[i]).remove(s[j]));
        assert forall|x: A| #[trigger] t.update(j, s[i]).to_multiset().count(x) == m.count(x) by {
            assert(m.count(s[i]) > 0);
            assert(m.count(s[j]) > 0);
        }
        assert(t.update(j, s[i]).to_multiset() =~= m);
    }
}

/// `p` aged by `delta` scaled by its weight.
pub open spec fn aged_by(e: (usize, SchedulePolicy), delta: u64) -> (usize, SchedulePolicy) {
    let add = (delta * 1024) / (nice_weight(e.1.nice) as int);
    (e.0, SchedulePolicy { vruntime: ((e.1.vruntime + add) % 0x1_0000_0000_0000_0000int) as u64, ..e.1 })
}

/// An entry aged by the time `tick`.
pub open spec fn aged_entry(e: (usize, SchedulePolicy), tick: u64) -> (usize, SchedulePolicy) {
    aged_by(e, tick)
}

/// Every entry aged by the time `tick`.
pub open spec fn aged_all(s: Seq<(usize, SchedulePolicy)>, tick: u64) -> Seq<(usize, SchedulePolicy)> {
    s.map_values(|e: (usize, SchedulePolicy)| aged_entry(e, tick))
}

/// An entry with its priority raised by `amount`, never past -20.
pub open spec fn boosted(e: (usize, SchedulePolicy), amount: i32) -> (usize, SchedulePolicy) {
    let p = e.1.prio - amount;
    (e.0, SchedulePolicy { prio: if p < -20 { -20i32 } else { p as i32 }, ..e.1 })
}

/// The run queue: entries `(task id, policy)`, the task running now and the
/// preemption-disable count.
pub struct RunQueue {
    pub queue: Vec<(usize, SchedulePolicy)>,
    pub current: Option<usize>,
    pub preempt_count: usize,
}

impl RunQueue {
    /// An empty queue with nothing running.
    pub fn new() -> (r: Self)
        ensures
            r.queue@.len() == 0 && r.current is None && r.preempt_count == 0,
    {
        RunQueue { queue: Vec::new(), current: None, preempt_count: 0 }
    }

    /// Adds task `task_id` and sorts the queue by `enqueue_key` (a bubble
    /// sort that stops at the first pass without a swap).
    pub fn enqueue(&mut self, task_id: usize, policy: SchedulePolicy)
        requires
            forall|i: int| 0 <= i < old(self).queue@.len() ==> enqueue_key_ok(#[trigger] old(self).queue@[i].1),
            enqueue_key_ok(policy),
        ensures
            final(self).queue@.to_multiset() == old(self).queue@.push((task_id, policy)).to_multiset(),
            sorted_by_key(final(self).queue@),
            forall|k: int| #[trigger] final(self).queue@.filter(key_is(k)) == old(self).queue@.push((task_id, policy)).filter(key_is(k)),
            final(self).current == old(self).current && final(self).preempt_count == old(self).preempt_count,
    {
        self.queue.push((task_id, policy));
        let ghost all = self.queue@;
        let len = self.queue.len();
        assert forall|i: int| 0 <= i < len implies enqueue_key_ok(#[trigger] self.queue@[i].1) by {
            if i < len - 1 {
                assert(self.queue@[i] == old(self).queue@[i]);
            }
        }
        if len > 1 {
            let mut pass: usize = 0;
            let mut done = false;
            while pass < len && !done
                invariant
                    len == self.queue@.len(),
                    len > 1,
                    pass <= len,
                    self.queue@.to_multiset() == all.to_multiset(),
                    forall|k: int| #[trigger] self.queue@.filter(key_is(k)) == all.filter(key_is(k)),
                    forall|i: int| 0 <= i < len ==> enqueue_key_ok(#[trigger] self.queue@[i].1),
                    forall|i: int, k: int|
                        0 <= i < len - pass <= k < len ==> enqueue_key(self.queue@[i].1) <= enqueue_key(self.queue@[k].1),
                    forall|i: int, k: int|
                        len - pass <= i < k < len ==> enqueue_key(self.queue@[i].1) <= enqueue_key(self.queue@[k].1),
                    done ==> sorted_by_key(self.queue@),
                    self.current == old(self).current && self.preempt_count == old(self).preempt_count,
                decreases len - pass + (if done { 0int } else { 1int }),
            {
                let mut swapped = false;
                let mut j: usize = 0;
                let end = len - 1 - pass;
                while j < end
                    invariant
                        len == self.queue@.len(),
                        end == len - 1 - pass,
                        pass < len,
                        j <= end,
                        self.queue@.to_multiset() == all.to_multiset(),
                        forall|k: int| #[trigger] self.queue@.filter(key_is(k)) == all.filter(key_is(k)),
                        forall|i: int| 0 <= i < len ==> enqueue_key_ok(#[trigger] self.queue@[i].1),
                        forall|i: int| 0 <= i <= j ==> enqueue_key(self.queue@[i].1) <= enqueue_key(self.queue@[j as int].1),
                        forall|i: int, k: int|
                            0 <= i < len - pass <= k < len ==> enqueue_key(self.queue@[i].1) <= enqueue_key(self.queue@[k].1),
                        forall|i: int, k: int|
                            len - pass <= i < k < len ==> enqueue_key(self.queue@[i].1) <= enqueue_key(self.queue@[k].1),
                        !swapped ==> forall|i: int, k: int|
                            0 <= i < k <= j ==> enqueue_key(self.queue@[i].1) <= enqueue_key(self.queue@[k].1),
                        self.current == old(self).current && self.preempt_count == old(self).preempt_count,
                    decreases end - j,
                {
                    let a = self.queue[j];
                    let b = self.queue[j + 1];
                    let sa = key_enqueue(&a.1);
                    let sb = key_enqueue(&b.1);
                    if sa > sb {
                        let ghost q0 = self.queue@;
                        self.queue.set(j, b);
                        self.queue.set(j + 1, a);
                        proof {
                            lemma_swap_multiset(q0, j as int, j + 1);
                            lemma_swap_keeps_key_order(q0, j as int);
                            assert(self.queue@ =~= q0.update(j as int, q0[j + 1]).update(j + 1, q0[j as int]));
                        }
                        swapped = true;
                    }
                    j += 1;
                }
                if !swapped {
                    done = true;
                }
                pass += 1;
            }
        }
        assert(all =~= old(self).queue@.push((task_id, policy)));
    }

    /// Takes out the entry with the lowest `dequeue_key` (the first such).
    pub fn dequeue(&mut self) -> (r: Option<(usize, SchedulePolicy)>)
        requires
            forall|i: int| 0 <= i < old(self).queue@.len() ==> dequeue_key_ok(#[trigger] old(self).queue@[i].1),
        ensures
            old(self).queue@.len() == 0 ==> r is None && final(self).queue@ == old(self).queue@,
            old(self).queue@.len() > 0 ==> exists|b: int|
                0 <= b < old(self).queue@.len() && (forall|i: int|
                    0 <= i < old(self).queue@.len() ==> dequeue_key(#[trigger] old(self).queue@[i].1) >= dequeue_key(
                        old(self).queue@[b].1,
                    )) && (forall|i: int|
                    0 <= i < b ==> dequeue_key(#[trigger] old(self).queue@[i].1) > dequeue_key(old(self).queue@[b].1))
                    && r == Some(old(self).queue@[b]) && final(self).queue@ == old(self).queue@.remove(b),
            final(self).current == old(self).current && final(self).preempt_count == old(self).preempt_count,
    {
        if self.queue.len() == 0 {
            return None;
        }
        let mut best_idx: usize = 0;
        let mut best_score = key_dequeue(&self.queue[0].1);
        let mut idx: usize = 1;
        while idx < self.queue.len()
            invariant
                1 <= idx <= self.queue@.len(),
                self.queue@ == old(self).queue@,
                best_idx < idx,
                best_score == dequeue_key(self.queue@[best_idx as int].1),
                forall|i: int| 0 <= i < idx ==> dequeue_key(#[trigger] self.queue@[i].1) >= best_score,
                forall|i: int| 0 <= i < best_idx ==> dequeue_key(#[trigger] self.queue@[i].1) > best_score,
                forall|i: int| 0 <= i < self.queue@.len() ==> dequeue_key_ok(#[trigger] self.queue@[i].1),
            decreases self.queue@.len() - idx,
        {
            let s = key_dequeue(&self.queue[idx].1);
            if s < best_score {
                best_score = s;
                best_idx = idx;
            }
            idx += 1;
        }
        let e = self.queue.remove(best_idx);
        Some(e)
    }

    /// The id of the entry with the lowest `pick_key` (the first such).
    pub fn pick_next(&self) -> (r: Option<usize>)
        requires
            forall|i: int| 0 <= i < self.queue@.len() ==> fits_i64(pick_key(#[trigger] self.queue@[i].1)),
        ensures
            self.queue@.len() == 0 ==> r is None,
            self.queue@.len() > 0 ==> exists|b: int|
                0 <= b < self.queue@.len() && (forall|i: int|
                    0 <= i < self.queue@.len() ==> pick_key(#[trigger] self.queue@[i].1) >= pick_key(self.queue@[b].1))
                    && (forall|i: int| 0 <= i < b ==> pick_key(#[trigger] self.queue@[i].1) > pick_key(self.queue@[b].1))
                    && r == Some(self.queue@[b].0),
    {
        if self.queue.len() == 0 {
            return None;
        }
        let mut best_idx: usize = 0;
        let mut best = key_pick(&self.queue[0].1);
        let mut idx: usize = 1;
        while idx < self.queue.len()
            invariant
                1 <= idx <= self.queue@.len(),
                best_idx < idx,
                best == pick_key(self.queue@[best_idx as int].1),
                forall|i: int| 0 <= i < idx ==> pick_key(#[trigger] self.queue@[i].1) >= best,
                forall|i: int| 0 <= i < best_idx ==> pick_key(#[trigger] self.queue@[i].1) > best,
                forall|i: int| 0 <= i < self.queue@.len() ==> fits_i64(pick_key(#[trigger] self.queue@[i].1)),
            decreases self.queue@.len() - idx,
        {
            let s = key_pick(&self.queue[idx].1);
            if s < best {
                best = s;
                best_idx = idx;
            }
            idx += 1;
        }
        Some(self.queue[best_idx].0)
    }

    /// Ages every entry by the time `now` (scaled by its weight) and sorts
    /// the queue by virtual runtime.
    pub fn rebalance(&mut self, now: usize)
        requires
            now <= u64::MAX / 1024,
        ensures
            final(self).queue@.to_multiset() == aged_all(old(self).queue@, now as u64).to_multiset(),
            sorted_by_vruntime(final(self).queue@),
            final(self).current == old(self).current && final(self).preempt_count == old(self).preempt_count,
    {
        let tick = now as u64;
        let len = self.queue.len();
        let mut k: usize = 0;
        while k < len
            invariant
                len == self.queue@.len(),
                k <= len,
                tick == now as u64,
                tick <= u64::MAX / 1024,
                forall|i: int| 0 <= i < k ==> #[trigger] self.queue@[i] == aged_entry(old(self).queue@[i], tick),
                forall|i: int| k <= i < len ==> #[trigger] self.queue@[i] == old(self).queue@[i],
                self.current == old(self).current && self.preempt_count == old(self).preempt_count,
            decreases len - k,
        {
            let (id, mut policy) = self.queue[k];
            let w = policy.weight();
            let delta = (tick * 1024) / w;
            policy.vruntime = policy.vruntime.wrapping_add(delta);
            self.queue.set(k, (id, policy));
            k += 1;
        }
        let ghost aged = self.queue@;
        assert(aged =~= aged_all(old(self).queue@, tick));
        let mut i: usize = 0;
        while i < len
            invariant
                len == self.queue@.len(),
                i <= len,
                self.queue@.to_multiset() == aged.to_multiset(),
                forall|a: int, b: int| 0 <= a < b < i ==> self.queue@[a].1.vruntime <= self.queue@[b].1.vruntime,
                forall|a: int, b: int| 0 <= a < i <= b < len ==> self.queue@[a].1.vruntime <= self.queue@[b].1.vruntime,
                self.current == old(self).current && self.preempt_count == old(self).preempt_count,
            decreases len - i,
        {
            let mut j: usize = i + 1;
            while j < len
                invariant
                    len == self.queue@.len(),
                    i < len,
                    i + 1 <= j <= len,
                    self.queue@.to_multiset() == aged.to_multiset(),
                    forall|a: int, b: int| 0 <= a < b < i ==> self.queue@[a].1.vruntime <= self.queue@[b].1.vruntime,
                    forall|a: int, b: int| 0 <= a < i <= b < len ==> self.queue@[a].1.vruntime <= self.queue@[b].1.vruntime,
                    forall|b: int| i < b < j ==> self.queue@[i as int].1.vruntime <= #[trigger] self.queue@[b].1.vruntime,
                    self.current == old(self).current && self.preempt_count == old(self).preempt_count,
                decreases len - j,
            {
                if self.queue[i].1.vruntime > self.queue[j].1.vruntime {
                    let a = self.queue[i];
                    let b = self.queue[j];
                    let ghost q0 = self.queue@;
                    self.queue.set(i, b);
                    self.queue.set(j, a);
                    proof {
                        lemma_swap_multiset(q0, i as int, j as int);
                        assert(self.queue@ =~= q0.update(i as int, q0[j as int]).update(j as int, q0[i as int]));
                    }
                }
                j += 1;
            }
            i += 1;
        }
    }

    /// Marks task `id` as running.
    pub fn set_current(&mut self, id: usize)
        ensures
            final(self).current == Some(id),
            final(self).queue@ == old(self).queue@ && final(self).preempt_count == old(self).preempt_count,
    {
        self.current = Some(id);
    }

    /// Marks nothing as running.
    pub fn clear_current(&mut self)
        ensures
            final(self).current is None,
            final(self).queue@ == old(self).queue@ && final(self).preempt_count == old(self).preempt_count,
    {
        self.current = None;
    }

    /// The number of entries.
    pub fn len(&self) -> (r: usize)
        ensures
            r == self.queue@.len(),
    {
        self.queue.len()
    }

    /// Removes every entry of task `task_id`; answers whether there was one.
    pub fn remove(&mut self, task_id: usize) -> (r: bool)
        ensures
            final(self).queue@ == old(self).queue@.filter(|e: (usize, SchedulePolicy)| e.0 != task_id),
            r == (final(self).queue@.len() < old(self).queue@.len()),
            final(self).current == old(self).current && final(self).preempt_count == old(self).preempt_count,
    {
        let ghost orig = self.queue@;
        let ghost pred = |e: (usize, SchedulePolicy)| e.0 != task_id;
        let before = self.queue.len();
        let mut i: usize = 0;
        let ghost mut k: int = 0;
        while i < self.queue.len()
            invariant
                0 <= k <= orig.len(),
                orig == old(self).queue@,
                pred == (|e: (usize, SchedulePolicy)| e.0 != task_id),
                self.queue@ == orig.take(k).filter(pred) + orig.skip(k),
                i == orig.take(k).filter(pred).len(),
                self.current == old(self).current && self.preempt_count == old(self).preempt_count,
            decreases orig.len() - k,
        {
            proof {
                assert(orig.take(k + 1) =~= orig.take(k).push(orig[k]));
                orig.take(k).lemma_filter_push(orig[k], pred);
                assert(self.queue@[i as int] == orig[k]);
            }
            if self.queue[i].0 == task_id {
                self.queue.remove(i);
                proof {
                    assert(self.queue@ =~= orig.take(k + 1).filter(pred) + orig.skip(k + 1));
                }
            } else {
                i += 1;
                proof {
                    assert(self.queue@ =~= orig.take(k + 1).filter(pred) + orig.skip(k + 1));
                }
            }
            proof {
                k = k + 1;
            }
        }
        proof {
            assert(orig.take(k) =~= orig);
            assert(self.queue@ =~= orig.filter(pred));
            orig.lemma_filter_len(pred);
        }
        self.queue.len() < before
    }

    /// Ages the first entry of task `task_id` by `delta` scaled by its weight.
    pub fn update_vruntime(&mut self, task_id: usize, delta: u64)
        requires
            delta <= u64::MAX / 1024,
        ensures
            final(self).current == old(self).current && final(self).preempt_count == old(self).preempt_count,
            (forall|i: int| 0 <= i < old(self).queue@.len() ==> #[trigger] old(self).queue@[i].0 != task_id) ==> final(self).queue@ == old(self).queue@,
            forall|f: int|
                0 <= f < old(self).queue@.len() && old(self).queue@[f].0 == task_id && (forall|i: int|
                    0 <= i < f ==> #[trigger] old(self).queue@[i].0 != task_id) ==> final(self).queue@ == old(self).queue@.update(f, aged_by(old(self).queue@[f], delta)),
    {
        let mut idx: usize = 0;
        let mut found = false;
        while idx < self.queue.len() && !found
            invariant
                idx <= self.queue@.len(),
                self.queue@.len() == old(self).queue@.len(),
                delta <= u64::MAX / 1024,
                forall|i: int| 0 <= i < idx ==> #[trigger] old(self).queue@[i].0 != task_id,
                !found ==> self.queue@ == old(self).queue@,
                found ==> idx < self.queue@.len() && old(self).queue@[idx as int].0 == task_id && self.queue@ == old(self).queue@.update(idx as int, aged_by(old(self).queue@[idx as int], delta)),
                self.current == old(self).current && self.preempt_count == old(self).preempt_count,
            decreases self.queue@.len() - idx + (if found { 0int } else { 1int }),
        {
            if self.queue[idx].0 == task_id {
                let (id, mut policy) = self.queue[idx];
                let w = policy.weight();
                let scaled = (delta * 1024) / w;
                policy.vruntime = policy.vruntime.wrapping_add(scaled);
                self.queue.set(idx, (id, policy));
                found = true;
            } else {
                idx += 1;
            }
        }
    }

    /// Disables preemption once more.
    pub fn preempt_disable(&mut self)
        ensures
            final(self).preempt_count == if old(self).preempt_count == usize::MAX { 0 } else { (old(self).preempt_count + 1) as usize },
            final(self).queue@ == old(self).queue@ && final(self).current == old(self).current,
    {
        self.preempt_count = self.preempt_count.wrapping_add(1);
    }

    /// Undoes one `preempt_disable`.
    pub fn preempt_enable(&mut self)
        ensures
            final(self).preempt_count == if old(self).preempt_count == 0 { usize::MAX } else { (old(self).preempt_count - 1) as usize },
            final(self).queue@ == old(self).queue@ && final(self).current == old(self).current,
    {
        self.preempt_count = self.preempt_count.wrapping_sub(1);
    }

    /// Whether preemption is enabled.
    pub fn preemptible(&self) -> (r: bool)
        ensures
            r == (self.preempt_count == 0),
    {
        self.preempt_count == 0
    }

    /// Raises the priority of the first entry of task `task_id` by `amount`,
    /// never past -20.
    pub fn boost_priority(&mut self, task_id: usize, amount: i32)
        requires
            forall|i: int| 0 <= i < old(self).queue@.len() ==> i32::MIN <= #[trigger] old(self).queue@[i].1.prio - amount <= i32::MAX,
        ensures
            final(self).current == old(self).current && final(self).preempt_count == old(self).preempt_count,
            (forall|i: int| 0 <= i < old(self).queue@.len() ==> #[trigger] old(self).queue@[i].0 != task_id) ==> final(self).queue@ == old(self).queue@,
            forall|f: int|
                0 <= f < old(self).queue@.len() && old(self).queue@[f].0 == task_id && (forall|i: int|
                    0 <= i < f ==> #[trigger] old(self).queue@[i].0 != task_id) ==> final(self).queue@ == old(self).queue@.update(f, boosted(old(self).queue@[f], amount)),
    {
        let mut idx: usize = 0;
        let mut found = false;
        while idx < self.queue.len() && !found
            invariant
                idx <= self.queue@.len(),
                self.queue@.len() == old(self).queue@.len(),
                forall|i: int| 0 <= i < old(self).queue@.len() ==> i32::MIN <= #[trigger] old(self).queue@[i].1.prio - amount <= i32::MAX,
                forall|i: int| 0 <= i < idx ==> #[trigger] old(self).queue@[i].0 != task_id,
                !found ==> self.queue@ == old(self).queue@,
                found ==> idx < self.queue@.len() && old(self).queue@[idx as int].0 == task_id && self.queue@ == old(self).queue@.update(idx as int, boosted(old(self).queue@[idx as int], amount)),
                self.current == old(self).current && self.preempt_count == old(self).preempt_count,
            decreases self.queue@.len() - idx + (if found { 0int } else { 1int }),
        {
            if self.queue[idx].0 == task_id {
                let (id, mut policy) = self.queue[idx];
                let p = policy.prio - amount;
                policy.prio = if p < -20 { -20 } else { p };
                self.queue.set(idx, (id, policy));
                found = true;
            } else {
                idx += 1;
            }
        }
    }

    /// Puts the running task back on the queue with a fresh default policy
    /// and marks nothing as running; answers whether a task was running.
    pub fn yield_current(&mut self) -> (r: bool)
        ensures
            r == old(self).current is Some,
            final(self).current is None,
            final(self).preempt_count == old(self).preempt_count,
            final(self).queue@ == match old(self).current {
                Some(id) => old(self).queue@.push((id, SchedulePolicy { policy: SCHED_NORMAL, prio: PRIO_DEFAULT, nice: 0, time_slice: 10, vruntime: 0 })),
                None => old(self).queue@,
            },
    {
        let cur = self.current.take();
        match cur {
            Some(id) => {
                let policy = SchedulePolicy::new();
                self.queue.push((id, policy));
                true
            },
            None => false,
        }
    }

    /// Compares two policies by `order_key`.
    pub fn cmp_priority(a: &SchedulePolicy, b: &SchedulePolicy) -> (r: Ordering)
        ensures
            (r is Less) == (order_key(*a) < order_key(*b)),
            (r is Equal) == (order_key(*a) == order_key(*b)),
            (r is Greater) == (order_key(*a) > order_key(*b)),
    {
        let sa = priority_key(a);
        let sb = priority_key(b);
        if sa < sb {
            Ordering::Less
        } else if sa == sb {
            Ordering::Equal
        } else {
            Ordering::Greater
        }
    }
}

/// The placement score of CPU `cpu` out of `ncpu`: fewer tasks, a higher
/// priority, not blocked on I/O, some cached work and the first half of the
/// CPUs score higher.
pub open spec fn cpu_score(tc: usize, pr: i32, blocked: bool, cpu: int, ncpu: int) -> int {
    -(tc as int) * 100 + pr * 10 - (if blocked { 500int } else { 0int }) + (if tc > 0 { 50int } else { 0int })
        + (if cpu < ncpu / 2 { 10int } else { -10int })
}

/// The score of CPU `cpu`, reading a missing priority as 0 and a missing
/// blocked flag as false.
pub open spec fn score_of(tc: Seq<usize>, pr: Seq<i32>, bl: Seq<bool>, cpu: int) -> int {
    cpu_score(
        tc[cpu],
        if cpu < pr.len() { pr[cpu] } else { 0i32 },
        if cpu < bl.len() { bl[cpu] } else { false },
        cpu,
        tc.len() as int,
    )
}

/// `r` is the lowest-numbered CPU of highest score (0 when there are none).
pub open spec fn best_cpu(tc: Seq<usize>, pr: Seq<i32>, bl: Seq<bool>, r: usize) -> bool {
    &&& tc.len() == 0 ==> r == 0
    &&& tc.len() > 0 ==> {
        &&& r < tc.len()
        &&& forall|i: int| 0 <= i < tc.len() ==> #[trigger] score_of(tc, pr, bl, i) <= score_of(tc, pr, bl, r as int)
        &&& forall|i: int| 0 <= i < r ==> #[trigger] score_of(tc, pr, bl, i) < score_of(tc, pr, bl, r as int)
    }
}

/// Every step of computing the score of a CPU with `tc` tasks, priority
/// `pr` and blocked flag `blocked` stays within a signed word.
pub open spec fn score_fits(tc: usize, pr: i32, blocked: bool) -> bool {
    let s1 = -(tc as int) * 100;
    let s2 = s1 + pr * 10;
    let s3 = s2 - (if blocked { 500int } else { 0int });
    let s4 = s3 + (if tc > 0 { 50int } else { 0int });
    &&& tc <= i64::MAX
    &&& s1 >= i64::MIN && s2 >= i64::MIN && s3 >= i64::MIN && s4 - 10 >= i64::MIN
}

/// The score of CPU `i` computes within a signed word, reading a missing
/// priority as 0 and a missing blocked flag as false.
pub open spec fn cpu_fits(tc: Seq<usize>, pr: Seq<i32>, bl: Seq<bool>, i: int) -> bool {
    score_fits(tc[i], if i < pr.len() { pr[i] } else { 0i32 }, if i < bl.len() { bl[i] } else { false })
}

/// The migration cost (five per task) summed over the first `n` CPUs whose
/// score is within 100 of `top`.
pub open spec fn candidate_cost(tc: Seq<usize>, pr: Seq<i32>, bl: Seq<bool>, top: int, n: int) -> int
    decreases n,
{
    if n <= 0 {
        0
    } else {
        candidate_cost(tc, pr, bl, top, n - 1) + if score_of(tc, pr, bl, n - 1) >= top - 100 {
            tc[n - 1] * 5
        } else {
            0
        }
    }
}

/// Placing work on these CPUs computes within a signed word: every score,
/// the best score less 100, and the migration cost of the CPUs within 100
/// of the best.
pub open spec fn balance_fits(tc: Seq<usize>, pr: Seq<i32>, bl: Seq<bool>) -> bool {
    &&& forall|i: int| 0 <= i < tc.len() ==> #[trigger] cpu_fits(tc, pr, bl, i)
    &&& forall|r: usize|
        tc.len() > 0 && #[trigger] best_cpu(tc, pr, bl, r) ==> score_of(tc, pr, bl, r as int) - 100 >= i64::MIN
            && candidate_cost(tc, pr, bl, score_of(tc, pr, bl, r as int), tc.len() as int) <= i64::MAX
}

fn score_exec(tc: usize, pr: i32, blocked: bool, cpu: usize, ncpu: usize) -> (r: i64)
    requires
        score_fits(tc, pr, blocked),
        cpu < ncpu,
    ensures
        r == cpu_score(tc, pr, blocked, cpu as int, ncpu as int),
{
    let mut score: i64 = -(tc as i64) * 100;
    score += pr as i64 * 10;
    if blocked {
        score -= 500;
    }
    let cache_bonus: i64 = if tc > 0 { 50 } else { 0 };
    score += cache_bonus;
    let numa_factor: i64 = if cpu < ncpu / 2 { 10 } else { -10 };
    score += numa_factor;
    score
}

/// The CPU to place work on: the lowest-numbered CPU of highest score
/// (0 when there are no CPUs).
pub fn compute_load_balance(task_counts: &[usize], priorities: &[i32], io_blocked: &[bool]) -> (r: usize)
    requires
        balance_fits(task_counts@, priorities@, io_blocked@),
    ensures
        best_cpu(task_counts@, priorities@, io_blocked@, r),
{
    let ncpu = task_counts.len();
    if ncpu == 0 {
        return 0;
    }
    let mut best: usize = 0;
    let mut best_score: i64 = 0;
    let mut cpu: usize = 0;
    while cpu < ncpu
        invariant
            ncpu == task_counts@.len(),
            cpu <= ncpu,
            best < ncpu,
            cpu > 0 ==> best < cpu,
            cpu > 0 ==> best_score == score_of(task_counts@, priorities@, io_blocked@, best as int),
            balance_fits(task_counts@, priorities@, io_blocked@),
            forall|i: int| 0 <= i < cpu ==> #[trigger] score_of(task_counts@, priorities@, io_blocked@, i) <= best_score,
            forall|i: int| 0 <= i < best ==> #[trigger] score_of(task_counts@, priorities@, io_blocked@, i) < best_score,
        decreases ncpu - cpu,
    {
        let tc = task_counts[cpu];
        let pr = if cpu < priorities.len() { priorities[cpu] } else { 0 };
        let bl = if cpu < io_blocked.len() { io_blocked[cpu] } else { false };
        assert(cpu_fits(task_counts@, priorities@, io_blocked@, cpu as int));
        let sc = score_exec(tc, pr, bl, cpu, ncpu);
        if cpu == 0 || sc > best_score {
            best = cpu;
            best_score = sc;
        }
        cpu += 1;
    }
    best
}

} // verus!
