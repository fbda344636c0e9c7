use vstd::prelude::*;

verus! {

/// The first `k` bytes of `s` equal the last `k` of its first `n`.
pub open spec fn border(s: Seq<u8>, n: int, k: int) -> bool {
    &&& 0 <= k <= n <= s.len()
    &&& forall|j: int| 0 <= j < k ==> #[trigger] s[j] == s[n - k + j]
}

/// The first `q` bytes of `p` end text `t` at position `i`.
pub open spec fn ends_with(t: Seq<u8>, i: int, p: Seq<u8>, q: int) -> bool {
    &&& 0 <= q <= p.len()
    &&& q <= i <= t.len()
    &&& forall|j: int| 0 <= j < q ==> #[trigger] p[j] == t[i - q + j]
}

/// Pattern `p` occurs in `t` at position `pos`.
pub open spec fn match_at(t: Seq<u8>, p: Seq<u8>, pos: int) -> bool {
    &&& 0 <= pos
    &&& pos + p.len() <= t.len()
    &&& forall|j: int| 0 <= j < p.len() ==> #[trigger] t[pos + j] == p[j]
}

/// The positions, increasing, at which `p` occurs in `t` ending by `n`.
pub open spec fn match_positions(t: Seq<u8>, p: Seq<u8>, n: nat) -> Seq<usize>
    decreases n,
{
    if n == 0 {
        Seq::empty()
    } else {
        let prev = match_positions(t, p, (n - 1) as nat);
        if n >= p.len() && match_at(t, p, n - p.len()) {
            prev.push((n - p.len()) as usize)
        } else {
            prev
        }
    }
}

/// `f[i]` is the length of the longest proper border of the first `i + 1`
/// bytes of `p`.
pub open spec fn fail_ok(p: Seq<u8>, f: Seq<usize>, i: int) -> bool {
    &&& f[i] < i + 1
    &&& border(p, i + 1, f[i] as int)
    &&& forall|b: int| f[i] < b < i + 1 ==> !#[trigger] border(p, i + 1, b)
}

/// A shorter border of a prefix is a border of the longer border.
proof fn lemma_border_within(p: Seq<u8>, n: int, k: int, b: int)
    requires
        border(p, n, k),
        border(p, n, b),
        b < k,
    ensures
        border(p, k, b),
{
    assert forall|j: int| 0 <= j < b implies #[trigger] p[j] == p[k - b + j] by {
        assert(p[j] == p[n - b + j]);
        assert(p[k - b + j] == p[n - k + (k - b + j)]);
    }
}

/// A border of a border is a border.
proof fn lemma_border_trans(p: Seq<u8>, n: int, k: int, b: int)
    requires
        border(p, n, k),
        border(p, k, b),
    ensures
        border(p, n, b),
{
    assert forall|j: int| 0 <= j < b implies #[trigger] p[j] == p[n - b + j] by {
        assert(p[j] == p[k - b + j]);
        assert(p[k - b + j] == p[n - k + (k - b + j)]);
    }
}

/// A prefix that ends the text, and a shorter one that does too: the
/// shorter is a border of the longer.
proof fn lemma_ends_within(t: Seq<u8>, i: int, p: Seq<u8>, q: int, b: int)
    requires
        ends_with(t, i, p, q),
        ends_with(t, i, p, b),
        b < q,
    ensures
        border(p, q, b),
{
    assert forall|j: int| 0 <= j < b implies #[trigger] p[j] == p[q - b + j] by {
        assert(p[j] == t[i - b + j]);
        assert(p[q - b + j] == t[i - q + (q - b + j)]);
    }
}

/// A border of a prefix that ends the text ends the text too.
proof fn lemma_ends_border(t: Seq<u8>, i: int, p: Seq<u8>, q: int, b: int)
    requires
        ends_with(t, i, p, q),
        border(p, q, b),
    ensures
        ends_with(t, i, p, b),
{
    assert forall|j: int| 0 <= j < b implies #[trigger] p[j] == t[i - b + j] by {
        assert(p[j] == p[q - b + j]);
        assert(p[q - b + j] == t[i - q + (q - b + j)]);
    }
}

/// A prefix ends the text one further exactly when one shorter by one ends
/// it and the next bytes agree.
proof fn lemma_ends_step(t: Seq<u8>, i: int, p: Seq<u8>, b: int)
    requires
        0 <= b < p.len(),
        b <= i < t.len(),
    ensures
        ends_with(t, i + 1, p, b + 1) <==> (ends_with(t, i, p, b) && p[b] == t[i]),
{
    if ends_with(t, i + 1, p, b + 1) {
        assert(p[b] == t[i + 1 - (b + 1) + b]);
        assert forall|j: int| 0 <= j < b implies #[trigger] p[j] == t[i - b + j] by {
            assert(p[j] == t[i + 1 - (b + 1) + j]);
        }
    }
    if ends_with(t, i, p, b) && p[b] == t[i] {
        assert forall|j: int| 0 <= j < b + 1 implies #[trigger] p[j] == t[i + 1 - (b + 1) + j] by {
            if j < b {
                assert(p[j] == t[i - b + j]);
            }
        }
    }
}

/// The same for a border of the pattern's own prefixes.
proof fn lemma_border_step(p: Seq<u8>, n: int, b: int)
    requires
        0 <= b < n < p.len(),
    ensures
        border(p, n + 1, b + 1) <==> (border(p, n, b) && p[b] == p[n]),
{
    if border(p, n + 1, b + 1) {
        assert(p[b] == p[n + 1 - (b + 1) + b]);
        assert forall|j: int| 0 <= j < b implies #[trigger] p[j] == p[n - b + j] by {
            assert(p[j] == p[n + 1 - (b + 1) + j]);
        }
    }
    if border(p, n, b) && p[b] == p[n] {
        assert forall|j: int| 0 <= j < b + 1 implies #[trigger] p[j] == p[n + 1 - (b + 1) + j] by {
            if j < b {
                assert(p[j] == p[n - b + j]);
            }
        }
    }
}

/// The whole pattern ends the text exactly where it occurs.
proof fn lemma_ends_full(t: Seq<u8>, i: int, p: Seq<u8>)
    requires
        p.len() <= i <= t.len(),
    ensures
        ends_with(t, i, p, p.len() as int) <==> match_at(t, p, i - p.len()),
{
    if ends_with(t, i, p, p.len() as int) {
        assert forall|j: int| 0 <= j < p.len() implies #[trigger] t[i - p.len() + j] == p[j] by {
            assert(p[j] == t[i - p.len() + j]);
        }
    }
    if match_at(t, p, i - p.len()) {
        assert forall|j: int| 0 <= j < p.len() implies #[trigger] p[j] == t[i - p.len() + j] by {
            assert(t[i - p.len() + j] == p[j]);
        }
    }
}

/// Matches found by an earlier point are a prefix of those found later.
proof fn lemma_positions_prefix(t: Seq<u8>, p: Seq<u8>, m: nat, n: nat)
    requires
        m <= n,
    ensures
        match_positions(t, p, m) == match_positions(t, p, n).take(match_positions(t, p, m).len() as int),
        match_positions(t, p, m).len() <= match_positions(t, p, n).len(),
    decreases n - m,
{
    if m < n {
        lemma_positions_prefix(t, p, m, (n - 1) as nat);
        let a = match_positions(t, p, (n - 1) as nat);
        let b = match_positions(t, p, n);
        assert(a == b.take(a.len() as int));
        assert(match_positions(t, p, m) =~= b.take(match_positions(t, p, m).len() as int));
    } else {
        assert(match_positions(t, p, m) =~= match_positions(t, p, n).take(match_positions(t, p, m).len() as int));
    }
}

/// The failure table of `pattern`: entry `i` is the length of the longest
/// proper border of the first `i + 1` bytes.
fn failure_table(pattern: &[u8]) -> (fail: Vec<usize>)
    requires
        pattern@.len() > 0,
    ensures
        fail@.len() == pattern@.len(),
        forall|i: int| 0 <= i < pattern@.len() ==> #[trigger] fail_ok(pattern@, fail@, i),
{
    let ghost p = pattern@;
    let plen = pattern.len();
    let mut fail: Vec<usize> = vec![0usize; plen];
    assert(fail_ok(p, fail@, 0));
    let mut k: usize = 0;
    let mut i: usize = 1;
    while i < plen
        invariant
            p == pattern@,
            plen == p.len(),
            fail@.len() == plen,
            1 <= i <= plen,
            k == fail@[i - 1],
            forall|j: int| 0 <= j < i ==> #[trigger] fail_ok(p, fail@, j),
        decreases plen - i,
    {
        assert(fail_ok(p, fail@, i - 1));
        while k > 0 && pattern[k] != pattern[i]
            invariant
                p == pattern@,
                plen == p.len(),
                fail@.len() == plen,
                1 <= i < plen,
                k < i,
                border(p, i as int, k as int),
                forall|b: int| k < b < i && #[trigger] border(p, i as int, b) ==> p[b] != p[i as int],
                forall|j: int| 0 <= j < i ==> #[trigger] fail_ok(p, fail@, j),
            decreases k,
        {
            let nk = fail[k - 1];
            proof {
                assert(fail_ok(p, fail@, k - 1));
                assert forall|b: int| nk < b < i && #[trigger] border(p, i as int, b) implies p[b] != p[i as int] by {
                    if b < k {
                        lemma_border_within(p, i as int, k as int, b);
                        assert(border(p, k as int, b));
                        assert(!border(p, (k - 1) + 1, b));
                    }
                }
                lemma_border_trans(p, i as int, k as int, nk as int);
            }
            k = nk;
        }
        if pattern[k] == pattern[i] {
            proof { lemma_border_step(p, i as int, k as int); }
            k += 1;
        } else {
            proof {
                assert(k == 0);
                assert(border(p, i + 1, 0));
            }
        }
        proof {
            assert forall|b: int| k < b < i + 1 implies !#[trigger] border(p, i + 1, b) by {
                if border(p, i + 1, b) {
                    lemma_border_step(p, i as int, b - 1);
                    assert(border(p, i as int, b - 1) && p[b - 1] == p[i as int]);
                }
            }
        }
        let ghost before = fail@;
        fail.set(i, k);
        assert forall|j: int| 0 <= j < i + 1 implies #[trigger] fail_ok(p, fail@, j) by {
            if j < i {
                assert(fail@[j] == before[j]);
                assert(fail_ok(p, before, j));
            }
        }
        i += 1;
    }
    fail
}

/// The positions, increasing, at which `pattern` occurs in `data`
/// (overlapping occurrences included), found by Knuth-Morris-Pratt
/// matching; the scan stops once `max_matches` are found (after the first
/// when `max_matches` is 0). An empty pattern, or one longer than the
/// data, is found nowhere.
pub fn mem_scan_pattern(data: &[u8], pattern: &[u8], max_matches: usize) -> (r: Vec<usize>)
    ensures
        pattern@.len() == 0 ==> r@.len() == 0,
        pattern@.len() > 0 ==> ({
            let all = match_positions(data@, pattern@, data@.len());
            let limit = if max_matches == 0 { 1 } else { max_matches as int };
            r@ == all.take(if all.len() < limit { all.len() as int } else { limit })
        }),
{
    let mut results: Vec<usize> = Vec::new();
    if pattern.len() == 0 {
        return results;
    }
    let ghost t = data@;
    let ghost p = pattern@;
    let plen = pattern.len();
    if data.len() < plen {
        proof {
            assert forall|n: nat| n <= t.len() implies match_positions(t, p, n).len() == 0 by {
                lemma_positions_none(t, p, n);
            }
        }
        return results;
    }
    let fail = failure_table(pattern);
    let n = data.len();
    let mut q: usize = 0;
    let mut i: usize = 0;
    let mut done = false;
    while i < n && !done
        invariant
            t == data@,
            p == pattern@,
            plen == p.len() > 0,
            n == t.len(),
            fail@.len() == plen,
            forall|j: int| 0 <= j < plen ==> #[trigger] fail_ok(p, fail@, j),
            i <= n,
            q < plen,
            ends_with(t, i as int, p, q as int),
            forall|b: int| q < b < plen ==> !#[trigger] ends_with(t, i as int, p, b),
            results@ == match_positions(t, p, i as nat),
            done ==> results@.len() == (if max_matches == 0 { 1 } else { max_matches as int }),
            !done ==> results@.len() < max_matches || results@.len() == 0,
        decreases n - i + (if done { 0int } else { 1int }),
    {
        let c = data[i];
        while q > 0 && pattern[q] != c
            invariant
                t == data@,
                p == pattern@,
                plen == p.len() > 0,
                i < n,
                n == t.len(),
                c == t[i as int],
                fail@.len() == plen,
                forall|j: int| 0 <= j < plen ==> #[trigger] fail_ok(p, fail@, j),
                q < plen,
                ends_with(t, i as int, p, q as int),
                forall|b: int| q < b < plen && #[trigger] ends_with(t, i as int, p, b) ==> p[b] != c,
            decreases q,
        {
            let nq = fail[q - 1];
            proof {
                assert(fail_ok(p, fail@, q - 1));
                assert forall|b: int| nq < b < plen && #[trigger] ends_with(t, i as int, p, b) implies p[b] != c by {
                    if b < q {
                        lemma_ends_within(t, i as int, p, q as int, b);
                        assert(!border(p, (q - 1) + 1, b));
                    }
                }
                lemma_ends_border(t, i as int, p, q as int, nq as int);
            }
            q = nq;
        }
        if pattern[q] == c {
            proof { lemma_ends_step(t, i as int, p, q as int); }
            q += 1;
        } else {
            proof { assert(q == 0); }
        }
        proof {
            assert forall|b: int| q < b <= plen implies !#[trigger] ends_with(t, i + 1, p, b) by {
                if ends_with(t, i + 1, p, b) {
                    lemma_ends_step(t, i as int, p, b - 1);
                }
            }
            if i + 1 >= plen {
                lemma_ends_full(t, i + 1, p);
            }
        }
        if q == plen {
            results.push(i + 1 - plen);
            if results.len() >= max_matches {
                done = true;
            }
            let nq = fail[q - 1];
            proof {
                assert(fail_ok(p, fail@, plen - 1));
                lemma_ends_border(t, i + 1, p, plen as int, nq as int);
                assert forall|b: int| nq < b < plen implies !#[trigger] ends_with(t, i + 1, p, b) by {
                    if ends_with(t, i + 1, p, b) {
                        lemma_ends_within(t, i + 1, p, plen as int, b);
                        assert(!border(p, (plen - 1) + 1, b));
                    }
                }
            }
            q = nq;
        }
        i += 1;
    }
    proof {
        let all = match_positions(t, p, n as nat);
        let limit = if max_matches == 0 { 1 } else { max_matches as int };
        lemma_positions_prefix(t, p, i as nat, n as nat);
        if !done {
            assert(i == n);
            assert(results@ =~= all.take(all.len() as int));
        } else {
            assert(results@.len() == limit);
        }
    }
    results
}

/// Nothing ends by a point before the pattern's length.
proof fn lemma_positions_none(t: Seq<u8>, p: Seq<u8>, n: nat)
    requires
        n < p.len(),
    ensures
        match_positions(t, p, n).len() == 0,
    decreases n,
{
    if n > 0 {
        lemma_positions_none(t, p, (n - 1) as nat);
    }
}

/// The positions reported are occurrences of the pattern, in strictly
/// increasing order.
pub proof fn law_positions_are_matches(t: Seq<u8>, p: Seq<u8>, n: nat)
    requires
        n <= t.len(),
        n <= usize::MAX,
    ensures
        forall|k: int| 0 <= k < match_positions(t, p, n).len() ==> match_at(t, p, #[trigger] match_positions(t, p, n)[k] as int),
        forall|k: int, l: int|
            0 <= k < l < match_positions(t, p, n).len() ==> #[trigger] match_positions(t, p, n)[k] < #[trigger] match_positions(
                t,
                p,
                n,
            )[l],
        forall|k: int| 0 <= k < match_positions(t, p, n).len() ==> #[trigger] match_positions(t, p, n)[k] + p.len() <= n,
    decreases n,
{
    if n > 0 {
        let prev = match_positions(t, p, (n - 1) as nat);
        let cur = match_positions(t, p, n);
        law_positions_are_matches(t, p, (n - 1) as nat);
        if n >= p.len() && match_at(t, p, n - p.len()) {
            assert(cur == prev.push((n - p.len()) as usize));
            assert forall|k: int| 0 <= k < cur.len() implies match_at(t, p, #[trigger] cur[k] as int) by {
                if k < prev.len() {
                    assert(cur[k] == prev[k]);
                }
            }
            assert forall|k: int, l: int| 0 <= k < l < cur.len() implies #[trigger] cur[k] < #[trigger] cur[l] by {
                assert(cur[k] == prev[k]);
                if l < prev.len() {
                    assert(cur[l] == prev[l]);
                }
            }
            assert forall|k: int| 0 <= k < cur.len() implies #[trigger] cur[k] + p.len() <= n by {
                if k < prev.len() {
                    assert(cur[k] == prev[k]);
                }
            }
        } else {
            assert(cur == prev);
        }
    }
}

} // verus!
