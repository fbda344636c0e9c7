use vstd::prelude::*;

verus! {

/// Access options of an open file.
#[derive(Clone, Copy)]
pub struct FdOpt {
    pub rd: bool,
    pub wr: bool,
    pub ap: bool,
    pub nb: bool,
}

/// An open file: its path, options, close-on-exec flag, exclusive-create
/// flag and length.
pub struct FHandle {
    pub path: String,
    pub opt: FdOpt,
    pub cloexec: bool,
    pub excl: bool,
    pub size: usize,
}

/// One end of a pipe.
#[derive(Clone, Copy)]
pub struct PipeNode {
    pub read_end: bool,
}

/// What a file descriptor refers to.
pub enum FLike {
    File(FHandle),
    Pipe(PipeNode),
}

/// The object a duplicate descriptor refers to: a file keeps everything
/// but takes the new close-on-exec flag; a pipe end stays as it is.
pub open spec fn dup_of(f: FLike, cloexec: bool) -> FLike {
    match f {
        FLike::File(h) => FLike::File(FHandle { cloexec, ..h }),
        FLike::Pipe(p) => FLike::Pipe(p),
    }
}

impl FHandle {
    /// An empty file at `path`.
    pub fn new(path: &str, opt: FdOpt, cloexec: bool, excl: bool) -> (r: Self)
        ensures
            r.path@ == path@,
            r.opt == opt && r.cloexec == cloexec && r.excl == excl && r.size == 0,
    {
        FHandle { path: path.to_owned(), opt, cloexec, excl, size: 0 }
    }

    /// A second handle to the same file, with close-on-exec set to `cloexec`.
    pub fn dup(&self, cloexec: bool) -> (r: Self)
        ensures
            r == (FHandle { cloexec, ..*self }),
    {
        FHandle { path: self.path.clone(), opt: self.opt, cloexec, excl: self.excl, size: self.size }
    }

    /// Sets the file's length.
    pub fn set_len(&mut self, n: usize)
        ensures
            *final(self) == (FHandle { size: n, ..*old(self) }),
    {
        self.size = n;
    }
}

impl PipeNode {
    /// The two ends of a new pipe: reading end first.
    pub fn pair() -> (r: (PipeNode, PipeNode))
        ensures
            r.0.read_end && !r.1.read_end,
    {
        (PipeNode { read_end: true }, PipeNode { read_end: false })
    }
}

impl FLike {
    /// A descriptor object for the same file or pipe end.
    pub fn dup(&self, cloexec: bool) -> (r: FLike)
        ensures
            r == dup_of(*self, cloexec),
    {
        match self {
            FLike::File(h) => FLike::File(h.dup(cloexec)),
            FLike::Pipe(p) => FLike::Pipe(*p),
        }
    }

    /// An exact copy of the descriptor object.
    pub fn copy(&self) -> (r: FLike)
        ensures
            r == *self,
    {
        match self {
            FLike::File(h) => FLike::File(h.dup(h.cloexec)),
            FLike::Pipe(p) => FLike::Pipe(*p),
        }
    }

    /// Whether this is a file marked close-on-exec.
    pub fn is_cloexec_file(&self) -> (r: bool)
        ensures
            r == (*self matches FLike::File(h) && h.cloexec),
    {
        match self {
            FLike::File(h) => h.cloexec,
            FLike::Pipe(_) => false,
        }
    }
}

/// A table of `(number, object)` entries (a descriptor table among them):
/// no number twice.
pub open spec fn fds_unique<T>(t: Seq<(usize, T)>) -> bool {
    forall|i: int, j: int| 0 <= i < j < t.len() ==> t[i].0 != t[j].0
}

/// Descriptor `fd` is open in the table.
pub open spec fn has_fd<T>(t: Seq<(usize, T)>, fd: usize) -> bool {
    exists|i: int| 0 <= i < t.len() && #[trigger] t[i].0 == fd
}

/// The object of descriptor `fd` (meaningful when it is open).
pub open spec fn fd_obj<T>(t: Seq<(usize, T)>, fd: usize) -> T {
    t[choose|i: int| 0 <= i < t.len() && #[trigger] t[i].0 == fd].1
}

/// The table as a map from descriptor to object.
pub open spec fn fd_map<T>(t: Seq<(usize, T)>) -> Map<usize, T> {
    Map::new(|fd: usize| has_fd(t, fd), |fd: usize| fd_obj(t, fd))
}

/// The lowest descriptor number from `from` up that is not open.
pub open spec fn is_lowest_free_from<T>(t: Seq<(usize, T)>, from: usize, fd: usize) -> bool {
    &&& from <= fd
    &&& !has_fd(t, fd)
    &&& forall|k: usize| from <= k < fd ==> has_fd(t, k)
}

/// Among `n + 1` numbers `0..=n` and a table of `n` entries, one number is free.
pub proof fn lemma_free_fd_exists<T>(t: Seq<(usize, T)>)
    requires
        t.len() < usize::MAX,
    ensures
        exists|k: usize| k <= t.len() && !has_fd(t, k),
{
    if forall|k: usize| k <= t.len() ==> has_fd(t, k) {
        let keys = t.map_values(|e: (usize, T)| e.0).to_set();
        let range = Set::new(|k: usize| k <= t.len());
        assert forall|k: usize| range.contains(k) implies keys.contains(k) by {
            assert(has_fd(t, k));
            let i = choose|i: int| 0 <= i < t.len() && #[trigger] t[i].0 == k;
            assert(t.map_values(|e: (usize, T)| e.0)[i] == k);
        }
        t.map_values(|e: (usize, T)| e.0).lemma_cardinality_of_set();
        lemma_range_len(t.len() as nat);
        vstd::set_lib::lemma_len_subset(range, keys);
        assert(false);
    }
}

/// Among the `n + 1` numbers `from..=from + n` and a table of `n` entries,
/// one number is free.
pub proof fn lemma_free_fd_exists_from<T>(t: Seq<(usize, T)>, from: usize)
    requires
        from + t.len() < usize::MAX,
    ensures
        exists|k: usize| from <= k <= from + t.len() && !has_fd(t, k),
{
    if forall|k: usize| from <= k <= from + t.len() ==> has_fd(t, k) {
        let keys = t.map_values(|e: (usize, T)| e.0).to_set();
        let range = Set::new(|k: usize| from <= k <= from + t.len());
        assert forall|k: usize| range.contains(k) implies keys.contains(k) by {
            assert(has_fd(t, k));
            let i = choose|i: int| 0 <= i < t.len() && #[trigger] t[i].0 == k;
            assert(t.map_values(|e: (usize, T)| e.0)[i] == k);
        }
        t.map_values(|e: (usize, T)| e.0).lemma_cardinality_of_set();
        lemma_range_from_len(from, t.len() as nat);
        vstd::set_lib::lemma_len_subset(range, keys);
        assert(false);
    }
}

/// The set `{from, ..., from + n}` has `n + 1` members.
proof fn lemma_range_from_len(from: usize, n: nat)
    requires
        from + n < usize::MAX,
    ensures
        Set::new(|k: usize| from <= k <= from + n).finite(),
        Set::new(|k: usize| from <= k <= from + n).len() == n + 1,
    decreases n,
{
    let s = Set::new(|k: usize| from <= k <= from + n);
    if n == 0 {
        assert(s =~= Set::empty().insert(from));
    } else {
        lemma_range_from_len(from, (n - 1) as nat);
        let p = Set::new(|k: usize| from <= k <= from + (n - 1) as nat);
        assert(s =~= p.insert((from + n) as usize));
    }
}

/// The set `{0, ..., n}` has `n + 1` members.
proof fn lemma_range_len(n: nat)
    requires
        n < usize::MAX,
    ensures
        Set::new(|k: usize| k <= n).finite(),
        Set::new(|k: usize| k <= n).len() == n + 1,
    decreases n,
{
    let s = Set::new(|k: usize| k <= n);
    if n == 0 {
        assert(s =~= Set::empty().insert(0usize));
    } else {
        lemma_range_len((n - 1) as nat);
        let p = Set::new(|k: usize| k <= (n - 1) as nat);
        assert(s =~= p.insert(n as usize));
    }
}

/// Finds the lowest free descriptor number from `from` up.
pub fn lowest_free_from<T>(t: &Vec<(usize, T)>, from: usize) -> (fd: usize)
    requires
        exists|k: usize| from <= k && !has_fd(t@, k),
    ensures
        is_lowest_free_from(t@, from, fd),
{
    let mut cand = from;
    loop
        invariant
            from <= cand,
            exists|k: usize| cand <= k && !has_fd(t@, k),
            forall|k: usize| from <= k < cand ==> has_fd(t@, k),
        decreases usize::MAX - cand,
    {
        match find_fd(t, cand) {
            Some(_) => {
                let ghost w = choose|k: usize| cand <= k && !has_fd(t@, k);
                assert(w != cand);
                cand = cand + 1;
            },
            None => {
                return cand;
            },
        }
    }
}

/// The position of descriptor `fd` in the table.
pub fn find_fd<T>(t: &Vec<(usize, T)>, fd: usize) -> (r: Option<usize>)
    ensures
        r matches Some(i) ==> i < t@.len() && t@[i as int].0 == fd && forall|j: int| 0 <= j < i ==> t@[j].0 != fd,
        r is None <==> !has_fd(t@, fd),
{
    let mut i: usize = 0;
    while i < t.len()
        invariant
            i <= t@.len(),
            forall|j: int| 0 <= j < i ==> t@[j].0 != fd,
        decreases t@.len() - i,
    {
        if t[i].0 == fd {
            return Some(i);
        }
        i += 1;
    }
    None
}


/// In a table without repeats, the entry at `i` is the object of its number.
pub proof fn lemma_fd_obj_at<T>(t: Seq<(usize, T)>, i: int)
    requires
        fds_unique(t),
        0 <= i < t.len(),
    ensures
        has_fd(t, t[i].0),
        fd_obj(t, t[i].0) == t[i].1,
{
    assert(t[i].0 == t[i].0);
    let j = choose|j: int| 0 <= j < t.len() && #[trigger] t[j].0 == t[i].0;
    if j != i {
        if j < i {
            assert(t[j].0 != t[i].0);
        } else {
            assert(t[i].0 != t[j].0);
        }
    }
}

/// Appending an entry with a new number adds it to the map.
pub proof fn lemma_fd_map_push<T>(t: Seq<(usize, T)>, k: usize, v: T)
    requires
        fds_unique(t),
        !has_fd(t, k),
    ensures
        fds_unique(t.push((k, v))),
        fd_map(t.push((k, v))) == fd_map(t).insert(k, v),
        forall|x: usize| has_fd(t.push((k, v)), x) <==> (has_fd(t, x) || x == k),
{
    let u = t.push((k, v));
    assert forall|i: int, j: int| 0 <= i < j < u.len() implies u[i].0 != u[j].0 by {
        if j == t.len() {
            if u[i].0 == k {
                assert(t[i].0 == k);
            }
        }
    }
    assert forall|x: usize| has_fd(u, x) <==> (has_fd(t, x) || x == k) by {
        if has_fd(t, x) {
            let i = choose|i: int| 0 <= i < t.len() && #[trigger] t[i].0 == x;
            assert(u[i].0 == x);
        }
        if x == k {
            assert(u[t.len() as int].0 == x);
        }
        if has_fd(u, x) && x != k {
            let i = choose|i: int| 0 <= i < u.len() && #[trigger] u[i].0 == x;
            assert(i < t.len());
            assert(t[i].0 == x);
        }
    }
    assert forall|x: usize| #[trigger] fd_map(u).dom().contains(x) implies fd_map(u)[x] == fd_map(t).insert(k, v)[x] by {
        let i = choose|i: int| 0 <= i < u.len() && #[trigger] u[i].0 == x;
        lemma_fd_obj_at(u, i);
        if x != k {
            assert(i < t.len());
            assert(t[i] == u[i]);
            lemma_fd_obj_at(t, i);
        } else {
            lemma_fd_obj_at(u, t.len() as int);
        }
    }
    assert(fd_map(u) =~= fd_map(t).insert(k, v));
}

/// Removing the entry at `i` removes its number from the map.
pub proof fn lemma_fd_map_remove<T>(t: Seq<(usize, T)>, i: int)
    requires
        fds_unique(t),
        0 <= i < t.len(),
    ensures
        fds_unique(t.remove(i)),
        fd_map(t.remove(i)) == fd_map(t).remove(t[i].0),
        forall|x: usize| has_fd(t.remove(i), x) <==> (has_fd(t, x) && x != t[i].0),
{
    let u = t.remove(i);
    let k = t[i].0;
    assert forall|a: int, b: int| 0 <= a < b < u.len() implies u[a].0 != u[b].0 by {
        let a2 = if a < i { a } else { a + 1 };
        let b2 = if b < i { b } else { b + 1 };
        assert(u[a] == t[a2]);
        assert(u[b] == t[b2]);
    }
    assert forall|x: usize| has_fd(u, x) <==> (has_fd(t, x) && x != k) by {
        if has_fd(u, x) {
            let a = choose|a: int| 0 <= a < u.len() && #[trigger] u[a].0 == x;
            let a2 = if a < i { a } else { a + 1 };
            assert(t[a2].0 == x);
            if x == k {
                assert(a2 != i);
                if a2 < i { assert(t[a2].0 != t[i].0); } else { assert(t[i].0 != t[a2].0); }
            }
        }
        if has_fd(t, x) && x != k {
            let a = choose|a: int| 0 <= a < t.len() && #[trigger] t[a].0 == x;
            assert(a != i);
            let a2 = if a < i { a } else { a - 1 };
            assert(u[a2].0 == x);
        }
    }
    assert forall|x: usize| #[trigger] fd_map(u).dom().contains(x) implies fd_map(u)[x] == fd_map(t).remove(k)[x] by {
        let a = choose|a: int| 0 <= a < u.len() && #[trigger] u[a].0 == x;
        let a2 = if a < i { a } else { a + 1 };
        assert(u[a] == t[a2]);
        lemma_fd_obj_at(u, a);
        lemma_fd_obj_at(t, a2);
    }
    assert(fd_map(u) =~= fd_map(t).remove(k));
}

/// Sets number `k` to `v`: an entry already there is replaced, else one is
/// appended.
pub fn fd_insert<T>(t: &mut Vec<(usize, T)>, k: usize, v: T)
    requires
        fds_unique(old(t)@),
    ensures
        fds_unique(final(t)@),
        fd_map(final(t)@) == fd_map(old(t)@).insert(k, v),
        forall|x: usize| has_fd(final(t)@, x) <==> (has_fd(old(t)@, x) || x == k),
{
    match find_fd(t, k) {
        Some(i) => {
            proof { lemma_fd_map_remove(t@, i as int); }
            let _ = t.remove(i);
            proof { lemma_fd_map_push(t@, k, v); }
            t.push((k, v));
            assert(fd_map(old(t)@).remove(k).insert(k, v) =~= fd_map(old(t)@).insert(k, v));
        },
        None => {
            proof { lemma_fd_map_push(t@, k, v); }
            t.push((k, v));
        },
    }
}

/// Takes number `k` out of the table, answering its object.
pub fn fd_remove<T>(t: &mut Vec<(usize, T)>, k: usize) -> (r: Option<T>)
    requires
        fds_unique(old(t)@),
    ensures
        fds_unique(final(t)@),
        fd_map(final(t)@) == fd_map(old(t)@).remove(k),
        forall|x: usize| has_fd(final(t)@, x) <==> (has_fd(old(t)@, x) && x != k),
        has_fd(old(t)@, k) ==> r == Some(fd_obj(old(t)@, k)),
        !has_fd(old(t)@, k) ==> r is None,
{
    match find_fd(t, k) {
        Some(i) => {
            proof {
                lemma_fd_map_remove(t@, i as int);
                lemma_fd_obj_at(t@, i as int);
            }
            let e = t.remove(i);
            Some(e.1)
        },
        None => {
            assert(fd_map(old(t)@).remove(k) =~= fd_map(old(t)@));
            None
        },
    }
}

} // verus!
