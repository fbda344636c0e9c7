use vstd::prelude::*;
use std::collections::BTreeMap;

verus! {

/// The size of a machine word, in bytes.
pub open spec fn word_size() -> int {
    (usize::BITS / 8) as int
}

/// The number of bytes `s` takes in UTF-8.
pub open spec fn byte_len(s: String) -> int {
    (vstd::utf8::encode_utf8(s@).len() as usize) as int
}

/// `x - y` in machine arithmetic, wrapping below 0.
pub open spec fn wsub(x: int, y: int) -> int {
    if x - y < 0 { x - y + usize::MAX + 1 } else { x - y }
}

/// The stack pointer after pushing each string of `v` (with its NUL) below
/// `sp`, in machine arithmetic.
pub open spec fn push_strs(sp: int, v: Seq<String>) -> int
    decreases v.len(),
{
    if v.len() == 0 {
        sp
    } else {
        wsub(push_strs(sp, v.drop_last()), byte_len(v.last()) + 1)
    }
}

/// Every string of `v` is shorter than the largest word.
pub open spec fn strs_fit(v: Seq<String>) -> bool {
    forall|i: int| 0 <= i < v.len() ==> byte_len(#[trigger] v[i]) < usize::MAX
}

/// The bytes taken by the strings of `v`, each with its NUL.
pub open spec fn strs_size(v: Seq<String>) -> int
    decreases v.len(),
{
    if v.len() == 0 {
        0
    } else {
        strs_size(v.drop_last()) + byte_len(v.last()) + 1
    }
}

/// The initial stack of a process: arguments, environment and auxiliary
/// vector.
pub struct ProcInit {
    pub args: Vec<String>,
    pub envs: Vec<String>,
    pub auxv: BTreeMap<u8, usize>,
}

/// The stack pointer before alignment when arguments `args`, environment
/// `envs` and `n_aux` auxiliary pairs are laid out below `top`: first the
/// first argument, then every environment string and every argument
/// (wrapping), then the auxiliary vector, the environment and argument
/// pointer arrays and the argument count.
pub open spec fn init_stack(args: Seq<String>, envs: Seq<String>, n_aux: int, top: int) -> int {
    let a0l = if args.len() > 0 { byte_len(args[0]) } else { 0 };
    let s1 = top - (a0l + 1);
    let s2 = push_strs(push_strs(s1, envs), args);
    s2 - (n_aux * 2 + 2) * word_size() - (envs.len() + 1) * word_size() - (args.len() + 1) * word_size() - word_size()
}

/// The layout of `init_stack` stays within machine words.
pub open spec fn init_fits(args: Seq<String>, envs: Seq<String>, n_aux: int, top: int) -> bool {
    &&& strs_fit(args)
    &&& strs_fit(envs)
    &&& (args.len() > 0 ==> byte_len(args[0]) + 1 <= top) && top >= 1
    &&& (n_aux * 2 + 2) * word_size() <= usize::MAX
    &&& (envs.len() + 1) * word_size() <= usize::MAX
    &&& (args.len() + 1) * word_size() <= usize::MAX
    &&& init_stack(args, envs, n_aux, top) >= 0
}

/// `x` rounded down to a multiple of 16.
pub open spec fn align16(x: int) -> int {
    x - x % 16
}

/// The stack pointer `push_at(top)` answers, before alignment.
pub open spec fn stack_before_align(p: ProcInit, top: int) -> int {
    init_stack(p.args@, p.envs@, p.auxv.len() as int, top)
}

fn str_bytes(s: &String) -> (n: usize)
    ensures
        n == byte_len(*s),
{
    s.as_str().len()
}

/// The stack pointer after pushing the strings of `v` below `sp`.
fn push_all(sp: usize, v: &Vec<String>) -> (r: usize)
    requires
        strs_fit(v@),
    ensures
        r == push_strs(sp as int, v@),
{
    let mut cur = sp;
    let mut i: usize = 0;
    while i < v.len()
        invariant
            i <= v@.len(),
            strs_fit(v@),
            cur == push_strs(sp as int, v@.take(i as int)),
        decreases v@.len() - i,
    {
        let l = str_bytes(&v[i]);
        assert(byte_len(v@[i as int]) < usize::MAX);
        assert(v@.take(i + 1).drop_last() =~= v@.take(i as int));
        cur = cur.wrapping_sub(l + 1);
        i += 1;
    }
    assert(v@.take(i as int) =~= v@);
    cur
}

impl ProcInit {
    /// The initial stack pointer when the stack is laid out below `top`,
    /// rounded down to 16 bytes.
    pub fn push_at(&self, top: usize) -> (r: usize)
        requires
            init_fits(self.args@, self.envs@, self.auxv.len() as int, top as int),
        ensures
            r == align16(stack_before_align(*self, top as int)),
    {
        let word: usize = (usize::BITS / 8) as usize;
        let mut sp = top;
        let a0l = if self.args.len() > 0 { str_bytes(&self.args[0]) } else { 0 };
        sp -= a0l + 1;
        sp = push_all(sp, &self.envs);
        sp = push_all(sp, &self.args);
        let aux_pairs = self.auxv.len();
        assert((aux_pairs * 2 + 2) * word_size() <= usize::MAX);
        assert(word == word_size());
        assert(aux_pairs * 2 + 2 <= usize::MAX) by (nonlinear_arith)
            requires
                (aux_pairs * 2 + 2) * word <= usize::MAX,
                word >= 1,
        ;
        let aux_bytes = (aux_pairs * 2 + 2) * word;
        sp -= aux_bytes;
        assert((self.envs@.len() + 1) * word_size() <= usize::MAX);
        let n_envs = self.envs.len();
        assert(n_envs + 1 <= usize::MAX) by (nonlinear_arith)
            requires
                (n_envs + 1) * word <= usize::MAX,
                word >= 1,
        ;
        let env_ptrs_bytes = (self.envs.len() + 1) * word;
        sp -= env_ptrs_bytes;
        assert((self.args@.len() + 1) * word_size() <= usize::MAX);
        let n_args = self.args.len();
        assert(n_args + 1 <= usize::MAX) by (nonlinear_arith)
            requires
                (n_args + 1) * word <= usize::MAX,
                word >= 1,
        ;
        let arg_ptrs_bytes = (self.args.len() + 1) * word;
        sp -= arg_ptrs_bytes;
        sp -= word;
        let align = sp & 0xF;
        assert(sp & 0xF == sp % 16) by (bit_vector);
        if align != 0 {
            sp -= align;
        }
        sp
    }

    /// The bytes the initial stack takes: every string with its NUL, the
    /// auxiliary vector, both pointer arrays and the argument count.
    pub fn total_size(&self) -> (r: usize)
        requires
            strs_size(self.args@) + strs_size(self.envs@) + (self.auxv.len() * 2 + 2 + self.args@.len() + 1
                + self.envs@.len() + 1 + 1) * word_size() <= usize::MAX,
        ensures
            r == strs_size(self.args@) + strs_size(self.envs@) + (self.auxv.len() * 2 + 2 + self.args@.len() + 1
                + self.envs@.len() + 1 + 1) * word_size(),
    {
        let word: usize = (usize::BITS / 8) as usize;
        let ghost rest = (self.auxv.len() * 2 + 2 + self.args@.len() + 1 + self.envs@.len() + 1 + 1) * word_size();
        let mut sz: usize = 0;
        let mut i: usize = 0;
        while i < self.args.len()
            invariant
                i <= self.args@.len(),
                sz == strs_size(self.args@.take(i as int)),
                strs_size(self.args@) + strs_size(self.envs@) + rest <= usize::MAX,
                rest >= 0,
            decreases self.args@.len() - i,
        {
            assert(self.args@.take(i + 1).drop_last() =~= self.args@.take(i as int));
            proof {
                lemma_strs_size_prefix(self.args@, i as int + 1);
                lemma_strs_size_nonneg(self.envs@);
            }
            sz += str_bytes(&self.args[i]) + 1;
            i += 1;
        }
        assert(self.args@.take(i as int) =~= self.args@);
        let mut j: usize = 0;
        while j < self.envs.len()
            invariant
                j <= self.envs@.len(),
                sz == strs_size(self.args@) + strs_size(self.envs@.take(j as int)),
                strs_size(self.args@) + strs_size(self.envs@) + rest <= usize::MAX,
                rest >= 0,
            decreases self.envs@.len() - j,
        {
            assert(self.envs@.take(j + 1).drop_last() =~= self.envs@.take(j as int));
            proof {
                lemma_strs_size_prefix(self.envs@, j as int + 1);
            }
            sz += str_bytes(&self.envs[j]) + 1;
            j += 1;
        }
        assert(self.envs@.take(j as int) =~= self.envs@);
        sz + (self.auxv.len() * 2 + 2 + self.args.len() + 1 + self.envs.len() + 1 + 1) * word
    }
}

/// The strings of a prefix take no more than all of them.
proof fn lemma_strs_size_prefix(v: Seq<String>, n: int)
    requires
        0 <= n <= v.len(),
    ensures
        strs_size(v.take(n)) <= strs_size(v),
    decreases v.len(),
{
    if n < v.len() {
        assert(v.take(n) =~= v.drop_last().take(n));
        lemma_strs_size_prefix(v.drop_last(), n);
    } else {
        assert(v.take(n) =~= v);
    }
}

proof fn lemma_strs_size_nonneg(v: Seq<String>)
    ensures
        strs_size(v) >= 0,
    decreases v.len(),
{
    if v.len() > 0 {
        lemma_strs_size_nonneg(v.drop_last());
    }
}

} // verus!
