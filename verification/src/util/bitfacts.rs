use vstd::prelude::*;

verus! {

/// Testing bit `s` of `x` with a mask agrees with reading it by a shift.
pub proof fn lemma_bit_test(x: u64, s: u64)
    by (bit_vector)
    requires
        s < 64,
    ensures
        ((x & (1u64 << s)) != 0) == ((x >> s) & 1u64 == 1u64),
{
}

/// Setting bit `s` makes it one, clearing it makes it zero, and neither
/// touches bit `o != s`.
pub proof fn lemma_set_clear_bit(x: u64, s: u64, o: u64)
    by (bit_vector)
    requires
        s < 64,
        o < 64,
    ensures
        ((x | (1u64 << s)) >> s) & 1u64 == 1u64,
        ((x & !(1u64 << s)) >> s) & 1u64 == 0u64,
        (((x | (1u64 << s)) & !(1u64 << s)) >> s) & 1u64 == 0u64,
        o != s ==> ((x | (1u64 << s)) >> o) & 1u64 == (x >> o) & 1u64,
        o != s ==> ((x & !(1u64 << s)) >> o) & 1u64 == (x >> o) & 1u64,
{
}

/// Or-ing in a flag twice is or-ing it once, and or-ing in nothing changes
/// nothing.
pub proof fn lemma_or_flag(e: u32, f: u32)
    by (bit_vector)
    ensures
        (e | f) | f == e | f,
        e | 0u32 == e,
{
}

/// Page rounding of words: it keeps order, stays below its argument, and
/// the offset inside the page makes up the difference.
pub proof fn lemma_page_bits(a: usize, b: usize)
    by (bit_vector)
    ensures
        a <= b ==> (a & !0xFFFusize) <= (b & !0xFFFusize),
        (a & !0xFFFusize) <= a,
        (a & 0xFFFusize) <= a,
        (a & 0xFFFusize) < 4096,
        (a & !0xFFFusize) + (a & 0xFFFusize) == a,
{
}

/// Testing bit `b` of a 32-bit word with a mask agrees with reading it by
/// a shift.
pub proof fn lemma_bit_test32(x: u32, b: u32)
    by (bit_vector)
    requires
        b < 32,
    ensures
        ((x & (1u32 << b)) != 0) == ((x >> b) & 1u32 == 1u32),
{
}

/// A single bit below 64 is not zero.
pub proof fn lemma_one_bit_nonzero(s: u64)
    by (bit_vector)
    requires
        s < 64,
    ensures
        (1u64 << s) != 0,
{
}

} // verus!
