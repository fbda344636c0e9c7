use vstd::prelude::*;
use vstd::arithmetic::power2::{is_pow2, pow2};

verus! {

/// A power of two, as the bit test `v != 0 && v & (v - 1) == 0` sees it.
pub proof fn lemma_pow2_bits(v: usize)
    ensures
        is_pow2(v as int) <==> (v != 0 && v & ((v - 1) as usize) == 0),
    decreases v,
{
    reveal(is_pow2);
    if v >= 2 {
        let w: usize = v / 2;
        let vm: usize = (v - 1) as usize;
        let wm: usize = (w - 1) as usize;
        assert(w == v >> 1) by (bit_vector)
            requires
                w == v / 2,
        ;
        assert((v & vm == 0) <==> (v % 2 == 0 && w & wm == 0)) by (bit_vector)
            requires
                v >= 2,
                vm == v - 1,
                w == v >> 1,
                wm == w - 1,
        ;
        lemma_pow2_bits(w);
    } else if v == 1 {
        let vm: usize = 0;
        assert(v & vm == 0) by (bit_vector)
            requires
                vm == 0,
        ;
    }
}

/// Masking off the low bits below a power of two rounds down to a multiple of it.
proof fn lemma_mask_rounds_down(x: usize, a: usize, am: usize)
    requires
        is_pow2(a as int),
        am == a - 1,
    ensures
        x & !am == x - x % a,
{
    vstd::arithmetic::power2::is_pow2_equiv(a as int);
    let i: nat = choose|i: nat| vstd::arithmetic::power::pow(2, i) == a;
    vstd::arithmetic::power2::lemma_pow2(i);
    vstd::arithmetic::power2::lemma2_to64();
    if i >= usize::BITS {
        if i > usize::BITS {
            vstd::arithmetic::power2::lemma_pow2_strictly_increases(usize::BITS as nat, i);
        }
        assert(false);
    }
    vstd::bits::lemma_usize_low_bits_mask_is_mod(x, i);
    assert(x & !am == x - (x & am)) by (bit_vector);
}

/// Rounds `addr` up to a multiple of `align` when `align` is a power of two;
/// any other `align` leaves `addr` unchanged.
pub fn align_up(addr: usize, align: usize) -> (r: usize)
    requires
        is_pow2(align as int) ==> addr + align - 1 <= usize::MAX,
    ensures
        is_pow2(align as int) ==> r % align == 0 && addr <= r < addr + align,
        !is_pow2(align as int) ==> r == addr,
{
    proof {
        lemma_pow2_bits(align);
    }
    if align == 0 || (align & (align - 1)) != 0 {
        return addr;
    }
    assert(is_pow2(align as int));
    let s = addr + (align - 1);
    proof {
        assert(s % align < align) by (nonlinear_arith)
            requires align > 0;
        assert(s - s % align >= addr) by (nonlinear_arith)
            requires s == addr + align - 1, align > 0, s % align < align;
        assert(((s - s % align) as int) % (align as int) == 0) by (nonlinear_arith)
            requires align > 0;
        lemma_mask_rounds_down(s, align, (align - 1) as usize);
    }
    s & !(align - 1)
}

/// Rounds `addr` down to a multiple of `align` when `align` is a power of two;
/// any other `align` leaves `addr` unchanged.
pub fn align_down(addr: usize, align: usize) -> (r: usize)
    ensures
        is_pow2(align as int) ==> r == addr - addr % align,
        !is_pow2(align as int) ==> r == addr,
{
    proof {
        lemma_pow2_bits(align);
    }
    if align == 0 || (align & (align - 1)) != 0 {
        return addr;
    }
    proof {
        lemma_mask_rounds_down(addr, align, (align - 1) as usize);
    }
    addr & !(align - 1)
}

/// Whether `v` is a power of two.
pub fn is_power_of_two(v: usize) -> (r: bool)
    ensures
        r == is_pow2(v as int),
{
    proof {
        lemma_pow2_bits(v);
    }
    v != 0 && (v & (v - 1)) == 0
}

/// The floor of the base-2 logarithm of `v`; 0 for `v == 0`.
pub fn log2_floor(v: usize) -> (r: usize)
    ensures
        v == 0 ==> r == 0,
        v > 0 ==> r < 64 && pow2(r as nat) <= v < pow2(r as nat + 1),
{
    if v == 0 {
        return 0;
    }
    let x: u64 = v as u64;
    let lz: u32 = x.leading_zeros();
    proof {
        vstd::std_specs::bits::axiom_u64_leading_zeros(x);
    }
    let k: u64 = 63 - lz as u64;
    proof {
        let k1: u64 = (k + 1) as u64;
        assert(x >= (1u64 << k)) by (bit_vector)
            requires
                k < 64,
                (x >> k) & 1u64 != 0u64,
        ;
        assert(k < 63 ==> x < (1u64 << k1)) by (bit_vector)
            requires
                k < 64,
                k1 == k + 1,
                x >> k1 == 0,
        ;
        vstd::bits::lemma_u64_pow2_no_overflow(k as nat);
        vstd::bits::lemma_u64_shl_is_mul(1, k);
        if k < 63 {
            vstd::bits::lemma_u64_pow2_no_overflow((k + 1) as nat);
            vstd::bits::lemma_u64_shl_is_mul(1, (k + 1) as u64);
        } else {
            vstd::arithmetic::power2::lemma2_to64();
            assert(pow2(64) == 0x10000000000000000);
            vstd::arithmetic::power2::lemma_pow2_unfold(64);
        }
    }
    k as usize
}

} // verus!
