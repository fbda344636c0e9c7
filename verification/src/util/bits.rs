use vstd::prelude::*;
use vstd::std_specs::bits::u64_leading_zeros;

verus! {

/// Bit `i` of `v`, as 0 or 1.
pub open spec fn bit(v: u64, i: u64) -> u64 {
    (v >> i) & 1u64
}

/// The number of bits set in `v`: the sum of its 64 bits.
pub open spec fn ones(v: u64) -> int {
    ((v >> 0u64) & 1u64) + ((v >> 1u64) & 1u64) + ((v >> 2u64) & 1u64) + ((v >> 3u64) & 1u64) + ((v >> 4u64) & 1u64) + ((v >> 5u64) & 1u64) + ((v >> 6u64) & 1u64) + ((v >> 7u64) & 1u64) + ((v >> 8u64) & 1u64) + ((v >> 9u64) & 1u64) + ((v >> 10u64) & 1u64) + ((v >> 11u64) & 1u64) + ((v >> 12u64) & 1u64) + ((v >> 13u64) & 1u64) + ((v >> 14u64) & 1u64) + ((v >> 15u64) & 1u64) + ((v >> 16u64) & 1u64) + ((v >> 17u64) & 1u64) + ((v >> 18u64) & 1u64) + ((v >> 19u64) & 1u64) + ((v >> 20u64) & 1u64) + ((v >> 21u64) & 1u64) + ((v >> 22u64) & 1u64) + ((v >> 23u64) & 1u64) + ((v >> 24u64) & 1u64) + ((v >> 25u64) & 1u64) + ((v >> 26u64) & 1u64) + ((v >> 27u64) & 1u64) + ((v >> 28u64) & 1u64) + ((v >> 29u64) & 1u64) + ((v >> 30u64) & 1u64) + ((v >> 31u64) & 1u64) + ((v >> 32u64) & 1u64) + ((v >> 33u64) & 1u64) + ((v >> 34u64) & 1u64) + ((v >> 35u64) & 1u64) + ((v >> 36u64) & 1u64) + ((v >> 37u64) & 1u64) + ((v >> 38u64) & 1u64) + ((v >> 39u64) & 1u64) + ((v >> 40u64) & 1u64) + ((v >> 41u64) & 1u64) + ((v >> 42u64) & 1u64) + ((v >> 43u64) & 1u64) + ((v >> 44u64) & 1u64) + ((v >> 45u64) & 1u64) + ((v >> 46u64) & 1u64) + ((v >> 47u64) & 1u64) + ((v >> 48u64) & 1u64) + ((v >> 49u64) & 1u64) + ((v >> 50u64) & 1u64) + ((v >> 51u64) & 1u64) + ((v >> 52u64) & 1u64) + ((v >> 53u64) & 1u64) + ((v >> 54u64) & 1u64) + ((v >> 55u64) & 1u64) + ((v >> 56u64) & 1u64) + ((v >> 57u64) & 1u64) + ((v >> 58u64) & 1u64) + ((v >> 59u64) & 1u64) + ((v >> 60u64) & 1u64) + ((v >> 61u64) & 1u64) + ((v >> 62u64) & 1u64) + ((v >> 63u64) & 1u64)
}

/// The number of bits set in the low byte of `b`.
pub open spec fn ones8(b: u64) -> int {
    ((b >> 0u64) & 1u64) + ((b >> 1u64) & 1u64) + ((b >> 2u64) & 1u64) + ((b >> 3u64) & 1u64) + ((b >> 4u64) & 1u64) + ((b >> 5u64) & 1u64) + ((b >> 6u64) & 1u64) + ((b >> 7u64) & 1u64)
}

/// Byte `j` of `v`.
pub open spec fn byte(v: u64, j: u64) -> u64 {
    (v >> (8 * j) as u64) & 0xffu64
}

/// Takes the bits of `b` where `mask` is set and those of `a` elsewhere.
pub fn bitwise_merge(a: u64, b: u64, mask: u64) -> (r: u64)
    ensures
        forall|i: u64| #![trigger bit(r, i)]
            i < 64 ==> bit(r, i) == if bit(mask, i) == 1 { bit(b, i) } else { bit(a, i) },
{
    let r = (a & !mask) | (b & mask);
    assert forall|i: u64| #![trigger bit(r, i)]
        i < 64 implies bit(r, i) == if bit(mask, i) == 1 { bit(b, i) } else { bit(a, i) } by {
        assert(((r >> i) & 1u64) == if ((mask >> i) & 1u64) == 1 { (b >> i) & 1u64 } else { (a >> i) & 1u64 }) by (bit_vector)
            requires
                r == (a & !mask) | (b & mask),
                i < 64,
        ;
    }
    r
}

/// Rotates the low `width` bits of `value` left by `amount % width`, clearing
/// the bits above `width`. A `width` of 0 or above 64, or a rotation by a
/// multiple of `width`, leaves `value` as it is.
pub fn rotate_bits(value: u64, amount: u32, width: u32) -> (r: u64)
    ensures
        (width == 0 || width > 64 || amount % width == 0) ==> r == value,
        !(width == 0 || width > 64 || amount % width == 0) ==> {
            let k = (amount % width) as u64;
            &&& forall|i: u64| #![trigger bit(r, i)]
                i < width ==> bit(r, i) == if i >= k { bit(value, (i - k) as u64) } else { bit(value, (i + width - k) as u64) }
            &&& forall|i: u64| #![trigger bit(r, i)] width <= i < 64 ==> bit(r, i) == 0
        },
{
    if width == 0 || width > 64 {
        return value;
    }
    let actual = amount % width;
    if actual == 0 {
        return value;
    }
    let mask = if width == 64 {
        !0u64
    } else {
        assert((1u64 << width) >= 1) by (bit_vector)
            requires
                width < 64,
        ;
        (1u64 << width) - 1
    };
    let v = value & mask;
    let r = ((v << actual) | (v >> (width - actual))) & mask;
    proof {
        let a: u64 = actual as u64;
        let w: u64 = width as u64;
        assert forall|i: u64| #![trigger bit(r, i)]
            i < width implies bit(r, i) == if i >= a { bit(value, (i - a) as u64) } else { bit(value, (i + w - a) as u64) } by {
            if i >= a {
                let ia: u64 = (i - a) as u64;
                assert(((r >> i) & 1u64) == (value >> ia) & 1u64) by (bit_vector)
                    requires
                        0 < a < w, w <= 64, a <= i < w, ia == i - a,
                        mask == if w == 64 { !0u64 } else { ((1u64 << w) - 1) as u64 },
                        v == value & mask,
                        r == ((v << a) | (v >> ((w - a) as u64))) & mask,
                ;
            } else {
                let ib: u64 = (i + w - a) as u64;
                assert(((r >> i) & 1u64) == (value >> ib) & 1u64) by (bit_vector)
                    requires
                        0 < a < w, w <= 64, i < a, ib == i + w - a,
                        mask == if w == 64 { !0u64 } else { ((1u64 << w) - 1) as u64 },
                        v == value & mask,
                        r == ((v << a) | (v >> ((w - a) as u64))) & mask,
                ;
            }
        }
        assert forall|i: u64| #![trigger bit(r, i)] width <= i < 64 implies bit(r, i) == 0 by {
            assert(((r >> i) & 1u64) == 0) by (bit_vector)
                requires
                    w <= i < 64,
                    mask == if w == 64 { !0u64 } else { ((1u64 << w) - 1) as u64 },
                    r == ((v << a) | (v >> ((w - a) as u64))) & mask,
            ;
        }
    }
    r
}

/// After the first three steps of the parallel bit count, byte `j` holds
/// the number of bits set in byte `j` of the input.
proof fn lemma_popcount_byte(v: u64, v1: u64, v2: u64, v3: u64, j: u64)
    requires
        j < 8,
        v1 == v - ((v >> 1) & 0x5555555555555555u64),
        v2 == (v1 & 0x3333333333333333u64) + ((v1 >> 2) & 0x3333333333333333u64),
        v3 == ((v2 + (v2 >> 4)) as u64) & 0x0F0F0F0F0F0F0F0Fu64,
    ensures
        byte(v3, j) == ones8(byte(v, j)),
        byte(v3, j) <= 8,
{
    assert(byte(v3, j) == ones8(byte(v, j)) && byte(v3, j) <= 8) by (bit_vector)
        requires
            j < 8,
            v1 == v - ((v >> 1) & 0x5555555555555555u64),
            v2 == (v1 & 0x3333333333333333u64) + ((v1 >> 2) & 0x3333333333333333u64),
            v3 == ((v2 + (v2 >> 4)) as u64) & 0x0F0F0F0F0F0F0F0Fu64,
    ;
}

/// The number of set bits in `v`.
pub fn popcount64(v: u64) -> (r: u32)
    ensures
        r == ones(v),
{
    let v0 = v;
    assert(v0 >= ((v0 >> 1) & 0x5555555555555555u64)) by (bit_vector);
    let v1 = v0 - ((v0 >> 1) & 0x5555555555555555);
    assert((v1 & 0x3333333333333333u64) + ((v1 >> 2) & 0x3333333333333333u64) <= u64::MAX) by (bit_vector);
    let v2 = (v1 & 0x3333333333333333) + ((v1 >> 2) & 0x3333333333333333);
    assert(v2 + (v2 >> 4) <= u64::MAX) by (bit_vector)
        requires
            v1 == v0 - ((v0 >> 1) & 0x5555555555555555u64),
            v2 == (v1 & 0x3333333333333333u64) + ((v1 >> 2) & 0x3333333333333333u64),
    ;
    let v3 = (v2 + (v2 >> 4)) & 0x0F0F0F0F0F0F0F0F;
    let m = v3.wrapping_mul(0x0101010101010101);
    let r = m >> 56;
    proof {
        let prod: nat = v3 as nat * 0x0101010101010101nat;
        assert(m == (prod % 0x10000000000000000nat) as u64);
        assert(((v3 * 0x0101010101010101u64) % 0x10000000000000000int) as u64 == (v3
            * 0x0101010101010101u64) as u64) by (bit_vector);
        assert(ones(v) == ones8(byte(v, 0)) + ones8(byte(v, 1)) + ones8(byte(v, 2)) + ones8(byte(v, 3))
            + ones8(byte(v, 4)) + ones8(byte(v, 5)) + ones8(byte(v, 6)) + ones8(byte(v, 7))) by (bit_vector);
        lemma_popcount_byte(v, v1, v2, v3, 0);
        lemma_popcount_byte(v, v1, v2, v3, 1);
        lemma_popcount_byte(v, v1, v2, v3, 2);
        lemma_popcount_byte(v, v1, v2, v3, 3);
        lemma_popcount_byte(v, v1, v2, v3, 4);
        lemma_popcount_byte(v, v1, v2, v3, 5);
        lemma_popcount_byte(v, v1, v2, v3, 6);
        lemma_popcount_byte(v, v1, v2, v3, 7);
        assert(r == byte(v3, 0) + byte(v3, 1) + byte(v3, 2) + byte(v3, 3) + byte(v3, 4) + byte(v3, 5)
            + byte(v3, 6) + byte(v3, 7)) by (bit_vector)
            requires
                byte(v3, 0) <= 8, byte(v3, 1) <= 8, byte(v3, 2) <= 8, byte(v3, 3) <= 8,
                byte(v3, 4) <= 8, byte(v3, 5) <= 8, byte(v3, 6) <= 8, byte(v3, 7) <= 8,
                m == (v3 * 0x0101010101010101u64) as u64,
                r == m >> 56u64,
        ;
    }
    r as u32
}

/// The number of leading zero bits of `v` (64 for 0).
pub fn clz64(v: u64) -> (r: u32)
    ensures
        r == u64_leading_zeros(v),
{
    proof {
        vstd::std_specs::bits::axiom_u64_leading_zeros(v);
    }
    if v == 0 {
        return 64;
    }
    let mut n = 0u32;
    let mut x = v;
    let ghost x0 = x;
    if x & 0xFFFFFFFF00000000 == 0 {
        n += 32;
        x <<= 32;
    }
    let ghost (x1, n1) = (x, n as u64);
    if x & 0xFFFF000000000000 == 0 {
        n += 16;
        x <<= 16;
    }
    let ghost (x2, n2) = (x, n as u64);
    if x & 0xFF00000000000000 == 0 {
        n += 8;
        x <<= 8;
    }
    let ghost (x3, n3) = (x, n as u64);
    if x & 0xF000000000000000 == 0 {
        n += 4;
        x <<= 4;
    }
    let ghost (x4, n4) = (x, n as u64);
    if x & 0xC000000000000000 == 0 {
        n += 2;
        x <<= 2;
    }
    let ghost (x5, n5) = (x, n as u64);
    if x & 0x8000000000000000 == 0 {
        n += 1;
    }
    proof {
        let k: u64 = n as u64;
        let lz: u64 = u64_leading_zeros(v) as u64;
        let k1: u64 = (63 - k) as u64;
        let k2: u64 = (64 - k) as u64;
        assert(k < 64 && (v >> k1) & 1u64 != 0 && v >> k2 == 0) by (bit_vector)
            requires
                v != 0,
                x0 == v,
                x1 == if x0 & 0xFFFFFFFF00000000u64 == 0 { x0 << 32u64 } else { x0 },
                n1 == if x0 & 0xFFFFFFFF00000000u64 == 0 { 32u64 } else { 0u64 },
                x2 == if x1 & 0xFFFF000000000000u64 == 0 { x1 << 16u64 } else { x1 },
                n2 == if x1 & 0xFFFF000000000000u64 == 0 { n1 + 16 } else { n1 + 0 },
                x3 == if x2 & 0xFF00000000000000u64 == 0 { x2 << 8u64 } else { x2 },
                n3 == if x2 & 0xFF00000000000000u64 == 0 { n2 + 8 } else { n2 + 0 },
                x4 == if x3 & 0xF000000000000000u64 == 0 { x3 << 4u64 } else { x3 },
                n4 == if x3 & 0xF000000000000000u64 == 0 { n3 + 4 } else { n3 + 0 },
                x5 == if x4 & 0xC000000000000000u64 == 0 { x4 << 2u64 } else { x4 },
                n5 == if x4 & 0xC000000000000000u64 == 0 { n4 + 2 } else { n4 + 0 },
                k == if x5 & 0x8000000000000000u64 == 0 { n5 + 1 } else { n5 + 0 },
                k1 == 63 - k,
                k2 == 64 - k,
        ;
        let l1: u64 = (63 - lz) as u64;
        let l2: u64 = (64 - lz) as u64;
        assert(k == lz) by (bit_vector)
            requires
                k < 64,
                lz < 64,
                k1 == 63 - k,
                k2 == 64 - k,
                l1 == 63 - lz,
                l2 == 64 - lz,
                (v >> k1) & 1u64 != 0,
                v >> k2 == 0,
                (v >> l1) & 1u64 != 0,
                v >> l2 == 0,
        ;
    }
    n
}

/// The index of the lowest set bit of `v`, or `None` for 0.
pub fn ffs64(v: u64) -> (r: Option<u32>)
    ensures
        v == 0 <==> r is None,
        r matches Some(k) ==> k < 64 && bit(v, k as u64) == 1 && forall|j: u64|
            #![trigger bit(v, j)]
            j < k ==> bit(v, j) == 0,
{
    if v == 0 {
        return None;
    }
    assert(!v < u64::MAX) by (bit_vector)
        requires
            v != 0,
    ;
    let low = v & (!v + 1);
    assert(low != 0) by (bit_vector)
        requires
            v != 0,
            low == v & ((!v + 1) as u64),
    ;
    let z = clz64(low);
    proof {
        vstd::std_specs::bits::axiom_u64_leading_zeros(low);
    }
    let k = 63 - z;
    proof {
        let kk: u64 = k as u64;
        let l2: u64 = (64 - z) as u64;
        assert(z < 64);
        assert((low >> kk) & 1u64 != 0);
        assert(low >> l2 == 0);
        assert((v >> kk) & 1u64 == 1 && low == (1u64 << kk)) by (bit_vector)
            requires
                v != 0,
                low == v & ((!v + 1) as u64),
                kk < 64,
                l2 == kk + 1,
                (low >> kk) & 1u64 != 0,
                low >> l2 == 0,
        ;
        assert forall|j: u64| #![trigger bit(v, j)] j < kk implies bit(v, j) == 0 by {
            assert((v >> j) & 1u64 == 0) by (bit_vector)
                requires
                    v != 0,
                    low == v & ((!v + 1) as u64),
                    low == (1u64 << kk),
                    j < kk,
                    kk < 64,
            ;
        }
    }
    Some(k)
}

} // verus!
