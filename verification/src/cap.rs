use vstd::prelude::*;
use crate::util::bitfacts::{lemma_bit_test, lemma_set_clear_bit};
use crate::config::INHERITABLE_MASK;

verus! {

/// Bit `i` of `v` is set.
pub open spec fn has_bit(v: u64, i: u32) -> bool {
    (v >> (i as u64)) & 1u64 == 1u64
}

/// A task's capabilities: the permitted set, the effective set and the
/// ambient set, one bit per capability.
pub struct CapSet {
    pub bits: u64,
    pub effective: u64,
    pub ambient: u64,
}

impl CapSet {
    /// No capabilities.
    pub fn new() -> (r: Self)
        ensures
            r.bits == 0 && r.effective == 0 && r.ambient == 0,
    {
        CapSet { bits: 0, effective: 0, ambient: 0 }
    }

    /// Every capability permitted and effective, none ambient.
    pub fn full() -> (r: Self)
        ensures
            r.bits == u64::MAX && r.effective == u64::MAX && r.ambient == 0,
    {
        assert(!0u64 == u64::MAX) by (bit_vector);
        CapSet { bits: !0u64, effective: !0u64, ambient: 0 }
    }

    /// Whether capability `cap` is effective (never for `cap >= 64`).
    pub fn check(&self, cap: u32) -> (r: bool)
        ensures
            r == (cap < 64 && has_bit(self.effective, cap)),
    {
        if cap >= 64 {
            return false;
        }
        proof { lemma_bit_test(self.effective, cap as u64); }
        (self.effective & (1u64 << cap)) != 0
    }

    /// Permits and activates capability `cap` (ignored for `cap >= 64`);
    /// every other bit stays as it was.
    pub fn grant(&mut self, cap: u32)
        ensures
            final(self).ambient == old(self).ambient,
            cap >= 64 ==> *final(self) == *old(self),
            cap < 64 ==> final(self).bits == old(self).bits | (1u64 << (cap as u64)) && final(self).effective
                == old(self).effective | (1u64 << (cap as u64)),
    {
        if cap < 64 {
            self.bits |= 1u64 << cap;
            self.effective |= 1u64 << cap;
        }
    }

    /// Withdraws capability `cap` from the permitted and effective sets
    /// (ignored for `cap >= 64`).
    pub fn drop_cap(&mut self, cap: u32)
        ensures
            final(self).ambient == old(self).ambient,
            cap >= 64 ==> *final(self) == *old(self),
            cap < 64 ==> final(self).bits == old(self).bits & !(1u64 << (cap as u64)) && final(self).effective
                == old(self).effective & !(1u64 << (cap as u64)),
    {
        if cap < 64 {
            self.bits &= !(1u64 << cap);
            self.effective &= !(1u64 << cap);
        }
    }

    /// The capabilities a child inherits: the parent's, less the
    /// non-inheritable ones; the ambient set is kept.
    pub fn inherit(parent: &CapSet) -> (r: CapSet)
        ensures
            r.bits == parent.bits & !INHERITABLE_MASK,
            r.effective == parent.effective & !INHERITABLE_MASK,
            r.ambient == parent.ambient,
    {
        let mask = INHERITABLE_MASK;
        CapSet { bits: parent.bits & !mask, effective: parent.effective & !mask, ambient: parent.ambient }
    }

    /// Whether any capability of `mask` is effective.
    pub fn has_any(&self, mask: u64) -> (r: bool)
        ensures
            r == (self.effective & mask != 0),
    {
        (self.effective & mask) != 0
    }

    /// Empties the ambient set.
    pub fn clear_ambient(&mut self)
        ensures
            final(self).ambient == 0,
            final(self).bits == old(self).bits && final(self).effective == old(self).effective,
    {
        self.ambient = 0;
    }

    /// Adds a permitted capability `cap` to the ambient set; answers whether
    /// it was permitted (never for `cap >= 64`).
    pub fn raise_ambient(&mut self, cap: u32) -> (r: bool)
        ensures
            r == (cap < 64 && has_bit(old(self).bits, cap)),
            final(self).bits == old(self).bits && final(self).effective == old(self).effective,
            final(self).ambient == if r { old(self).ambient | (1u64 << (cap as u64)) } else { old(self).ambient },
    {
        if cap >= 64 {
            return false;
        }
        let bit = 1u64 << cap;
        proof { lemma_bit_test(self.bits, cap as u64); }
        if (self.bits & bit) != 0 {
            self.ambient |= bit;
            true
        } else {
            false
        }
    }
}

/// A granted capability is effective, and a dropped one is not,
/// whatever the set held before.
pub proof fn law_grant_then_check(c: CapSet, cap: u32)
    requires
        cap < 64,
    ensures
        has_bit(c.effective | (1u64 << (cap as u64)), cap),
        !has_bit(c.effective & !(1u64 << (cap as u64)), cap),
{
    lemma_set_clear_bit(c.effective, cap as u64, cap as u64);
}

/// Granting or dropping capability `cap` leaves every other
/// capability as it was.
pub proof fn law_grant_drop_touch_one_bit(e: u64, cap: u32, other: u32)
    requires
        cap < 64,
        other < 64,
        other != cap,
    ensures
        has_bit(e | (1u64 << (cap as u64)), other) == has_bit(e, other),
        has_bit(e & !(1u64 << (cap as u64)), other) == has_bit(e, other),
{
    lemma_set_clear_bit(e, cap as u64, other as u64);
}

/// A child never inherits a non-inheritable capability.
pub proof fn law_inherit_drops_mask(p: CapSet, cap: u32)
    requires
        cap < 64,
        has_bit(INHERITABLE_MASK, cap),
    ensures
        !has_bit(p.effective & !INHERITABLE_MASK, cap),
        !has_bit(p.bits & !INHERITABLE_MASK, cap),
{
    let k = cap as u64;
    let m = INHERITABLE_MASK;
    let e = p.effective;
    let b = p.bits;
    assert(((e & !m) >> k) & 1u64 == 0u64 && ((b & !m) >> k) & 1u64 == 0u64) by (bit_vector)
        requires
            k < 64,
            (m >> k) & 1u64 == 1u64,
    ;
}

} // verus!
