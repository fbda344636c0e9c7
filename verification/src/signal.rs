use vstd::prelude::*;
use crate::util::bitfacts::{lemma_bit_test, lemma_set_clear_bit};
use crate::config::{NSIG, SIGKILL, SIGSTOP, SIG_DFL, SIG_IGN};

verus! {

/// Bit `i` of `v` is set.
pub open spec fn sig_bit(v: u64, i: u32) -> bool {
    (v >> (i as u64)) & 1u64 == 1u64
}

/// The signals that cannot be blocked.
pub open spec fn unblockable() -> u64 {
    (1u64 << (SIGKILL as u64)) | (1u64 << (SIGSTOP as u64))
}

/// What a task does on a signal.
#[derive(Clone, Copy)]
pub struct SigAction {
    pub handler: usize,
    pub flags: u32,
    pub mask: u64,
}

/// A task's signal state: pending and blocked sets and one action per
/// signal number (0 through `NSIG`).
pub struct SigSet {
    pub pending: u64,
    pub blocked: u64,
    pub actions: Vec<SigAction>,
}

impl SigSet {
    /// One action per signal number.
    pub open spec fn wf(&self) -> bool {
        self.actions@.len() == NSIG + 1
    }

    /// Nothing pending or blocked; every action the default.
    pub fn new() -> (r: Self)
        ensures
            r.wf(),
            r.pending == 0 && r.blocked == 0,
            forall|i: int| 0 <= i < r.actions@.len() ==> #[trigger] r.actions@[i] == (SigAction { handler: SIG_DFL, flags: 0, mask: 0 }),
    {
        let mut actions: Vec<SigAction> = Vec::new();
        let mut i: u32 = 0;
        while i <= NSIG
            invariant
                i <= NSIG + 1,
                actions@.len() == i,
                forall|k: int| 0 <= k < i ==> #[trigger] actions@[k] == (SigAction { handler: SIG_DFL, flags: 0, mask: 0 }),
            decreases NSIG + 1 - i,
        {
            actions.push(SigAction { handler: SIG_DFL, flags: 0, mask: 0 });
            i += 1;
        }
        SigSet { pending: 0, blocked: 0, actions }
    }

    /// Whether signal `signo` is pending.
    pub fn sig_pending(&self, signo: u32) -> (r: bool)
        requires
            signo < 64,
        ensures
            r == sig_bit(self.pending, signo),
    {
        proof { lemma_bit_test(self.pending, signo as u64); }
        (self.pending & (1u64 << signo)) != 0
    }

    /// Makes signal `signo` pending (ignored for `signo >= NSIG`).
    pub fn sig_raise(&mut self, signo: u32)
        ensures
            final(self).blocked == old(self).blocked && final(self).actions@ == old(self).actions@,
            final(self).pending == if signo < NSIG { old(self).pending | (1u64 << (signo as u64)) } else { old(self).pending },
    {
        if signo < NSIG {
            self.pending |= 1u64 << signo;
        }
    }

    /// The pending, unblocked signals numbered 1 to `NSIG - 1`, as a set.
    pub fn coalesce_pending(&mut self) -> (r: u64)
        ensures
            r == (old(self).pending & !old(self).blocked) & 0xFFFF_FFFEu64,
            final(self).pending == old(self).pending && final(self).blocked == old(self).blocked,
            final(self).actions@ == old(self).actions@,
    {
        let active = self.pending & !self.blocked;
        let mut result: u32 = 0;
        let mut i: u32 = 1;
        assert(0u32 as u64 == active & ((((1u64 << 1u64) - 1) as u64) & 0xFFFF_FFFEu64)) by (bit_vector);
        while i < NSIG
            invariant
                1 <= i <= NSIG,
                active == old(self).pending & !old(self).blocked,
                result as u64 == active & ((((1u64 << (i as u64)) - 1) as u64) & 0xFFFF_FFFEu64),
            decreases NSIG - i,
        {
            let i64v = i as u64;
            let r0 = result;
            if (active & (1u64 << i)) != 0 {
                result |= 1u32 << i;
            }
            assert(result as u64 == active & ((((1u64 << (i64v + 1)) - 1) as u64) & 0xFFFF_FFFEu64)) by (bit_vector)
                requires
                    1 <= i64v < 32,
                    r0 as u64 == active & ((((1u64 << i64v) - 1) as u64) & 0xFFFF_FFFEu64),
                    result == if (active & (1u64 << i64v)) != 0 { r0 | (1u32 << (i64v as u32)) } else { r0 },
            ;
            i += 1;
        }
        assert(active & ((((1u64 << 32u64) - 1) as u64) & 0xFFFF_FFFEu64) == active & 0xFFFF_FFFEu64) by (bit_vector);
        result as u64
    }

    /// Withdraws pending signal `signo` (ignored for `signo >= NSIG`).
    pub fn sig_clear(&mut self, signo: u32)
        ensures
            final(self).blocked == old(self).blocked && final(self).actions@ == old(self).actions@,
            final(self).pending == if signo < NSIG { old(self).pending & !(1u64 << (signo as u64)) } else { old(self).pending },
    {
        if signo < NSIG {
            self.pending &= !(1u64 << signo);
        }
    }

    /// Blocks the signals of `mask`, never SIGKILL or SIGSTOP.
    pub fn sig_block(&mut self, mask: u64)
        ensures
            final(self).blocked == (old(self).blocked | mask) & !unblockable(),
            final(self).pending == old(self).pending && final(self).actions@ == old(self).actions@,
    {
        self.blocked |= mask;
        self.blocked &= !((1u64 << SIGKILL) | (1u64 << SIGSTOP));
    }

    /// Unblocks the signals of `mask`.
    pub fn sig_unblock(&mut self, mask: u64)
        ensures
            final(self).blocked == old(self).blocked & !mask,
            final(self).pending == old(self).pending && final(self).actions@ == old(self).actions@,
    {
        self.blocked &= !mask;
    }

    /// Replaces the blocked set with `mask`, less SIGKILL and SIGSTOP.
    pub fn sig_setmask(&mut self, mask: u64)
        ensures
            final(self).blocked == mask & !unblockable(),
            final(self).pending == old(self).pending && final(self).actions@ == old(self).actions@,
    {
        self.blocked = mask & !((1u64 << SIGKILL) | (1u64 << SIGSTOP));
    }

    /// The lowest-numbered pending, unblocked signal from 1 to `NSIG - 1`.
    pub fn deliverable(&self) -> (r: Option<u32>)
        ensures
            r matches Some(s) ==> 1 <= s < NSIG && sig_bit(self.pending & !self.blocked, s) && forall|j: u32|
                1 <= j < s ==> !#[trigger] sig_bit(self.pending & !self.blocked, j),
            r is None ==> forall|j: u32| 1 <= j < NSIG ==> !#[trigger] sig_bit(self.pending & !self.blocked, j),
    {
        let actionable = self.pending & !self.blocked;
        if actionable == 0 {
            assert forall|j: u32| 1 <= j < NSIG implies !#[trigger] sig_bit(actionable, j) by {
                let jj = j as u64;
                assert((actionable >> jj) & 1u64 == 0u64) by (bit_vector)
                    requires
                        actionable == 0,
                ;
            }
            return None;
        }
        let mut i: u32 = 1;
        while i < NSIG
            invariant
                1 <= i <= NSIG,
                actionable == self.pending & !self.blocked,
                forall|j: u32| 1 <= j < i ==> !#[trigger] sig_bit(actionable, j),
            decreases NSIG - i,
        {
            proof { lemma_bit_test(actionable, i as u64); }
            if (actionable & (1u64 << i)) != 0 {
                return Some(i);
            }
            i += 1;
        }
        None
    }

    /// Sets the action of signal `signo`; SIGKILL, SIGSTOP and numbers from
    /// `NSIG` up keep theirs.
    pub fn set_action(&mut self, signo: u32, action: SigAction)
        requires
            old(self).wf(),
        ensures
            final(self).wf(),
            final(self).pending == old(self).pending && final(self).blocked == old(self).blocked,
            final(self).actions@ == if signo < NSIG && signo != SIGKILL && signo != SIGSTOP {
                old(self).actions@.update(signo as int, action)
            } else {
                old(self).actions@
            },
    {
        if signo < NSIG && signo != SIGKILL && signo != SIGSTOP {
            self.actions.set(signo as usize, action);
        }
    }

    /// The action of signal `signo`; that of signal 0 for a number past the table.
    pub fn get_action(&self, signo: u32) -> (r: &SigAction)
        requires
            self.actions@.len() > 0,
        ensures
            *r == if (signo as int) < self.actions@.len() { self.actions@[signo as int] } else { self.actions@[0] },
    {
        if (signo as usize) < self.actions.len() {
            &self.actions[signo as usize]
        } else {
            &self.actions[0]
        }
    }

    /// Whether signal `signo` is ignored (never for a number past the table).
    pub fn is_ignored(&self, signo: u32) -> (r: bool)
        ensures
            r == ((signo as int) < self.actions@.len() && self.actions@[signo as int].handler == SIG_IGN),
    {
        if (signo as usize) < self.actions.len() {
            self.actions[signo as usize].handler == SIG_IGN
        } else {
            false
        }
    }

    /// Resets every caught signal (from 1 up) to the default action, as on
    /// exec; ignored and default ones stay.
    pub fn clear_non_caught(&mut self)
        ensures
            final(self).pending == old(self).pending && final(self).blocked == old(self).blocked,
            final(self).actions@.len() == old(self).actions@.len(),
            old(self).actions@.len() > 0 ==> final(self).actions@[0] == old(self).actions@[0],
            forall|i: int| 1 <= i < old(self).actions@.len() ==> #[trigger] final(self).actions@[i] == {
                let a = old(self).actions@[i];
                if a.handler != SIG_DFL && a.handler != SIG_IGN { SigAction { handler: SIG_DFL, ..a } } else { a }
            },
    {
        let mut i: usize = 1;
        while i < self.actions.len()
            invariant
                1 <= i,
                self.actions@.len() == old(self).actions@.len(),
                self.pending == old(self).pending && self.blocked == old(self).blocked,
                old(self).actions@.len() > 0 ==> self.actions@[0] == old(self).actions@[0],
                forall|k: int| 1 <= k < i && k < self.actions@.len() ==> #[trigger] self.actions@[k] == {
                    let a = old(self).actions@[k];
                    if a.handler != SIG_DFL && a.handler != SIG_IGN { SigAction { handler: SIG_DFL, ..a } } else { a }
                },
                forall|k: int| i <= k < self.actions@.len() ==> #[trigger] self.actions@[k] == old(self).actions@[k],
            decreases self.actions@.len() - i,
        {
            let a = self.actions[i];
            if a.handler != SIG_DFL && a.handler != SIG_IGN {
                self.actions.set(i, SigAction { handler: SIG_DFL, ..a });
            }
            i += 1;
        }
    }
}

/// SIGKILL and SIGSTOP are never blocked, whatever mask is blocked
/// or set.
pub proof fn law_kill_stop_unblockable(blocked: u64, mask: u64)
    ensures
        !sig_bit((blocked | mask) & !unblockable(), SIGKILL),
        !sig_bit((blocked | mask) & !unblockable(), SIGSTOP),
        !sig_bit(mask & !unblockable(), SIGKILL),
        !sig_bit(mask & !unblockable(), SIGSTOP),
{
    let b = blocked;
    let m = mask;
    assert({
        &&& (((b | m) & !((1u64 << 9u64) | (1u64 << 19u64))) >> 9u64) & 1u64 == 0u64
        &&& (((b | m) & !((1u64 << 9u64) | (1u64 << 19u64))) >> 19u64) & 1u64 == 0u64
        &&& ((m & !((1u64 << 9u64) | (1u64 << 19u64))) >> 9u64) & 1u64 == 0u64
        &&& ((m & !((1u64 << 9u64) | (1u64 << 19u64))) >> 19u64) & 1u64 == 0u64
    }) by (bit_vector);
}

/// A raised signal is pending until it is cleared.
pub proof fn law_raise_then_clear(pending: u64, signo: u32)
    requires
        signo < NSIG,
    ensures
        sig_bit(pending | (1u64 << (signo as u64)), signo),
        !sig_bit((pending | (1u64 << (signo as u64))) & !(1u64 << (signo as u64)), signo),
{
    lemma_set_clear_bit(pending, signo as u64, signo as u64);
}

} // verus!
