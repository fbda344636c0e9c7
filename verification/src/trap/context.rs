use vstd::prelude::*;
use crate::config::N_REGS;

verus! {

/// Register that carries a return value.
pub const REG_RET: usize = 0;
/// Register that holds the stack pointer.
pub const REG_SP: usize = 1;
/// Register that holds the thread-local storage pointer.
pub const REG_TLS: usize = 2;

/// A snapshot of the CPU registers.
#[derive(Clone, Copy)]
pub struct Context {
    pub r: [u64; N_REGS],
    pub ip: u64,
    pub flags: u64,
}

impl Context {
    /// All registers zero.
    pub fn new() -> (c: Self)
        ensures
            forall|i: int| 0 <= i < N_REGS ==> c.r[i] == 0,
            c.ip == 0,
            c.flags == 0,
    {
        Context { r: [0u64; N_REGS], ip: 0, flags: 0 }
    }

    /// Sets the return-value register.
    pub fn set_ret(&mut self, v: u64)
        ensures
            final(self).r@ == old(self).r@.update(REG_RET as int, v),
            final(self).ip == old(self).ip,
            final(self).flags == old(self).flags,
    {
        self.r.set(REG_RET, v);
    }

    /// Sets the stack pointer.
    pub fn set_sp(&mut self, v: u64)
        ensures
            final(self).r@ == old(self).r@.update(REG_SP as int, v),
            final(self).ip == old(self).ip,
            final(self).flags == old(self).flags,
    {
        self.r.set(REG_SP, v);
    }

    /// Sets the thread-local storage pointer.
    pub fn set_tls(&mut self, v: u64)
        ensures
            final(self).r@ == old(self).r@.update(REG_TLS as int, v),
            final(self).ip == old(self).ip,
            final(self).flags == old(self).flags,
    {
        self.r.set(REG_TLS, v);
    }

    /// Sets the instruction pointer.
    pub fn set_ip(&mut self, v: u64)
        ensures
            final(self).r@ == old(self).r@,
            final(self).ip == v,
            final(self).flags == old(self).flags,
    {
        self.ip = v;
    }
}

/// A register-by-register copy of `c`.
pub fn copy_context(c: &Context) -> (d: Context)
    ensures
        d.r@ == c.r@,
        d.ip == c.ip,
        d.flags == c.flags,
{
    let mut arr = [0u64; N_REGS];
    let mut i: usize = 0;
    while i < N_REGS
        invariant
            i <= N_REGS,
            forall|k: int| 0 <= k < i ==> arr@[k] == c.r@[k],
        decreases N_REGS - i,
    {
        arr.set(i, c.r[i]);
        i += 1;
    }
    assert(arr@ =~= c.r@);
    Context { r: arr, ip: c.ip, flags: c.flags }
}

} // verus!
