use vstd::prelude::*;
use crate::errno::Errno;
use crate::trap::context::{Context, copy_context};
use crate::util::bitfacts::lemma_bit_test32;

verus! {

/// Two contexts hold the same registers.
pub open spec fn same_ctx(a: Context, b: Context) -> bool {
    a.r@ == b.r@ && a.ip == b.ip && a.flags == b.flags
}

/// The trap controller: interrupt masks, handler state, the frame being
/// handled and a stack of saved frames.
pub struct TrapCtl {
    pub active: bool,
    pub hw_mask: u32,
    pub sw_mask: u32,
    pub nest: usize,
    pub frame: Option<Context>,
    pub stack: Vec<Context>,
    pub irq_on: bool,
    pub suppressed: bool,
}

/// Whether vector `vector` is enabled by the masks (hardware vectors 0-7,
/// software vectors 8-15).
pub open spec fn vector_enabled(hw: u32, sw: u32, vector: usize) -> bool {
    if vector < 8 {
        (hw >> (vector as u32)) & 1 == 1
    } else if vector < 16 {
        (sw >> ((vector - 8) as u32)) & 1 == 1
    } else {
        false
    }
}

/// Software vectors 8 to 15 follow bit `vector - 8` of the software mask
/// alone, whatever the hardware mask; hardware vectors 0 to 7 follow bit
/// `vector` of the hardware mask alone, whatever the software mask; no
/// other vector is ever enabled.
pub proof fn law_vector_masks(hw: u32, hw2: u32, sw: u32, sw2: u32, vector: usize)
    ensures
        8 <= vector < 16 ==> vector_enabled(hw, sw, vector) == vector_enabled(hw2, sw, vector)
            && vector_enabled(hw, sw, vector) == (sw & (1u32 << ((vector - 8) as u32)) != 0),
        vector < 8 ==> vector_enabled(hw, sw, vector) == vector_enabled(hw, sw2, vector)
            && vector_enabled(hw, sw, vector) == (hw & (1u32 << (vector as u32)) != 0),
        vector >= 16 ==> !vector_enabled(hw, sw, vector),
{
    if vector < 8 {
        lemma_bit_test32(hw, vector as u32);
    } else if vector < 16 {
        lemma_bit_test32(sw, (vector - 8) as u32);
    }
}

impl TrapCtl {
    /// No handler running, masks clear, interrupts on.
    pub fn new() -> (r: Self)
        ensures
            !r.active && r.hw_mask == 0 && r.sw_mask == 0 && r.nest == 0 && r.frame is None,
            r.stack@.len() == 0 && r.irq_on && !r.suppressed,
    {
        TrapCtl {
            active: false,
            hw_mask: 0,
            sw_mask: 0,
            nest: 0,
            frame: None,
            stack: Vec::new(),
            irq_on: true,
            suppressed: false,
        }
    }

    /// Sets the software mask to `a` and the hardware mask to `b`.
    pub fn configure(&mut self, a: u32, b: u32)
        ensures
            *final(self) == (TrapCtl { sw_mask: a, hw_mask: b, ..*old(self) }),
    {
        self.sw_mask = a;
        self.hw_mask = b;
    }

    /// The hardware mask.
    pub fn hw(&self) -> (r: u32)
        ensures
            r == self.hw_mask,
    {
        self.hw_mask
    }

    /// The software mask.
    pub fn sw(&self) -> (r: u32)
        ensures
            r == self.sw_mask,
    {
        self.sw_mask
    }

    /// Whether a handler is running.
    pub fn in_handler(&self) -> (r: bool)
        ensures
            r == (self.active || self.nest > 0),
    {
        self.active || self.nest > 0
    }

    /// Records `ctx` as the frame being handled and answers a copy of it;
    /// the nesting level goes up for the handler and back down.
    pub fn dispatch(&mut self, ctx: Context) -> (r: Context)
        ensures
            same_ctx(r, ctx),
            final(self).frame matches Some(f) && same_ctx(f, ctx),
            *final(self) == (TrapCtl { frame: final(self).frame, ..*old(self) }),
    {
        let saved = copy_context(&ctx);
        self.frame = Some(saved);
        let depth = self.nest;
        self.nest = depth.wrapping_add(1);
        self.nest = self.nest.wrapping_sub(1);
        copy_context(&ctx)
    }

    /// A copy of the frame being handled, if any.
    pub fn current(&self) -> (r: Option<Context>)
        ensures
            self.frame is None ==> r is None,
            self.frame matches Some(f) ==> (r matches Some(c) && same_ctx(c, f)),
    {
        match &self.frame {
            Some(ctx) => Some(copy_context(ctx)),
            None => None,
        }
    }

    /// Handles an interrupt: marks interrupts on, records `ctx` as the frame
    /// and answers a copy of it; the controller is inactive afterwards.
    pub fn handle_irq(&mut self, ctx: Context) -> (r: Context)
        ensures
            same_ctx(r, ctx),
            final(self).frame matches Some(f) && same_ctx(f, ctx),
            *final(self) == (TrapCtl { active: false, irq_on: true, frame: final(self).frame, ..*old(self) }),
    {
        self.active = true;
        self.irq_on = true;
        self.frame = Some(copy_context(&ctx));
        self.nest = self.nest.wrapping_add(1);
        self.nest = self.nest.wrapping_sub(1);
        let dispatched = copy_context(&ctx);
        self.active = false;
        dispatched
    }

    /// A page fault at `va`: refused while a nested handler runs.
    pub fn on_pgfault(&self, va: usize) -> (r: Result<(), Errno>)
        ensures
            r == if self.active && self.nest > 0 { Err::<(), Errno>(Errno::Fault) } else { Ok(()) },
    {
        if self.active && self.nest > 0 {
            return Err(Errno::Fault);
        }
        Ok(())
    }

    /// Routes vector `vector`: an enabled one is dispatched (becoming the
    /// frame being handled); the answer is a copy of `ctx` either way.
    pub fn dispatch_vector(&mut self, vector: usize, ctx: Context) -> (r: Context)
        ensures
            same_ctx(r, ctx),
            vector_enabled(old(self).hw_mask, old(self).sw_mask, vector) ==> (final(self).frame matches Some(f)
                && same_ctx(f, ctx)) && *final(self) == (TrapCtl { frame: final(self).frame, ..*old(self) }),
            !vector_enabled(old(self).hw_mask, old(self).sw_mask, vector) ==> *final(self) == *old(self),
    {
        let hw = self.hw_mask;
        let sw = self.sw_mask;
        if vector == 0 {
            assert((hw & 0x01 != 0) == ((hw >> 0u32) & 1 == 1)) by (bit_vector);
            if hw & 0x01 != 0 {
                return self.dispatch(ctx);
            }
            ctx
        } else if vector == 1 {
            assert((hw & 0x02 != 0) == ((hw >> 1u32) & 1 == 1)) by (bit_vector);
            if hw & 0x02 != 0 {
                return self.dispatch(ctx);
            }
            ctx
        } else if vector <= 7 {
            let v = vector as u32;
            assert((hw & (1u32 << v) != 0) == ((hw >> v) & 1 == 1)) by (bit_vector)
                requires
                    v < 8,
            ;
            if hw & (1u32 << v) != 0 {
                return self.dispatch(ctx);
            }
            ctx
        } else if vector <= 15 {
            let b = (vector - 8) as u32;
            assert((sw & (1u32 << b) != 0) == ((sw >> b) & 1 == 1)) by (bit_vector)
                requires
                    b < 8,
            ;
            if sw & (1u32 << b) != 0 {
                return self.dispatch(ctx);
            }
            ctx
        } else {
            ctx
        }
    }

    /// Saves a copy of `ctx` on the frame stack.
    pub fn push_frame(&mut self, ctx: &Context)
        ensures
            final(self).stack@.len() == old(self).stack@.len() + 1,
            final(self).stack@.drop_last() == old(self).stack@,
            same_ctx(final(self).stack@.last(), *ctx),
            final(self).frame == old(self).frame,
    {
        self.stack.push(copy_context(ctx));
        assert(self.stack@.drop_last() =~= old(self).stack@);
    }

    /// Takes the most recently saved frame off the stack.
    pub fn pop_frame(&mut self) -> (r: Option<Context>)
        ensures
            old(self).stack@.len() == 0 ==> r is None && final(self).stack@ == old(self).stack@,
            old(self).stack@.len() > 0 ==> r == Some(old(self).stack@.last()) && final(self).stack@ == old(
                self,
            ).stack@.drop_last(),
            final(self).frame == old(self).frame,
    {
        self.stack.pop()
    }

    /// The nesting level.
    pub fn nest_depth(&self) -> (r: usize)
        ensures
            r == self.nest,
    {
        self.nest
    }

    /// Suppresses interrupt bookkeeping.
    pub fn suppress(&mut self)
        ensures
            *final(self) == (TrapCtl { suppressed: true, ..*old(self) }),
    {
        self.suppressed = true;
    }

    /// Ends suppression.
    pub fn unsuppress(&mut self)
        ensures
            *final(self) == (TrapCtl { suppressed: false, ..*old(self) }),
    {
        self.suppressed = false;
    }
}

} // verus!
