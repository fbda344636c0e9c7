use vstd::prelude::*;
use crate::config::KSTK_SZ;

verus! {

/// A task's kernel stack: `KSTK_SZ` zeroed bytes it owns, freed with it,
/// and the address at which they start.
pub struct KStk {
    pub mem: Vec<u8>,
    pub base: usize,
}

/// The address at which the bytes of `buf` start, from `<[u8]>::as_ptr`.
/// Nothing is claimed of the address: it is where the allocator put them.
#[verifier::external_body]
fn start_address(buf: &Vec<u8>) -> (r: usize) {
    buf.as_ptr() as usize
}

impl KStk {
    /// A new zeroed kernel stack.
    pub fn new() -> (r: Self)
        ensures
            r.mem@ == Seq::new(KSTK_SZ as nat, |i: int| 0u8),
    {
        let mem: Vec<u8> = vec![0u8; KSTK_SZ];
        let base = start_address(&mem);
        assert(mem@ =~= Seq::new(KSTK_SZ as nat, |i: int| 0u8));
        KStk { mem, base }
    }

    /// The address just past the stack's last byte (stacks grow down from
    /// it), wrapping past the largest word.
    pub fn top(&self) -> (r: usize)
        ensures
            r == if self.base + KSTK_SZ <= usize::MAX { self.base + KSTK_SZ } else { self.base + KSTK_SZ - usize::MAX - 1 },
    {
        self.base.wrapping_add(KSTK_SZ)
    }
}

} // verus!
