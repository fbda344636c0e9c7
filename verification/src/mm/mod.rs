//! Memory management: user-pointer checks, the frame pool, the kernel heap,
//! reference-counted frames, copy-on-write pages, frame zones and the slab
//! allocator.

pub mod access;
pub mod frame;
pub mod heap;
pub mod pgframe;
pub mod shared;
pub mod slab;
pub mod kstk;
pub mod zone;
