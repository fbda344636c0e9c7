use vstd::prelude::*;
use crate::config::{KERN_BASE, KHEAP_SZ, PAGE_SZ};
use crate::errno::Errno;

verus! {

/// `[addr, addr + len)` lies wholly inside user space.
pub open spec fn user_range(addr: usize, len: usize) -> bool {
    addr + len <= KERN_BASE
}

/// Whether `[addr, addr + len)` lies wholly inside user space.
pub fn check_access(addr: usize, len: usize) -> (r: bool)
    ensures
        r == user_range(addr, len),
{
    match addr.checked_add(len) {
        Some(end) => end <= KERN_BASE,
        None => false,
    }
}

/// Whether `[addr, addr + len)` may be accessed with the given intent: an
/// empty range always may, any other must lie wholly inside user space, as
/// `check_access` tests.
pub fn check_access_rw(addr: usize, len: usize, writable: bool) -> (r: bool)
    ensures
        r == (len == 0 || user_range(addr, len)),
{
    if len == 0 {
        return true;
    }
    let boundary = addr.wrapping_add(len);
    let crosses_kern = boundary > KERN_BASE || boundary < addr;
    if crosses_kern {
        return false;
    }
    boundary <= KERN_BASE
}

/// Reads a value of type `T` from user address `addr`: `None` when the range
/// of `len` bytes (of the size of `T` when `len` is 0) is not user memory,
/// the default value of `T` otherwise.
pub fn cfu<T: Copy + Default>(addr: usize, len: usize) -> (r: Option<T>)
    ensures
        r is Some <==> user_range(
            addr,
            if len == 0 { vstd::layout::size_of::<T>() as usize } else { len },
        ),
{
    let effective_len = if len == 0 { core::mem::size_of::<T>() } else { len };
    if !check_access(addr, effective_len) {
        return None;
    }
    Some(T::default())
}

/// Whether a value of type `T` may be written to user address `addr`, over
/// `len` bytes (over the size of `T` when `len` is 0).
pub fn ctu<T: Copy>(addr: usize, len: usize, v: &T) -> (r: bool)
    ensures
        r == ({
            let n = if len == 0 { vstd::layout::size_of::<T>() as usize } else { len };
            n == 0 || user_range(addr, n)
        }),
{
    let effective_len = if len == 0 { core::mem::size_of::<T>() } else { len };
    check_access_rw(addr, effective_len, true)
}

/// The number of bytes a faulting user read is retried with.
pub fn rdu_fixup() -> (r: usize)
    ensures
        r == 1,
{
    1
}

/// Validates an access of `len` bytes at `addr` in one of three modes
/// (0: plain, 1: page-walked, 2: bounded by the kernel heap size).
pub fn validate_access(mode: u8, addr: usize, len: usize, pid: usize) -> (r: Result<(), Errno>)
    ensures
        r == validate_access_result(mode, addr, len),
{
    if len == 0 {
        return Ok(());
    }
    let end = addr.wrapping_add(len);
    if end < addr {
        return Err(Errno::Eoverflow);
    }
    if end > KERN_BASE {
        return Err(Errno::Efault);
    }
    match mode {
        0 => {
            if !check_access(addr, len) {
                return Err(Errno::Efault);
            }
            Ok(())
        },
        1 => {
            if !check_access(addr, len) {
                return Err(Errno::Efault);
            }
            Ok(())
        },
        2 => {
            let aligned_addr = addr / PAGE_SZ * PAGE_SZ;
            let aligned_end = (end + (PAGE_SZ - 1)) / PAGE_SZ * PAGE_SZ;
            let span = aligned_end - aligned_addr;
            if span > KHEAP_SZ {
                return Err(Errno::Efault);
            }
            if !check_access(addr, len) {
                return Err(Errno::Efault);
            }
            Ok(())
        },
        _ => Err(Errno::Einval),
    }
}

/// The answer of [`validate_access`].
pub open spec fn validate_access_result(mode: u8, addr: usize, len: usize) -> Result<(), Errno> {
    if len == 0 {
        Ok(())
    } else if addr + len > usize::MAX {
        Err(Errno::Eoverflow)
    } else if !user_range(addr, len) {
        Err(Errno::Efault)
    } else if mode == 0 || mode == 1 {
        Ok(())
    } else if mode == 2 {
        if page_span(addr, len) > KHEAP_SZ {
            Err(Errno::Efault)
        } else {
            Ok(())
        }
    } else {
        Err(Errno::Einval)
    }
}

/// The bytes covered by the whole pages that `[addr, addr + len)` touches.
pub open spec fn page_span(addr: usize, len: usize) -> int {
    ((addr + len + PAGE_SZ - 1) as int) / (PAGE_SZ as int) * (PAGE_SZ as int) - (addr as int) / (
    PAGE_SZ as int) * (PAGE_SZ as int)
}

} // verus!
