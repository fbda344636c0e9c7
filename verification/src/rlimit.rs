use vstd::prelude::*;
use crate::config::{KHEAP_SZ, USR_STK_SZ};
use crate::errno::Errno;

verus! {

/// Per-task resource limits.
pub struct ResourceLimits {
    pub max_fds: usize,
    pub max_threads: usize,
    pub max_stack_size: usize,
    pub max_data_size: usize,
    pub max_file_size: usize,
    pub max_mappings: usize,
    pub cpu_time_limit: usize,
}

/// The limit that resource number `resource` reads or writes, if any
/// (0: CPU time, 1: file size, 2: data size, 3: stack size, 7: descriptors).
pub open spec fn limit_of(l: ResourceLimits, resource: usize) -> Option<usize> {
    if resource == 0 {
        Some(l.cpu_time_limit)
    } else if resource == 1 {
        Some(l.max_file_size)
    } else if resource == 2 {
        Some(l.max_data_size)
    } else if resource == 3 {
        Some(l.max_stack_size)
    } else if resource == 7 {
        Some(l.max_fds)
    } else {
        None
    }
}

/// The limits with resource `resource` set to `value` (unchanged for an
/// unknown resource).
pub open spec fn with_limit(l: ResourceLimits, resource: usize, value: usize) -> ResourceLimits {
    if resource == 0 {
        ResourceLimits { cpu_time_limit: value, ..l }
    } else if resource == 1 {
        ResourceLimits { max_file_size: value, ..l }
    } else if resource == 2 {
        ResourceLimits { max_data_size: value, ..l }
    } else if resource == 3 {
        ResourceLimits { max_stack_size: value, ..l }
    } else if resource == 7 {
        ResourceLimits { max_fds: value, ..l }
    } else {
        l
    }
}

impl ResourceLimits {
    /// The default limits.
    pub fn default_limits() -> (r: Self)
        ensures
            r.max_fds == 1024 && r.max_threads == 256 && r.max_stack_size == USR_STK_SZ * 4
                && r.max_data_size == KHEAP_SZ && r.max_file_size == usize::MAX && r.max_mappings == 65536
                && r.cpu_time_limit == 0,
    {
        ResourceLimits {
            max_fds: 1024,
            max_threads: 256,
            max_stack_size: USR_STK_SZ * 4,
            max_data_size: KHEAP_SZ,
            max_file_size: usize::MAX,
            max_mappings: 65536,
            cpu_time_limit: 0,
        }
    }

    /// One more descriptor fits.
    pub fn check_fd(&self, current: usize) -> (r: bool)
        ensures
            r == (current < self.max_fds),
    {
        current < self.max_fds
    }

    /// One more thread fits.
    pub fn check_threads(&self, current: usize) -> (r: bool)
        ensures
            r == (current < self.max_threads),
    {
        current < self.max_threads
    }

    /// A stack of `requested` bytes fits.
    pub fn check_stack(&self, requested: usize) -> (r: bool)
        ensures
            r == (requested <= self.max_stack_size),
    {
        requested <= self.max_stack_size
    }

    /// A data segment of `requested` bytes fits.
    pub fn check_data(&self, requested: usize) -> (r: bool)
        ensures
            r == (requested <= self.max_data_size),
    {
        requested <= self.max_data_size
    }

    /// A file of `requested` bytes fits.
    pub fn check_filesize(&self, requested: usize) -> (r: bool)
        ensures
            r == (requested <= self.max_file_size),
    {
        requested <= self.max_file_size
    }

    /// One more mapping fits.
    pub fn check_mappings(&self, current: usize) -> (r: bool)
        ensures
            r == (current < self.max_mappings),
    {
        current < self.max_mappings
    }

    /// The same limits, for a child.
    pub fn inherit(&self) -> (r: Self)
        ensures
            r == *self,
    {
        ResourceLimits {
            max_fds: self.max_fds,
            max_threads: self.max_threads,
            max_stack_size: self.max_stack_size,
            max_data_size: self.max_data_size,
            max_file_size: self.max_file_size,
            max_mappings: self.max_mappings,
            cpu_time_limit: self.cpu_time_limit,
        }
    }

    /// Sets the limit of resource `resource`; `Einval` for an unknown one.
    pub fn set_limit(&mut self, resource: usize, value: usize) -> (r: Result<(), Errno>)
        ensures
            r == if limit_of(*old(self), resource) is Some { Ok::<(), Errno>(()) } else { Err(Errno::Einval) },
            *final(self) == with_limit(*old(self), resource, value),
    {
        match resource {
            0 => {
                self.cpu_time_limit = value;
                Ok(())
            },
            1 => {
                self.max_file_size = value;
                Ok(())
            },
            2 => {
                self.max_data_size = value;
                Ok(())
            },
            3 => {
                self.max_stack_size = value;
                Ok(())
            },
            7 => {
                self.max_fds = value;
                Ok(())
            },
            _ => Err(Errno::Einval),
        }
    }

    /// The limit of resource `resource`; `Einval` for an unknown one.
    pub fn get_limit(&self, resource: usize) -> (r: Result<usize, Errno>)
        ensures
            r == match limit_of(*self, resource) {
                Some(v) => Ok::<usize, Errno>(v),
                None => Err(Errno::Einval),
            },
    {
        match resource {
            0 => Ok(self.cpu_time_limit),
            1 => Ok(self.max_file_size),
            2 => Ok(self.max_data_size),
            3 => Ok(self.max_stack_size),
            7 => Ok(self.max_fds),
            _ => Err(Errno::Einval),
        }
    }

    /// Whether any of the descriptor, thread or stack counts is over its limit.
    pub fn exceeds_any(&self, fds: usize, threads: usize, stack: usize) -> (r: bool)
        ensures
            r == (fds > self.max_fds || threads > self.max_threads || stack > self.max_stack_size),
    {
        let mut violations = 0usize;
        if fds > self.max_fds {
            violations += 1;
        }
        if threads > self.max_threads {
            violations += 1;
        }
        if stack > self.max_stack_size {
            violations += 1;
        }
        violations >= 1
    }
}

/// A limit read back after it is set is the value set, and setting
/// one limit leaves every other resource's limit as it was.
pub proof fn law_set_then_get(l: ResourceLimits, resource: usize, other: usize, value: usize)
    requires
        limit_of(l, resource) is Some,
        other != resource,
    ensures
        limit_of(with_limit(l, resource, value), resource) == Some(value),
        limit_of(with_limit(l, resource, value), other) == limit_of(l, other),
{
}

} // verus!
