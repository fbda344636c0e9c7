use vstd::prelude::*;

verus! {

/// The error numbers the kernel answers with.
#[derive(Clone, Copy, Debug, PartialEq, Eq, Structural)]
pub enum Errno {
    Efault,
    Einval,
    Eoverflow,
    Enomem,
    Esrch,
    Echild,
    Eperm,
    Ebadf,
    Eexist,
    Enotty,
    Emfile,
    Enosys,
    Fault,
    Oom,
    Segfault,
}

impl Errno {
    /// The conventional lower-case name of the error.
    pub fn as_str(&self) -> (s: &'static str)
        ensures
            s@ == errno_name(*self)@,
    {
        match self {
            Errno::Efault => "efault",
            Errno::Einval => "einval",
            Errno::Eoverflow => "eoverflow",
            Errno::Enomem => "enomem",
            Errno::Esrch => "esrch",
            Errno::Echild => "echild",
            Errno::Eperm => "eperm",
            Errno::Ebadf => "ebadf",
            Errno::Eexist => "eexist",
            Errno::Enotty => "enotty",
            Errno::Emfile => "emfile",
            Errno::Enosys => "enosys",
            Errno::Fault => "fault",
            Errno::Oom => "oom",
            Errno::Segfault => "segfault",
        }
    }
}

/// The name of each error.
pub open spec fn errno_name(e: Errno) -> &'static str {
    match e {
        Errno::Efault => "efault",
        Errno::Einval => "einval",
        Errno::Eoverflow => "eoverflow",
        Errno::Enomem => "enomem",
        Errno::Esrch => "esrch",
        Errno::Echild => "echild",
        Errno::Eperm => "eperm",
        Errno::Ebadf => "ebadf",
        Errno::Eexist => "eexist",
        Errno::Enotty => "enotty",
        Errno::Emfile => "emfile",
        Errno::Enosys => "enosys",
        Errno::Fault => "fault",
        Errno::Oom => "oom",
        Errno::Segfault => "segfault",
    }
}

} // verus!
