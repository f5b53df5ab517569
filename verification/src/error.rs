//! Error numbers.

use vstd::prelude::*;

verus! {

/// The errors that the library reports, named after their POSIX numbers.
#[allow(non_camel_case_types)]
#[derive(Debug, Clone, Copy, PartialEq, Eq)]
pub enum SystemError {
    /// No such file or directory.
    ENOENT,
    /// No such process.
    ESRCH,
    /// Not enough space.
    ENOMEM,
    /// Bad address.
    EFAULT,
    /// Invalid argument.
    EINVAL,
    /// Protocol not available.
    ENOPROTOOPT,
    /// Protocol not supported.
    EPROTONOSUPPORT,
    /// Operation not supported on socket.
    EOPNOTSUPP_OR_ENOTSUP,
    /// Address in use.
    EADDRINUSE,
    /// No buffer space available.
    ENOBUFS,
    /// No XENIX semaphores available.
    ENAVAIL,
}

/// The POSIX number of an error.
pub open spec fn errno(e: SystemError) -> int {
    match e {
        SystemError::ENOENT => 2,
        SystemError::ESRCH => 3,
        SystemError::ENOMEM => 12,
        SystemError::EFAULT => 14,
        SystemError::EINVAL => 22,
        SystemError::ENOPROTOOPT => 92,
        SystemError::EPROTONOSUPPORT => 93,
        SystemError::EOPNOTSUPP_OR_ENOTSUP => 95,
        SystemError::EADDRINUSE => 98,
        SystemError::ENOBUFS => 105,
        SystemError::ENAVAIL => 119,
    }
}

impl SystemError {
    /// The error as a return value of a system call: its POSIX number,
    /// negated.
    pub fn to_posix_errno(&self) -> (r: i32)
        ensures
            r == -errno(*self),
    {
        match self {
            SystemError::ENOENT => -2,
            SystemError::ESRCH => -3,
            SystemError::ENOMEM => -12,
            SystemError::EFAULT => -14,
            SystemError::EINVAL => -22,
            SystemError::ENOPROTOOPT => -92,
            SystemError::EPROTONOSUPPORT => -93,
            SystemError::EOPNOTSUPP_OR_ENOTSUP => -95,
            SystemError::EADDRINUSE => -98,
            SystemError::ENOBUFS => -105,
            SystemError::ENAVAIL => -119,
        }
    }
}

} // verus!
