//! Errors returned by filesystem operations.

use vstd::prelude::*;

verus! {

/// Errors that can be returned from filesystem operations.
#[derive(Debug, Clone, PartialEq, Eq)]
pub enum Error {
    /// Operation is not permitted.
    PermissionDenied,
    /// No such file or directory.
    NotFound,
    /// No such process.
    NoProcess,
    /// Invalid or unexpected data was returned by the platform.
    InvalidData(String),
    /// Attempted to open a resource as a file that wasn't a file.
    NotAFile(String),
    /// A platform error code that has no kind of its own.
    Unknown(i32),
}

/// The kind of error that a raw platform error code stands for.
pub open spec fn error_of_code(code: i32) -> Error {
    if code == 1 {
        Error::PermissionDenied
    } else if code == 2 {
        Error::NotFound
    } else if code == 3 {
        Error::NoProcess
    } else {
        Error::Unknown(code)
    }
}

impl Error {
    /// Create an [`Error`] from the error code reported by a system call.
    ///
    /// Codes follow `sys/errno.h`.
    pub fn from_darwin_sys(val: i32) -> (r: Error)
        ensures
            r == error_of_code(val),
    {
        match val {
            1 => Error::PermissionDenied,
            2 => Error::NotFound,
            3 => Error::NoProcess,
            x => Error::Unknown(x),
        }
    }

    /// Whether this error is the platform's "result too large" code.
    pub fn is_result_too_large(&self) -> (r: bool)
        ensures
            r == (*self == Error::Unknown(ERANGE)),
    {
        match self {
            Error::Unknown(code) => *code == ERANGE,
            _ => false,
        }
    }
}

/// Error code for a result that does not fit its buffer.
pub const ERANGE: i32 = 34;

/// Turns the return value of a system call into a `Result`: `-1` is a failure
/// whose cause is `errno` (taken as `-1` when the platform reported none).
pub fn check_result(val: i32, errno: Option<i32>) -> (r: Result<i32, Error>)
    ensures
        val != -1 ==> r == Ok::<i32, Error>(val),
        val == -1 ==> r == Err::<i32, Error>(error_of_code(
            match errno {
                Some(e) => e,
                None => -1i32,
            },
        )),
{
    if val == -1 {
        let code: i32 = match errno {
            Some(e) => e,
            None => -1,
        };
        Err(Error::from_darwin_sys(code))
    } else {
        Ok(val)
    }
}

} // verus!
