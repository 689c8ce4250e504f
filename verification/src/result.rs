//! The error type the scanning tool reports to its caller.

use vstd::prelude::*;

verus! {

/// A failure that ends a run: an underlying input/output failure, carried as
/// its message.
#[derive(Debug)]
pub enum Error {
    Io(String),
}

impl Error {
    /// The message of the underlying failure.
    pub fn as_err(&self) -> (m: &String)
        ensures
            self matches Error::Io(inner) && m@ == inner@,
    {
        match self {
            Error::Io(m) => m,
        }
    }
}

/// Wrap any failure message as an `Error`.
pub fn make_err(message: String) -> (e: Error)
    ensures
        e matches Error::Io(inner) && inner@ == message@,
{
    Error::Io(message)
}

} // verus!
