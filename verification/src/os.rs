//! Plain names for the things an operating system hands out.

use vstd::prelude::*;

verus! {

/// An open file, pipe end or inherited stream, named by a number.
///
/// The driver that carries out requests keeps the real file behind the number. Numbers may be
/// reused once the handle has been closed.
#[derive(Clone, Copy, Debug, PartialEq, Eq, Structural)]
pub struct Handle {
    pub id: u64,
}

/// A thread that the driver runs on our behalf, named by a number.
#[derive(Clone, Copy, Debug, PartialEq, Eq, Structural)]
pub struct Worker {
    pub id: u64,
}

/// One of the standard streams of the current process.
#[derive(Clone, Copy, Debug, PartialEq, Eq, Structural)]
pub enum Stream {
    Stdin,
    Stdout,
    Stderr,
}

/// The exit status of a process. Zero means success.
pub type Status = i32;

/// How an expression ended: with a status, or with an error of the operating system.
pub type Exit = Result<Status, std::io::Error>;

/// `std::io::Error`, carried around as an opaque value.
#[verifier::external_type_specification]
#[verifier::external_body]
pub struct ExIoError(std::io::Error);

/// The one distinction that is made between errors of the operating system.
#[derive(Clone, Copy, Debug, PartialEq, Eq, Structural)]
pub enum Fault {
    /// The other end of the pipe was closed before everything was written.
    BrokenPipe,
    /// Anything else.
    Other,
}

/// What `std::io::Error::kind` says of an error, as far as it matters here: whether it is
/// `std::io::ErrorKind::BrokenPipe`.
pub uninterp spec fn fault_of(error: std::io::Error) -> Fault;

/// Calls `std::io::Error::kind`. The result is fixed by the error alone, and is named by
/// [`fault_of`].
#[verifier::external_body]
pub(crate) fn fault(error: &std::io::Error) -> (f: Fault)
    ensures
        f == fault_of(*error),
{
    match error.kind() {
        std::io::ErrorKind::BrokenPipe => Fault::BrokenPipe,
        _ => Fault::Other,
    }
}

} // verus!
