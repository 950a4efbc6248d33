//! Errors of the tunnel: a kind that callers test for, and a message.

use vstd::prelude::*;

verus! {

/// What went wrong, in the terms that a caller acts on.
#[derive(Clone, Copy, Debug, PartialEq, Eq, Structural)]
pub enum ErrorKind {
    AddrInUse,
    BrokenPipe,
    ConnectionAborted,
    ConnectionRefused,
    InvalidData,
    InvalidInput,
    NotConnected,
    NotFound,
    Other,
    OutOfMemory,
    PermissionDenied,
    TimedOut,
    UnexpectedEof,
    WouldBlock,
    WriteZero,
}

/// An error with its message.
#[derive(Debug)]
pub struct Error {
    pub kind: ErrorKind,
    pub message: String,
}

impl Error {
    /// The error has this kind and this message.
    pub open spec fn reads(self, kind: ErrorKind, message: Seq<char>) -> bool {
        self.kind == kind && self.message@ == message
    }

    pub fn new(kind: ErrorKind, message: &str) -> (error: Error)
        ensures
            error.reads(kind, message@),
    {
        Error { kind, message: message.to_owned() }
    }
}

/// The far end of a channel or socket is gone.
pub fn broken_pipe(message: &str) -> (error: Error)
    ensures
        error.reads(ErrorKind::BrokenPipe, message@),
{
    Error::new(ErrorKind::BrokenPipe, message)
}

/// The caller asked for something that cannot be done.
pub fn invalid_input(message: &str) -> (error: Error)
    ensures
        error.reads(ErrorKind::InvalidInput, message@),
{
    Error::new(ErrorKind::InvalidInput, message)
}

/// The peer sent something that makes no sense.
pub fn invalid_data(message: &str) -> (error: Error)
    ensures
        error.reads(ErrorKind::InvalidData, message@),
{
    Error::new(ErrorKind::InvalidData, message)
}

/// The peer closed the connection in the middle of a message.
pub fn unexpected_eof(message: &str) -> (error: Error)
    ensures
        error.reads(ErrorKind::UnexpectedEof, message@),
{
    Error::new(ErrorKind::UnexpectedEof, message)
}

/// An error has the kind and the message that it was made with, and each of the
/// short forms has its own kind.
pub proof fn errors_say_what_they_were_told(
    kind: ErrorKind,
    message: &str,
    error: Error,
    pipe: Error,
    input: Error,
    data: Error,
    eof: Error,
)
    requires
        call_ensures(Error::new, (kind, message), error),
        call_ensures(broken_pipe, (message,), pipe),
        call_ensures(invalid_input, (message,), input),
        call_ensures(invalid_data, (message,), data),
        call_ensures(unexpected_eof, (message,), eof),
    ensures
        error.kind == kind && error.message@ == message@,
        pipe.kind == ErrorKind::BrokenPipe && pipe.message@ == message@,
        input.kind == ErrorKind::InvalidInput && input.message@ == message@,
        data.kind == ErrorKind::InvalidData && data.message@ == message@,
        eof.kind == ErrorKind::UnexpectedEof && eof.message@ == message@,
{
}

} // verus!
