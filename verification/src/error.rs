//! Errors of the stream operations.
use vstd::prelude::*;

verus! {

/// `EBADF`: the file descriptor behind the stream is not open.
pub const EBADF: i32 = 9;

/// `EINTR`: the call was interrupted before it did anything.
pub const EINTR: i32 = 4;

/// The broad classes of errors that the stream operations tell apart.
#[derive(Clone, Copy, PartialEq, Eq, Structural, Debug)]
pub enum ErrorKind {
    Interrupted,
    WouldBlock,
    UnexpectedEof,
    WriteZero,
    InvalidData,
    Other,
}

/// Errors that arise in this library, each with a fixed text.
#[derive(Clone, Copy, PartialEq, Eq, Structural, Debug)]
pub enum Fault {
    /// Input ended before the caller's buffer was full.
    FillBuffer,
    /// The host took no byte of what the caller wanted written.
    WriteBuffer,
    /// The host took no byte of what was waiting in the buffer.
    WriteBuffered,
    /// The input is not UTF-8.
    InvalidUtf8,
    /// A formatting routine failed although the stream did not.
    Formatter,
}

/// The error of a stream operation.
#[derive(Clone, Copy, PartialEq, Eq, Structural, Debug)]
pub enum Error {
    /// An error number of the operating system.
    Os(i32),
    /// An error of which only the class is known.
    Simple(ErrorKind),
    /// An error found by this library.
    Fault(Fault),
    /// The host has not answered the request yet.
    Unanswered,
}

impl Fault {
    /// The class of the fault.
    pub open spec fn spec_kind(self) -> ErrorKind {
        match self {
            Fault::FillBuffer => ErrorKind::UnexpectedEof,
            Fault::WriteBuffer => ErrorKind::WriteZero,
            Fault::WriteBuffered => ErrorKind::WriteZero,
            Fault::InvalidUtf8 => ErrorKind::InvalidData,
            Fault::Formatter => ErrorKind::Other,
        }
    }

    /// The text of the fault.
    pub open spec fn spec_text(self) -> Seq<char> {
        match self {
            Fault::FillBuffer => "failed to fill whole buffer"@,
            Fault::WriteBuffer => "failed to write whole buffer"@,
            Fault::WriteBuffered => "failed to write the buffered data"@,
            Fault::InvalidUtf8 => "stream did not contain valid UTF-8"@,
            Fault::Formatter => "formatter error"@,
        }
    }

    /// The class of the fault.
    pub fn kind(&self) -> (kind: ErrorKind)
        ensures
            kind == self.spec_kind(),
    {
        match self {
            Fault::FillBuffer => ErrorKind::UnexpectedEof,
            Fault::WriteBuffer => ErrorKind::WriteZero,
            Fault::WriteBuffered => ErrorKind::WriteZero,
            Fault::InvalidUtf8 => ErrorKind::InvalidData,
            Fault::Formatter => ErrorKind::Other,
        }
    }

    /// The text of the fault.
    pub fn text(&self) -> (text: &'static str)
        ensures
            text@ == self.spec_text(),
    {
        match self {
            Fault::FillBuffer => "failed to fill whole buffer",
            Fault::WriteBuffer => "failed to write whole buffer",
            Fault::WriteBuffered => "failed to write the buffered data",
            Fault::InvalidUtf8 => "stream did not contain valid UTF-8",
            Fault::Formatter => "formatter error",
        }
    }
}

impl Error {
    /// Whether the error says that the call was interrupted and may be repeated.
    pub open spec fn interrupted(self) -> bool {
        self == Error::Os(EINTR) || self == Error::Simple(ErrorKind::Interrupted)
    }

    /// Whether the error says that the stream is not open.
    pub open spec fn ebadf(self) -> bool {
        self == Error::Os(EBADF)
    }

    /// The error number, where the operating system gave one.
    pub fn raw_os_error(&self) -> (code: Option<i32>)
        ensures
            code == (match *self {
                Error::Os(code) => Some(code),
                _ => None,
            }),
    {
        match self {
            Error::Os(code) => Some(*code),
            _ => None,
        }
    }

    /// Whether the call was interrupted and may be repeated.
    pub fn is_interrupted(&self) -> (yes: bool)
        ensures
            yes == self.interrupted(),
    {
        match self {
            Error::Os(code) => *code == EINTR,
            Error::Simple(kind) => *kind == ErrorKind::Interrupted,
            _ => false,
        }
    }
}

/// `result`, unless it says that the stream is not open: then `Ok(instead)`.
pub open spec fn forgiven<T>(result: Result<T, Error>, instead: T) -> Result<T, Error> {
    match result {
        Err(error) => if error.ebadf() {
            Ok(instead)
        } else {
            result
        },
        Ok(_) => result,
    }
}

/// Whether `err` says that the stream behind a standard handle is not open.
pub fn is_ebadf(err: &Error) -> (yes: bool)
    ensures
        yes == err.ebadf(),
{
    match err.raw_os_error() {
        Some(code) => code == EBADF,
        None => false,
    }
}

} // verus!
