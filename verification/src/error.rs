//! The error type of the shell and of command handlers.

use vstd::prelude::*;

verus! {

/// What kind of failure a transport reported.
#[derive(Debug, Clone, Copy, PartialEq, Eq, Structural)]
pub enum ErrorKind {
    /// Unspecified error kind.
    Other,
    /// An entity was not found.
    NotFound,
    /// The operation lacked the necessary privileges.
    PermissionDenied,
    /// The connection was refused by the remote side.
    ConnectionRefused,
    /// The connection was reset by the remote side.
    ConnectionReset,
    /// The connection was aborted by the remote side.
    ConnectionAborted,
    /// The connection was not established yet.
    NotConnected,
    /// The address is already in use elsewhere.
    AddrInUse,
    /// The address is not available.
    AddrNotAvailable,
    /// A pipe was closed.
    BrokenPipe,
    /// An entity already exists.
    AlreadyExists,
    /// A parameter was incorrect.
    InvalidInput,
    /// Data not valid for the operation were encountered.
    InvalidData,
    /// The operation's timeout expired.
    TimedOut,
    /// The operation was interrupted.
    Interrupted,
    /// The operation is not supported.
    Unsupported,
    /// Not enough memory.
    OutOfMemory,
    /// A write could not write any data.
    WriteZero,
}

/// The name of an error kind.
pub open spec fn kind_name(kind: ErrorKind) -> Seq<char> {
    match kind {
        ErrorKind::Other => "Other"@,
        ErrorKind::NotFound => "NotFound"@,
        ErrorKind::PermissionDenied => "PermissionDenied"@,
        ErrorKind::ConnectionRefused => "ConnectionRefused"@,
        ErrorKind::ConnectionReset => "ConnectionReset"@,
        ErrorKind::ConnectionAborted => "ConnectionAborted"@,
        ErrorKind::NotConnected => "NotConnected"@,
        ErrorKind::AddrInUse => "AddrInUse"@,
        ErrorKind::AddrNotAvailable => "AddrNotAvailable"@,
        ErrorKind::BrokenPipe => "BrokenPipe"@,
        ErrorKind::AlreadyExists => "AlreadyExists"@,
        ErrorKind::InvalidInput => "InvalidInput"@,
        ErrorKind::InvalidData => "InvalidData"@,
        ErrorKind::TimedOut => "TimedOut"@,
        ErrorKind::Interrupted => "Interrupted"@,
        ErrorKind::Unsupported => "Unsupported"@,
        ErrorKind::OutOfMemory => "OutOfMemory"@,
        ErrorKind::WriteZero => "WriteZero"@,
    }
}

/// The short description of an error kind.
pub open spec fn kind_message(kind: ErrorKind) -> Seq<char> {
    match kind {
        ErrorKind::Other => "io error"@,
        ErrorKind::NotFound => "not found"@,
        ErrorKind::PermissionDenied => "permission denied"@,
        ErrorKind::ConnectionRefused => "connection refused"@,
        ErrorKind::ConnectionReset => "connection reset"@,
        ErrorKind::ConnectionAborted => "connection aborted"@,
        ErrorKind::NotConnected => "not connected"@,
        ErrorKind::AddrInUse => "address in use"@,
        ErrorKind::AddrNotAvailable => "address not available"@,
        ErrorKind::BrokenPipe => "broken pipe"@,
        ErrorKind::AlreadyExists => "already exists"@,
        ErrorKind::InvalidInput => "invalid input"@,
        ErrorKind::InvalidData => "invalid data"@,
        ErrorKind::TimedOut => "timed out"@,
        ErrorKind::Interrupted => "interrupted"@,
        ErrorKind::Unsupported => "unsupported"@,
        ErrorKind::OutOfMemory => "out of memory"@,
        ErrorKind::WriteZero => "write zero"@,
    }
}

impl ErrorKind {
    /// The name of the kind.
    pub fn name(&self) -> (s: &'static str)
        ensures
            s@ == kind_name(*self),
    {
        match self {
            ErrorKind::Other => "Other",
            ErrorKind::NotFound => "NotFound",
            ErrorKind::PermissionDenied => "PermissionDenied",
            ErrorKind::ConnectionRefused => "ConnectionRefused",
            ErrorKind::ConnectionReset => "ConnectionReset",
            ErrorKind::ConnectionAborted => "ConnectionAborted",
            ErrorKind::NotConnected => "NotConnected",
            ErrorKind::AddrInUse => "AddrInUse",
            ErrorKind::AddrNotAvailable => "AddrNotAvailable",
            ErrorKind::BrokenPipe => "BrokenPipe",
            ErrorKind::AlreadyExists => "AlreadyExists",
            ErrorKind::InvalidInput => "InvalidInput",
            ErrorKind::InvalidData => "InvalidData",
            ErrorKind::TimedOut => "TimedOut",
            ErrorKind::Interrupted => "Interrupted",
            ErrorKind::Unsupported => "Unsupported",
            ErrorKind::OutOfMemory => "OutOfMemory",
            ErrorKind::WriteZero => "WriteZero",
        }
    }
}

/// Error type used by the shell and returned by command handlers.
///
/// Transport errors are wrapped into [`Error::Io`] so that every command handler
/// can use the same concrete error type regardless of the underlying transport.
#[derive(Debug, Clone, Copy, PartialEq, Eq, Structural)]
pub enum Error {
    /// An I/O error occurred on the underlying transport.
    Io(ErrorKind),
    /// An operation failed for another reason.
    Other,
}

impl Error {
    /// The short description used by the shell's error line.
    pub open spec fn spec_message(self) -> Seq<char> {
        match self {
            Error::Other => "shell error"@,
            Error::Io(kind) => kind_message(kind),
        }
    }

    /// The kind of the error; an error that is not one of the transport's counts
    /// as [`ErrorKind::Other`].
    pub fn kind(&self) -> (kind: ErrorKind)
        ensures
            kind == (match *self {
                Error::Io(kind) => kind,
                Error::Other => ErrorKind::Other,
            }),
    {
        match self {
            Error::Io(kind) => *kind,
            Error::Other => ErrorKind::Other,
        }
    }

    /// Short, allocation-free description used by the shell's error line.
    pub fn message(&self) -> (s: &'static str)
        ensures
            s@ == self.spec_message(),
    {
        match self {
            Error::Other => "shell error",
            Error::Io(kind) => match *kind {
                ErrorKind::NotFound => "not found",
                ErrorKind::PermissionDenied => "permission denied",
                ErrorKind::ConnectionRefused => "connection refused",
                ErrorKind::ConnectionReset => "connection reset",
                ErrorKind::ConnectionAborted => "connection aborted",
                ErrorKind::NotConnected => "not connected",
                ErrorKind::AddrInUse => "address in use",
                ErrorKind::AddrNotAvailable => "address not available",
                ErrorKind::BrokenPipe => "broken pipe",
                ErrorKind::AlreadyExists => "already exists",
                ErrorKind::InvalidInput => "invalid input",
                ErrorKind::InvalidData => "invalid data",
                ErrorKind::TimedOut => "timed out",
                ErrorKind::Interrupted => "interrupted",
                ErrorKind::Unsupported => "unsupported",
                ErrorKind::OutOfMemory => "out of memory",
                ErrorKind::WriteZero => "write zero",
                ErrorKind::Other => "io error",
            },
        }
    }

    /// The error as text for people to read: `io error: ` and the name of the
    /// kind, or `shell error`.
    pub fn display(&self) -> (s: String)
        ensures
            s@ == (match *self {
                Error::Io(kind) => "io error: "@ + kind_name(kind),
                Error::Other => "shell error"@,
            }),
    {
        match self {
            Error::Io(kind) => {
                let mut s = "io error: ".to_owned();
                s.append(kind.name());
                s
            },
            Error::Other => "shell error".to_owned(),
        }
    }
}

impl From<ErrorKind> for Error {
    fn from(kind: ErrorKind) -> (e: Error) {
        Error::Io(kind)
    }
}

impl vstd::std_specs::convert::FromSpecImpl<ErrorKind> for Error {
    open spec fn obeys_from_spec() -> bool {
        true
    }

    open spec fn from_spec(kind: ErrorKind) -> Error {
        Error::Io(kind)
    }
}

} // verus!
