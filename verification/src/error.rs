use vstd::prelude::*;

verus! {

/// Error type for file system operations.
#[derive(Clone, Copy, Debug, PartialEq, Eq, Structural)]
pub enum FsError {
    /// The fd given as a base was not a directory so the operation was not possible
    BaseNotDirectory,
    /// Expected a file but found not a file
    NotAFile,
    /// The fd given was not usable
    InvalidFd,
    /// File exists
    AlreadyExists,
    /// The filesystem has failed to lock a resource.
    Lock,
    /// Something failed when doing IO. These errors can generally not be handled.
    IOError,
    /// The address was in use
    AddressInUse,
    /// The address could not be found
    AddressNotAvailable,
    /// A pipe was closed
    BrokenPipe,
    /// The connection was aborted
    ConnectionAborted,
    /// The connection request was refused
    ConnectionRefused,
    /// The connection was reset
    ConnectionReset,
    /// The operation was interrupted before it could finish
    Interrupted,
    /// Invalid internal data, if the argument data is invalid, use `InvalidInput`
    InvalidData,
    /// The provided data is invalid
    InvalidInput,
    /// Could not perform the operation because there was not an open connection
    NotConnected,
    /// The requested file or directory could not be found
    EntryNotFound,
    /// The requested device couldn't be accessed
    NoDevice,
    /// Caller was not allowed to perform this operation
    PermissionDenied,
    /// The operation did not complete within the given amount of time
    TimedOut,
    /// Found EOF when EOF was not expected
    UnexpectedEof,
    /// Operation would block, this error lets the caller know that they can try again
    WouldBlock,
    /// A call to write returned 0
    WriteZero,
    /// Directory not Empty
    DirectoryNotEmpty,
    /// The storage is full
    StorageFull,
    /// Some other unhandled error. If you see this, it's probably a bug.
    UnknownError,
    /// Operation is not supported on this filesystem
    Unsupported,
}

/// The kind of a `std::io::Error`, as far as file system errors distinguish it.
#[derive(Clone, Copy, Debug, PartialEq, Eq, Structural)]
pub enum IoErrorKind {
    AddrInUse,
    AddrNotAvailable,
    AlreadyExists,
    BrokenPipe,
    ConnectionAborted,
    ConnectionRefused,
    ConnectionReset,
    Interrupted,
    InvalidData,
    InvalidInput,
    NotConnected,
    NotFound,
    PermissionDenied,
    TimedOut,
    UnexpectedEof,
    WouldBlock,
    WriteZero,
    Other,
    /// Any kind not listed above.
    Uncategorized,
}

/// The file system error that an I/O error of the given kind stands for.
pub open spec fn spec_fs_error_from_io_kind(kind: IoErrorKind) -> FsError {
    match kind {
        IoErrorKind::AddrInUse => FsError::AddressInUse,
        IoErrorKind::AddrNotAvailable => FsError::AddressNotAvailable,
        IoErrorKind::AlreadyExists => FsError::AlreadyExists,
        IoErrorKind::BrokenPipe => FsError::BrokenPipe,
        IoErrorKind::ConnectionAborted => FsError::ConnectionAborted,
        IoErrorKind::ConnectionRefused => FsError::ConnectionRefused,
        IoErrorKind::ConnectionReset => FsError::ConnectionReset,
        IoErrorKind::Interrupted => FsError::Interrupted,
        IoErrorKind::InvalidData => FsError::InvalidData,
        IoErrorKind::InvalidInput => FsError::InvalidInput,
        IoErrorKind::NotConnected => FsError::NotConnected,
        IoErrorKind::NotFound => FsError::EntryNotFound,
        IoErrorKind::PermissionDenied => FsError::PermissionDenied,
        IoErrorKind::TimedOut => FsError::TimedOut,
        IoErrorKind::UnexpectedEof => FsError::UnexpectedEof,
        IoErrorKind::WouldBlock => FsError::WouldBlock,
        IoErrorKind::WriteZero => FsError::WriteZero,
        IoErrorKind::Other => FsError::IOError,
        IoErrorKind::Uncategorized => FsError::UnknownError,
    }
}

impl FsError {
    /// Maps the kind of an I/O error to the file system error it stands for.
    pub fn from_io_kind(kind: IoErrorKind) -> (r: FsError)
        ensures
            r == spec_fs_error_from_io_kind(kind),
    {
        match kind {
            IoErrorKind::AddrInUse => FsError::AddressInUse,
            IoErrorKind::AddrNotAvailable => FsError::AddressNotAvailable,
            IoErrorKind::AlreadyExists => FsError::AlreadyExists,
            IoErrorKind::BrokenPipe => FsError::BrokenPipe,
            IoErrorKind::ConnectionAborted => FsError::ConnectionAborted,
            IoErrorKind::ConnectionRefused => FsError::ConnectionRefused,
            IoErrorKind::ConnectionReset => FsError::ConnectionReset,
            IoErrorKind::Interrupted => FsError::Interrupted,
            IoErrorKind::InvalidData => FsError::InvalidData,
            IoErrorKind::InvalidInput => FsError::InvalidInput,
            IoErrorKind::NotConnected => FsError::NotConnected,
            IoErrorKind::NotFound => FsError::EntryNotFound,
            IoErrorKind::PermissionDenied => FsError::PermissionDenied,
            IoErrorKind::TimedOut => FsError::TimedOut,
            IoErrorKind::UnexpectedEof => FsError::UnexpectedEof,
            IoErrorKind::WouldBlock => FsError::WouldBlock,
            IoErrorKind::WriteZero => FsError::WriteZero,
            IoErrorKind::Other => FsError::IOError,
            IoErrorKind::Uncategorized => FsError::UnknownError,
        }
    }
}

} // verus!
