use crate::path::PathParts;
use vstd::prelude::*;

verus! {

/// One side of a file pair.
#[derive(Clone, Copy, Debug, PartialEq, Eq, Structural)]
pub enum Side {
    Local,
    Remote,
}

/// Why a run, a location or a file pair could not be synchronised.
#[derive(Clone, Debug, PartialEq, Eq)]
pub enum SyncError {
    /// The remote host could not be reached.
    ConnectionError,
    /// The secure-shell handshake failed.
    HandshakeError,
    /// The remote host refused the credentials.
    AuthenticationError,
    /// Listing this remote directory failed.
    DirectoryListError(PathParts),
    /// This remote path did not lie under its location's remote root.
    PathMappingError(PathParts),
    /// A file named in a location's explicit list is absent on this side.
    MissingFileError(Side),
    /// The local file's access time could not be read.
    LocalMetadataError,
    /// The remote file's access time could not be read.
    RemoteMetadataError,
    /// The file could not be opened on this side.
    OpenError(Side),
    /// Copying the bytes failed.
    TransferIOError,
    /// The end-of-stream handshake of the remote channel failed.
    StreamCloseError,
}

} // verus!
