use crate::path::PathParts;
use vstd::prelude::*;
use vstd::string::*;

verus! {

/// One configured pair of directories to keep in step.
#[derive(Clone, Debug, PartialEq, Eq)]
pub struct Location {
    pub name: String,
    pub local_path: PathParts,
    pub remote_path: PathParts,
    /// Paths relative to both roots; when empty the whole remote tree is synchronised.
    pub files: Vec<PathParts>,
}

/// The validated configuration of a run.
#[derive(Clone, Debug, PartialEq, Eq)]
pub struct RemoteSyncHelper {
    pub auto_sync: bool,
    pub remote: String,
    pub user: String,
    pub locations: Vec<Location>,
}

impl RemoteSyncHelper {
    /// The address of the remote host's secure-shell service: the host name
    /// followed by port 22.
    pub fn session_address(&self) -> (r: String)
        ensures
            r@ == self.remote@ + ":22"@,
    {
        self.remote.clone().concat(":22")
    }
}

} // verus!
