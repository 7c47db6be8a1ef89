use crate::path::PathParts;
use vstd::prelude::*;

verus! {

/// ssh2's `FileStat`, the metadata of a remote file; its public fields
/// (size, owner, mode, access and modification times) are read as they are.
#[verifier::external_type_specification]
pub struct ExFileStat(ssh2::FileStat);

/// Relies on ssh2's `FileStat::is_dir`: the file-type bits of the mode
/// (missing counts as 0) are those of a directory.
pub assume_specification[ ssh2::FileStat::is_dir ](stat: &ssh2::FileStat) -> (r: bool)
    ensures
        r == (stat.perm.unwrap_or(0u32) & 0o170000u32 == 0o040000u32),
;

/// One entry of a remote directory listing.
#[derive(Clone, Debug, PartialEq, Eq)]
pub struct RemoteEntry {
    pub path: PathParts,
    pub is_directory: bool,
    pub access_time: Option<u64>,
    pub size: Option<u64>,
}

/// What a remote entry says: its path as components, and its metadata.
pub struct EntryView {
    pub path: Seq<Seq<char>>,
    pub is_directory: bool,
    pub access_time: Option<u64>,
    pub size: Option<u64>,
}

/// The views of a sequence of entries.
pub open spec fn entries_view(entries: Seq<RemoteEntry>) -> Seq<EntryView> {
    entries.map_values(|e: RemoteEntry| e@)
}

impl View for RemoteEntry {
    type V = EntryView;

    open spec fn view(&self) -> EntryView {
        EntryView {
            path: self.path@,
            is_directory: self.is_directory,
            access_time: self.access_time,
            size: self.size,
        }
    }
}

impl RemoteEntry {
    /// A copy of this entry.
    pub fn duplicate(&self) -> (r: RemoteEntry)
        ensures
            r@ == self@,
    {
        RemoteEntry {
            path: self.path.duplicate(),
            is_directory: self.is_directory,
            access_time: self.access_time,
            size: self.size,
        }
    }

    /// The entry for `path` described by the remote metadata `stat`.
    pub fn from_stat(path: PathParts, stat: &ssh2::FileStat) -> (r: RemoteEntry)
        ensures
            r.path == path,
            r.is_directory == (stat.perm.unwrap_or(0u32) & 0o170000u32 == 0o040000u32),
            r.access_time == stat.atime,
            r.size == stat.size,
    {
        RemoteEntry { path, is_directory: stat.is_dir(), access_time: stat.atime, size: stat.size }
    }
}

} // verus!
