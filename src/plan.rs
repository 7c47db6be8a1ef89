use crate::config::Location;
use crate::decision::{decision_spec, read_timestamp, SyncDecision, LATEST_CALENDAR_TIME};
use crate::error::{Side, SyncError};
use crate::model::{entries_view, EntryView, RemoteEntry};
use crate::path::{map_root, PathParts};
use vstd::prelude::*;

verus! {

/// One concrete correspondence between a local file and a remote file.
#[derive(Clone, Debug, PartialEq, Eq)]
pub struct SyncPair {
    pub local_path: PathParts,
    pub remote_path: PathParts,
}

impl View for SyncPair {
    type V = (Seq<Seq<char>>, Seq<Seq<char>>);

    open spec fn view(&self) -> (Seq<Seq<char>>, Seq<Seq<char>>) {
        (self.local_path@, self.remote_path@)
    }
}

impl SyncPair {
    /// A copy of this pair.
    pub fn duplicate(&self) -> (r: SyncPair)
        ensures
            r@ == self@,
    {
        SyncPair {
            local_path: self.local_path.duplicate(),
            remote_path: self.remote_path.duplicate(),
        }
    }
}

/// Whether `r` is the mapping error for the remote path `remote`.
pub open spec fn unmapped(r: Result<SyncPair, SyncError>, remote: Seq<Seq<char>>) -> bool {
    r matches Err(SyncError::PathMappingError(p)) && p@ == remote
}

/// The views of planned pairs: `None` where the pair could not be formed.
pub open spec fn planned_view(planned: Seq<Result<SyncPair, SyncError>>) -> Seq<
    Option<(Seq<Seq<char>>, Seq<Seq<char>>)>,
> {
    planned.map_values(
        |r: Result<SyncPair, SyncError>|
            match r {
                Ok(p) => Some(p@),
                Err(_) => None,
            },
    )
}

/// The pair for a remote path found by the walk: the local side is the
/// remote path with its root replaced by the local root.
pub open spec fn walked_pair(
    local_root: Seq<Seq<char>>,
    remote_root: Seq<Seq<char>>,
    remote: Seq<Seq<char>>,
) -> Option<(Seq<Seq<char>>, Seq<Seq<char>>)> {
    match map_root(remote, remote_root, local_root) {
        Some(local) => Some((local, remote)),
        None => None,
    }
}

/// The pairs a location synchronises: those of its explicit file list when
/// that is not empty, else those of the files the walk found.
pub open spec fn plan_spec(
    local_root: Seq<Seq<char>>,
    remote_root: Seq<Seq<char>>,
    files: Seq<Seq<Seq<char>>>,
    walked: Seq<EntryView>,
) -> Seq<Option<(Seq<Seq<char>>, Seq<Seq<char>>)>> {
    if files.len() > 0 {
        files.map_values(
            |f: Seq<Seq<char>>| Some((local_root + f, remote_root + f)),
        )
    } else {
        walked.map_values(|e: EntryView| walked_pair(local_root, remote_root, e.path))
    }
}

/// Maps a remote path under the location's remote root to its pair.
pub fn map_remote_path(loc: &Location, remote: &PathParts) -> (r: Result<SyncPair, SyncError>)
    ensures
        r is Ok <==> loc.remote_path@.is_prefix_of(remote@),
        r matches Ok(p) ==> Some(p@) == walked_pair(
            loc.local_path@,
            loc.remote_path@,
            remote@,
        ),
        r is Err ==> unmapped(r, remote@),
{
    match remote.rebase(&loc.remote_path, &loc.local_path) {
        Some(local) => Ok(SyncPair { local_path: local, remote_path: remote.duplicate() }),
        None => Err(SyncError::PathMappingError(remote.duplicate())),
    }
}

/// The pairs of a location, in order: one for each entry of its explicit file
/// list, or, when the list is empty, one for each file that the walk of its
/// remote tree found.
pub fn location_pairs(loc: &Location, walked: &Vec<RemoteEntry>) -> (r: Vec<
    Result<SyncPair, SyncError>,
>)
    ensures
        planned_view(r@) == plan_spec(
            loc.local_path@,
            loc.remote_path@,
            loc.files@.map_values(|f: PathParts| f@),
            entries_view(walked@),
        ),
        forall|i: int|
            0 <= i < r@.len() && r@[i] is Err ==> loc.files@.len() == 0 && unmapped(
                r@[i],
                walked@[i].path@,
            ),
{
    let ghost goal = plan_spec(
        loc.local_path@,
        loc.remote_path@,
        loc.files@.map_values(|f: PathParts| f@),
        entries_view(walked@),
    );
    let mut out: Vec<Result<SyncPair, SyncError>> = Vec::new();
    if loc.files.len() > 0 {
        let mut i: usize = 0;
        while i < loc.files.len()
            invariant
                i <= loc.files.len(),
                loc.files.len() > 0,
                goal == plan_spec(
                    loc.local_path@,
                    loc.remote_path@,
                    loc.files@.map_values(|f: PathParts| f@),
                    entries_view(walked@),
                ),
                planned_view(out@) == goal.take(i as int),
                forall|k: int| 0 <= k < out@.len() ==> out@[k] is Ok,
            decreases loc.files.len() - i,
        {
            let f = &loc.files[i];
            let pair = SyncPair {
                local_path: loc.local_path.join(f),
                remote_path: loc.remote_path.join(f),
            };
            let ghost before = out@;
            out.push(Ok(pair));
            proof {
                assert(loc.files@.map_values(|f: PathParts| f@)[i as int] == f@);
                assert(goal[i as int] == Some(pair@));
                assert(planned_view(out@) =~= planned_view(before).push(Some(pair@)));
                assert(goal.take(i + 1) =~= goal.take(i as int).push(goal[i as int]));
            }
            i = i + 1;
        }
        proof {
            assert(goal.take(i as int) =~= goal);
        }
    } else {
        let mut i: usize = 0;
        while i < walked.len()
            invariant
                i <= walked.len(),
                loc.files.len() == 0,
                goal == plan_spec(
                    loc.local_path@,
                    loc.remote_path@,
                    loc.files@.map_values(|f: PathParts| f@),
                    entries_view(walked@),
                ),
                planned_view(out@) == goal.take(i as int),
                out@.len() == i,
                forall|k: int|
                    0 <= k < out@.len() && out@[k] is Err ==> unmapped(out@[k], walked@[k].path@),
            decreases walked.len() - i,
        {
            let m = map_remote_path(loc, &walked[i].path);
            let ghost before = out@;
            let ghost mv = match &m {
                Ok(p) => Some(p@),
                Err(_) => None,
            };
            out.push(m);
            proof {
                assert(entries_view(walked@)[i as int] == walked@[i as int]@);
                assert(goal[i as int] == mv);
                assert(planned_view(out@) =~= planned_view(before).push(mv));
                assert(goal.take(i + 1) =~= goal.take(i as int).push(goal[i as int]));
            }
            i = i + 1;
        }
        proof {
            assert(goal.take(i as int) =~= goal);
        }
    }
    out
}

/// What was found of one side of a pair: whether a regular file stands
/// there, and its access time in seconds since the epoch, if it could be read.
#[derive(Clone, Copy, Debug, PartialEq, Eq, Structural)]
pub struct FileProbe {
    pub is_file: bool,
    pub access_time: Option<u64>,
}

/// An access time that lies on the UTC calendar.
pub open spec fn calendar_time(t: Option<u64>) -> Option<int> {
    match t {
        Some(s) => if s <= LATEST_CALENDAR_TIME {
            Some(s as int)
        } else {
            None
        },
        None => None,
    }
}

/// Whether an access time is missing or lies on the UTC calendar.
pub open spec fn time_in_range(t: Option<u64>) -> bool {
    t is None || t.unwrap() <= LATEST_CALENDAR_TIME
}

/// The decision for a pair from what was found of its two sides. With an
/// explicit file list an absent file is a missing file; in a walked tree it
/// is a metadata error of its side.
pub open spec fn assess_spec(explicit: bool, local: FileProbe, remote: FileProbe) -> Result<
    SyncDecision,
    SyncError,
> {
    if !local.is_file {
        if explicit {
            Err(SyncError::MissingFileError(Side::Local))
        } else {
            Err(SyncError::LocalMetadataError)
        }
    } else if !remote.is_file {
        if explicit {
            Err(SyncError::MissingFileError(Side::Remote))
        } else {
            Err(SyncError::RemoteMetadataError)
        }
    } else {
        match (calendar_time(local.access_time), calendar_time(remote.access_time)) {
            (None, _) => Err(SyncError::LocalMetadataError),
            (_, None) => Err(SyncError::RemoteMetadataError),
            (Some(a), Some(b)) => Ok(decision_spec(a, b)),
        }
    }
}

/// Decides what a pair needs from what was found of its two sides.
pub fn assess_pair(explicit: bool, local: FileProbe, remote: FileProbe) -> (r: Result<
    SyncDecision,
    SyncError,
>)
    ensures
        r == assess_spec(explicit, local, remote),
{
    if !local.is_file {
        if explicit {
            return Err(SyncError::MissingFileError(Side::Local));
        } else {
            return Err(SyncError::LocalMetadataError);
        }
    }
    if !remote.is_file {
        if explicit {
            return Err(SyncError::MissingFileError(Side::Remote));
        } else {
            return Err(SyncError::RemoteMetadataError);
        }
    }
    let local_time = match read_timestamp(local.access_time) {
        Some(t) => t,
        None => {
            return Err(SyncError::LocalMetadataError);
        },
    };
    let remote_time = match read_timestamp(remote.access_time) {
        Some(t) => t,
        None => {
            return Err(SyncError::RemoteMetadataError);
        },
    };
    Ok(crate::decision::decide(local_time, remote_time))
}

/// With a non-empty explicit file list a location synchronises exactly the
/// listed files, whatever its remote tree holds; a listed file that is absent
/// on either side is a missing file, and such a pair gets no decision, so no
/// transfer.
pub proof fn lemma_explicit_list_exclusive(
    local_root: Seq<Seq<char>>,
    remote_root: Seq<Seq<char>>,
    files: Seq<Seq<Seq<char>>>,
    walked: Seq<EntryView>,
    other_walked: Seq<EntryView>,
    local: FileProbe,
    remote: FileProbe,
)
    requires
        files.len() > 0,
    ensures
        plan_spec(local_root, remote_root, files, walked) == plan_spec(
            local_root,
            remote_root,
            files,
            other_walked,
        ),
        plan_spec(local_root, remote_root, files, walked).len() == files.len(),
        forall|i: int|
            0 <= i < files.len() ==> #[trigger] plan_spec(local_root, remote_root, files, walked)[i]
                == Some((local_root + files[i], remote_root + files[i])),
        !local.is_file ==> assess_spec(true, local, remote) == Err::<SyncDecision, SyncError>(
            SyncError::MissingFileError(Side::Local),
        ),
        local.is_file && !remote.is_file ==> assess_spec(true, local, remote) == Err::<
            SyncDecision,
            SyncError,
        >(SyncError::MissingFileError(Side::Remote)),
{
}

/// A pair whose two sides hold the same readable access time, as a transfer
/// that carries the time over leaves them, is found up to date, however the
/// location lists its files.
pub proof fn lemma_equal_times_up_to_date(explicit: bool, local: FileProbe, remote: FileProbe)
    requires
        local.is_file,
        remote.is_file,
        local.access_time is Some,
        local.access_time == remote.access_time,
        time_in_range(local.access_time),
    ensures
        assess_spec(explicit, local, remote) == Ok::<SyncDecision, SyncError>(SyncDecision::UpToDate),
{
}

} // verus!
