use crate::config::Location;
use crate::error::SyncError;
use crate::model::entries_view;
use crate::path::PathParts;
use crate::plan::{location_pairs, plan_spec, planned_view, SyncPair};
use crate::report::{LocationReport, PairOutcome};
use crate::walk::{walk_step, TreeWalk};
use vstd::prelude::*;

verus! {

/// Whether `o` records the failure of the planned pair `planned`, which
/// could not be formed: no pair, no decision, and the same mapping error.
pub open spec fn records_unmapped(o: PairOutcome, planned: Result<SyncPair, SyncError>) -> bool {
    &&& o.pair is None
    &&& o.decision is None
    &&& planned matches Err(SyncError::PathMappingError(q))
    &&& o.result matches Err(SyncError::PathMappingError(p))
    &&& p@ == q@
}

/// What the work on a location needs next.
#[derive(Debug, PartialEq, Eq)]
pub enum LocationAction {
    /// List this remote directory and hand the listing to `listing_received`,
    /// or report the failure with `listing_failed`.
    ListDirectory(PathParts),
    /// Work on this pair and hand its outcome to `pair_done`.
    SyncPair(SyncPair),
    /// Nothing is left to do: take the report with `finish`.
    Finished,
}

/// The work on one location: the walk of its remote tree (none with an
/// explicit file list), then its pairs one by one, with their outcomes.
pub struct LocationRun {
    location: Location,
    walk: TreeWalk,
    planned: Vec<Result<SyncPair, SyncError>>,
    walked: bool,
    next: usize,
    report: LocationReport,
}

impl LocationRun {
    pub closed spec fn location(&self) -> Location {
        self.location
    }

    pub closed spec fn walk(&self) -> TreeWalk {
        self.walk
    }

    /// The pairs of the location, once its walk is over.
    pub closed spec fn planned(&self) -> Seq<Result<SyncPair, SyncError>> {
        self.planned@
    }

    /// Whether the pairs of the location are known: its walk is over, or it has an explicit list.
    pub closed spec fn walked(&self) -> bool {
        self.walked
    }

    /// How many of the planned pairs are done.
    pub closed spec fn done(&self) -> nat {
        self.next as nat
    }

    pub closed spec fn report(&self) -> LocationReport {
        self.report
    }

    /// The pairs that the location's roots and file list give for the files found by the walk.
    pub open spec fn expected_plan(&self) -> Seq<Option<(Seq<Seq<char>>, Seq<Seq<char>>)>> {
        plan_spec(
            self.location().local_path@,
            self.location().remote_path@,
            self.location().files@.map_values(|f: PathParts| f@),
            self.walk().found(),
        )
    }

    pub open spec fn wf(&self) -> bool {
        &&& self.done() <= self.planned().len()
        &&& self.walked() ==> planned_view(self.planned()) == self.expected_plan()
        &&& !self.walked() ==> self.location().files@.len() == 0 && self.done() == 0
        &&& self.location().files@.len() > 0 ==> self.walked()
        &&& forall|i: int|
            0 <= i < self.planned().len() && self.planned()[i] is Err ==> self.planned()[i] matches Err(
                SyncError::PathMappingError(_),
            )
    }

    /// Whether the run waits for the listing of the first pending directory.
    pub open spec fn listing_awaited(&self) -> bool {
        &&& !self.walked()
        &&& self.report().aborted is None
        &&& self.walk().pending().len() > 0
    }

    /// Whether the run waits for the outcome of the pair at `done()`.
    pub open spec fn pair_awaited(&self) -> bool {
        &&& self.walked()
        &&& self.report().aborted is None
        &&& self.done() < self.planned().len()
        &&& self.planned()[self.done() as int] is Ok
    }

    /// The work on `location`: an explicit file list gives the pairs at once,
    /// else the walk starts at the remote root.
    pub fn new(location: Location) -> (r: LocationRun)
        ensures
            r.wf(),
            r.location() == location,
            r.done() == 0,
            r.report().name == location.name,
            r.report().outcomes@.len() == 0,
            r.report().aborted is None,
            r.walked() == (location.files@.len() > 0),
            !r.walked() ==> r.walk().pending() == seq![location.remote_path@]
                && r.walk().found().len() == 0,
    {
        let walk = TreeWalk::new(location.remote_path.duplicate());
        let report = LocationReport::new(location.name.clone());
        if location.files.len() > 0 {
            let planned = location_pairs(&location, walk.files());
            LocationRun { location, walk, planned, walked: true, next: 0, report }
        } else {
            LocationRun { location, walk, planned: Vec::new(), walked: false, next: 0, report }
        }
    }

    /// Whether the location synchronises an explicit file list rather than its whole tree.
    pub fn is_explicit(&self) -> (r: bool)
        ensures
            r == (self.location().files@.len() > 0),
    {
        self.location.files.len() > 0
    }

    /// What the location needs next. Pairs that could not be formed are
    /// recorded as failed on the way, without stopping the ones after them;
    /// a location with an explicit file list never asks for a listing.
    pub fn next_action(&mut self) -> (r: LocationAction)
        requires
            old(self).wf(),
        ensures
            final(self).wf(),
            final(self).location() == old(self).location(),
            final(self).walk() == old(self).walk(),
            final(self).report().name == old(self).report().name,
            final(self).report().aborted == old(self).report().aborted,
            old(self).location().files@.len() > 0 ==> !(r is ListDirectory),
            old(self).report().aborted is Some ==> r is Finished && final(self).report()
                == old(self).report(),
            old(self).listing_awaited() ==> final(self).listing_awaited()
                && final(self).report() == old(self).report() && (r matches LocationAction::ListDirectory(d)
                && d@ == old(self).walk().pending()[0]),
            old(self).report().aborted is None && !old(self).listing_awaited() ==> {
                &&& final(self).walked()
                &&& old(self).done() <= final(self).done()
                &&& final(self).report().outcomes@.len() == old(self).report().outcomes@.len()
                    + final(self).done() - (if old(self).walked() {
                    old(self).done()
                } else {
                    0
                })
                &&& final(self).report().outcomes@.subrange(
                    0,
                    old(self).report().outcomes@.len() as int,
                ) == old(self).report().outcomes@
                &&& forall|i: int|
                    (if old(self).walked() {
                        old(self).done() as int
                    } else {
                        0
                    }) <= i < final(self).done() ==> (#[trigger] final(self).planned()[i]) is Err
                        && records_unmapped(
                        final(self).report().outcomes@[old(self).report().outcomes@.len() + i - (
                        if old(self).walked() {
                            old(self).done() as int
                        } else {
                            0
                        })],
                        final(self).planned()[i],
                    )
                &&& r matches LocationAction::SyncPair(p) ==> final(self).pair_awaited()
                    && planned_view(final(self).planned())[final(self).done() as int] == Some(p@)
                &&& r is Finished ==> final(self).done() == final(self).planned().len()
                &&& !(r is ListDirectory)
            },
    {
        if self.report.aborted.is_some() {
            return LocationAction::Finished;
        }
        if !self.walked {
            match self.walk.next_directory() {
                Some(d) => {
                    return LocationAction::ListDirectory(d);
                },
                None => {
                    self.planned = location_pairs(&self.location, self.walk.files());
                    self.walked = true;
                    self.next = 0;
                },
            }
        }
        let ghost start = self.report.outcomes@;
        let ghost first = self.next;
        while self.next < self.planned.len()
            invariant
                self.wf(),
                self.walked,
                self.report.aborted is None,
                first <= self.next <= self.planned@.len(),
                self.location == old(self).location,
                self.walk == old(self).walk,
                self.report.name == old(self).report.name,
                self.report.outcomes@.len() == start.len() + self.next - first,
                self.report.outcomes@.subrange(0, start.len() as int) == start,
                forall|i: int|
                    first <= i < self.next ==> (#[trigger] self.planned@[i]) is Err
                        && records_unmapped(
                        self.report.outcomes@[start.len() + i - first],
                        self.planned@[i],
                    ),
            ensures
                self.wf(),
                self.walked,
                self.report.aborted is None,
                first <= self.next <= self.planned@.len(),
                self.location == old(self).location,
                self.walk == old(self).walk,
                self.report.name == old(self).report.name,
                self.report.outcomes@.len() == start.len() + self.next - first,
                self.report.outcomes@.subrange(0, start.len() as int) == start,
                forall|i: int|
                    first <= i < self.next ==> (#[trigger] self.planned@[i]) is Err
                        && records_unmapped(
                        self.report.outcomes@[start.len() + i - first],
                        self.planned@[i],
                    ),
                self.next < self.planned@.len() ==> self.planned@[self.next as int] is Ok,
            decreases self.planned@.len() - self.next,
        {
            let remote = match &self.planned[self.next] {
                Ok(_) => {
                    break;
                },
                Err(SyncError::PathMappingError(remote)) => remote.duplicate(),
                Err(_) => {
                    break;
                },
            };
            let failed = PairOutcome {
                pair: None,
                decision: None,
                result: Err(SyncError::PathMappingError(remote)),
            };
            self.report.record(failed);
            self.next = self.next + 1;
            proof {
                assert(self.report.outcomes@.subrange(0, start.len() as int) =~= start);
            }
        }
        if self.next < self.planned.len() {
            match &self.planned[self.next] {
                Ok(pair) => LocationAction::SyncPair(pair.duplicate()),
                Err(_) => LocationAction::Finished,
            }
        } else {
            LocationAction::Finished
        }
    }

    /// Takes in the listing of the directory that `next_action` named.
    pub fn listing_received(&mut self, listing: Vec<crate::model::RemoteEntry>)
        requires
            old(self).wf(),
            old(self).listing_awaited(),
        ensures
            final(self).wf(),
            final(self).location() == old(self).location(),
            final(self).report() == old(self).report(),
            !final(self).walked(),
            (final(self).walk().pending(), final(self).walk().found()) == walk_step(
                old(self).walk().pending(),
                old(self).walk().found(),
                entries_view(listing@),
            ),
    {
        self.walk.absorb_listing(listing);
    }

    /// Records that the directory that `next_action` named could not be
    /// listed: the location is aborted, as a partial tree is never synchronised.
    pub fn listing_failed(&mut self)
        requires
            old(self).wf(),
            old(self).listing_awaited(),
        ensures
            final(self).wf(),
            final(self).location() == old(self).location(),
            final(self).report().name == old(self).report().name,
            final(self).report().outcomes@ == old(self).report().outcomes@,
            final(self).report().aborted matches Some(SyncError::DirectoryListError(d)) && d@
                == old(self).walk().pending()[0],
    {
        match self.walk.next_directory() {
            Some(d) => self.report.abort(SyncError::DirectoryListError(d)),
            None => {},
        }
    }

    /// Records the outcome of the pair that `next_action` handed out; a
    /// failed pair does not stop the ones after it.
    pub fn pair_done(&mut self, outcome: PairOutcome)
        requires
            old(self).wf(),
            old(self).pair_awaited(),
        ensures
            final(self).wf(),
            final(self).location() == old(self).location(),
            final(self).walk() == old(self).walk(),
            final(self).walked(),
            final(self).done() == old(self).done() + 1,
            final(self).report().name == old(self).report().name,
            final(self).report().aborted is None,
            final(self).report().outcomes@ == old(self).report().outcomes@.push(outcome),
    {
        self.report.record(outcome);
        if self.next < self.planned.len() {
            self.next = self.next + 1;
        }
    }

    /// The report of the location.
    pub fn finish(self) -> (r: LocationReport)
        ensures
            r == self.report(),
    {
        self.report
    }
}

} // verus!
