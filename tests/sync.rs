use remote_sync::{
    assess_pair, decide, location_pairs, map_remote_path, read_timestamp, FileProbe, Location,
    LocationAction, LocationReport, LocationRun, OutcomeKind, PairOutcome, PairSync, PathParts, RemoteEntry, RemoteSyncHelper, RunReport,
    Side, SyncDecision, SyncError, SyncPair, SyncPolicy, Transfer, TransferStep, TreeWalk,
    LATEST_CALENDAR_TIME, TRANSFER_STEP_COUNT,
};
use std::collections::BTreeMap;

fn path(parts: &[&str]) -> PathParts {
    PathParts::new(parts.iter().map(|s| s.to_string()).collect())
}

fn file(parts: &[&str], atime: u64) -> RemoteEntry {
    RemoteEntry { path: path(parts), is_directory: false, access_time: Some(atime), size: Some(10) }
}

fn dir(parts: &[&str]) -> RemoteEntry {
    RemoteEntry { path: path(parts), is_directory: true, access_time: Some(1), size: None }
}

fn location(files: Vec<PathParts>) -> Location {
    Location {
        name: "docs".to_string(),
        local_path: path(&["home", "me", "docs"]),
        remote_path: path(&["srv", "docs"]),
        files,
    }
}

fn probe(time: u64) -> FileProbe {
    FileProbe { is_file: true, access_time: Some(time) }
}

const ABSENT: FileProbe = FileProbe { is_file: false, access_time: None };

#[test]
fn join_appends_components() {
    let joined = path(&["a", "b"]).join(&path(&["c"]));
    assert_eq!(joined, path(&["a", "b", "c"]));
    assert_eq!(joined.len(), 3);
}

#[test]
fn strip_prefix_by_components() {
    let p = path(&["srv", "docs", "x", "y.txt"]);
    assert_eq!(p.strip_prefix(&path(&["srv", "docs"])), Some(path(&["x", "y.txt"])));
    assert_eq!(p.strip_prefix(&path(&["srv", "doc"])), None);
    assert_eq!(path(&["srv"]).strip_prefix(&path(&["srv", "docs"])), None);
    assert_eq!(p.strip_prefix(&path(&[])), Some(p.clone()));
}

#[test]
fn remote_path_maps_to_local_and_back() {
    let loc = location(vec![]);
    let remote = path(&["srv", "docs", "notes", "a.txt"]);
    let pair = map_remote_path(&loc, &remote).unwrap();
    assert_eq!(pair.local_path, path(&["home", "me", "docs", "notes", "a.txt"]));
    assert_eq!(pair.remote_path, remote);
    let back = pair.local_path.rebase(&loc.local_path, &loc.remote_path).unwrap();
    assert_eq!(back, remote);
    let again = map_remote_path(&loc, &back).unwrap();
    assert_eq!(again, pair);
}

#[test]
fn remote_path_outside_root_is_a_mapping_error() {
    let loc = location(vec![]);
    assert_eq!(
        map_remote_path(&loc, &path(&["srv", "other", "a.txt"])),
        Err(SyncError::PathMappingError(path(&["srv", "other", "a.txt"])))
    );
}

#[test]
fn decision_follows_times() {
    assert_eq!(decide(100, 100), SyncDecision::UpToDate);
    assert_eq!(decide(101, 100), SyncDecision::PushToRemote);
    assert_eq!(decide(99, 100), SyncDecision::PullToLocal);
    assert_eq!(decide(i64::MIN, i64::MAX), SyncDecision::PullToLocal);
}

#[test]
fn timestamps_are_read_within_the_calendar() {
    assert_eq!(read_timestamp(None), None);
    assert_eq!(read_timestamp(Some(1_700_000_000)), Some(1_700_000_000));
    assert_eq!(read_timestamp(Some(253_402_300_800)), Some(253_402_300_800));
    assert_eq!(read_timestamp(Some(LATEST_CALENDAR_TIME as u64)), Some(LATEST_CALENDAR_TIME));
    assert_eq!(read_timestamp(Some(LATEST_CALENDAR_TIME as u64 + 1)), None);
    assert_eq!(read_timestamp(Some(i64::MAX as u64)), None);
    assert_eq!(read_timestamp(Some(u64::MAX)), None);
}

#[test]
fn entry_kind_comes_from_the_mode_bits() {
    let mut stat = ssh2::FileStat {
        size: Some(4),
        uid: None,
        gid: None,
        perm: Some(0o040755),
        atime: Some(7),
        mtime: None,
    };
    let d = RemoteEntry::from_stat(path(&["srv", "d"]), &stat);
    assert!(d.is_directory);
    assert_eq!(d.access_time, Some(7));
    assert_eq!(d.size, Some(4));
    stat.perm = Some(0o100644);
    assert!(!RemoteEntry::from_stat(path(&["srv", "f"]), &stat).is_directory);
    stat.perm = None;
    assert!(!RemoteEntry::from_stat(path(&["srv", "f"]), &stat).is_directory);
}

fn run_walk(tree: &BTreeMap<Vec<String>, Vec<RemoteEntry>>, root: PathParts) -> Vec<RemoteEntry> {
    let mut walk = TreeWalk::new(root);
    let mut listed = 0;
    while let Some(d) = walk.next_directory() {
        walk.absorb_listing(tree[&d.parts].clone());
        listed += 1;
        assert!(listed <= tree.len());
    }
    assert!(walk.is_done());
    walk.into_files()
}

fn key(parts: &[&str]) -> Vec<String> {
    parts.iter().map(|s| s.to_string()).collect()
}

#[test]
fn walk_finds_every_file_once_at_any_depth() {
    let mut tree = BTreeMap::new();
    tree.insert(key(&["r"]), vec![dir(&["r", "a"]), file(&["r", "f1"], 1), dir(&["r", "b"])]);
    tree.insert(key(&["r", "a"]), vec![dir(&["r", "a", "deep"]), file(&["r", "a", "f2"], 2)]);
    tree.insert(key(&["r", "a", "deep"]), vec![file(&["r", "a", "deep", "f3"], 3)]);
    tree.insert(key(&["r", "b"]), vec![]);
    let found = run_walk(&tree, path(&["r"]));
    let mut names: Vec<PathParts> = found.iter().map(|e| e.path.clone()).collect();
    names.sort_by(|a, b| a.parts.cmp(&b.parts));
    assert_eq!(
        names,
        vec![path(&["r", "a", "deep", "f3"]), path(&["r", "a", "f2"]), path(&["r", "f1"])]
    );
    // the same tree with listings in another order gives the same files
    tree.insert(key(&["r"]), vec![dir(&["r", "b"]), dir(&["r", "a"]), file(&["r", "f1"], 1)]);
    let again = run_walk(&tree, path(&["r"]));
    assert_eq!(again.len(), 3);
    assert!(again.iter().all(|e| found.contains(e)));
}

#[test]
fn walk_of_an_empty_root_finds_nothing() {
    let mut tree = BTreeMap::new();
    tree.insert(key(&["r"]), vec![]);
    assert!(run_walk(&tree, path(&["r"])).is_empty());
}

#[test]
fn whole_tree_location_pairs_every_walked_file() {
    let loc = location(vec![]);
    let walked = vec![file(&["srv", "docs", "a.txt"], 5), file(&["elsewhere", "b.txt"], 6)];
    let pairs = location_pairs(&loc, &walked);
    assert_eq!(pairs.len(), 2);
    assert_eq!(
        pairs[0],
        Ok(SyncPair {
            local_path: path(&["home", "me", "docs", "a.txt"]),
            remote_path: path(&["srv", "docs", "a.txt"]),
        })
    );
    assert_eq!(pairs[1], Err(SyncError::PathMappingError(path(&["elsewhere", "b.txt"]))));
}

#[test]
fn explicit_list_ignores_the_remote_tree() {
    let loc = location(vec![path(&["notes.txt"]), path(&["sub", "todo.md"])]);
    let walked = vec![file(&["srv", "docs", "other.txt"], 5)];
    let pairs = location_pairs(&loc, &walked);
    assert_eq!(pairs, location_pairs(&loc, &vec![]));
    assert_eq!(pairs.len(), 2);
    assert_eq!(
        pairs[1],
        Ok(SyncPair {
            local_path: path(&["home", "me", "docs", "sub", "todo.md"]),
            remote_path: path(&["srv", "docs", "sub", "todo.md"]),
        })
    );
}

#[test]
fn explicit_file_absent_on_a_side_is_missing() {
    assert_eq!(assess_pair(true, ABSENT, probe(5)), Err(SyncError::MissingFileError(Side::Local)));
    assert_eq!(assess_pair(true, probe(5), ABSENT), Err(SyncError::MissingFileError(Side::Remote)));
    assert_eq!(
        assess_pair(true, ABSENT, probe(u64::MAX)),
        Err(SyncError::MissingFileError(Side::Local))
    );
    assert_eq!(
        assess_pair(true, probe(u64::MAX), ABSENT),
        Err(SyncError::MissingFileError(Side::Remote))
    );
    assert_eq!(assess_pair(false, ABSENT, probe(5)), Err(SyncError::LocalMetadataError));
    assert_eq!(assess_pair(false, probe(5), ABSENT), Err(SyncError::RemoteMetadataError));
}

#[test]
fn unreadable_times_are_metadata_errors() {
    let no_time = FileProbe { is_file: true, access_time: None };
    assert_eq!(assess_pair(false, no_time, probe(5)), Err(SyncError::LocalMetadataError));
    assert_eq!(assess_pair(true, probe(5), no_time), Err(SyncError::RemoteMetadataError));
    assert_eq!(assess_pair(false, probe(u64::MAX), probe(5)), Err(SyncError::LocalMetadataError));
}

#[test]
fn pair_decisions_follow_times() {
    assert_eq!(assess_pair(false, probe(20), probe(10)), Ok(SyncDecision::PushToRemote));
    assert_eq!(assess_pair(true, probe(10), probe(20)), Ok(SyncDecision::PullToLocal));
    assert_eq!(assess_pair(false, probe(10), probe(10)), Ok(SyncDecision::UpToDate));
}

#[test]
fn second_run_after_time_preserving_copy_is_up_to_date() {
    // after a copy that carries the source's time over, both sides agree
    let decision = assess_pair(false, probe(1_700_000_500), probe(1_700_000_000)).unwrap();
    assert_eq!(decision, SyncDecision::PushToRemote);
    let second = assess_pair(false, probe(1_700_000_500), probe(1_700_000_500));
    assert_eq!(second, Ok(SyncDecision::UpToDate));
}

fn drive(decision: SyncDecision, fail_at: Option<TransferStep>) -> (Vec<TransferStep>, Result<(), SyncError>) {
    let mut t = Transfer::new(decision);
    let mut steps = vec![];
    while let Some(step) = t.next_step() {
        steps.push(step);
        t.record_step(Some(step) != fail_at);
    }
    (steps, t.outcome())
}

#[test]
fn push_runs_every_step_in_order() {
    let (steps, outcome) = drive(SyncDecision::PushToRemote, None);
    assert_eq!(
        steps,
        vec![
            TransferStep::OpenLocal,
            TransferStep::OpenRemote,
            TransferStep::CopyBytes,
            TransferStep::SendEof,
            TransferStep::WaitEof,
            TransferStep::CloseChannel,
            TransferStep::WaitClose,
        ]
    );
    assert_eq!(steps.len(), TRANSFER_STEP_COUNT);
    assert_eq!(outcome, Ok(()));
    let (pull_steps, pull_outcome) = drive(SyncDecision::PullToLocal, None);
    assert_eq!(pull_steps, steps);
    assert_eq!(pull_outcome, Ok(()));
}

#[test]
fn up_to_date_pair_needs_no_transfer() {
    let (steps, outcome) = drive(SyncDecision::UpToDate, None);
    assert!(steps.is_empty());
    assert_eq!(outcome, Ok(()));
}

#[test]
fn failed_step_ends_the_transfer_with_its_error() {
    let (steps, outcome) = drive(SyncDecision::PushToRemote, Some(TransferStep::OpenLocal));
    assert_eq!(steps, vec![TransferStep::OpenLocal]);
    assert_eq!(outcome, Err(SyncError::OpenError(Side::Local)));
    let (steps, outcome) = drive(SyncDecision::PullToLocal, Some(TransferStep::OpenRemote));
    assert_eq!(steps.len(), 2);
    assert_eq!(outcome, Err(SyncError::OpenError(Side::Remote)));
    let (steps, outcome) = drive(SyncDecision::PushToRemote, Some(TransferStep::CopyBytes));
    assert_eq!(steps.len(), 3);
    assert_eq!(outcome, Err(SyncError::TransferIOError));
    let (steps, outcome) = drive(SyncDecision::PullToLocal, Some(TransferStep::WaitEof));
    assert_eq!(steps.len(), 5);
    assert_eq!(outcome, Err(SyncError::StreamCloseError));
}

fn outcome(decision: SyncDecision, result: Result<(), SyncError>) -> PairOutcome {
    PairOutcome { pair: None, decision: Some(decision), result }
}

#[test]
fn failure_in_one_location_does_not_stop_the_next() {
    let policy = SyncPolicy::continuing();
    let mut run = RunReport::new();
    let mut a = LocationReport::new("A".to_string());
    a.record(outcome(SyncDecision::PushToRemote, Ok(())));
    a.record(outcome(SyncDecision::PullToLocal, Err(SyncError::TransferIOError)));
    a.record(outcome(SyncDecision::UpToDate, Ok(())));
    let sa = a.summary();
    assert_eq!((sa.up_to_date, sa.pushed, sa.pulled, sa.failed), (1, 1, 0, 1));
    assert!(!a.succeeded());
    run.add(a);
    assert!(run.should_continue(policy));
    let mut b = LocationReport::new("B".to_string());
    b.record(outcome(SyncDecision::PushToRemote, Ok(())));
    b.record(outcome(SyncDecision::PullToLocal, Ok(())));
    let sb = b.summary();
    assert_eq!((sb.up_to_date, sb.pushed, sb.pulled, sb.failed), (0, 1, 1, 0));
    assert!(b.succeeded());
    run.add(b);
    assert_eq!(run.locations.len(), 2);
    assert!(!run.all_succeeded());
    assert!(!run.should_continue(SyncPolicy::stopping()));
}

#[test]
fn aborted_location_is_not_a_success() {
    let mut report = LocationReport::new("C".to_string());
    report.abort(SyncError::DirectoryListError(path(&["srv", "c"])));
    assert!(!report.succeeded());
    assert_eq!(report.summary().failed, 0);
    let mut run = RunReport::new();
    assert!(run.all_succeeded());
    assert!(run.should_continue(SyncPolicy::stopping()));
    run.add(report);
    assert!(!run.should_continue(SyncPolicy::stopping()));
}

#[test]
fn outcome_kinds() {
    assert_eq!(outcome(SyncDecision::UpToDate, Ok(())).kind(), OutcomeKind::UpToDate);
    assert_eq!(outcome(SyncDecision::PushToRemote, Ok(())).kind(), OutcomeKind::Pushed);
    assert_eq!(outcome(SyncDecision::PullToLocal, Ok(())).kind(), OutcomeKind::Pulled);
    assert_eq!(
        outcome(SyncDecision::PullToLocal, Err(SyncError::StreamCloseError)).kind(),
        OutcomeKind::Failed
    );
}

#[test]
fn session_address_uses_port_22() {
    let helper = RemoteSyncHelper {
        auto_sync: true,
        remote: "example.org".to_string(),
        user: "me".to_string(),
        locations: vec![location(vec![])],
    };
    assert_eq!(helper.session_address(), "example.org:22");
}

fn sample_pair() -> SyncPair {
    SyncPair { local_path: path(&["home", "a"]), remote_path: path(&["srv", "a"]) }
}

#[test]
fn pair_without_decision_does_no_work() {
    let work = PairSync::new(sample_pair(), Err(SyncError::MissingFileError(Side::Remote)));
    assert_eq!(work.next_step(), None);
    let o = work.finish();
    assert_eq!(o.pair, Some(sample_pair()));
    assert_eq!(o.decision, None);
    assert_eq!(o.result, Err(SyncError::MissingFileError(Side::Remote)));
}

#[test]
fn pair_work_reports_its_transfer() {
    let mut work = PairSync::new(sample_pair(), Ok(SyncDecision::PullToLocal));
    let mut steps = 0;
    while let Some(step) = work.next_step() {
        steps += 1;
        work.record_step(step != TransferStep::CloseChannel);
    }
    assert_eq!(steps, 6);
    let o = work.finish();
    assert_eq!(o.decision, Some(SyncDecision::PullToLocal));
    assert_eq!(o.result, Err(SyncError::StreamCloseError));
    assert_eq!(o.kind(), OutcomeKind::Failed);

    let mut done = PairSync::new(sample_pair(), Ok(SyncDecision::PushToRemote));
    while done.next_step().is_some() {
        done.record_step(true);
    }
    let o = done.finish();
    assert_eq!(o.result, Ok(()));
    assert_eq!(o.kind(), OutcomeKind::Pushed);
}

fn finish_pairs(run: &mut LocationRun, fail: &[usize]) -> Vec<SyncPair> {
    let mut seen = vec![];
    loop {
        match run.next_action() {
            LocationAction::SyncPair(pair) => {
                let result =
                    if fail.contains(&seen.len()) { Err(SyncError::TransferIOError) } else { Ok(()) };
                seen.push(pair.clone());
                run.pair_done(PairOutcome {
                    pair: Some(pair),
                    decision: Some(SyncDecision::PushToRemote),
                    result,
                });
            }
            LocationAction::Finished => return seen,
            LocationAction::ListDirectory(d) => panic!("unexpected listing of {:?}", d),
        }
    }
}

#[test]
fn explicit_location_never_lists_directories() {
    let mut run = LocationRun::new(location(vec![path(&["a.txt"]), path(&["b", "c.txt"])]));
    assert!(run.is_explicit());
    let pairs = finish_pairs(&mut run, &[]);
    assert_eq!(pairs.len(), 2);
    assert_eq!(pairs[0].remote_path, path(&["srv", "docs", "a.txt"]));
    assert_eq!(pairs[1].local_path, path(&["home", "me", "docs", "b", "c.txt"]));
    assert!(run.finish().succeeded());
}

#[test]
fn whole_tree_location_walks_then_syncs() {
    let mut run = LocationRun::new(location(vec![]));
    assert!(!run.is_explicit());
    assert_eq!(run.next_action(), LocationAction::ListDirectory(path(&["srv", "docs"])));
    run.listing_received(vec![
        file(&["srv", "docs", "a.txt"], 3),
        dir(&["srv", "docs", "sub"]),
        file(&["elsewhere", "x"], 1),
    ]);
    assert_eq!(run.next_action(), LocationAction::ListDirectory(path(&["srv", "docs", "sub"])));
    run.listing_received(vec![file(&["srv", "docs", "sub", "b.txt"], 4)]);
    let pairs = finish_pairs(&mut run, &[]);
    assert_eq!(
        pairs,
        vec![
            SyncPair {
                local_path: path(&["home", "me", "docs", "a.txt"]),
                remote_path: path(&["srv", "docs", "a.txt"]),
            },
            SyncPair {
                local_path: path(&["home", "me", "docs", "sub", "b.txt"]),
                remote_path: path(&["srv", "docs", "sub", "b.txt"]),
            },
        ]
    );
    let report = run.finish();
    assert_eq!(report.outcomes.len(), 3);
    assert_eq!(
        report.outcomes[1].result,
        Err(SyncError::PathMappingError(path(&["elsewhere", "x"])))
    );
    assert_eq!(report.outcomes[1].pair, None);
    assert_eq!(report.summary().failed, 1);
}

#[test]
fn failed_listing_aborts_only_the_location() {
    let mut run = LocationRun::new(location(vec![]));
    assert!(matches!(run.next_action(), LocationAction::ListDirectory(_)));
    run.listing_failed();
    assert_eq!(run.next_action(), LocationAction::Finished);
    let report = run.finish();
    assert_eq!(report.aborted, Some(SyncError::DirectoryListError(path(&["srv", "docs"]))));
    assert!(report.outcomes.is_empty());
    let mut all = RunReport::new();
    all.add(report);
    assert!(all.should_continue(SyncPolicy::default()));
}

#[test]
fn partial_failure_is_isolated_per_pair_and_location() {
    let mut all = RunReport::new();
    let policy = SyncPolicy::default();
    let mut a = LocationRun::new(location(vec![path(&["1"]), path(&["2"]), path(&["3"])]));
    assert_eq!(finish_pairs(&mut a, &[1]).len(), 3);
    let a = a.finish();
    let sa = a.summary();
    assert_eq!((sa.pushed, sa.failed), (2, 1));
    all.add(a);
    assert!(all.should_continue(policy));
    let mut b = LocationRun::new(location(vec![path(&["4"]), path(&["5"])]));
    assert_eq!(finish_pairs(&mut b, &[]).len(), 2);
    let b = b.finish();
    let sb = b.summary();
    assert_eq!((sb.pushed, sb.failed), (2, 0));
    all.add(b);
    assert_eq!(all.locations.len(), 2);
    assert!(!all.locations[0].succeeded());
    assert!(all.locations[1].succeeded());
    assert!(!all.all_succeeded());
}
