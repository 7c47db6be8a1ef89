//! Two-way file synchronisation between a local machine and a remote host.
//!
//! The library holds the decisions of a sync run: how remote paths map to
//! local ones, which side of a file pair is newer, the order of the remote
//! directory walk, the steps of a transfer and the bookkeeping of outcomes.
//! The caller performs the file-system and network work that each decision
//! asks for and hands the results back.
mod config;
mod decision;
mod error;
mod location;
mod model;
mod path;
mod plan;
mod report;
mod run;
mod transfer;
mod walk;

pub use config::{Location, RemoteSyncHelper};
pub use decision::{
    decide, decision_spec, lemma_decision_total, read_timestamp, SyncDecision, LATEST_CALENDAR_TIME,
};
pub use error::{Side, SyncError};
pub use location::{LocationAction, LocationRun};
pub use model::RemoteEntry;
pub use path::{lemma_map_round_trip, map_root, PathParts};
pub use plan::{
    assess_pair, assess_spec, lemma_equal_times_up_to_date, lemma_explicit_list_exclusive,
    location_pairs, map_remote_path, plan_spec, FileProbe, SyncPair,
};
pub use report::{
    LocationReport, LocationSummary, OutcomeKind, PairOutcome, RunReport, SyncPolicy,
};
pub use run::PairSync;
pub use transfer::{Transfer, TransferStep, TRANSFER_STEP_COUNT};
pub use walk::{
    lemma_walk_complete, lemma_walk_no_path_twice, paths_once, subtree, tree_bounded, tree_proper,
    walk_run, walk_step, TreeWalk,
};
