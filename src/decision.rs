use chrono::TimeZone;
use vstd::prelude::*;

verus! {

/// What a file pair needs, from the two sides' access times.
#[derive(Clone, Copy, Debug, PartialEq, Eq, Structural)]
pub enum SyncDecision {
    /// Both sides carry the same time: nothing to copy.
    UpToDate,
    /// The local side is newer: copy it to the remote side.
    PushToRemote,
    /// The remote side is newer: copy it to the local side.
    PullToLocal,
}

/// The decision for a local time and a remote time, in seconds since the epoch.
pub open spec fn decision_spec(local: int, remote: int) -> SyncDecision {
    if local == remote {
        SyncDecision::UpToDate
    } else if local > remote {
        SyncDecision::PushToRemote
    } else {
        SyncDecision::PullToLocal
    }
}

/// Compares the two sides' times: equal times are up to date, a newer local
/// side is pushed and a newer remote side is pulled.
pub fn decide(local_time: i64, remote_time: i64) -> (d: SyncDecision)
    ensures
        d == decision_spec(local_time as int, remote_time as int),
{
    if local_time == remote_time {
        SyncDecision::UpToDate
    } else if local_time > remote_time {
        SyncDecision::PushToRemote
    } else {
        SyncDecision::PullToLocal
    }
}

/// The last second that the UTC calendar reaches, 262142-12-31 23:59:59, in
/// seconds since the epoch.
pub const LATEST_CALENDAR_TIME: i64 = 8210266876799;

/// Relies on chrono's `Utc.timestamp_opt(secs, 0)` and `DateTime::timestamp`:
/// a second count that chrono can place on its calendar comes back as the same
/// count; one that it cannot place gives `None`. From the epoch on, chrono's
/// calendar ends with `NaiveDate::MAX`, December 31 of the year 262142.
#[verifier::external_body]
fn utc_seconds(secs: i64) -> (r: Option<i64>)
    ensures
        r matches Some(t) ==> t == secs,
        0 <= secs ==> (r is Some <==> secs <= LATEST_CALENDAR_TIME),
{
    chrono::Utc.timestamp_opt(secs, 0).single().map(|d| d.timestamp())
}

/// An access time as read from a file's metadata, normalised to UTC seconds
/// since the epoch: `None` when the time is missing or lies outside the UTC
/// calendar.
pub fn read_timestamp(atime: Option<u64>) -> (r: Option<i64>)
    ensures
        atime is None ==> r is None,
        atime is Some && atime.unwrap() <= LATEST_CALENDAR_TIME ==> r == Some(
            atime.unwrap() as i64,
        ),
        atime is Some && atime.unwrap() > LATEST_CALENDAR_TIME ==> r is None,
        r matches Some(t) ==> atime == Some(t as u64) && t >= 0,
{
    match atime {
        None => None,
        Some(t) => {
            if t > i64::MAX as u64 {
                None
            } else {
                utc_seconds(t as i64)
            }
        },
    }
}

/// Every pair of times gets exactly one decision: equal times are up to date,
/// a later local time pushes and a later remote time pulls.
pub proof fn lemma_decision_total(a: int, b: int)
    ensures
        decision_spec(a, b) == SyncDecision::UpToDate <==> a == b,
        decision_spec(a, b) == SyncDecision::PushToRemote <==> a > b,
        decision_spec(a, b) == SyncDecision::PullToLocal <==> a < b,
{
}

} // verus!
