//! What one run could not do, told alongside what it found.
use vstd::prelude::*;
use vstd::string::*;
use crate::error::DotsyncError;
use crate::text::Text;

verus! {

/// What a command reports, plus what the run it happened in could not do.
#[derive(Debug, Clone)]
pub struct Run<T> {
    pub report: T,
    /// `Some` when this run could not reach the remote and worked from the last
    /// state it did fetch.
    pub unreachable_remote: Option<UnreachableRemote>,
}

/// The remote could not be reached, in git's own words.
#[derive(Debug, Clone)]
pub struct UnreachableRemote {
    pub reason: String,
}

/// What git said of a remote that may have been out of reach.
pub open spec fn opt_reason(remote: Option<UnreachableRemote>) -> Option<Text> {
    match remote {
        Some(remote) => Some(remote.reason@),
        None => None,
    }
}

/// What a run makes of a fetch that failed: a remote out of reach is not a dead
/// end, the run carries on against the last state it did fetch.
pub fn fetch_failure(error: DotsyncError) -> (noted: Result<UnreachableRemote, DotsyncError>)
    ensures
        match error {
            DotsyncError::RemoteUnreachable { reason } => noted == Ok::<
                UnreachableRemote,
                DotsyncError,
            >(UnreachableRemote { reason }),
            other => noted == Err::<UnreachableRemote, DotsyncError>(other),
        },
{
    match error {
        DotsyncError::RemoteUnreachable { reason } => Ok(UnreachableRemote { reason }),
        other => Err(other),
    }
}

/// Hands a report back together with what the run it came from could not do.
pub fn finish<T>(report: T, unreachable: &Option<UnreachableRemote>) -> (run: Run<T>)
    ensures
        run.report == report,
        opt_reason(run.unreachable_remote) == opt_reason(*unreachable),
{
    let unreachable_remote = match unreachable {
        Some(remote) => Some(UnreachableRemote { reason: remote.reason.clone() }),
        None => None,
    };
    Run { report, unreachable_remote }
}

} // verus!
