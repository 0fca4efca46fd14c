//! The unified result of a push or pull.
use vstd::prelude::*;

verus! {

/// A single file that failed during a sync operation.
#[derive(Debug, Clone)]
pub struct FailedTransfer {
    pub path: String,
    pub error: String,
}

/// Unified output for push and pull: the files synced, and those that failed.
#[derive(Debug, Clone)]
pub struct SyncOutput {
    pub transferred: Vec<String>,
    pub failed: Vec<FailedTransfer>,
}

impl SyncOutput {
    /// A successful result with no failures.
    pub fn success(transferred: Vec<String>) -> (r: Self)
        ensures
            r.transferred@ == transferred@,
            r.failed@.len() == 0,
    {
        SyncOutput { transferred, failed: Vec::new() }
    }

    /// A single-file failure with no successes.
    pub fn failure(path: String, error: String) -> (r: Self)
        ensures
            r.transferred@.len() == 0,
            r.failed@.len() == 1,
            r.failed@[0].path@ == path@,
            r.failed@[0].error@ == error@,
    {
        let mut failed: Vec<FailedTransfer> = Vec::new();
        failed.push(FailedTransfer { path, error });
        SyncOutput { transferred: Vec::new(), failed }
    }
}

} // verus!
