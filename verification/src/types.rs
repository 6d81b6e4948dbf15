//! The state of a download as the engine reports it.
use vstd::prelude::*;

verus! {

/// Where a download stands.
#[derive(Debug, Clone, Copy, PartialEq, Eq, Structural)]
pub enum DownloadStatus {
    Queued,
    Running,
    Paused,
    Retrying,
    Completed,
    Failed,
    Cancelled,
}

} // verus!
