//! Lifecycle states shared by jobs and chunks.

use vstd::prelude::*;

verus! {

/// Lifecycle status of a transfer job, also reused for the per-chunk
/// state machine (chunks only ever take `Pending`, `Downloading`,
/// `Completed` or `Failed`).
#[derive(Clone, Copy, Debug, PartialEq, Eq, Structural)]
pub enum DownloadStatus {
    Pending,
    Downloading,
    Paused,
    Completed,
    Failed,
    Cancelled,
}

impl DownloadStatus {
    /// The name of the status as it appears in the durable record.
    pub open spec fn name(self) -> Seq<char> {
        match self {
            DownloadStatus::Pending => "pending"@,
            DownloadStatus::Downloading => "downloading"@,
            DownloadStatus::Paused => "paused"@,
            DownloadStatus::Completed => "completed"@,
            DownloadStatus::Failed => "failed"@,
            DownloadStatus::Cancelled => "cancelled"@,
        }
    }

    pub fn as_str(&self) -> (r: &'static str)
        ensures
            r@ == self.name(),
    {
        match self {
            DownloadStatus::Pending => "pending",
            DownloadStatus::Downloading => "downloading",
            DownloadStatus::Paused => "paused",
            DownloadStatus::Completed => "completed",
            DownloadStatus::Failed => "failed",
            DownloadStatus::Cancelled => "cancelled",
        }
    }

    /// A job in an active status is still tracked by the manager: it is
    /// either making progress or can be resumed without reloading state.
    pub open spec fn spec_is_active(self) -> bool {
        self == DownloadStatus::Pending || self == DownloadStatus::Downloading
            || self == DownloadStatus::Paused
    }

    pub fn is_active(&self) -> (r: bool)
        ensures
            r == self.spec_is_active(),
    {
        matches!(
            self,
            DownloadStatus::Pending | DownloadStatus::Downloading | DownloadStatus::Paused
        )
    }

    /// Terminal statuses end the current run of a job; progress events
    /// carrying them bypass the emission throttle.
    pub open spec fn spec_is_terminal(self) -> bool {
        self == DownloadStatus::Completed || self == DownloadStatus::Failed
            || self == DownloadStatus::Cancelled
    }

    pub fn is_terminal(&self) -> (r: bool)
        ensures
            r == self.spec_is_terminal(),
    {
        matches!(
            self,
            DownloadStatus::Completed | DownloadStatus::Failed | DownloadStatus::Cancelled
        )
    }
}

} // verus!
