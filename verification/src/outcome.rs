//! What a fetch can come back with, and how a response is classified.

use vstd::prelude::*;

verus! {

/// Why a task failed.
#[derive(Clone, Copy, Debug, PartialEq, Eq, Structural)]
pub enum FailReason {
    /// The server answered 403: access was revoked or blocked. Fatal for
    /// the batch.
    Forbidden,
    /// The server answered with this status, which is neither a success
    /// nor 403 nor 404.
    Status(u16),
    /// The request or the reading of the body failed in transport.
    Transport,
    /// The bytes could not be written to the destination.
    Io,
    /// The task's URL is no absolute URL; no request was made.
    InvalidUrl,
}

/// The result of one download task.
#[derive(Clone, Copy, Debug, PartialEq, Eq, Structural)]
pub enum DownloadOutcome {
    Saved,
    SkippedAlreadyPresent,
    SkippedNotFound,
    Failed(FailReason),
}

/// What the fetcher reports for one request.
#[derive(Clone, Copy, Debug, PartialEq, Eq, Structural)]
pub enum FetchResult {
    /// The server answered with this status and, where the status is a
    /// success, the body was read to its end.
    Response(u16),
    /// No complete response was received.
    TransportError,
}

/// What to do with a fetch result.
#[derive(Clone, Copy, Debug, PartialEq, Eq, Structural)]
pub enum Verdict {
    /// Write the body to the destination.
    Persist,
    /// The task is over with this outcome; nothing is written.
    Done(DownloadOutcome),
}

/// Whether a status is a success.
pub open spec fn is_success(status: u16) -> bool {
    200 <= status < 300
}

/// The classification of a fetch result: a success is persisted, 404 is
/// a skip, 403 is the fatal failure, anything else an ordinary failure.
pub open spec fn classification(result: FetchResult) -> Verdict {
    match result {
        FetchResult::TransportError => Verdict::Done(
            DownloadOutcome::Failed(FailReason::Transport),
        ),
        FetchResult::Response(status) => if is_success(status) {
            Verdict::Persist
        } else if status == 404 {
            Verdict::Done(DownloadOutcome::SkippedNotFound)
        } else if status == 403 {
            Verdict::Done(DownloadOutcome::Failed(FailReason::Forbidden))
        } else {
            Verdict::Done(DownloadOutcome::Failed(FailReason::Status(status)))
        },
    }
}

/// Whether an outcome stops the batch from admitting further tasks.
pub open spec fn is_fatal(outcome: DownloadOutcome) -> bool {
    outcome == DownloadOutcome::Failed(FailReason::Forbidden)
}

/// Whether an outcome counts as progress: a save or a skip.
pub open spec fn is_progress(outcome: DownloadOutcome) -> bool {
    !(outcome is Failed)
}

/// Whether a status is a success: one of the codes from 200 up to 299.
pub fn status_is_success(status: u16) -> (r: bool)
    ensures
        r == is_success(status),
{
    200 <= status && status < 300
}

/// Classifies a fetch result.
pub fn classify(result: FetchResult) -> (v: Verdict)
    ensures
        v == classification(result),
{
    match result {
        FetchResult::TransportError => Verdict::Done(
            DownloadOutcome::Failed(FailReason::Transport),
        ),
        FetchResult::Response(status) => {
            if status_is_success(status) {
                Verdict::Persist
            } else if status == 404 {
                Verdict::Done(DownloadOutcome::SkippedNotFound)
            } else if status == 403 {
                Verdict::Done(DownloadOutcome::Failed(FailReason::Forbidden))
            } else {
                Verdict::Done(DownloadOutcome::Failed(FailReason::Status(status)))
            }
        },
    }
}

impl DownloadOutcome {
    /// Whether this outcome stops the batch from admitting further tasks.
    pub fn fatal(&self) -> (r: bool)
        ensures
            r == is_fatal(*self),
    {
        match self {
            DownloadOutcome::Failed(FailReason::Forbidden) => true,
            _ => false,
        }
    }

    /// Whether this outcome advances the progress count: failures are
    /// reported apart and do not.
    pub fn counts_as_progress(&self) -> (r: bool)
        ensures
            r == is_progress(*self),
    {
        match self {
            DownloadOutcome::Failed(_) => false,
            _ => true,
        }
    }
}

/// A 404 response ends the task as a skip: nothing is to be written, no
/// failure is reported and the batch goes on.
pub proof fn lemma_not_found_is_transparent()
    ensures
        classification(FetchResult::Response(404)) == Verdict::Done(
            DownloadOutcome::SkippedNotFound,
        ),
        is_progress(DownloadOutcome::SkippedNotFound),
        !is_fatal(DownloadOutcome::SkippedNotFound),
{
}

/// Only a 403 response is classified as fatal.
pub proof fn lemma_only_forbidden_is_fatal(result: FetchResult)
    ensures
        (classification(result) matches Verdict::Done(o) && is_fatal(o)) <==> result
            == FetchResult::Response(403),
{
}

} // verus!
