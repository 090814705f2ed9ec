//! The scan loop of the scan panel: what it shows when a scan starts, and
//! what it does with each status it polls from the engine until the scan
//! ends.
use crate::text::{decimal_digits, push_decimal, push_text, string_of};
use vstd::prelude::*;

verus! {

pub const FIRST_SCAN_SUMMARY: &'static str = "Reading target memory…";

pub const NEXT_SCAN_SUMMARY: &'static str = "Narrowing the current result set…";

pub const CANCELLING: &'static str = "Cancelling…";

pub const NOT_STARTED: &'static str = "Not started";

pub const CANCELLED: &'static str = "Cancelled";

pub const FAILED: &'static str = "Failed";

pub const COMPLETE: &'static str = "Complete";

pub const CANCELLED_KEPT: &'static str = "The scan was cancelled; the previous results were preserved.";

pub const CANCELLED_SUMMARY: &'static str = "The scan was cancelled.";

pub const DISK_NOTE: &'static str = " Result storage was truncated; check available disk space.";

/// A first scan, or a next scan that narrows the results.
#[derive(Clone, Copy, Debug, PartialEq, Eq)]
pub enum ScanKind {
    First,
    Next,
}

/// The summary shown while a scan of `kind` starts.
pub fn scan_start_summary(kind: ScanKind) -> (summary: &'static str)
    ensures
        summary == match kind {
            ScanKind::First => FIRST_SCAN_SUMMARY,
            ScanKind::Next => NEXT_SCAN_SUMMARY,
        },
{
    match kind {
        ScanKind::First => FIRST_SCAN_SUMMARY,
        ScanKind::Next => NEXT_SCAN_SUMMARY,
    }
}

/// Whether the scan panel is waiting for a scan to end.
#[derive(Clone, Copy, Debug, PartialEq, Eq)]
pub enum ScanUiState {
    Idle,
    Scanning,
}

/// What the scan loop reads of one status of the engine's scan.
#[derive(Clone, Debug, PartialEq, Eq)]
pub struct ScanStatusView {
    pub running: bool,
    pub started: bool,
    pub cancel_requested: bool,
    pub cancelled: bool,
    pub completed: bool,
    pub write_error: bool,
    pub result_available: bool,
    pub undo_available: bool,
    pub error_message: String,
    pub result_count: u64,
    pub generation: u64,
}

/// How a scan ended and what the panel shows for it.
#[derive(Clone, Debug, PartialEq, Eq)]
pub struct ScanOutcome {
    /// The text of the progress bar, if it changes.
    pub progress_text: Option<&'static str>,
    /// The progress bar is filled.
    pub progress_full: bool,
    /// The summary line, if it changes.
    pub summary: Option<String>,
    /// Next scan can be used.
    pub next_enabled: bool,
    /// Undo can be used.
    pub undo_enabled: bool,
    /// The generation and count of the results to show, if any.
    pub results: Option<(u64, u64)>,
    /// The message of an alert to raise, if any.
    pub alert: Option<String>,
}

/// What the scan loop does after one status.
#[derive(Clone, Debug, PartialEq, Eq)]
pub enum ScanUiAction {
    /// The scan runs on: show its progress (or that it is being cancelled)
    /// and poll again.
    PollAgain { cancelling: bool },
    /// No scan was started: say so and stop polling.
    NotStarted,
    /// The scan ended: re-enable the inputs, show the outcome, and stop
    /// polling.
    Finished(ScanOutcome),
}

/// The summary after a completed scan that found `count` addresses.
pub open spec fn found_text(count: u64, write_error: bool) -> Seq<char> {
    "Found "@ + decimal_digits(count as nat) + " addresses."@ + if write_error {
        DISK_NOTE@
    } else {
        Seq::<char>::empty()
    }
}

/// Whether `outcome` is how the scan ended with `status`: cancelled (the
/// previous results come back when there are any), failed with a message
/// (the same, and an alert), completed (its results are shown), or ended
/// otherwise; Next and Undo follow the status.
pub open spec fn ended_as(outcome: ScanOutcome, status: ScanStatusView) -> bool {
    let available = if status.result_available {
        Some((status.generation, status.result_count))
    } else {
        None
    };
    &&& outcome.next_enabled == status.result_available
    &&& outcome.undo_enabled == status.undo_available
    &&& if status.cancelled {
        &&& outcome.progress_text == Some(CANCELLED)
        &&& !outcome.progress_full
        &&& outcome.summary matches Some(s) && s@ == if status.result_available {
            CANCELLED_KEPT@
        } else {
            CANCELLED_SUMMARY@
        }
        &&& outcome.results == available
        &&& outcome.alert is None
    } else if status.error_message@.len() > 0 {
        &&& outcome.progress_text == Some(FAILED)
        &&& !outcome.progress_full
        &&& outcome.summary matches Some(s) && s@ == status.error_message@
        &&& outcome.results == available
        &&& outcome.alert matches Some(a) && a@ == status.error_message@
    } else if status.completed {
        &&& outcome.progress_text == Some(COMPLETE)
        &&& outcome.progress_full
        &&& outcome.summary matches Some(s) && s@ == found_text(
            status.result_count,
            status.write_error,
        )
        &&& outcome.results == Some((status.generation, status.result_count))
        &&& outcome.alert is None
    } else {
        &&& outcome.progress_text is None
        &&& !outcome.progress_full
        &&& outcome.summary is None
        &&& outcome.results is None
        &&& outcome.alert is None
    }
}

/// One step of the scan loop: while the scan runs the panel keeps polling;
/// a status of no started scan stops the polling and leaves the panel as it
/// was; any other status ends the scan; see `ended_as`.
pub fn scan_status_step(state: ScanUiState, status: &ScanStatusView) -> (next: (ScanUiState, ScanUiAction))
    ensures
        status.running ==> next == (ScanUiState::Scanning, ScanUiAction::PollAgain {
            cancelling: status.cancel_requested,
        }),
        !status.running && !status.started ==> next == (state, ScanUiAction::NotStarted),
        !status.running && status.started ==> next.0 == ScanUiState::Idle && match next.1 {
            ScanUiAction::Finished(outcome) => ended_as(outcome, *status),
            _ => false,
        },
        !status.running && status.started && status.result_available && (status.cancelled
            || status.error_message@.len() > 0 || status.completed) ==> match next.1 {
            ScanUiAction::Finished(outcome) => outcome.results == Some(
                (status.generation, status.result_count),
            ),
            _ => false,
        },
{
    if status.running {
        return (ScanUiState::Scanning, ScanUiAction::PollAgain { cancelling: status.cancel_requested });
    }
    if !status.started {
        return (state, ScanUiAction::NotStarted);
    }
    let available = if status.result_available {
        Some((status.generation, status.result_count))
    } else {
        None
    };
    let outcome = if status.cancelled {
        ScanOutcome {
            progress_text: Some(CANCELLED),
            progress_full: false,
            summary: Some(
                if status.result_available {
                    string_of(CANCELLED_KEPT)
                } else {
                    string_of(CANCELLED_SUMMARY)
                },
            ),
            next_enabled: status.result_available,
            undo_enabled: status.undo_available,
            results: available,
            alert: None,
        }
    } else if !status.error_message.as_str().is_empty() {
        ScanOutcome {
            progress_text: Some(FAILED),
            progress_full: false,
            summary: Some(status.error_message.clone()),
            next_enabled: status.result_available,
            undo_enabled: status.undo_available,
            results: available,
            alert: Some(status.error_message.clone()),
        }
    } else if status.completed {
        let mut summary = String::new();
        push_text(&mut summary, "Found ");
        push_decimal(&mut summary, status.result_count);
        push_text(&mut summary, " addresses.");
        if status.write_error {
            push_text(&mut summary, DISK_NOTE);
        }
        assert(summary@ =~= found_text(status.result_count, status.write_error));
        ScanOutcome {
            progress_text: Some(COMPLETE),
            progress_full: true,
            summary: Some(summary),
            next_enabled: status.result_available,
            undo_enabled: status.undo_available,
            results: Some((status.generation, status.result_count)),
            alert: None,
        }
    } else {
        ScanOutcome {
            progress_text: None,
            progress_full: false,
            summary: None,
            next_enabled: status.result_available,
            undo_enabled: status.undo_available,
            results: None,
            alert: None,
        }
    };
    (ScanUiState::Idle, ScanUiAction::Finished(outcome))
}

/// However a started scan ends, the results that the engine still has are
/// shown again when it was cancelled or failed, and the new results when it
/// completed; no other results are ever shown, and only a failure raises an
/// alert, which carries the engine's message. Next and Undo follow what the
/// engine offers.
pub proof fn lemma_ended_scan_shows_available_results(outcome: ScanOutcome, status: ScanStatusView)
    requires
        ended_as(outcome, status),
    ensures
        status.result_available && (status.cancelled || status.error_message@.len() > 0
            || status.completed) ==> outcome.results == Some(
            (status.generation, status.result_count),
        ),
        outcome.results is Some ==> outcome.results == Some(
            (status.generation, status.result_count),
        ) && (status.result_available || status.completed),
        outcome.alert is Some <==> (!status.cancelled && status.error_message@.len() > 0),
        outcome.alert is Some ==> outcome.alert->0@ == status.error_message@,
        outcome.next_enabled == status.result_available,
        outcome.undo_enabled == status.undo_available,
{
}

} // verus!
