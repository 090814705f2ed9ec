use ce_gtk::scan_status::{
    scan_start_summary, scan_status_step, ScanKind, ScanOutcome, ScanStatusView, ScanUiAction,
    ScanUiState,
};

fn status() -> ScanStatusView {
    ScanStatusView {
        running: false,
        started: true,
        cancel_requested: false,
        cancelled: false,
        completed: false,
        write_error: false,
        result_available: false,
        undo_available: false,
        error_message: String::new(),
        result_count: 0,
        generation: 0,
    }
}

#[test]
fn start_summaries_name_the_scan() {
    assert_eq!(scan_start_summary(ScanKind::First), "Reading target memory…");
    assert_eq!(scan_start_summary(ScanKind::Next), "Narrowing the current result set…");
}

#[test]
fn a_running_scan_keeps_polling() {
    let mut running = status();
    running.running = true;
    running.cancel_requested = true;
    assert_eq!(
        scan_status_step(ScanUiState::Scanning, &running),
        (ScanUiState::Scanning, ScanUiAction::PollAgain { cancelling: true })
    );
    let mut idle = status();
    idle.started = false;
    assert_eq!(
        scan_status_step(ScanUiState::Scanning, &idle),
        (ScanUiState::Scanning, ScanUiAction::NotStarted)
    );
}

#[test]
fn a_completed_scan_shows_its_results() {
    let mut done = status();
    done.completed = true;
    done.result_available = true;
    done.undo_available = true;
    done.result_count = 1234;
    done.generation = 9;
    done.write_error = true;
    assert_eq!(
        scan_status_step(ScanUiState::Scanning, &done),
        (
            ScanUiState::Idle,
            ScanUiAction::Finished(ScanOutcome {
                progress_text: Some("Complete"),
                progress_full: true,
                summary: Some(
                    "Found 1234 addresses. Result storage was truncated; check available disk space."
                        .to_owned()
                ),
                next_enabled: true,
                undo_enabled: true,
                results: Some((9, 1234)),
                alert: None,
            })
        )
    );
}

#[test]
fn cancelled_and_failed_scans_keep_earlier_results() {
    let mut cancelled = status();
    cancelled.cancelled = true;
    cancelled.result_available = true;
    cancelled.generation = 4;
    cancelled.result_count = 10;
    let (state, action) = scan_status_step(ScanUiState::Scanning, &cancelled);
    assert_eq!(state, ScanUiState::Idle);
    let ScanUiAction::Finished(outcome) = action else { panic!("finished") };
    assert_eq!(outcome.progress_text, Some("Cancelled"));
    assert_eq!(
        outcome.summary.as_deref(),
        Some("The scan was cancelled; the previous results were preserved.")
    );
    assert_eq!(outcome.results, Some((4, 10)));

    let mut failed = status();
    failed.error_message = "permission denied".to_owned();
    let (_, action) = scan_status_step(ScanUiState::Scanning, &failed);
    let ScanUiAction::Finished(outcome) = action else { panic!("finished") };
    assert_eq!(outcome.progress_text, Some("Failed"));
    assert_eq!(outcome.alert.as_deref(), Some("permission denied"));
    assert_eq!(outcome.results, None);
    assert!(!outcome.next_enabled);
}
