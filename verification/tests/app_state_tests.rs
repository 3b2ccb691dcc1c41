use tweet_scrolls::mac_app::{
    apply_archive_selection_result, full_export_start_event, parts_export_start_event,
    parts_prompt_creates_parts,
};
use tweet_scrolls::processing::data_structures::Thread;
use tweet_scrolls::thread_export::semantic_parts::SemanticPartExportResult;
use tweet_scrolls::thread_export::{
    transition_thread_export_state, CompleteThreadExportOutcome, CompleteThreadOutput,
    PreparedThreadExportData, ThreadExportAction, ThreadExportEvent, ThreadExportFailure,
    ThreadExportViewState, ValidatedTweetArchive,
};

fn create_state_test_failure() -> ThreadExportFailure {
    ThreadExportFailure::BackgroundTask { message: "fixture failure".to_owned() }
}

fn create_outcome(thread_count: usize) -> CompleteThreadExportOutcome {
    let threads: Vec<Thread> = Vec::new();
    CompleteThreadExportOutcome::new(
        "/runs/tweet-scrolls-23".to_owned(),
        CompleteThreadOutput::new(
            "/runs/tweet-scrolls-23/tweet-scrolls-full.txt".to_owned(),
            120,
            thread_count,
        ),
        PreparedThreadExportData::from_parts(threads, thread_count, 0),
    )
}

fn archive() -> ValidatedTweetArchive {
    ValidatedTweetArchive::from_checked_folder("/runs")
}

#[test]
fn view_state_transitions_match() {
    let state = transition_thread_export_state(
        ThreadExportViewState::NeedsArchive,
        ThreadExportEvent::ArchiveValidated(archive()),
    );
    assert!(matches!(state, ThreadExportViewState::Ready { .. }));
    assert_eq!(state.status_text(), "Ready: /runs");
    let state = transition_thread_export_state(state, ThreadExportEvent::StartFullExport);
    assert!(matches!(state, ThreadExportViewState::ExportingFull { .. }));
    let state = transition_thread_export_state(
        state,
        ThreadExportEvent::FullExportSucceeded(create_outcome(2)),
    );
    assert!(matches!(state, ThreadExportViewState::FullExportReady { .. }));
    assert_eq!(state.status_text(), "Complete TXT created: 2 threads, 120 bytes.");
    let state = transition_thread_export_state(state, ThreadExportEvent::StartPartsExport);
    assert!(matches!(state, ThreadExportViewState::ExportingParts { .. }));
    let state = transition_thread_export_state(
        state,
        ThreadExportEvent::PartsExportFailed(create_state_test_failure()),
    );
    assert!(matches!(state, ThreadExportViewState::PartsExportFailed { .. }));
    assert!(state.allows_action(ThreadExportAction::RetryParts));
    assert!(state.allows_action(ThreadExportAction::KeepFullOnly));
    assert_eq!(state.status_text(), "background archive task failed: fixture failure");
    let state = transition_thread_export_state(state, ThreadExportEvent::RetryPartsExport);
    assert!(matches!(state, ThreadExportViewState::ExportingParts { .. }));
    let state = transition_thread_export_state(
        state,
        ThreadExportEvent::PartsExportSucceeded(SemanticPartExportResult::from_paths(vec![
            "/runs/tweet-scrolls-23/tweet-scrolls-part-001.txt".to_owned(),
        ])),
    );
    assert!(matches!(state, ThreadExportViewState::Completed { .. }));
    let completed = state.completed_result().expect("the run completed");
    assert_eq!(completed.output_folder(), "/runs/tweet-scrolls-23");
    assert_eq!(completed.full_output_path(), "/runs/tweet-scrolls-23/tweet-scrolls-full.txt");
    assert_eq!(completed.full_byte_count(), 120);
    assert_eq!(completed.thread_count(), 2);
    assert_eq!(
        completed.part_paths(),
        &["/runs/tweet-scrolls-23/tweet-scrolls-part-001.txt".to_owned()]
    );
    assert_eq!(state.status_text(), "Done: 2 threads in /runs/tweet-scrolls-23.");
}

#[test]
fn duplicate_export_action_ignored() {
    let ready = ThreadExportViewState::Ready { archive: archive() };
    let exporting = transition_thread_export_state(ready, ThreadExportEvent::StartFullExport);

    let still_exporting =
        transition_thread_export_state(exporting, ThreadExportEvent::StartFullExport);

    assert!(matches!(still_exporting, ThreadExportViewState::ExportingFull { .. }));
    let completed = transition_thread_export_state(
        still_exporting,
        ThreadExportEvent::FullExportSucceeded(create_outcome(1)),
    );
    assert!(matches!(completed, ThreadExportViewState::FullExportReady { .. }));
}

#[test]
fn export_failure_retry_succeeds() {
    let exporting = ThreadExportViewState::ExportingFull { archive: archive() };
    let failed = transition_thread_export_state(
        exporting,
        ThreadExportEvent::FullExportFailed(create_state_test_failure()),
    );
    assert!(failed.allows_action(ThreadExportAction::RetryFull));
    assert!(failed.allows_action(ThreadExportAction::SelectArchive));
    assert!(!failed.allows_action(ThreadExportAction::CreateParts));
    let retrying = transition_thread_export_state(failed, ThreadExportEvent::RetryFullExport);
    assert!(matches!(retrying, ThreadExportViewState::ExportingFull { .. }));

    let succeeded = transition_thread_export_state(
        retrying,
        ThreadExportEvent::FullExportSucceeded(create_outcome(1)),
    );

    assert!(matches!(succeeded, ThreadExportViewState::FullExportReady { .. }));
}

#[test]
fn parts_decline_preserves_full() {
    let state = ThreadExportViewState::FullExportReady { outcome: create_outcome(3) };
    let state = transition_thread_export_state(state, ThreadExportEvent::KeepFullOnly);
    let completed = state.completed_result().expect("declining completes the run");
    assert_eq!(completed.full_output_path(), "/runs/tweet-scrolls-23/tweet-scrolls-full.txt");
    assert!(completed.part_paths().is_empty());
}

#[test]
fn empty_export_skips_parts_prompt() {
    let exporting = ThreadExportViewState::ExportingFull { archive: archive() };
    let state = transition_thread_export_state(
        exporting,
        ThreadExportEvent::FullExportSucceeded(create_outcome(0)),
    );
    assert!(matches!(state, ThreadExportViewState::Completed { .. }));
    assert!(state.allows_action(ThreadExportAction::ConvertAnother));
}

#[test]
fn finder_reveal_failure_nonfatal() {
    let completed = transition_thread_export_state(
        ThreadExportViewState::FullExportReady { outcome: create_outcome(1) },
        ThreadExportEvent::KeepFullOnly,
    );
    let still_completed = transition_thread_export_state(
        completed,
        ThreadExportEvent::FinderRevealFailed("fixture reveal error".to_owned()),
    );
    assert!(matches!(still_completed, ThreadExportViewState::Completed { .. }));
    assert_eq!(
        still_completed.completed_result().map(|result| result.full_output_path().to_owned()),
        Some("/runs/tweet-scrolls-23/tweet-scrolls-full.txt".to_owned())
    );
    let reset = transition_thread_export_state(
        still_completed,
        ThreadExportEvent::ConvertAnotherArchive,
    );
    assert!(matches!(reset, ThreadExportViewState::NeedsArchive));
    assert_eq!(reset.status_text(), "Choose an extracted Twitter archive folder.");
}

#[test]
fn rejected_archives_keep_selection_open() {
    let state = transition_thread_export_state(
        ThreadExportViewState::NeedsArchive,
        ThreadExportEvent::ArchiveRejected(ThreadExportFailure::InvalidArchive {
            path: "/nope".to_owned(),
            message: "missing tweets.js".to_owned(),
        }),
    );
    assert!(matches!(state, ThreadExportViewState::InvalidArchive { .. }));
    assert!(state.allows_action(ThreadExportAction::SelectArchive));
    assert!(!state.allows_action(ThreadExportAction::CreateFull));
    assert_eq!(state.status_text(), "invalid Twitter archive at /nope: missing tweets.js");
    // Events that do not apply leave the state as it was.
    let state = transition_thread_export_state(state, ThreadExportEvent::StartPartsExport);
    assert!(matches!(state, ThreadExportViewState::InvalidArchive { .. }));
    let state = transition_thread_export_state(state, ThreadExportEvent::ArchiveValidated(archive()));
    assert!(state.selected_archive().is_some());
}

#[test]
fn folder_picker_cancel_stays() {
    let state = apply_archive_selection_result(ThreadExportViewState::NeedsArchive, None);
    assert!(matches!(state, ThreadExportViewState::NeedsArchive));
    let state = apply_archive_selection_result(state, Some(Ok(archive())));
    assert!(matches!(state, ThreadExportViewState::Ready { .. }));
    let state = apply_archive_selection_result(state, None);
    assert!(matches!(state, ThreadExportViewState::Ready { .. }));
    let state = apply_archive_selection_result(
        ThreadExportViewState::NeedsArchive,
        Some(Err(create_state_test_failure())),
    );
    assert!(matches!(state, ThreadExportViewState::InvalidArchive { .. }));
}

#[test]
fn start_buttons_pick_first_attempt_or_retry() {
    let ready = ThreadExportViewState::Ready { archive: archive() };
    assert!(matches!(full_export_start_event(&ready), Some(ThreadExportEvent::StartFullExport)));
    assert!(parts_export_start_event(&ready).is_none());
    let failed = ThreadExportViewState::FullExportFailed {
        archive: archive(),
        failure: create_state_test_failure(),
    };
    assert!(matches!(full_export_start_event(&failed), Some(ThreadExportEvent::RetryFullExport)));
    let full_ready = ThreadExportViewState::FullExportReady { outcome: create_outcome(1) };
    assert!(full_export_start_event(&full_ready).is_none());
    assert!(matches!(parts_export_start_event(&full_ready), Some(ThreadExportEvent::StartPartsExport)));
    let parts_failed = ThreadExportViewState::PartsExportFailed {
        outcome: create_outcome(1),
        failure: create_state_test_failure(),
    };
    assert!(matches!(parts_export_start_event(&parts_failed), Some(ThreadExportEvent::RetryPartsExport)));
    assert!(parts_prompt_creates_parts(Some(0)));
    assert!(!parts_prompt_creates_parts(Some(1)));
    assert!(!parts_prompt_creates_parts(None));
}
