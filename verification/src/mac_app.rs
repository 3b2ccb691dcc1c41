//! The decisions of the native app's view: how a folder choice and the export buttons turn
//! into state-machine events. Drawing the window and running the tasks stay with the app.

use vstd::prelude::*;

use crate::thread_export::app_state::{action_allowed, transition_relation};
use crate::thread_export::{
    transition_thread_export_state, ThreadExportAction, ThreadExportEvent, ThreadExportFailure,
    ThreadExportViewState, ValidatedTweetArchive,
};

verus! {

/// Projects an optional picker result, already validated by the caller, into state without
/// changing state on cancellation.
pub fn apply_archive_selection_result(
    state: ThreadExportViewState,
    selection: Option<Result<ValidatedTweetArchive, ThreadExportFailure>>,
) -> (next: ThreadExportViewState)
    ensures
        match selection {
            None => next == state,
            Some(Ok(archive)) => transition_relation(
                state,
                ThreadExportEvent::ArchiveValidated(archive),
                next,
            ),
            Some(Err(failure)) => transition_relation(
                state,
                ThreadExportEvent::ArchiveRejected(failure),
                next,
            ),
        },
{
    match selection {
        None => state,
        Some(Ok(archive)) => transition_thread_export_state(
            state,
            ThreadExportEvent::ArchiveValidated(archive),
        ),
        Some(Err(failure)) => transition_thread_export_state(
            state,
            ThreadExportEvent::ArchiveRejected(failure),
        ),
    }
}

/// The event that starts a complete export from the current state: a first attempt where
/// creating is enabled, a retry where retrying is, and none otherwise.
pub fn full_export_start_event(state: &ThreadExportViewState) -> (event: Option<ThreadExportEvent>)
    ensures
        match event {
            Some(ThreadExportEvent::StartFullExport) => action_allowed(
                *state,
                ThreadExportAction::CreateFull,
            ),
            Some(ThreadExportEvent::RetryFullExport) => !action_allowed(
                *state,
                ThreadExportAction::CreateFull,
            ) && action_allowed(*state, ThreadExportAction::RetryFull),
            Some(_) => false,
            None => !action_allowed(*state, ThreadExportAction::CreateFull) && !action_allowed(
                *state,
                ThreadExportAction::RetryFull,
            ),
        },
{
    if state.allows_action(ThreadExportAction::CreateFull) {
        Some(ThreadExportEvent::StartFullExport)
    } else if state.allows_action(ThreadExportAction::RetryFull) {
        Some(ThreadExportEvent::RetryFullExport)
    } else {
        None
    }
}

/// The event that starts a parts export from the current state: a first attempt where
/// creating parts is enabled, a retry where retrying is, and none otherwise.
pub fn parts_export_start_event(state: &ThreadExportViewState) -> (event: Option<ThreadExportEvent>)
    ensures
        match event {
            Some(ThreadExportEvent::StartPartsExport) => action_allowed(
                *state,
                ThreadExportAction::CreateParts,
            ),
            Some(ThreadExportEvent::RetryPartsExport) => !action_allowed(
                *state,
                ThreadExportAction::CreateParts,
            ) && action_allowed(*state, ThreadExportAction::RetryParts),
            Some(_) => false,
            None => !action_allowed(*state, ThreadExportAction::CreateParts) && !action_allowed(
                *state,
                ThreadExportAction::RetryParts,
            ),
        },
{
    if state.allows_action(ThreadExportAction::CreateParts) {
        Some(ThreadExportEvent::StartPartsExport)
    } else if state.allows_action(ThreadExportAction::RetryParts) {
        Some(ThreadExportEvent::RetryPartsExport)
    } else {
        None
    }
}

/// The answer to the optional-parts prompt: the first button creates parts, any other answer
/// (or a dismissed prompt) keeps the full TXT only.
pub fn parts_prompt_creates_parts(answer: Option<usize>) -> (create: bool)
    ensures
        create == (answer == Some(0usize)),
{
    match answer {
        Some(choice) => choice == 0,
        None => false,
    }
}

} // verus!
