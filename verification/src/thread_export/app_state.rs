//! The export view state machine: one typed state decides status, enabled actions and data.

use vstd::prelude::*;

use crate::text::{decimal, u64_to_decimal};
use super::archive::ValidatedTweetArchive;
use super::error::{failure_message, ThreadExportFailure};
use super::full_export::CompleteThreadExportOutcome;
use super::semantic_parts::SemanticPartExportResult;

verus! {

/// User actions enabled by exactly one typed application state.
#[derive(Debug, Clone, Copy, PartialEq, Eq)]
pub enum ThreadExportAction {
    /// Open the archive folder picker.
    SelectArchive,
    /// Create the complete TXT.
    CreateFull,
    /// Retry a failed complete TXT export.
    RetryFull,
    /// Create upload-friendly semantic TXT parts.
    CreateParts,
    /// Complete the run without numbered parts.
    KeepFullOnly,
    /// Retry a failed numbered-parts attempt.
    RetryParts,
    /// Reveal a completed run in Finder.
    RevealOutput,
    /// Reset the view for another archive.
    ConvertAnother,
}

/// External events and async results accepted by the view state machine.
#[derive(Debug)]
pub enum ThreadExportEvent {
    /// Folder selection validated successfully.
    ArchiveValidated(ValidatedTweetArchive),
    /// Folder selection failed validation.
    ArchiveRejected(ThreadExportFailure),
    /// User requested the complete TXT.
    StartFullExport,
    /// Complete TXT was committed successfully.
    FullExportSucceeded(CompleteThreadExportOutcome),
    /// Complete TXT creation failed.
    FullExportFailed(ThreadExportFailure),
    /// User requested semantic numbered parts.
    StartPartsExport,
    /// User declined or dismissed the optional parts prompt.
    KeepFullOnly,
    /// Every numbered part was committed successfully.
    PartsExportSucceeded(SemanticPartExportResult),
    /// Numbered-parts planning, writing, or commit failed.
    PartsExportFailed(ThreadExportFailure),
    /// User requested another complete TXT attempt.
    RetryFullExport,
    /// User requested another numbered-parts attempt.
    RetryPartsExport,
    /// Finder reveal failed and must not invalidate completed output.
    FinderRevealFailed(String),
    /// Reset the terminal state for another archive.
    ConvertAnotherArchive,
}

/// Durable completed metadata that deliberately excludes prepared tweet models.
#[derive(Debug)]
pub struct CompletedThreadExport {
    output_folder: String,
    full_output_path: String,
    full_byte_count: u64,
    thread_count: usize,
    part_paths: Vec<String>,
}

impl CompletedThreadExport {
    /// The run folder.
    pub closed spec fn spec_output_folder(&self) -> Seq<char> {
        self.output_folder@
    }

    /// The committed complete TXT path.
    pub closed spec fn spec_full_output_path(&self) -> Seq<char> {
        self.full_output_path@
    }

    /// The exact complete TXT byte count.
    pub closed spec fn spec_full_byte_count(&self) -> u64 {
        self.full_byte_count
    }

    /// The number of exported semantic threads.
    pub closed spec fn spec_thread_count(&self) -> usize {
        self.thread_count
    }

    /// The committed numbered part paths.
    pub closed spec fn spec_part_paths(&self) -> Seq<Seq<char>> {
        self.part_paths.deep_view()
    }

    /// Returns the run folder suitable for Finder reveal.
    pub fn output_folder(&self) -> (p: &str)
        ensures
            p@ == self.spec_output_folder(),
    {
        self.output_folder.as_str()
    }

    /// Returns the committed complete TXT path.
    pub fn full_output_path(&self) -> (p: &str)
        ensures
            p@ == self.spec_full_output_path(),
    {
        self.full_output_path.as_str()
    }

    /// Returns the exact complete TXT byte count.
    pub fn full_byte_count(&self) -> (n: u64)
        ensures
            n == self.spec_full_byte_count(),
    {
        self.full_byte_count
    }

    /// Returns the number of exported semantic threads.
    pub fn thread_count(&self) -> (n: usize)
        ensures
            n == self.spec_thread_count(),
    {
        self.thread_count
    }

    /// Returns the optional committed numbered part paths.
    pub fn part_paths(&self) -> (paths: &[String])
        ensures
            paths.deep_view() == self.spec_part_paths(),
    {
        let paths = self.part_paths.as_slice();
        assert(paths.deep_view() =~= self.part_paths.deep_view());
        paths
    }
}

/// Single authority for the view status, enabled actions, data, and recovery.
#[derive(Debug)]
pub enum ThreadExportViewState {
    /// No archive has been selected.
    NeedsArchive,
    /// The most recent archive selection is invalid.
    InvalidArchive {
        /// Typed validation failure.
        failure: ThreadExportFailure,
    },
    /// A validated archive is ready for full export.
    Ready {
        /// Validated archive selection.
        archive: ValidatedTweetArchive,
    },
    /// One complete TXT export is in flight.
    ExportingFull {
        /// Archive retained for recovery.
        archive: ValidatedTweetArchive,
    },
    /// The complete TXT is committed and optional parts may be requested.
    FullExportReady {
        /// Complete outcome retaining prepared thread data.
        outcome: CompleteThreadExportOutcome,
    },
    /// Complete TXT export failed and can be retried.
    FullExportFailed {
        /// Archive retained for retry.
        archive: ValidatedTweetArchive,
        /// Typed export failure.
        failure: ThreadExportFailure,
    },
    /// One optional-parts export is in flight.
    ExportingParts {
        /// Complete outcome retained for semantic planning.
        outcome: CompleteThreadExportOutcome,
    },
    /// Optional-parts export failed without invalidating the full TXT.
    PartsExportFailed {
        /// Complete outcome retained for retry or decline.
        outcome: CompleteThreadExportOutcome,
        /// Typed parts failure.
        failure: ThreadExportFailure,
    },
    /// Export completed; prepared tweet models have been dropped.
    Completed {
        /// Durable output metadata.
        result: CompletedThreadExport,
    },
}

/// Whether `action` is enabled in `state`.
pub open spec fn action_allowed(state: ThreadExportViewState, action: ThreadExportAction) -> bool {
    match state {
        ThreadExportViewState::NeedsArchive | ThreadExportViewState::InvalidArchive { .. } =>
            action == ThreadExportAction::SelectArchive,
        ThreadExportViewState::Ready { .. } => action == ThreadExportAction::SelectArchive
            || action == ThreadExportAction::CreateFull,
        ThreadExportViewState::FullExportFailed { .. } => action == ThreadExportAction::RetryFull
            || action == ThreadExportAction::SelectArchive,
        ThreadExportViewState::FullExportReady { .. } => action == ThreadExportAction::CreateParts
            || action == ThreadExportAction::KeepFullOnly,
        ThreadExportViewState::PartsExportFailed { .. } => action
            == ThreadExportAction::RetryParts || action == ThreadExportAction::KeepFullOnly,
        ThreadExportViewState::Completed { .. } => action == ThreadExportAction::RevealOutput
            || action == ThreadExportAction::ConvertAnother,
        ThreadExportViewState::ExportingFull { .. } | ThreadExportViewState::ExportingParts {
            ..
        } => false,
    }
}

/// The completed metadata of a full outcome with the given part paths.
pub open spec fn completed_from(
    result: CompletedThreadExport,
    outcome: CompleteThreadExportOutcome,
    part_paths: Seq<Seq<char>>,
) -> bool {
    &&& result.spec_output_folder() == outcome.spec_output_folder()
    &&& result.spec_full_output_path() == outcome.spec_full_output_path()
    &&& result.spec_full_byte_count() == outcome.spec_byte_count()
    &&& result.spec_thread_count() == outcome.spec_thread_count()
    &&& result.spec_part_paths() == part_paths
}

/// The state after an event: approved events move the machine, every other event leaves
/// the state as it was.
pub open spec fn transition_relation(
    state: ThreadExportViewState,
    event: ThreadExportEvent,
    next: ThreadExportViewState,
) -> bool {
    match (state, event) {
        (ThreadExportViewState::NeedsArchive, ThreadExportEvent::ArchiveValidated(archive))
        | (ThreadExportViewState::InvalidArchive { .. }, ThreadExportEvent::ArchiveValidated(archive))
        | (ThreadExportViewState::Ready { .. }, ThreadExportEvent::ArchiveValidated(archive)) =>
            next == ThreadExportViewState::Ready { archive },
        (ThreadExportViewState::NeedsArchive, ThreadExportEvent::ArchiveRejected(failure))
        | (ThreadExportViewState::InvalidArchive { .. }, ThreadExportEvent::ArchiveRejected(failure)) =>
            next == ThreadExportViewState::InvalidArchive { failure },
        (ThreadExportViewState::Ready { archive }, ThreadExportEvent::StartFullExport)
        | (ThreadExportViewState::FullExportFailed { archive, .. }, ThreadExportEvent::RetryFullExport) =>
            next == ThreadExportViewState::ExportingFull { archive },
        (ThreadExportViewState::ExportingFull { .. }, ThreadExportEvent::FullExportSucceeded(outcome)) =>
            if outcome.spec_thread_count() > 0 {
                next == ThreadExportViewState::FullExportReady { outcome }
            } else {
                next matches ThreadExportViewState::Completed { result } && completed_from(
                    result,
                    outcome,
                    Seq::empty(),
                )
            },
        (ThreadExportViewState::ExportingFull { archive }, ThreadExportEvent::FullExportFailed(failure)) =>
            next == ThreadExportViewState::FullExportFailed { archive, failure },
        (ThreadExportViewState::FullExportReady { outcome }, ThreadExportEvent::StartPartsExport)
        | (ThreadExportViewState::PartsExportFailed { outcome, .. }, ThreadExportEvent::RetryPartsExport) =>
            next == ThreadExportViewState::ExportingParts { outcome },
        (ThreadExportViewState::FullExportReady { outcome }, ThreadExportEvent::KeepFullOnly)
        | (ThreadExportViewState::PartsExportFailed { outcome, .. }, ThreadExportEvent::KeepFullOnly) =>
            next matches ThreadExportViewState::Completed { result } && completed_from(
            result,
            outcome,
            Seq::empty(),
        ),
        (ThreadExportViewState::ExportingParts { outcome }, ThreadExportEvent::PartsExportSucceeded(parts)) =>
            next matches ThreadExportViewState::Completed { result } && completed_from(
            result,
            outcome,
            parts.spec_part_paths(),
        ),
        (ThreadExportViewState::ExportingParts { outcome }, ThreadExportEvent::PartsExportFailed(failure)) =>
            next == ThreadExportViewState::PartsExportFailed { outcome, failure },
        (ThreadExportViewState::Completed { .. }, ThreadExportEvent::ConvertAnotherArchive) => next
            == ThreadExportViewState::NeedsArchive,
        (state, _) => next == state,
    }
}

fn build_completed_export_result(
    outcome: CompleteThreadExportOutcome,
    part_paths: Vec<String>,
) -> (result: CompletedThreadExport)
    ensures
        completed_from(result, outcome, part_paths.deep_view()),
{
    CompletedThreadExport {
        output_folder: outcome.output_folder().to_owned(),
        full_output_path: outcome.full_output_path().to_owned(),
        full_byte_count: outcome.byte_count(),
        thread_count: outcome.thread_count(),
        part_paths,
    }
}

fn complete_without_part_paths(outcome: CompleteThreadExportOutcome) -> (result:
    CompletedThreadExport)
    ensures
        completed_from(result, outcome, Seq::empty()),
{
    let paths: Vec<String> = Vec::new();
    assert(paths.deep_view() =~= Seq::<Seq<char>>::empty());
    build_completed_export_result(outcome, paths)
}

fn copy_paths(paths: &[String]) -> (copy: Vec<String>)
    ensures
        copy.deep_view() == paths.deep_view(),
{
    let mut copy: Vec<String> = Vec::new();
    let mut i: usize = 0;
    while i < paths.len()
        invariant
            i <= paths@.len(),
            copy.deep_view() =~= paths.deep_view().take(i as int),
        decreases paths@.len() - i,
    {
        let ghost before = copy.deep_view();
        let p = paths[i].clone();
        copy.push(p);
        assert(copy.deep_view() =~= before.push(paths[i as int]@));
        assert(paths.deep_view().take(i + 1) =~= paths.deep_view().take(i as int).push(
            paths[i as int]@,
        ));
        i = i + 1;
    }
    assert(paths.deep_view().take(i as int) =~= paths.deep_view());
    copy
}

fn complete_with_part_paths(
    outcome: CompleteThreadExportOutcome,
    parts: SemanticPartExportResult,
) -> (result: CompletedThreadExport)
    ensures
        completed_from(result, outcome, parts.spec_part_paths()),
{
    let paths = copy_paths(parts.part_paths());
    build_completed_export_result(outcome, paths)
}

/// Applies only architecture-approved events; invalid events leave state unchanged.
pub fn transition_thread_export_state(
    state: ThreadExportViewState,
    event: ThreadExportEvent,
) -> (next: ThreadExportViewState)
    ensures
        transition_relation(state, event, next),
{
    match (state, event) {
        (ThreadExportViewState::NeedsArchive, ThreadExportEvent::ArchiveValidated(archive))
        | (ThreadExportViewState::InvalidArchive { .. }, ThreadExportEvent::ArchiveValidated(archive))
        | (ThreadExportViewState::Ready { .. }, ThreadExportEvent::ArchiveValidated(archive)) => {
            ThreadExportViewState::Ready { archive }
        },
        (ThreadExportViewState::NeedsArchive, ThreadExportEvent::ArchiveRejected(failure))
        | (ThreadExportViewState::InvalidArchive { .. }, ThreadExportEvent::ArchiveRejected(failure)) => {
            ThreadExportViewState::InvalidArchive { failure }
        },
        (ThreadExportViewState::Ready { archive }, ThreadExportEvent::StartFullExport) => {
            ThreadExportViewState::ExportingFull { archive }
        },
        (ThreadExportViewState::ExportingFull { .. }, ThreadExportEvent::FullExportSucceeded(outcome)) => {
            if outcome.has_thread_content() {
                ThreadExportViewState::FullExportReady { outcome }
            } else {
                ThreadExportViewState::Completed { result: complete_without_part_paths(outcome) }
            }
        },
        (ThreadExportViewState::ExportingFull { archive }, ThreadExportEvent::FullExportFailed(failure)) => {
            ThreadExportViewState::FullExportFailed { archive, failure }
        },
        (ThreadExportViewState::FullExportFailed { archive, .. }, ThreadExportEvent::RetryFullExport) => {
            ThreadExportViewState::ExportingFull { archive }
        },
        (ThreadExportViewState::FullExportReady { outcome }, ThreadExportEvent::StartPartsExport) => {
            ThreadExportViewState::ExportingParts { outcome }
        },
        (ThreadExportViewState::FullExportReady { outcome }, ThreadExportEvent::KeepFullOnly)
        | (ThreadExportViewState::PartsExportFailed { outcome, .. }, ThreadExportEvent::KeepFullOnly) => {
            ThreadExportViewState::Completed { result: complete_without_part_paths(outcome) }
        },
        (ThreadExportViewState::ExportingParts { outcome }, ThreadExportEvent::PartsExportSucceeded(parts)) => {
            ThreadExportViewState::Completed { result: complete_with_part_paths(outcome, parts) }
        },
        (ThreadExportViewState::ExportingParts { outcome }, ThreadExportEvent::PartsExportFailed(failure)) => {
            ThreadExportViewState::PartsExportFailed { outcome, failure }
        },
        (ThreadExportViewState::PartsExportFailed { outcome, .. }, ThreadExportEvent::RetryPartsExport) => {
            ThreadExportViewState::ExportingParts { outcome }
        },
        (ThreadExportViewState::Completed { result }, ThreadExportEvent::FinderRevealFailed(_message)) => {
            ThreadExportViewState::Completed { result }
        },
        (ThreadExportViewState::Completed { .. }, ThreadExportEvent::ConvertAnotherArchive) => {
            ThreadExportViewState::NeedsArchive
        },
        (state, _) => state,
    }
}

impl ThreadExportViewState {
    /// Reports whether a user action is legal in the current state.
    pub fn allows_action(&self, action: ThreadExportAction) -> (allowed: bool)
        ensures
            allowed == action_allowed(*self, action),
    {
        match self {
            ThreadExportViewState::NeedsArchive | ThreadExportViewState::InvalidArchive { .. } => {
                matches!(action, ThreadExportAction::SelectArchive)
            },
            ThreadExportViewState::Ready { .. } => {
                matches!(action, ThreadExportAction::SelectArchive | ThreadExportAction::CreateFull)
            },
            ThreadExportViewState::FullExportFailed { .. } => {
                matches!(action, ThreadExportAction::RetryFull | ThreadExportAction::SelectArchive)
            },
            ThreadExportViewState::FullExportReady { .. } => {
                matches!(action, ThreadExportAction::CreateParts | ThreadExportAction::KeepFullOnly)
            },
            ThreadExportViewState::PartsExportFailed { .. } => {
                matches!(action, ThreadExportAction::RetryParts | ThreadExportAction::KeepFullOnly)
            },
            ThreadExportViewState::Completed { .. } => {
                matches!(action, ThreadExportAction::RevealOutput | ThreadExportAction::ConvertAnother)
            },
            ThreadExportViewState::ExportingFull { .. }
            | ThreadExportViewState::ExportingParts { .. } => false,
        }
    }

    /// Returns a validated archive retained for full-export dispatch.
    pub fn selected_archive(&self) -> (archive: Option<&ValidatedTweetArchive>)
        ensures
            match *self {
                ThreadExportViewState::Ready { archive: a }
                | ThreadExportViewState::ExportingFull { archive: a }
                | ThreadExportViewState::FullExportFailed { archive: a, .. } => archive == Some(&a),
                _ => archive is None,
            },
    {
        match self {
            ThreadExportViewState::Ready { archive }
            | ThreadExportViewState::ExportingFull { archive }
            | ThreadExportViewState::FullExportFailed { archive, .. } => Some(archive),
            _ => None,
        }
    }

    /// Returns a committed full outcome retained for optional-parts dispatch.
    pub fn complete_outcome(&self) -> (outcome: Option<&CompleteThreadExportOutcome>)
        ensures
            match *self {
                ThreadExportViewState::FullExportReady { outcome: o }
                | ThreadExportViewState::ExportingParts { outcome: o }
                | ThreadExportViewState::PartsExportFailed { outcome: o, .. } => outcome == Some(&o),
                _ => outcome is None,
            },
    {
        match self {
            ThreadExportViewState::FullExportReady { outcome }
            | ThreadExportViewState::ExportingParts { outcome }
            | ThreadExportViewState::PartsExportFailed { outcome, .. } => Some(outcome),
            _ => None,
        }
    }

    /// Returns durable completed output metadata when the run is terminal.
    pub fn completed_result(&self) -> (result: Option<&CompletedThreadExport>)
        ensures
            match *self {
                ThreadExportViewState::Completed { result: r } => result == Some(&r),
                _ => result is None,
            },
    {
        match self {
            ThreadExportViewState::Completed { result } => Some(result),
            _ => None,
        }
    }

    /// Returns concise status text for the native adapter.
    pub fn status_text(&self) -> (text: String)
        ensures
            text@ == status_text_of(*self),
    {
        match self {
            ThreadExportViewState::NeedsArchive => "Choose an extracted Twitter archive folder.".to_owned(),
            ThreadExportViewState::InvalidArchive { failure }
            | ThreadExportViewState::FullExportFailed { failure, .. }
            | ThreadExportViewState::PartsExportFailed { failure, .. } => failure.to_string(),
            ThreadExportViewState::Ready { archive } => {
                let mut s = "Ready: ".to_owned();
                s.append(archive.archive_folder());
                s
            },
            ThreadExportViewState::ExportingFull { .. } => "Creating the complete TXT…".to_owned(),
            ThreadExportViewState::FullExportReady { outcome } => {
                let mut s = "Complete TXT created: ".to_owned();
                let threads = u64_to_decimal(outcome.thread_count() as u64);
                s.append(threads.as_str());
                s.append(" threads, ");
                let bytes = u64_to_decimal(outcome.byte_count());
                s.append(bytes.as_str());
                s.append(" bytes.");
                s
            },
            ThreadExportViewState::ExportingParts { .. } => "Creating upload-friendly TXT parts…".to_owned(),
            ThreadExportViewState::Completed { result } => {
                let mut s = "Done: ".to_owned();
                let threads = u64_to_decimal(result.thread_count as u64);
                s.append(threads.as_str());
                s.append(" threads in ");
                s.append(result.output_folder.as_str());
                s.append(".");
                s
            },
        }
    }
}

/// The status line shown for a state.
pub open spec fn status_text_of(state: ThreadExportViewState) -> Seq<char> {
    match state {
        ThreadExportViewState::NeedsArchive => "Choose an extracted Twitter archive folder."@,
        ThreadExportViewState::InvalidArchive { failure }
        | ThreadExportViewState::FullExportFailed { failure, .. }
        | ThreadExportViewState::PartsExportFailed { failure, .. } => failure_message(failure),
        ThreadExportViewState::Ready { archive } => "Ready: "@ + archive.spec_archive_folder(),
        ThreadExportViewState::ExportingFull { .. } => "Creating the complete TXT…"@,
        ThreadExportViewState::FullExportReady { outcome } => "Complete TXT created: "@ + decimal(
            outcome.spec_thread_count() as nat,
        ) + " threads, "@ + decimal(outcome.spec_byte_count() as nat) + " bytes."@,
        ThreadExportViewState::ExportingParts { .. } => "Creating upload-friendly TXT parts…"@,
        ThreadExportViewState::Completed { result } => "Done: "@ + decimal(
            result.spec_thread_count() as nat,
        ) + " threads in "@ + result.spec_output_folder() + "."@,
    }
}

/// Whether the state holds a committed complete output.
pub open spec fn holds_outcome(state: ThreadExportViewState, outcome: CompleteThreadExportOutcome) -> bool {
    match state {
        ThreadExportViewState::FullExportReady { outcome: o }
        | ThreadExportViewState::ExportingParts { outcome: o }
        | ThreadExportViewState::PartsExportFailed { outcome: o, .. } => o == outcome,
        _ => false,
    }
}

/// Once the complete TXT is committed, no event loses it: every next state still holds the
/// same outcome, or has completed with that outcome's folder, path, byte count and thread count.
pub proof fn lemma_committed_full_output_survives(
    state: ThreadExportViewState,
    event: ThreadExportEvent,
    next: ThreadExportViewState,
    outcome: CompleteThreadExportOutcome,
)
    requires
        holds_outcome(state, outcome),
        transition_relation(state, event, next),
    ensures
        holds_outcome(next, outcome) || (next matches ThreadExportViewState::Completed { result } && {
            &&& result.spec_output_folder() == outcome.spec_output_folder()
            &&& result.spec_full_output_path() == outcome.spec_full_output_path()
            &&& result.spec_full_byte_count() == outcome.spec_byte_count()
            &&& result.spec_thread_count() == outcome.spec_thread_count()
        }),
{
}

/// A completed run stays completed, unchanged, under every event but the reset, which
/// returns to archive selection; in particular a failed Finder reveal is not fatal.
pub proof fn lemma_completed_run_is_stable(
    state: ThreadExportViewState,
    event: ThreadExportEvent,
    next: ThreadExportViewState,
)
    requires
        state is Completed,
        transition_relation(state, event, next),
    ensures
        event is ConvertAnotherArchive ==> next == ThreadExportViewState::NeedsArchive,
        !(event is ConvertAnotherArchive) ==> next == state,
{
}

/// While an export is in flight no user action is enabled, and a repeated start request is
/// ignored.
pub proof fn lemma_in_flight_exports_ignore_repeats(
    state: ThreadExportViewState,
    event: ThreadExportEvent,
    next: ThreadExportViewState,
    action: ThreadExportAction,
)
    requires
        state is ExportingFull || state is ExportingParts,
        transition_relation(state, event, next),
        event is StartFullExport || event is RetryFullExport || event is StartPartsExport
            || event is RetryPartsExport || event is KeepFullOnly,
    ensures
        !action_allowed(state, action),
        next == state,
{
}

/// An enabled action's request event always moves the machine to the state that carries the
/// action out; a request whose action is not enabled leaves the state unchanged.
pub proof fn lemma_actions_match_requests(
    state: ThreadExportViewState,
    event: ThreadExportEvent,
    next: ThreadExportViewState,
)
    requires
        transition_relation(state, event, next),
    ensures
        event is StartFullExport ==> (if action_allowed(state, ThreadExportAction::CreateFull) {
            next is ExportingFull
        } else {
            next == state
        }),
        event is RetryFullExport ==> (if action_allowed(state, ThreadExportAction::RetryFull) {
            next is ExportingFull
        } else {
            next == state
        }),
        event is StartPartsExport ==> (if action_allowed(state, ThreadExportAction::CreateParts) {
            next is ExportingParts
        } else {
            next == state
        }),
        event is RetryPartsExport ==> (if action_allowed(state, ThreadExportAction::RetryParts) {
            next is ExportingParts
        } else {
            next == state
        }),
        event is KeepFullOnly ==> (if action_allowed(state, ThreadExportAction::KeepFullOnly) {
            next is Completed
        } else {
            next == state
        }),
        event is ConvertAnotherArchive ==> (if action_allowed(
            state,
            ThreadExportAction::ConvertAnother,
        ) {
            next is NeedsArchive
        } else {
            next == state
        }),
{
}

/// Every state that is not waiting on an export enables at least one user action.
pub proof fn lemma_idle_states_enable_an_action(state: ThreadExportViewState)
    requires
        !(state is ExportingFull || state is ExportingParts),
    ensures
        exists|action: ThreadExportAction| action_allowed(state, action),
{
    match state {
        ThreadExportViewState::NeedsArchive | ThreadExportViewState::InvalidArchive { .. }
        | ThreadExportViewState::Ready { .. } | ThreadExportViewState::FullExportFailed { .. } => {
            assert(action_allowed(state, ThreadExportAction::SelectArchive));
        },
        ThreadExportViewState::FullExportReady { .. }
        | ThreadExportViewState::PartsExportFailed { .. } => {
            assert(action_allowed(state, ThreadExportAction::KeepFullOnly));
        },
        ThreadExportViewState::Completed { .. } => {
            assert(action_allowed(state, ThreadExportAction::RevealOutput));
        },
        _ => {},
    }
}


/// A rejected folder choice, made while no archive is accepted, always shows the newest
/// rejection: the next state carries exactly that failure, replacing any earlier one, and the
/// status line reports that failure.
pub proof fn lemma_newest_rejection_replaces_earlier(
    state: ThreadExportViewState,
    failure: ThreadExportFailure,
    next: ThreadExportViewState,
)
    requires
        state is NeedsArchive || state is InvalidArchive,
        transition_relation(state, ThreadExportEvent::ArchiveRejected(failure), next),
    ensures
        next == (ThreadExportViewState::InvalidArchive { failure }),
        failure matches ThreadExportFailure::InvalidArchive { path, message } ==> status_text_of(next)
            == "invalid Twitter archive at "@ + path@ + ": "@ + message@,
{
}

} // verus!
