//! Shared, local-only tweet-thread export behavior used by the CLI and the Mac app.

pub mod error;

pub use error::{ThreadExportFailure, ThreadExportFailureKind};
pub mod archive;

pub use archive::{PreparedThreadExportData, ValidatedTweetArchive};
pub mod full_export;

pub use full_export::{
    derive_timestamp_output_folder, render_single_thread_block, CompleteThreadExportOutcome,
    CompleteThreadExportRequest, CompleteThreadOutput,
};
pub mod app_state;
pub mod semantic_parts;
pub mod part_laws;

pub use app_state::{
    transition_thread_export_state, CompletedThreadExport, ThreadExportAction, ThreadExportEvent,
    ThreadExportViewState,
};
pub use semantic_parts::{SemanticPartExportResult, PRODUCTION_PART_LIMIT_EXCLUSIVE};
