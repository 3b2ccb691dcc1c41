//! Typed failures of the tweet-thread export, and their messages.

use vstd::prelude::*;

use crate::text::{decimal, u64_to_decimal};

verus! {

/// Stable categories that adapters can map to recovery actions and messages.
#[derive(Debug, Clone, Copy, PartialEq, Eq)]
pub enum ThreadExportFailureKind {
    /// The selected path is not a readable extracted Twitter archive.
    InvalidArchive,
    /// The archive file could not be read.
    ArchiveRead,
    /// The JavaScript wrapper or JSON payload is malformed.
    ArchiveParse,
    /// A tweet timestamp cannot be parsed safely.
    InvalidTimestamp,
    /// A thread model has no tweet to render.
    InvalidThread,
    /// The timestamp-derived output folder already exists.
    OutputCollision,
    /// An output directory or temporary file could not be written.
    OutputWrite,
    /// A temporary output could not be published under its completed name.
    OutputCommit,
    /// Required semantic continuation metadata cannot fit the requested limit.
    PartLimitTooSmall,
    /// A numbered part temporary file could not be written.
    PartWrite,
    /// A numbered part temporary file could not be committed.
    PartCommit,
    /// A blocking worker failed before returning its typed result.
    BackgroundTask,
}

/// Typed failures from the shared tweet-thread export boundary.
///
/// Paths are carried as text, and filesystem failures as the text of the
/// underlying error.
#[derive(Debug)]
pub enum ThreadExportFailure {
    /// The selected archive directory does not contain a readable `tweets.js`.
    InvalidArchive {
        /// Selected path.
        path: String,
        /// Recovery-oriented explanation.
        message: String,
    },
    /// The validated archive became unreadable while loading.
    ArchiveRead {
        /// Archive file path.
        path: String,
        /// Underlying filesystem failure.
        source: String,
    },
    /// The JavaScript wrapper or JSON payload could not be decoded.
    ArchiveParse {
        /// Archive file path.
        path: String,
        /// Decoder explanation without archive content.
        message: String,
    },
    /// One tweet contains an invalid archive timestamp.
    InvalidTimestamp {
        /// Archive tweet identifier.
        tweet_id: String,
        /// Invalid timestamp value.
        value: String,
    },
    /// A thread has no first tweet and therefore cannot be rendered.
    InvalidThread {
        /// Invalid thread identifier.
        thread_id: String,
    },
    /// A timestamp-derived output folder already belongs to another run.
    OutputCollision {
        /// Existing run path.
        path: String,
    },
    /// An output directory or temporary file could not be written.
    OutputWrite {
        /// Path affected by the write failure.
        path: String,
        /// Underlying filesystem failure.
        source: String,
    },
    /// An atomic rename could not publish the completed output.
    OutputCommit {
        /// Temporary path being committed.
        temporary_path: String,
        /// Completed path that was not published.
        completed_path: String,
        /// Underlying rename failure.
        source: String,
    },
    /// Required semantic continuation metadata cannot fit the requested limit.
    PartLimitTooSmall {
        /// Configured exclusive byte limit.
        exclusive_limit: usize,
        /// Smallest known exclusive limit that can make progress.
        minimum_required: usize,
    },
    /// A numbered part temporary file could not be written.
    PartWrite {
        /// Part path affected by the write failure.
        path: String,
        /// Underlying filesystem failure.
        source: String,
    },
    /// A numbered part temporary file could not be published.
    PartCommit {
        /// Temporary path being committed.
        temporary_path: String,
        /// Completed part path that was not published.
        completed_path: String,
        /// Underlying rename failure.
        source: String,
    },
    /// A background worker failed before completing its operation.
    BackgroundTask {
        /// Join failure explanation.
        message: String,
    },
}

/// The `Debug` rendering of a string (quoted and escaped), as `format!("{:?}")` produces it.
pub uninterp spec fn debug_quoted(text: Seq<char>) -> Seq<char>;

/// Renders a string the way `format!("{:?}", text)` does.
///
/// Calls `<str as Debug>::fmt` through `format!`; the contract claims only
/// that the result is the named rendering of the argument.
#[verifier::external_body]
fn debug_quote(text: &str) -> (quoted: String)
    ensures
        quoted@ == debug_quoted(text@),
{
    format!("{:?}", text)
}

/// The stable category of a failure.
pub open spec fn failure_kind(f: ThreadExportFailure) -> ThreadExportFailureKind {
    match f {
        ThreadExportFailure::InvalidArchive { .. } => ThreadExportFailureKind::InvalidArchive,
        ThreadExportFailure::ArchiveRead { .. } => ThreadExportFailureKind::ArchiveRead,
        ThreadExportFailure::ArchiveParse { .. } => ThreadExportFailureKind::ArchiveParse,
        ThreadExportFailure::InvalidTimestamp { .. } => ThreadExportFailureKind::InvalidTimestamp,
        ThreadExportFailure::InvalidThread { .. } => ThreadExportFailureKind::InvalidThread,
        ThreadExportFailure::OutputCollision { .. } => ThreadExportFailureKind::OutputCollision,
        ThreadExportFailure::OutputWrite { .. } => ThreadExportFailureKind::OutputWrite,
        ThreadExportFailure::OutputCommit { .. } => ThreadExportFailureKind::OutputCommit,
        ThreadExportFailure::PartLimitTooSmall { .. } => ThreadExportFailureKind::PartLimitTooSmall,
        ThreadExportFailure::PartWrite { .. } => ThreadExportFailureKind::PartWrite,
        ThreadExportFailure::PartCommit { .. } => ThreadExportFailureKind::PartCommit,
        ThreadExportFailure::BackgroundTask { .. } => ThreadExportFailureKind::BackgroundTask,
    }
}

/// The user-facing message of a failure.
pub open spec fn failure_message(f: ThreadExportFailure) -> Seq<char> {
    match f {
        ThreadExportFailure::InvalidArchive { path, message } => "invalid Twitter archive at "@
            + path@ + ": "@ + message@,
        ThreadExportFailure::ArchiveRead { path, source } => "failed to read Twitter archive file "@
            + path@ + ": "@ + source@,
        ThreadExportFailure::ArchiveParse { path, message } => "failed to parse Twitter archive file "@
            + path@ + ": "@ + message@,
        ThreadExportFailure::InvalidTimestamp { tweet_id, value } => "tweet "@ + tweet_id@
            + " has invalid timestamp "@ + debug_quoted(value@),
        ThreadExportFailure::InvalidThread { thread_id } => "thread "@ + thread_id@
            + " has no tweets"@,
        ThreadExportFailure::OutputCollision { path } => "output folder already exists: "@ + path@,
        ThreadExportFailure::OutputWrite { path, source } => "failed to write output path "@ + path@
            + ": "@ + source@,
        ThreadExportFailure::OutputCommit { temporary_path, completed_path, source } =>
            "failed to commit output from "@ + temporary_path@ + " to "@ + completed_path@ + ": "@
            + source@,
        ThreadExportFailure::PartLimitTooSmall { exclusive_limit, minimum_required } =>
            "exclusive part limit "@ + decimal(exclusive_limit as nat) + " is too small; at least "@
            + decimal(minimum_required as nat) + " bytes are required"@,
        ThreadExportFailure::PartWrite { path, source } => "failed to write semantic part "@ + path@
            + ": "@ + source@,
        ThreadExportFailure::PartCommit { temporary_path, completed_path, source } =>
            "failed to commit semantic part from "@ + temporary_path@ + " to "@ + completed_path@
            + ": "@ + source@,
        ThreadExportFailure::BackgroundTask { message } => "background archive task failed: "@
            + message@,
    }
}

fn joined2(a: &str, b: &str) -> (s: String)
    ensures
        s@ == a@ + b@,
{
    let mut s = a.to_owned();
    s.append(b);
    s
}

fn joined3(a: &str, b: &str, c: &str) -> (s: String)
    ensures
        s@ == a@ + b@ + c@,
{
    let mut s = a.to_owned();
    s.append(b);
    s.append(c);
    s
}

fn joined4(a: &str, b: &str, c: &str, d: &str) -> (s: String)
    ensures
        s@ == a@ + b@ + c@ + d@,
{
    let mut s = joined3(a, b, c);
    s.append(d);
    s
}

impl ThreadExportFailure {
    /// Returns the stable failure category for UI recovery decisions.
    pub fn kind(&self) -> (k: ThreadExportFailureKind)
        ensures
            k == failure_kind(*self),
    {
        match self {
            Self::InvalidArchive { .. } => ThreadExportFailureKind::InvalidArchive,
            Self::ArchiveRead { .. } => ThreadExportFailureKind::ArchiveRead,
            Self::ArchiveParse { .. } => ThreadExportFailureKind::ArchiveParse,
            Self::InvalidTimestamp { .. } => ThreadExportFailureKind::InvalidTimestamp,
            Self::InvalidThread { .. } => ThreadExportFailureKind::InvalidThread,
            Self::OutputCollision { .. } => ThreadExportFailureKind::OutputCollision,
            Self::OutputWrite { .. } => ThreadExportFailureKind::OutputWrite,
            Self::OutputCommit { .. } => ThreadExportFailureKind::OutputCommit,
            Self::PartLimitTooSmall { .. } => ThreadExportFailureKind::PartLimitTooSmall,
            Self::PartWrite { .. } => ThreadExportFailureKind::PartWrite,
            Self::PartCommit { .. } => ThreadExportFailureKind::PartCommit,
            Self::BackgroundTask { .. } => ThreadExportFailureKind::BackgroundTask,
        }
    }

    /// Returns the affected tweet identifier when the failure is tweet-scoped.
    pub fn tweet_id(&self) -> (id: Option<&str>)
        ensures
            match *self {
                ThreadExportFailure::InvalidTimestamp { tweet_id, .. } => id is Some && id->0@
                    == tweet_id@,
                _ => id is None,
            },
    {
        match self {
            Self::InvalidTimestamp { tweet_id, .. } => Some(tweet_id.as_str()),
            _ => None,
        }
    }

    /// Returns the affected thread identifier when the failure is thread-scoped.
    pub fn thread_id(&self) -> (id: Option<&str>)
        ensures
            match *self {
                ThreadExportFailure::InvalidThread { thread_id } => id is Some && id->0@
                    == thread_id@,
                _ => id is None,
            },
    {
        match self {
            Self::InvalidThread { thread_id } => Some(thread_id.as_str()),
            _ => None,
        }
    }

    /// Returns the user-facing message of the failure.
    pub fn to_string(&self) -> (text: String)
        ensures
            text@ == failure_message(*self),
    {
        match self {
            Self::InvalidArchive { path, message } => joined4(
                "invalid Twitter archive at ",
                path.as_str(),
                ": ",
                message.as_str(),
            ),
            Self::ArchiveRead { path, source } => joined4(
                "failed to read Twitter archive file ",
                path.as_str(),
                ": ",
                source.as_str(),
            ),
            Self::ArchiveParse { path, message } => joined4(
                "failed to parse Twitter archive file ",
                path.as_str(),
                ": ",
                message.as_str(),
            ),
            Self::InvalidTimestamp { tweet_id, value } => {
                let quoted = debug_quote(value.as_str());
                joined4("tweet ", tweet_id.as_str(), " has invalid timestamp ", quoted.as_str())
            },
            Self::InvalidThread { thread_id } => joined3(
                "thread ",
                thread_id.as_str(),
                " has no tweets",
            ),
            Self::OutputCollision { path } => joined2("output folder already exists: ", path.as_str()),
            Self::OutputWrite { path, source } => joined4(
                "failed to write output path ",
                path.as_str(),
                ": ",
                source.as_str(),
            ),
            Self::OutputCommit { temporary_path, completed_path, source } => {
                let mut s = joined4(
                    "failed to commit output from ",
                    temporary_path.as_str(),
                    " to ",
                    completed_path.as_str(),
                );
                s.append(": ");
                s.append(source.as_str());
                s
            },
            Self::PartLimitTooSmall { exclusive_limit, minimum_required } => {
                let limit_text = u64_to_decimal(*exclusive_limit as u64);
                let required_text = u64_to_decimal(*minimum_required as u64);
                let mut s = joined4(
                    "exclusive part limit ",
                    limit_text.as_str(),
                    " is too small; at least ",
                    required_text.as_str(),
                );
                s.append(" bytes are required");
                s
            },
            Self::PartWrite { path, source } => joined4(
                "failed to write semantic part ",
                path.as_str(),
                ": ",
                source.as_str(),
            ),
            Self::PartCommit { temporary_path, completed_path, source } => {
                let mut s = joined4(
                    "failed to commit semantic part from ",
                    temporary_path.as_str(),
                    " to ",
                    completed_path.as_str(),
                );
                s.append(": ");
                s.append(source.as_str());
                s
            },
            Self::BackgroundTask { message } => joined2("background archive task failed: ", message.as_str()),
        }
    }
}

} // verus!
