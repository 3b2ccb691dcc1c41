//! The complete-thread text rendering and the full-export results.

use vstd::prelude::*;

use crate::processing::data_structures::{Thread, ThreadModel, TweetModel};
use crate::text::{
    decimal, i64_to_decimal, join_path, path_join, signed_decimal, u64_to_decimal,
    zero_padded, zero_padded_decimal,
};
use super::archive::{PreparedThreadExportData, ValidatedTweetArchive};
use super::error::ThreadExportFailure;

verus! {

/// A slice of one tweet's text that replaces the tweet's full text in a rendered block.
pub struct TextPiece {
    /// Index of the tweet within its thread.
    pub tweet_index: nat,
    /// The text of the slice.
    pub text: Seq<char>,
    /// Ordinal of the slice among the slices of the tweet, from 1.
    pub ordinal: nat,
}

/// The rendering of the tweet at `index` within a block.
pub open spec fn tweet_entry(tweets: Seq<TweetModel>, index: nat, piece: Option<TextPiece>) -> Seq<
    char,
> {
    let body = match piece {
        Some(p) => if p.tweet_index == index {
            "Tweet text continuation: "@ + zero_padded(p.ordinal, 6) + "\n"@ + p.text
        } else {
            tweets[index as int].full_text
        },
        None => tweets[index as int].full_text,
    };
    "- Tweet "@ + decimal(index + 1) + ":\n"@ + body + "\n\n"@
}

/// The renderings of the tweets with indices in `[start, end)`, in order.
pub open spec fn tweet_entries(
    tweets: Seq<TweetModel>,
    start: nat,
    end: nat,
    piece: Option<TextPiece>,
) -> Seq<char>
    decreases end - start,
{
    if end <= start {
        Seq::empty()
    } else {
        tweet_entries(tweets, start, (end - 1) as nat, piece) + tweet_entry(
            tweets,
            (end - 1) as nat,
            piece,
        )
    }
}

/// The header lines of a thread block; a continuation block names its ordinal.
pub open spec fn block_header(thread: ThreadModel, continuation: Option<nat>) -> Seq<char> {
    let first = thread.tweets[0];
    let continuation_line = match continuation {
        Some(ordinal) => "Thread continuation: "@ + zero_padded(ordinal, 6) + "\n"@,
        None => Seq::empty(),
    };
    "--- Start of Thread ---\n"@ + "Thread ID: "@ + thread.id + "\n"@ + continuation_line
        + "Timestamp: "@ + first.created_at + "\n"@ + "Public Support: "@ + first.retweet_count
        + " retweets, "@ + first.favorite_count + " likes\n"@ + "Thread text:\n"@
}

/// A thread block holding the tweets with indices in `[start, end)`.
pub open spec fn thread_block_text(
    thread: ThreadModel,
    continuation: Option<nat>,
    start: nat,
    end: nat,
    piece: Option<TextPiece>,
) -> Seq<char> {
    block_header(thread, continuation) + tweet_entries(thread.tweets, start, end, piece)
        + "--- End of Thread ---\n\n"@
}

/// The block of a whole thread in the established CLI TXT format.
pub open spec fn complete_thread_block(thread: ThreadModel) -> Seq<char> {
    thread_block_text(thread, None, 0, thread.tweets.len(), None)
}

/// The failure reported for a thread without tweets.
pub open spec fn is_invalid_thread_failure(f: ThreadExportFailure, thread: ThreadModel) -> bool {
    f matches ThreadExportFailure::InvalidThread { thread_id } && thread_id@ == thread.id
}

fn push_decimal(s: &mut String, n: u64)
    ensures
        final(s)@ == old(s)@ + decimal(n as nat),
{
    let d = u64_to_decimal(n);
    s.append(d.as_str());
}

/// Renders the block of `thread` holding the tweets `[start, end)`, with an optional
/// continuation ordinal and an optional text slice replacing one tweet's text.
pub fn render_thread_block(
    thread: &Thread,
    continuation: Option<usize>,
    start: usize,
    end: usize,
    piece: Option<(usize, &str, usize)>,
) -> (rendered: String)
    requires
        thread.tweets@.len() > 0,
        start <= end <= thread.tweets@.len(),
    ensures
        rendered@ == thread_block_text(
            thread@,
            match continuation {
                Some(o) => Some(o as nat),
                None => None,
            },
            start as nat,
            end as nat,
            match piece {
                Some(p) => Some(TextPiece { tweet_index: p.0 as nat, text: p.1@, ordinal: p.2 as nat }),
                None => None,
            },
        ),
{
    let ghost cont = match continuation {
        Some(o) => Some(o as nat),
        None => None::<nat>,
    };
    let ghost sp = match piece {
        Some(p) => Some(TextPiece { tweet_index: p.0 as nat, text: p.1@, ordinal: p.2 as nat }),
        None => None::<TextPiece>,
    };
    let first = &thread.tweets[0];
    let mut rendered = "--- Start of Thread ---\n".to_owned();
    rendered.append("Thread ID: ");
    rendered.append(thread.id.as_str());
    rendered.append("\n");
    let ghost before_cont = rendered@;
    match continuation {
        Some(ordinal) => {
            rendered.append("Thread continuation: ");
            let padded = zero_padded_decimal(ordinal as u64, 6);
            rendered.append(padded.as_str());
            rendered.append("\n");
        },
        None => {
            assert(rendered@ =~= before_cont + Seq::<char>::empty());
        },
    }
    rendered.append("Timestamp: ");
    rendered.append(first.created_at.as_str());
    rendered.append("\n");
    rendered.append("Public Support: ");
    rendered.append(first.retweet_count.as_str());
    rendered.append(" retweets, ");
    rendered.append(first.favorite_count.as_str());
    rendered.append(" likes\n");
    rendered.append("Thread text:\n");
    let ghost header = rendered@;
    proof {
        assert(thread@.tweets[0] == thread.tweets[0]@);
        assert(header =~= block_header(thread@, cont));
    }
    let mut index = start;
    while index < end
        invariant
            start <= index <= end <= thread.tweets@.len(),
            rendered@ == header + tweet_entries(thread@.tweets, start as nat, index as nat, sp),
            sp == match piece {
                Some(p) => Some(TextPiece { tweet_index: p.0 as nat, text: p.1@, ordinal: p.2 as nat }),
                None => None,
            },
            thread@.tweets == thread.tweets.deep_view(),
        decreases end - index,
    {
        let tweet = &thread.tweets[index];
        let ghost before = rendered@;
        rendered.append("- Tweet ");
        push_decimal(&mut rendered, (index as u64) + 1);
        rendered.append(":\n");
        let ghost before_body = rendered@;
        let mut replaced = false;
        match piece {
            Some((piece_index, piece_text, piece_ordinal)) => {
                if piece_index == index {
                    rendered.append("Tweet text continuation: ");
                    let padded = zero_padded_decimal(piece_ordinal as u64, 6);
                    rendered.append(padded.as_str());
                    rendered.append("\n");
                    rendered.append(piece_text);
                    replaced = true;
                }
            },
            None => {},
        }
        if !replaced {
            rendered.append(tweet.full_text.as_str());
        }
        rendered.append("\n\n");
        proof {
            assert(thread@.tweets[index as int] == thread.tweets[index as int]@);
            assert(rendered@ =~= before + tweet_entry(thread@.tweets, index as nat, sp));
        }
        index = index + 1;
    }
    rendered.append("--- End of Thread ---\n\n");
    rendered
}

/// Renders one non-empty thread using the established CLI TXT format.
pub fn render_single_thread_block(thread: &Thread) -> (result: Result<String, ThreadExportFailure>)
    ensures
        match result {
            Ok(text) => thread@.tweets.len() > 0 && text@ == complete_thread_block(thread@),
            Err(f) => thread@.tweets.len() == 0 && is_invalid_thread_failure(f, thread@),
        },
{
    if thread.tweets.len() == 0 {
        return Err(ThreadExportFailure::InvalidThread { thread_id: thread.id.clone() });
    }
    Ok(render_thread_block(thread, None, 0, thread.tweets.len(), None))
}

/// The run folder of an app export: a timestamp-named child of the archive folder.
pub open spec fn timestamp_output_folder(archive_folder: Seq<char>, timestamp_millis: int) -> Seq<
    char,
> {
    join_path(archive_folder, "tweet-scrolls-"@ + signed_decimal(timestamp_millis))
}

/// Derives the one timestamp-named child folder owned by an app export run.
pub fn derive_timestamp_output_folder(archive_folder: &str, timestamp_millis: i64) -> (folder:
    String)
    ensures
        folder@ == timestamp_output_folder(archive_folder@, timestamp_millis as int),
{
    let mut name = "tweet-scrolls-".to_owned();
    let digits = i64_to_decimal(timestamp_millis);
    name.append(digits.as_str());
    path_join(archive_folder, name.as_str())
}

/// Name of the committed complete TXT inside a run folder.
pub open spec fn full_output_file_name() -> Seq<char> {
    "tweet-scrolls-full.txt"@
}

/// Name of the temporary complete TXT inside a run folder.
pub open spec fn partial_output_file_name() -> Seq<char> {
    "tweet-scrolls-full.txt.partial"@
}

/// The temporary and the committed paths of the complete TXT of a run folder.
pub fn complete_output_paths(output_folder: &str) -> (paths: (String, String))
    ensures
        paths.0@ == join_path(output_folder@, partial_output_file_name()),
        paths.1@ == join_path(output_folder@, full_output_file_name()),
{
    (
        path_join(output_folder, "tweet-scrolls-full.txt.partial"),
        path_join(output_folder, "tweet-scrolls-full.txt"),
    )
}

/// Immutable input for one complete app export attempt.
#[derive(Debug)]
pub struct CompleteThreadExportRequest {
    archive: ValidatedTweetArchive,
    timestamp_millis: i64,
}

impl CompleteThreadExportRequest {
    /// The archive to export.
    pub closed spec fn spec_archive(&self) -> ValidatedTweetArchive {
        self.archive
    }

    /// The run timestamp injected by the adapter.
    pub closed spec fn spec_timestamp_millis(&self) -> i64 {
        self.timestamp_millis
    }

    /// Creates an export request with one adapter-injected run timestamp.
    pub fn new(archive: ValidatedTweetArchive, timestamp_millis: i64) -> (request: Self)
        ensures
            request.spec_archive() == archive,
            request.spec_timestamp_millis() == timestamp_millis,
    {
        CompleteThreadExportRequest { archive, timestamp_millis }
    }

    /// The archive to export.
    pub fn archive(&self) -> (archive: &ValidatedTweetArchive)
        ensures
            *archive == self.spec_archive(),
    {
        &self.archive
    }

    /// The run timestamp injected by the adapter.
    pub fn timestamp_millis(&self) -> (t: i64)
        ensures
            t == self.spec_timestamp_millis(),
    {
        self.timestamp_millis
    }

    /// The run folder this request exports into.
    pub fn output_folder(&self) -> (folder: String)
        ensures
            folder@ == timestamp_output_folder(
                self.spec_archive().spec_archive_folder(),
                self.spec_timestamp_millis() as int,
            ),
    {
        derive_timestamp_output_folder(self.archive.archive_folder(), self.timestamp_millis)
    }
}

/// Metadata returned only after the complete output filename is committed.
#[derive(Debug)]
pub struct CompleteThreadOutput {
    full_output_path: String,
    byte_count: u64,
    thread_count: usize,
}

impl CompleteThreadOutput {
    /// The committed complete TXT path.
    pub closed spec fn spec_full_output_path(&self) -> Seq<char> {
        self.full_output_path@
    }

    /// The exact encoded size of the complete TXT.
    pub closed spec fn spec_byte_count(&self) -> u64 {
        self.byte_count
    }

    /// The number of thread blocks written.
    pub closed spec fn spec_thread_count(&self) -> usize {
        self.thread_count
    }

    /// Records a committed complete TXT.
    pub fn new(full_output_path: String, byte_count: u64, thread_count: usize) -> (output: Self)
        ensures
            output.spec_full_output_path() == full_output_path@,
            output.spec_byte_count() == byte_count,
            output.spec_thread_count() == thread_count,
    {
        CompleteThreadOutput { full_output_path, byte_count, thread_count }
    }

    /// Returns the committed complete TXT path.
    pub fn full_output_path(&self) -> (p: &str)
        ensures
            p@ == self.spec_full_output_path(),
    {
        self.full_output_path.as_str()
    }

    /// Returns the exact encoded size of the complete TXT.
    pub fn byte_count(&self) -> (n: u64)
        ensures
            n == self.spec_byte_count(),
    {
        self.byte_count
    }

    /// Returns the number of semantic thread blocks written.
    pub fn thread_count(&self) -> (n: usize)
        ensures
            n == self.spec_thread_count(),
    {
        self.thread_count
    }
}

impl Clone for CompleteThreadOutput {
    fn clone(&self) -> (res: Self)
        ensures
            res == *self,
    {
        CompleteThreadOutput {
            full_output_path: self.full_output_path.clone(),
            byte_count: self.byte_count,
            thread_count: self.thread_count,
        }
    }
}

/// Complete full-export result retained while the user decides about parts.
#[derive(Debug)]
pub struct CompleteThreadExportOutcome {
    output_folder: String,
    output: CompleteThreadOutput,
    prepared: PreparedThreadExportData,
}

impl CompleteThreadExportOutcome {
    /// The timestamp-derived run folder.
    pub closed spec fn spec_output_folder(&self) -> Seq<char> {
        self.output_folder@
    }

    /// The committed complete TXT path.
    pub closed spec fn spec_full_output_path(&self) -> Seq<char> {
        self.output.spec_full_output_path()
    }

    /// The complete file's exact byte count.
    pub closed spec fn spec_byte_count(&self) -> u64 {
        self.output.spec_byte_count()
    }

    /// The number of exported thread blocks.
    pub closed spec fn spec_thread_count(&self) -> usize {
        self.output.spec_thread_count()
    }

    /// The prepared thread model.
    pub closed spec fn spec_prepared(&self) -> PreparedThreadExportData {
        self.prepared
    }

    /// Records a committed full export.
    pub fn new(
        output_folder: String,
        output: CompleteThreadOutput,
        prepared: PreparedThreadExportData,
    ) -> (outcome: Self)
        ensures
            outcome.spec_output_folder() == output_folder@,
            outcome.spec_full_output_path() == output.spec_full_output_path(),
            outcome.spec_byte_count() == output.spec_byte_count(),
            outcome.spec_thread_count() == output.spec_thread_count(),
            outcome.spec_prepared() == prepared,
    {
        CompleteThreadExportOutcome { output_folder, output, prepared }
    }

    /// Returns the timestamp-derived run folder.
    pub fn output_folder(&self) -> (p: &str)
        ensures
            p@ == self.spec_output_folder(),
    {
        self.output_folder.as_str()
    }

    /// Returns the atomically committed complete TXT path.
    pub fn full_output_path(&self) -> (p: &str)
        ensures
            p@ == self.spec_full_output_path(),
    {
        self.output.full_output_path()
    }

    /// Returns the complete file's exact byte count.
    pub fn byte_count(&self) -> (n: u64)
        ensures
            n == self.spec_byte_count(),
    {
        self.output.byte_count()
    }

    /// Returns the number of exported thread blocks.
    pub fn thread_count(&self) -> (n: usize)
        ensures
            n == self.spec_thread_count(),
    {
        self.output.thread_count()
    }

    /// Reports whether optional semantic parts can contain tweet content.
    pub fn has_thread_content(&self) -> (b: bool)
        ensures
            b == (self.spec_thread_count() > 0),
    {
        self.thread_count() > 0
    }

    /// Returns the prepared thread model without reloading the archive.
    pub fn prepared_data(&self) -> (p: &PreparedThreadExportData)
        ensures
            *p == self.spec_prepared(),
    {
        &self.prepared
    }
}

/// The header of every rendered block, whole or continuation, names the thread and then its
/// first tweet's timestamp and public support: that tweet's retweet count before
/// " retweets, " and its favourite count before " likes", followed by the thread text.
pub proof fn lemma_block_reports_first_tweet_support(
    thread: ThreadModel,
    continuation: Option<nat>,
    start: nat,
    end: nat,
    piece: Option<TextPiece>,
)
    requires
        thread.tweets.len() > 0,
    ensures
        ({
            let first = thread.tweets[0];
            exists|opening: Seq<char>|
                thread_block_text(thread, continuation, start, end, piece) == opening
                    + "Timestamp: "@ + first.created_at + "\n"@ + "Public Support: "@
                    + first.retweet_count + " retweets, "@ + first.favorite_count + " likes\n"@
                    + "Thread text:\n"@ + tweet_entries(thread.tweets, start, end, piece)
                    + "--- End of Thread ---\n\n"@
                    && opening.take(("--- Start of Thread ---\n"@ + "Thread ID: "@).len() as int)
                    == "--- Start of Thread ---\n"@ + "Thread ID: "@
        }),
{
    let first = thread.tweets[0];
    let continuation_line = match continuation {
        Some(ordinal) => "Thread continuation: "@ + zero_padded(ordinal, 6) + "\n"@,
        None => Seq::empty(),
    };
    let opening = "--- Start of Thread ---\n"@ + "Thread ID: "@ + thread.id + "\n"@
        + continuation_line;
    assert(thread_block_text(thread, continuation, start, end, piece) =~= opening + "Timestamp: "@
        + first.created_at + "\n"@ + "Public Support: "@ + first.retweet_count + " retweets, "@
        + first.favorite_count + " likes\n"@ + "Thread text:\n"@ + tweet_entries(
        thread.tweets,
        start,
        end,
        piece,
    ) + "--- End of Thread ---\n\n"@);
    assert(opening.take(("--- Start of Thread ---\n"@ + "Thread ID: "@).len() as int)
        =~= "--- Start of Thread ---\n"@ + "Thread ID: "@);
}

} // verus!
