//! Upload-friendly semantic parts of a complete export.

use vstd::prelude::*;

use vstd::string::StringSliceAdditionalSpecFns;
use vstd::utf8::*;

use crate::processing::data_structures::{Thread, ThreadModel, TweetModel};
use crate::text::{bytes_end_with, bytes_start_with, encoded_len, join_path, str_ends_with, str_starts_with, path_join, zero_padded, zero_padded_decimal};
use super::archive::PreparedThreadExportData;
use super::full_export::CompleteThreadExportOutcome;
use super::error::ThreadExportFailure;
use super::full_export::{
    complete_thread_block, render_single_thread_block, render_thread_block, thread_block_text,
    TextPiece,
};

verus! {

/// Production parts are strictly smaller than one million encoded bytes.
pub const PRODUCTION_PART_LIMIT_EXCLUSIVE: usize = 1_000_000;

/// Where one unit of a part comes from: a whole thread, a run of whole tweets of a thread,
/// or a byte slice of one tweet's text.
#[derive(Debug, Clone, Copy)]
pub enum SemanticUnitDescriptor {
    /// A whole thread in the complete-thread format.
    CompleteThread {
        /// Index of the thread.
        thread_index: usize,
    },
    /// The tweets `[tweet_start, tweet_end)` of a thread, marked with a continuation ordinal.
    ThreadContinuation {
        /// Index of the thread.
        thread_index: usize,
        /// First tweet of the run.
        tweet_start: usize,
        /// One past the last tweet of the run.
        tweet_end: usize,
        /// Ordinal of the unit among the thread's units, from 1.
        continuation_ordinal: usize,
    },
    /// The UTF-8 bytes `[text_start, text_end)` of one tweet's text.
    TweetContinuation {
        /// Index of the thread.
        thread_index: usize,
        /// Index of the tweet in the thread.
        tweet_index: usize,
        /// First byte of the slice.
        text_start: usize,
        /// One past the last byte of the slice.
        text_end: usize,
        /// Ordinal of the unit among the thread's units, from 1.
        thread_continuation_ordinal: usize,
        /// Ordinal of the slice among the tweet's slices, from 1.
        tweet_continuation_ordinal: usize,
    },
}

/// The UTF-8 bytes of a text.
pub open spec fn utf8_bytes(text: Seq<char>) -> Seq<u8> {
    encode_utf8(text)
}

/// The text held by the bytes `[start, end)` of `text`'s UTF-8 encoding.
pub open spec fn text_slice(text: Seq<char>, start: nat, end: nat) -> Seq<char> {
    decode_utf8(utf8_bytes(text).subrange(start as int, end as int))
}

/// Whether a descriptor refers to existing threads, tweets and character boundaries.
pub open spec fn unit_in_bounds(threads: Seq<ThreadModel>, d: SemanticUnitDescriptor) -> bool {
    match d {
        SemanticUnitDescriptor::CompleteThread { thread_index } => thread_index < threads.len(),
        SemanticUnitDescriptor::ThreadContinuation { thread_index, tweet_start, tweet_end, .. } =>
            thread_index < threads.len() && tweet_start <= tweet_end
            <= threads[thread_index as int].tweets.len(),
        SemanticUnitDescriptor::TweetContinuation {
            thread_index,
            tweet_index,
            text_start,
            text_end,
            ..
        } => {
            &&& thread_index < threads.len()
            &&& tweet_index < threads[thread_index as int].tweets.len()
            &&& {
                let bytes = utf8_bytes(
                    threads[thread_index as int].tweets[tweet_index as int].full_text,
                );
                &&& text_start <= text_end <= bytes.len()
                &&& is_char_boundary(bytes, text_start as int)
                &&& is_char_boundary(bytes, text_end as int)
            }
        },
    }
}

/// The index of the thread a descriptor belongs to.
pub open spec fn unit_thread(d: SemanticUnitDescriptor) -> nat {
    match d {
        SemanticUnitDescriptor::CompleteThread { thread_index } => thread_index as nat,
        SemanticUnitDescriptor::ThreadContinuation { thread_index, .. } => thread_index as nat,
        SemanticUnitDescriptor::TweetContinuation { thread_index, .. } => thread_index as nat,
    }
}

/// The text a descriptor renders to.
#[verifier::opaque]
pub open spec fn unit_text(threads: Seq<ThreadModel>, d: SemanticUnitDescriptor) -> Seq<char> {
    match d {
        SemanticUnitDescriptor::CompleteThread { thread_index } => complete_thread_block(
            threads[thread_index as int],
        ),
        SemanticUnitDescriptor::ThreadContinuation {
            thread_index,
            tweet_start,
            tweet_end,
            continuation_ordinal,
        } => thread_block_text(
            threads[thread_index as int],
            Some(continuation_ordinal as nat),
            tweet_start as nat,
            tweet_end as nat,
            None,
        ),
        SemanticUnitDescriptor::TweetContinuation {
            thread_index,
            tweet_index,
            text_start,
            text_end,
            thread_continuation_ordinal,
            tweet_continuation_ordinal,
        } => {
            let thread = threads[thread_index as int];
            thread_block_text(
                thread,
                Some(thread_continuation_ordinal as nat),
                tweet_index as nat,
                (tweet_index + 1) as nat,
                Some(
                    TextPiece {
                        tweet_index: tweet_index as nat,
                        text: text_slice(
                            thread.tweets[tweet_index as int].full_text,
                            text_start as nat,
                            text_end as nat,
                        ),
                        ordinal: tweet_continuation_ordinal as nat,
                    },
                ),
            )
        },
    }
}

/// The encoded size in bytes of a descriptor's rendering.
pub open spec fn unit_size(threads: Seq<ThreadModel>, d: SemanticUnitDescriptor) -> nat {
    utf8_bytes(unit_text(threads, d)).len()
}

/// A descriptor that can be rendered: it is in bounds and its thread has tweets.
pub open spec fn unit_renderable(threads: Seq<ThreadModel>, d: SemanticUnitDescriptor) -> bool {
    &&& unit_in_bounds(threads, d)
    &&& threads[unit_thread(d) as int].tweets.len() > 0
}

/// Every unit of a list belongs to thread `t` and can be rendered.
pub open spec fn units_of_thread_renderable(
    threads: Seq<ThreadModel>,
    t: nat,
    units: Seq<SemanticUnitDescriptor>,
) -> bool {
    forall|k: int|
        0 <= k < units.len() ==> unit_thread(#[trigger] units[k]) == t && unit_renderable(
            threads,
            units[k],
        )
}

/// Why a plan could not be made.
pub enum PlanFailure {
    /// The thread with this identifier has no tweets.
    EmptyThread(Seq<char>),
    /// The limit is too small; the second number is the smallest limit known to make progress.
    LimitTooSmall(nat, nat),
}

/// The failure value that corresponds to a plan failure.
pub open spec fn failure_matches(f: ThreadExportFailure, p: PlanFailure) -> bool {
    match p {
        PlanFailure::EmptyThread(id) => f matches ThreadExportFailure::InvalidThread { thread_id }
            && thread_id@ == id,
        PlanFailure::LimitTooSmall(limit, minimum) => f matches ThreadExportFailure::PartLimitTooSmall {
            exclusive_limit,
            minimum_required,
        } && exclusive_limit == limit && minimum_required == minimum,
    }
}

/// The run of tweets `[start, end)` of a thread as one continuation unit.
pub open spec fn range_unit(t: nat, start: nat, end: nat, ordinal: nat) -> SemanticUnitDescriptor {
    SemanticUnitDescriptor::ThreadContinuation {
        thread_index: t as usize,
        tweet_start: start as usize,
        tweet_end: end as usize,
        continuation_ordinal: ordinal as usize,
    }
}

/// A byte slice of one tweet's text as one continuation unit.
pub open spec fn slice_unit(
    t: nat,
    i: nat,
    start: nat,
    end: nat,
    thread_ordinal: nat,
    slice_ordinal: nat,
) -> SemanticUnitDescriptor {
    SemanticUnitDescriptor::TweetContinuation {
        thread_index: t as usize,
        tweet_index: i as usize,
        text_start: start as usize,
        text_end: end as usize,
        thread_continuation_ordinal: thread_ordinal as usize,
        tweet_continuation_ordinal: slice_ordinal as usize,
    }
}

/// Whether the run of tweets `[start, end)` fits under the limit.
pub open spec fn range_fits(
    threads: Seq<ThreadModel>,
    t: nat,
    start: nat,
    end: nat,
    ordinal: nat,
    limit: nat,
) -> bool {
    unit_size(threads, range_unit(t, start, end, ordinal)) < limit
}

/// Where the greedy run from `start` stops once the run `[start, end)` is known to fit: the run
/// grows one tweet at a time while the longer run still fits.
pub open spec fn greedy_range_end(
    threads: Seq<ThreadModel>,
    t: nat,
    start: nat,
    end: nat,
    ordinal: nat,
    limit: nat,
) -> nat
    decreases threads[t as int].tweets.len() - end,
{
    if end < threads[t as int].tweets.len() && range_fits(threads, t, start, end + 1, ordinal, limit) {
        greedy_range_end(threads, t, start, end + 1, ordinal, limit)
    } else {
        end
    }
}

/// The end of the longest run from `start` whose every prefix fits, if the one-tweet run fits.
pub open spec fn accepted_range_end(
    threads: Seq<ThreadModel>,
    t: nat,
    start: nat,
    ordinal: nat,
    limit: nat,
) -> Option<nat> {
    if start < threads[t as int].tweets.len() && range_fits(
        threads,
        t,
        start,
        start + 1,
        ordinal,
        limit,
    ) {
        Some(greedy_range_end(threads, t, start, start + 1, ordinal, limit))
    } else {
        None
    }
}

/// The greedy run ends after `end` and within the thread.
proof fn lemma_greedy_range_end_bounds(
    threads: Seq<ThreadModel>,
    t: nat,
    start: nat,
    end: nat,
    ordinal: nat,
    limit: nat,
)
    requires
        end <= threads[t as int].tweets.len(),
    ensures
        end <= greedy_range_end(threads, t, start, end, ordinal, limit) <= threads[t as int].tweets.len(),
    decreases threads[t as int].tweets.len() - end,
{
    if end < threads[t as int].tweets.len() && range_fits(threads, t, start, end + 1, ordinal, limit) {
        lemma_greedy_range_end_bounds(threads, t, start, end + 1, ordinal, limit);
    }
}

/// `end` is the largest character boundary in `(start, cap]`.
pub open spec fn is_slice_stop(bytes: Seq<u8>, start: nat, cap: nat, end: nat) -> bool {
    &&& start < end <= cap
    &&& is_char_boundary(bytes, end as int)
    &&& forall|k: nat| end < k <= cap ==> !is_char_boundary(bytes, k as int)
}

/// The end of the slice starting at `start`: the largest character boundary not beyond `cap`,
/// or `start` itself when there is none.
pub open spec fn slice_end(bytes: Seq<u8>, start: nat, cap: nat) -> nat {
    if exists|end: nat| is_slice_stop(bytes, start, cap, end) {
        choose|end: nat| is_slice_stop(bytes, start, cap, end)
    } else {
        start
    }
}

/// The slices of tweet `i`'s text from byte `start` on, numbered from `slice_ordinal`, the
/// first one carrying thread ordinal `thread_ordinal`.
pub open spec fn tweet_slices_from(
    threads: Seq<ThreadModel>,
    t: nat,
    i: nat,
    thread_ordinal: nat,
    limit: nat,
    start: nat,
    slice_ordinal: nat,
) -> Result<Seq<SemanticUnitDescriptor>, PlanFailure>
    decreases utf8_bytes(threads[t as int].tweets[i as int].full_text).len() - start,
{
    let bytes = utf8_bytes(threads[t as int].tweets[i as int].full_text);
    if start >= bytes.len() {
        Ok(Seq::empty())
    } else {
        let metadata = unit_size(
            threads,
            slice_unit(t, i, start, start, thread_ordinal, slice_ordinal),
        );
        if metadata + 1 >= limit {
            Err(
                PlanFailure::LimitTooSmall(
                    limit,
                    if metadata + 2 <= usize::MAX {
                        metadata + 2
                    } else {
                        usize::MAX as nat
                    },
                ),
            )
        } else {
            let available = (limit - metadata - 1) as nat;
            let cap = if start + available <= bytes.len() {
                start + available
            } else {
                bytes.len()
            };
            let end = slice_end(bytes, start, cap);
            if end <= start {
                Err(PlanFailure::LimitTooSmall(limit, metadata + 2))
            } else {
                match tweet_slices_from(
                    threads,
                    t,
                    i,
                    thread_ordinal + 1,
                    limit,
                    end,
                    slice_ordinal + 1,
                ) {
                    Ok(rest) => Ok(
                        seq![slice_unit(t, i, start, end, thread_ordinal, slice_ordinal)] + rest,
                    ),
                    Err(e) => Err(e),
                }
            }
        }
    }
}

/// The slices of a whole tweet text, starting at thread ordinal `thread_ordinal`.
pub open spec fn tweet_slices(
    threads: Seq<ThreadModel>,
    t: nat,
    i: nat,
    thread_ordinal: nat,
    limit: nat,
) -> Result<Seq<SemanticUnitDescriptor>, PlanFailure> {
    if utf8_bytes(threads[t as int].tweets[i as int].full_text).len() == 0 {
        Err(PlanFailure::LimitTooSmall(limit, limit))
    } else {
        tweet_slices_from(threads, t, i, thread_ordinal, limit, 0, 1)
    }
}

/// The continuation units of an oversized thread from tweet `start` on, numbered from `ordinal`.
pub open spec fn thread_units_from(
    threads: Seq<ThreadModel>,
    t: nat,
    limit: nat,
    start: nat,
    ordinal: nat,
) -> Result<Seq<SemanticUnitDescriptor>, PlanFailure>
    decreases threads[t as int].tweets.len() - start,
{
    if start >= threads[t as int].tweets.len() {
        Ok(Seq::empty())
    } else {
        match accepted_range_end(threads, t, start, ordinal, limit) {
            Some(end) => if start < end <= threads[t as int].tweets.len() {
                match thread_units_from(threads, t, limit, end, ordinal + 1) {
                    Ok(rest) => Ok(seq![range_unit(t, start, end, ordinal)] + rest),
                    Err(e) => Err(e),
                }
            } else {
                Ok(Seq::empty())
            },
            None => match tweet_slices(threads, t, start, ordinal, limit) {
                Ok(slices) => match thread_units_from(
                    threads,
                    t,
                    limit,
                    start + 1,
                    ordinal + slices.len(),
                ) {
                    Ok(rest) => Ok(slices + rest),
                    Err(e) => Err(e),
                },
                Err(e) => Err(e),
            },
        }
    }
}

/// The units of thread `t`: the whole thread if it fits, else its continuation units.
pub open spec fn thread_units(threads: Seq<ThreadModel>, t: nat, limit: nat) -> Result<
    Seq<SemanticUnitDescriptor>,
    PlanFailure,
> {
    if threads[t as int].tweets.len() == 0 {
        Err(PlanFailure::EmptyThread(threads[t as int].id))
    } else if unit_size(
        threads,
        SemanticUnitDescriptor::CompleteThread { thread_index: t as usize },
    ) < limit {
        Ok(seq![SemanticUnitDescriptor::CompleteThread { thread_index: t as usize }])
    } else {
        thread_units_from(threads, t, limit, 0, 1)
    }
}

/// The units of the first `count` threads, in order, or the first failure among them.
pub open spec fn units_of_threads(threads: Seq<ThreadModel>, limit: nat, count: nat) -> Result<
    Seq<SemanticUnitDescriptor>,
    PlanFailure,
>
    decreases count,
{
    if count == 0 {
        Ok(Seq::empty())
    } else {
        match units_of_threads(threads, limit, (count - 1) as nat) {
            Ok(before) => match thread_units(threads, (count - 1) as nat, limit) {
                Ok(units) => Ok(before + units),
                Err(e) => Err(e),
            },
            Err(e) => Err(e),
        }
    }
}

/// A part of the plan: its units and their total encoded size.
pub struct PartModel {
    /// The units of the part, in order.
    pub units: Seq<SemanticUnitDescriptor>,
    /// The total encoded size of the part.
    pub bytes: nat,
}

/// Greedy packing: each unit joins the last part while the part stays under the limit, and
/// opens a new part otherwise.
pub open spec fn pack_units(
    threads: Seq<ThreadModel>,
    limit: nat,
    units: Seq<SemanticUnitDescriptor>,
) -> Result<Seq<PartModel>, PlanFailure>
    decreases units.len(),
{
    if units.len() == 0 {
        Ok(Seq::empty())
    } else {
        match pack_units(threads, limit, units.drop_last()) {
            Ok(parts) => {
                let unit = units.last();
                let size = unit_size(threads, unit);
                if size >= limit {
                    Err(PlanFailure::LimitTooSmall(limit, size))
                } else if parts.len() > 0 && parts.last().bytes + size < limit {
                    Ok(
                        parts.update(
                            parts.len() - 1,
                            PartModel {
                                units: parts.last().units.push(unit),
                                bytes: parts.last().bytes + size,
                            },
                        ),
                    )
                } else {
                    Ok(parts.push(PartModel { units: seq![unit], bytes: size }))
                }
            },
            Err(e) => Err(e),
        }
    }
}

/// The plan of a prepared export under an exclusive byte limit.
pub open spec fn planned_parts(threads: Seq<ThreadModel>, limit: nat) -> Result<
    Seq<PartModel>,
    PlanFailure,
> {
    match units_of_threads(threads, limit, threads.len()) {
        Ok(units) => pack_units(threads, limit, units),
        Err(e) => Err(e),
    }
}

/// A character boundary of a text is a character boundary of every prefix that reaches it.
proof fn lemma_boundary_in_prefix(bytes: Seq<u8>, start: int, end: int)
    requires
        valid_utf8(bytes),
        0 <= start <= end <= bytes.len(),
        is_char_boundary(bytes, start),
        is_char_boundary(bytes, end),
    ensures
        valid_utf8(bytes.subrange(0, end)),
        is_char_boundary(bytes.subrange(0, end), start),
{
    let prefix = bytes.subrange(0, end);
    valid_utf8_split(bytes, end);
    if start == end {
        is_char_boundary_start_end_of_seq(prefix);
    } else {
        is_char_boundary_iff_not_is_continuation_byte(bytes, start);
        is_char_boundary_iff_not_is_continuation_byte(prefix, start);
    }
}

/// The text held by the UTF-8 bytes `[start, end)` of `text`.
fn str_byte_slice(text: &str, start: usize, end: usize) -> (piece: &str)
    requires
        start <= end <= utf8_bytes(text@).len(),
        is_char_boundary(utf8_bytes(text@), start as int),
        is_char_boundary(utf8_bytes(text@), end as int),
    ensures
        piece@ == text_slice(text@, start as nat, end as nat),
{
    proof {
        encode_utf8_valid_utf8(text@);
        lemma_boundary_in_prefix(utf8_bytes(text@), start as int, end as int);
    }
    let (head, _) = text.split_at(end);
    let (_, piece) = head.split_at(start);
    proof {
        let bytes = utf8_bytes(text@);
        assert(piece.spec_bytes() =~= bytes.subrange(start as int, end as int));
        encode_utf8_decode_utf8(piece@);
    }
    piece
}

/// Renders the text of one unit of a thread that has tweets.
fn render_semantic_unit(threads: &[Thread], descriptor: &SemanticUnitDescriptor) -> (text: String)
    requires
        unit_in_bounds(threads.deep_view(), *descriptor),
        threads.deep_view()[unit_thread(*descriptor) as int].tweets.len() > 0,
    ensures
        text@ == unit_text(threads.deep_view(), *descriptor),
{
    reveal(unit_text);
    match *descriptor {
        SemanticUnitDescriptor::CompleteThread { thread_index } => {
            let thread = &threads[thread_index];
            proof {
                assert(threads.deep_view()[thread_index as int] == thread@);
            }
            render_thread_block(thread, None, 0, thread.tweets.len(), None)
        },
        SemanticUnitDescriptor::ThreadContinuation {
            thread_index,
            tweet_start,
            tweet_end,
            continuation_ordinal,
        } => {
            let thread = &threads[thread_index];
            proof {
                assert(threads.deep_view()[thread_index as int] == thread@);
            }
            render_thread_block(thread, Some(continuation_ordinal), tweet_start, tweet_end, None)
        },
        SemanticUnitDescriptor::TweetContinuation {
            thread_index,
            tweet_index,
            text_start,
            text_end,
            thread_continuation_ordinal,
            tweet_continuation_ordinal,
        } => {
            let thread = &threads[thread_index];
            proof {
                assert(threads.deep_view()[thread_index as int] == thread@);
                assert(thread@.tweets[tweet_index as int] == thread.tweets[tweet_index as int]@);
                assert(thread@.tweets.len() == thread.tweets.len());
            }
            let text = thread.tweets[tweet_index].full_text.as_str();
            let piece = str_byte_slice(text, text_start, text_end);
            render_thread_block(
                thread,
                Some(thread_continuation_ordinal),
                tweet_index,
                tweet_index + 1,
                Some((tweet_index, piece, tweet_continuation_ordinal)),
            )
        },
    }
}

/// The encoded size of one unit of a thread that has tweets.
fn semantic_unit_size(threads: &[Thread], descriptor: &SemanticUnitDescriptor) -> (size: usize)
    requires
        unit_in_bounds(threads.deep_view(), *descriptor),
        threads.deep_view()[unit_thread(*descriptor) as int].tweets.len() > 0,
    ensures
        size == unit_size(threads.deep_view(), *descriptor),
{
    let rendered = render_semantic_unit(threads, descriptor);
    encoded_len(rendered.as_str())
}

/// `pre` followed by the units of `rest`, or the failure of `rest`.
pub open spec fn prepend_units(
    pre: Seq<SemanticUnitDescriptor>,
    rest: Result<Seq<SemanticUnitDescriptor>, PlanFailure>,
) -> Result<Seq<SemanticUnitDescriptor>, PlanFailure> {
    match rest {
        Ok(units) => Ok(pre + units),
        Err(e) => Err(e),
    }
}

/// An executable list of units, or failure, is the planned one.
pub open spec fn units_result_matches(
    result: Result<Vec<SemanticUnitDescriptor>, ThreadExportFailure>,
    planned: Result<Seq<SemanticUnitDescriptor>, PlanFailure>,
) -> bool {
    match result {
        Ok(units) => planned matches Ok(p) && units@ == p,
        Err(f) => planned matches Err(e) && failure_matches(f, e),
    }
}

/// The largest character boundary of `text` in `(start, cap]`, or `start` when there is none.
fn last_boundary_at_most(text: &str, start: usize, cap: usize) -> (end: usize)
    requires
        start <= cap <= utf8_bytes(text@).len(),
    ensures
        end == slice_end(utf8_bytes(text@), start as nat, cap as nat),
        start <= end <= cap,
        end > start ==> is_char_boundary(utf8_bytes(text@), end as int),
{
    let ghost bytes = utf8_bytes(text@);
    let mut end = cap;
    while end > start && !text.is_char_boundary(end)
        invariant
            start <= end <= cap <= bytes.len(),
            bytes == text.spec_bytes(),
            forall|k: nat| end < k <= cap ==> !is_char_boundary(bytes, k as int),
        decreases end,
    {
        end = end - 1;
    }
    proof {
        let s = start as nat;
        let c = cap as nat;
        if end == start {
            assert(!exists|e: nat| is_slice_stop(bytes, s, c, e));
        } else {
            assert(is_slice_stop(bytes, s, c, end as nat));
            let chosen = choose|e: nat| is_slice_stop(bytes, s, c, e);
            assert(is_slice_stop(bytes, s, c, chosen));
            if chosen < end {
                assert(is_char_boundary(bytes, end as int));
            } else if chosen > end {
                assert(is_char_boundary(bytes, chosen as int));
            }
        }
    }
    end
}

/// One step of splitting a tweet: the end of the slice that starts at `range_start`, or the
/// failure when no slice fits.
fn next_tweet_slice_end(
    threads: &[Thread],
    thread_index: usize,
    tweet_index: usize,
    text: &str,
    range_start: usize,
    thread_ordinal: usize,
    tweet_ordinal: usize,
    exclusive_limit: usize,
) -> (result: Result<usize, ThreadExportFailure>)
    requires
        thread_index < threads.deep_view().len(),
        tweet_index < threads.deep_view()[thread_index as int].tweets.len(),
        text@ == threads.deep_view()[thread_index as int].tweets[tweet_index as int].full_text,
        range_start < utf8_bytes(text@).len(),
        is_char_boundary(utf8_bytes(text@), range_start as int),
    ensures
        match result {
            Ok(end) => {
                &&& range_start < end <= utf8_bytes(text@).len()
                &&& is_char_boundary(utf8_bytes(text@), end as int)
                &&& tweet_slices_from(
                    threads.deep_view(),
                    thread_index as nat,
                    tweet_index as nat,
                    thread_ordinal as nat,
                    exclusive_limit as nat,
                    range_start as nat,
                    tweet_ordinal as nat,
                ) == prepend_units(
                    seq![
                        slice_unit(
                            thread_index as nat,
                            tweet_index as nat,
                            range_start as nat,
                            end as nat,
                            thread_ordinal as nat,
                            tweet_ordinal as nat,
                        ),
                    ],
                    tweet_slices_from(
                        threads.deep_view(),
                        thread_index as nat,
                        tweet_index as nat,
                        (thread_ordinal + 1) as nat,
                        exclusive_limit as nat,
                        end as nat,
                        (tweet_ordinal + 1) as nat,
                    ),
                )
            },
            Err(f) => tweet_slices_from(
                threads.deep_view(),
                thread_index as nat,
                tweet_index as nat,
                thread_ordinal as nat,
                exclusive_limit as nat,
                range_start as nat,
                tweet_ordinal as nat,
            ) matches Err(e) && failure_matches(f, e),
        },
{
    let ghost model = threads.deep_view();
    let ghost bytes = utf8_bytes(text@);
    let probe = SemanticUnitDescriptor::TweetContinuation {
        thread_index,
        tweet_index,
        text_start: range_start,
        text_end: range_start,
        thread_continuation_ordinal: thread_ordinal,
        tweet_continuation_ordinal: tweet_ordinal,
    };
    proof {
        encode_utf8_valid_utf8(text@);
        is_char_boundary_start_end_of_seq(bytes);
    }
    let metadata_size = semantic_unit_size(threads, &probe);
    proof {
        assert(probe == slice_unit(
            thread_index as nat,
            tweet_index as nat,
            range_start as nat,
            range_start as nat,
            thread_ordinal as nat,
            tweet_ordinal as nat,
        ));
        assert(metadata_size == unit_size(model, probe));
    }
    if metadata_size >= exclusive_limit || exclusive_limit - metadata_size <= 1 {
        return Err(ThreadExportFailure::PartLimitTooSmall {
            exclusive_limit,
            minimum_required: metadata_size.saturating_add(2),
        });
    }
    let text_len = encoded_len(text);
    let available_bytes = exclusive_limit - metadata_size - 1;
    let cap = if available_bytes <= text_len - range_start {
        range_start + available_bytes
    } else {
        text_len
    };
    let end = last_boundary_at_most(text, range_start, cap);
    if end == range_start {
        return Err(ThreadExportFailure::PartLimitTooSmall {
            exclusive_limit,
            minimum_required: metadata_size + 2,
        });
    }
    Ok(end)
}

/// Splits one oversized tweet's text into byte slices on character boundaries, each of whose
/// rendered unit stays under the limit.
fn split_oversized_tweet_units(
    threads: &[Thread],
    thread_index: usize,
    tweet_index: usize,
    starting_thread_ordinal: usize,
    exclusive_limit: usize,
) -> (result: Result<Vec<SemanticUnitDescriptor>, ThreadExportFailure>)
    requires
        thread_index < threads.deep_view().len(),
        tweet_index < threads.deep_view()[thread_index as int].tweets.len(),
        starting_thread_ordinal + utf8_bytes(
            threads.deep_view()[thread_index as int].tweets[tweet_index as int].full_text,
        ).len() < usize::MAX,
    ensures
        result matches Ok(units) ==> units@.len() <= utf8_bytes(
            threads.deep_view()[thread_index as int].tweets[tweet_index as int].full_text,
        ).len() && units_of_thread_renderable(threads.deep_view(), thread_index as nat, units@),
        units_result_matches(
            result,
            tweet_slices(
                threads.deep_view(),
                thread_index as nat,
                tweet_index as nat,
                starting_thread_ordinal as nat,
                exclusive_limit as nat,
            ),
        ),
{
    let ghost model = threads.deep_view();
    let ghost t = thread_index as nat;
    let ghost i = tweet_index as nat;
    let ghost ord0 = starting_thread_ordinal as nat;
    let ghost limit = exclusive_limit as nat;
    let thread = &threads[thread_index];
    proof {
        assert(model[thread_index as int] == thread@);
        assert(thread@.tweets[tweet_index as int] == thread.tweets[tweet_index as int]@);
    }
    let text = thread.tweets[tweet_index].full_text.as_str();
    let ghost bytes = utf8_bytes(text@);
    let text_len = encoded_len(text);
    if text_len == 0 {
        return Err(ThreadExportFailure::PartLimitTooSmall {
            exclusive_limit,
            minimum_required: exclusive_limit,
        });
    }
    proof {
        encode_utf8_valid_utf8(text@);
        is_char_boundary_start_end_of_seq(bytes);
        assert(prepend_units(Seq::empty(), tweet_slices_from(model, t, i, ord0, limit, 0, 1))
            =~= tweet_slices_from(model, t, i, ord0, limit, 0, 1));
    }
    let mut descriptors: Vec<SemanticUnitDescriptor> = Vec::new();
    let mut range_start: usize = 0;
    let mut tweet_ordinal: usize = 1;
    while range_start < text_len
        invariant
            model == threads.deep_view(),
            t == thread_index,
            i == tweet_index,
            ord0 == starting_thread_ordinal,
            limit == exclusive_limit,
            thread_index < model.len(),
            tweet_index < model[thread_index as int].tweets.len(),
            text@ == model[thread_index as int].tweets[tweet_index as int].full_text,
            bytes == utf8_bytes(text@),
            text_len == bytes.len(),
            starting_thread_ordinal + bytes.len() < usize::MAX,
            range_start <= text_len,
            is_char_boundary(bytes, range_start as int),
            descriptors.len() <= range_start,
            tweet_ordinal == descriptors.len() + 1,
            units_of_thread_renderable(model, t, descriptors@),
            tweet_slices_from(model, t, i, ord0, limit, 0, 1) == prepend_units(
                descriptors@,
                tweet_slices_from(
                    model,
                    t,
                    i,
                    (ord0 + descriptors.len()) as nat,
                    limit,
                    range_start as nat,
                    tweet_ordinal as nat,
                ),
            ),
        decreases text_len - range_start,
    {
        let thread_ordinal = starting_thread_ordinal + descriptors.len();
        let range_end = match next_tweet_slice_end(
            threads,
            thread_index,
            tweet_index,
            text,
            range_start,
            thread_ordinal,
            tweet_ordinal,
            exclusive_limit,
        ) {
            Ok(end) => end,
            Err(f) => {
                return Err(f);
            },
        };
        let unit = SemanticUnitDescriptor::TweetContinuation {
            thread_index,
            tweet_index,
            text_start: range_start,
            text_end: range_end,
            thread_continuation_ordinal: thread_ordinal,
            tweet_continuation_ordinal: tweet_ordinal,
        };
        let ghost before = descriptors@;
        descriptors.push(unit);
        proof {
            let next = tweet_slices_from(
                model,
                t,
                i,
                (thread_ordinal + 1) as nat,
                limit,
                range_end as nat,
                (tweet_ordinal + 1) as nat,
            );
            match next {
                Ok(units) => {
                    assert(before + (seq![unit] + units) =~= descriptors@ + units);
                },
                Err(e) => {},
            }
        }
        range_start = range_end;
        tweet_ordinal = tweet_ordinal + 1;
    }
    proof {
        assert(descriptors@ + Seq::<SemanticUnitDescriptor>::empty() =~= descriptors@);
    }
    Ok(descriptors)
}

/// The total UTF-8 size of the texts of the first `count` tweets.
pub open spec fn tweets_text_bytes(tweets: Seq<TweetModel>, count: nat) -> nat
    decreases count,
{
    if count == 0 {
        0
    } else {
        tweets_text_bytes(tweets, (count - 1) as nat) + utf8_bytes(
            tweets[count - 1].full_text,
        ).len()
    }
}

/// The text size of a prefix of the tweets grows with the prefix.
proof fn lemma_tweets_text_bytes_monotonic(tweets: Seq<TweetModel>, a: nat, b: nat)
    requires
        a <= b,
    ensures
        tweets_text_bytes(tweets, a) <= tweets_text_bytes(tweets, b),
    decreases b - a,
{
    if a < b {
        lemma_tweets_text_bytes_monotonic(tweets, a, (b - 1) as nat);
    }
}

/// The end of the longest run of tweets from `range_start` whose every prefix fits under the
/// limit, or `None` when the one-tweet run does not fit.
fn longest_fitting_range(
    threads: &[Thread],
    thread_index: usize,
    range_start: usize,
    ordinal: usize,
    exclusive_limit: usize,
) -> (end: Option<usize>)
    requires
        thread_index < threads.deep_view().len(),
        range_start < threads.deep_view()[thread_index as int].tweets.len(),
    ensures
        match end {
            Some(e) => accepted_range_end(
                threads.deep_view(),
                thread_index as nat,
                range_start as nat,
                ordinal as nat,
                exclusive_limit as nat,
            ) == Some(e as nat),
            None => accepted_range_end(
                threads.deep_view(),
                thread_index as nat,
                range_start as nat,
                ordinal as nat,
                exclusive_limit as nat,
            ) is None,
        },
{
    let ghost model = threads.deep_view();
    let ghost t = thread_index as nat;
    let ghost start = range_start as nat;
    let ghost o = ordinal as nat;
    let ghost limit = exclusive_limit as nat;
    let thread = &threads[thread_index];
    proof {
        assert(model[thread_index as int] == thread@);
        assert(thread@.tweets.len() == thread.tweets.len());
    }
    let n = thread.tweets.len();
    let first = SemanticUnitDescriptor::ThreadContinuation {
        thread_index,
        tweet_start: range_start,
        tweet_end: range_start + 1,
        continuation_ordinal: ordinal,
    };
    proof {
        assert(first == range_unit(t, start, start + 1, o));
    }
    if semantic_unit_size(threads, &first) >= exclusive_limit {
        return None;
    }
    let mut end = range_start + 1;
    while end < n
        invariant
            model == threads.deep_view(),
            t == thread_index,
            start == range_start,
            o == ordinal,
            limit == exclusive_limit,
            thread_index < model.len(),
            n == model[thread_index as int].tweets.len(),
            range_start < end <= n,
            range_fits(model, t, start, start + 1, o, limit),
            greedy_range_end(model, t, start, start + 1, o, limit) == greedy_range_end(
                model,
                t,
                start,
                end as nat,
                o,
                limit,
            ),
        decreases n - end,
    {
        let candidate = SemanticUnitDescriptor::ThreadContinuation {
            thread_index,
            tweet_start: range_start,
            tweet_end: end + 1,
            continuation_ordinal: ordinal,
        };
        proof {
            assert(candidate == range_unit(t, start, (end + 1) as nat, o));
        }
        if semantic_unit_size(threads, &candidate) < exclusive_limit {
            end = end + 1;
        } else {
            proof {
                assert(!range_fits(model, t, start, (end + 1) as nat, o, limit));
                assert(greedy_range_end(model, t, start, end as nat, o, limit) == end);
            }
            return Some(end);
        }
    }
    Some(end)
}

/// Prepending two lists of units one after the other prepends their concatenation.
proof fn lemma_prepend_units_assoc(
    pre: Seq<SemanticUnitDescriptor>,
    mid: Seq<SemanticUnitDescriptor>,
    rest: Result<Seq<SemanticUnitDescriptor>, PlanFailure>,
)
    ensures
        prepend_units(pre, prepend_units(mid, rest)) == prepend_units(pre + mid, rest),
{
    match rest {
        Ok(units) => {
            assert(pre + (mid + units) =~= (pre + mid) + units);
        },
        Err(e) => {},
    }
}

/// The units of a thread from a tweet whose greedy run fits.
proof fn lemma_thread_units_run_step(
    threads: Seq<ThreadModel>,
    t: nat,
    limit: nat,
    start: nat,
    ordinal: nat,
    end: nat,
)
    requires
        start < threads[t as int].tweets.len(),
        accepted_range_end(threads, t, start, ordinal, limit) == Some(end),
    ensures
        start < end <= threads[t as int].tweets.len(),
        thread_units_from(threads, t, limit, start, ordinal) == prepend_units(
            seq![range_unit(t, start, end, ordinal)],
            thread_units_from(threads, t, limit, end, ordinal + 1),
        ),
{
    lemma_greedy_range_end_bounds(threads, t, start, start + 1, ordinal, limit);
}

/// The units of a thread from a tweet that fits in no run.
proof fn lemma_thread_units_slice_step(
    threads: Seq<ThreadModel>,
    t: nat,
    limit: nat,
    start: nat,
    ordinal: nat,
)
    requires
        start < threads[t as int].tweets.len(),
        accepted_range_end(threads, t, start, ordinal, limit) is None,
    ensures
        thread_units_from(threads, t, limit, start, ordinal) == match tweet_slices(
            threads,
            t,
            start,
            ordinal,
            limit,
        ) {
            Ok(slices) => prepend_units(
                slices,
                thread_units_from(threads, t, limit, start + 1, ordinal + slices.len()),
            ),
            Err(e) => Err(e),
        },
{
}

/// Splits an oversized thread into greedy runs of whole tweets, falling back to text slices
/// for a tweet that fits in no run.
fn split_oversized_thread_units(
    threads: &[Thread],
    thread_index: usize,
    exclusive_limit: usize,
) -> (result: Result<Vec<SemanticUnitDescriptor>, ThreadExportFailure>)
    requires
        thread_index < threads.deep_view().len(),
        threads.deep_view()[thread_index as int].tweets.len() + tweets_text_bytes(
            threads.deep_view()[thread_index as int].tweets,
            threads.deep_view()[thread_index as int].tweets.len(),
        ) < usize::MAX,
    ensures
        result matches Ok(units) ==> units_of_thread_renderable(
            threads.deep_view(),
            thread_index as nat,
            units@,
        ),
        units_result_matches(
            result,
            thread_units_from(
                threads.deep_view(),
                thread_index as nat,
                exclusive_limit as nat,
                0,
                1,
            ),
        ),
{
    let ghost model = threads.deep_view();
    let ghost t = thread_index as nat;
    let ghost limit = exclusive_limit as nat;
    let ghost tweets = model[thread_index as int].tweets;
    let thread = &threads[thread_index];
    proof {
        assert(model[thread_index as int] == thread@);
        assert(thread@.tweets.len() == thread.tweets.len());
        assert(prepend_units(Seq::empty(), thread_units_from(model, t, limit, 0, 1))
            =~= thread_units_from(model, t, limit, 0, 1));
    }
    let n = thread.tweets.len();
    let mut descriptors: Vec<SemanticUnitDescriptor> = Vec::new();
    let mut range_start: usize = 0;
    let mut ordinal: usize = 1;
    while range_start < n
        invariant
            model == threads.deep_view(),
            t == thread_index,
            limit == exclusive_limit,
            thread_index < model.len(),
            tweets == model[thread_index as int].tweets,
            n == tweets.len(),
            n + tweets_text_bytes(tweets, n as nat) < usize::MAX,
            range_start <= n,
            1 <= ordinal <= 1 + range_start + tweets_text_bytes(tweets, range_start as nat),
            units_of_thread_renderable(model, t, descriptors@),
            thread_units_from(model, t, limit, 0, 1) == prepend_units(
                descriptors@,
                thread_units_from(model, t, limit, range_start as nat, ordinal as nat),
            ),
        decreases n - range_start,
    {
        proof {
            lemma_tweets_text_bytes_monotonic(tweets, (range_start + 1) as nat, n as nat);
        }
        let ghost before = descriptors@;
        match longest_fitting_range(threads, thread_index, range_start, ordinal, exclusive_limit) {
            Some(range_end) => {
                let unit = SemanticUnitDescriptor::ThreadContinuation {
                    thread_index,
                    tweet_start: range_start,
                    tweet_end: range_end,
                    continuation_ordinal: ordinal,
                };
                proof {
                    lemma_thread_units_run_step(
                        model,
                        t,
                        limit,
                        range_start as nat,
                        ordinal as nat,
                        range_end as nat,
                    );
                    assert(unit == range_unit(t, range_start as nat, range_end as nat, ordinal as nat));
                    lemma_prepend_units_assoc(
                        before,
                        seq![unit],
                        thread_units_from(model, t, limit, range_end as nat, (ordinal + 1) as nat),
                    );
                    lemma_tweets_text_bytes_monotonic(tweets, range_start as nat, range_end as nat);
                }
                descriptors.push(unit);
                proof {
                    assert(before + seq![unit] =~= descriptors@);
                }
                range_start = range_end;
                ordinal = ordinal + 1;
            },
            None => {
                proof {
                    lemma_thread_units_slice_step(
                        model,
                        t,
                        limit,
                        range_start as nat,
                        ordinal as nat,
                    );
                }
                let mut slices = match split_oversized_tweet_units(
                    threads,
                    thread_index,
                    range_start,
                    ordinal,
                    exclusive_limit,
                ) {
                    Ok(slices) => slices,
                    Err(f) => {
                        return Err(f);
                    },
                };
                let ghost sliced = slices@;
                let count = slices.len();
                proof {
                    lemma_prepend_units_assoc(
                        before,
                        sliced,
                        thread_units_from(
                            model,
                            t,
                            limit,
                            (range_start + 1) as nat,
                            (ordinal + count) as nat,
                        ),
                    );
                }
                descriptors.append(&mut slices);
                proof {
                    assert(before + sliced =~= descriptors@);
                }
                range_start = range_start + 1;
                ordinal = ordinal + count;
            },
        }
    }
    proof {
        assert(descriptors@ + Seq::<SemanticUnitDescriptor>::empty() =~= descriptors@);
    }
    Ok(descriptors)
}

/// Each thread's tweet count and text size leave room for ordinal arithmetic in a `usize`.
pub open spec fn threads_fit_ordinals(threads: Seq<ThreadModel>) -> bool {
    forall|t: int|
        0 <= t < threads.len() ==> threads[t].tweets.len() + tweets_text_bytes(
            #[trigger] threads[t].tweets,
            threads[t].tweets.len(),
        ) < usize::MAX
}

/// One planned part: its units and their exact total encoded size.
#[derive(Debug)]
struct PlannedSemanticPart {
    units: Vec<SemanticUnitDescriptor>,
    encoded_bytes: usize,
}

impl PlannedSemanticPart {
    /// The part as a model value.
    pub closed spec fn model(&self) -> PartModel {
        PartModel { units: self.units@, bytes: self.encoded_bytes as nat }
    }
}

impl Clone for PlannedSemanticPart {
    fn clone(&self) -> (res: Self)
        ensures
            res.model() == self.model(),
    {
        let units = self.units.clone();
        proof {
            assert(units@ =~= self.units@);
        }
        PlannedSemanticPart { units, encoded_bytes: self.encoded_bytes }
    }
}

/// The models of a list of planned parts.
closed spec fn parts_model(parts: Seq<PlannedSemanticPart>) -> Seq<PartModel> {
    Seq::new(parts.len(), |k: int| parts[k].model())
}

/// Pure semantic part plan containing source descriptors rather than archive payload copies.
#[derive(Debug)]
pub struct SemanticThreadPartPlan {
    parts: Vec<PlannedSemanticPart>,
    exclusive_limit: usize,
}

impl SemanticThreadPartPlan {
    /// The planned parts, in order.
    pub closed spec fn spec_parts(&self) -> Seq<PartModel> {
        parts_model(self.parts@)
    }

    /// The exclusive byte limit the plan was made under.
    pub closed spec fn spec_exclusive_limit(&self) -> nat {
        self.exclusive_limit as nat
    }

    /// Returns the number of consecutive part files in this plan.
    pub fn part_count(&self) -> (n: usize)
        ensures
            n == self.spec_parts().len(),
    {
        self.parts.len()
    }

    /// Returns each exact encoded part size without rendering the archive as one string.
    pub fn encoded_part_sizes(&self) -> (sizes: Vec<usize>)
        ensures
            sizes@.len() == self.spec_parts().len(),
            forall|k: int| 0 <= k < sizes@.len() ==> sizes@[k] == #[trigger] self.spec_parts()[k].bytes,
    {
        let mut sizes: Vec<usize> = Vec::new();
        let mut k: usize = 0;
        while k < self.parts.len()
            invariant
                k <= self.parts@.len(),
                sizes@.len() == k,
                forall|j: int| 0 <= j < k ==> sizes@[j] == #[trigger] self.spec_parts()[j].bytes,
            decreases self.parts@.len() - k,
        {
            sizes.push(self.parts[k].encoded_bytes);
            k = k + 1;
        }
        sizes
    }

    /// Returns the exclusive byte limit the plan was made under.
    pub fn exclusive_limit(&self) -> (limit: usize)
        ensures
            limit == self.spec_exclusive_limit(),
    {
        self.exclusive_limit
    }
}

impl Clone for SemanticThreadPartPlan {
    fn clone(&self) -> (res: Self)
        ensures
            res.spec_parts() == self.spec_parts(),
            res.spec_exclusive_limit() == self.spec_exclusive_limit(),
    {
        let mut parts: Vec<PlannedSemanticPart> = Vec::new();
        let mut k: usize = 0;
        while k < self.parts.len()
            invariant
                k <= self.parts@.len(),
                parts@.len() == k,
                forall|j: int| 0 <= j < k ==> (#[trigger] parts@[j]).model() == self.parts@[j].model(),
            decreases self.parts@.len() - k,
        {
            parts.push(self.parts[k].clone());
            k = k + 1;
        }
        proof {
            assert(parts_model(parts@) =~= parts_model(self.parts@));
        }
        SemanticThreadPartPlan { parts, exclusive_limit: self.exclusive_limit }
    }
}

/// The units of one thread: the whole thread when it fits, else its continuation units.
fn thread_semantic_units(
    threads: &[Thread],
    thread_index: usize,
    exclusive_limit: usize,
) -> (result: Result<Vec<SemanticUnitDescriptor>, ThreadExportFailure>)
    requires
        thread_index < threads.deep_view().len(),
        threads_fit_ordinals(threads.deep_view()),
    ensures
        result matches Ok(units) ==> units_of_thread_renderable(
            threads.deep_view(),
            thread_index as nat,
            units@,
        ),
        units_result_matches(
            result,
            thread_units(threads.deep_view(), thread_index as nat, exclusive_limit as nat),
        ),
{
    let ghost model = threads.deep_view();
    let thread = &threads[thread_index];
    proof {
        assert(model[thread_index as int] == thread@);
    }
    let complete = match render_single_thread_block(thread) {
        Ok(text) => text,
        Err(f) => {
            return Err(f);
        },
    };
    let descriptor = SemanticUnitDescriptor::CompleteThread { thread_index };
    proof {
        reveal(unit_text);
    }
    if encoded_len(complete.as_str()) < exclusive_limit {
        let mut units: Vec<SemanticUnitDescriptor> = Vec::new();
        units.push(descriptor);
        proof {
            assert(units@ =~= seq![descriptor]);
        }
        Ok(units)
    } else {
        proof {
            assert(model[thread_index as int].tweets.len() + tweets_text_bytes(
                model[thread_index as int].tweets,
                model[thread_index as int].tweets.len(),
            ) < usize::MAX);
        }
        split_oversized_thread_units(threads, thread_index, exclusive_limit)
    }
}

/// The units of the first `count + 1` threads extend those of the first `count`.
proof fn lemma_units_of_threads_step(threads: Seq<ThreadModel>, limit: nat, count: nat)
    ensures
        units_of_threads(threads, limit, count + 1) == match units_of_threads(threads, limit, count) {
            Ok(before) => prepend_units(before, thread_units(threads, count, limit)),
            Err(e) => Err(e),
        },
{
    assert(((count + 1) - 1) as nat == count);
}

/// Once a thread fails, the units of every longer prefix of threads fail the same way.
proof fn lemma_units_of_threads_failure_persists(
    threads: Seq<ThreadModel>,
    limit: nat,
    count: nat,
    total: nat,
)
    requires
        count <= total,
        units_of_threads(threads, limit, count) is Err,
    ensures
        units_of_threads(threads, limit, total) == units_of_threads(threads, limit, count),
    decreases total - count,
{
    if count < total {
        lemma_units_of_threads_step(threads, limit, count);
        lemma_units_of_threads_failure_persists(threads, limit, count + 1, total);
    }
}

/// The units of every thread, in thread order.
fn all_semantic_units(threads: &[Thread], exclusive_limit: usize) -> (result: Result<
    Vec<SemanticUnitDescriptor>,
    ThreadExportFailure,
>)
    requires
        threads_fit_ordinals(threads.deep_view()),
    ensures
        result matches Ok(units) ==> forall|k: int|
            0 <= k < units@.len() ==> unit_renderable(threads.deep_view(), #[trigger] units@[k]),
        units_result_matches(
            result,
            units_of_threads(threads.deep_view(), exclusive_limit as nat, threads.deep_view().len()),
        ),
{
    let ghost model = threads.deep_view();
    let mut descriptors: Vec<SemanticUnitDescriptor> = Vec::new();
    let mut thread_index: usize = 0;
    proof {
        assert(units_of_threads(model, exclusive_limit as nat, 0) == Ok::<
            Seq<SemanticUnitDescriptor>,
            PlanFailure,
        >(descriptors@));
    }
    while thread_index < threads.len()
        invariant
            model == threads.deep_view(),
            model.len() == threads@.len(),
            threads_fit_ordinals(model),
            thread_index <= threads@.len(),
            units_of_threads(model, exclusive_limit as nat, thread_index as nat) == Ok::<
                Seq<SemanticUnitDescriptor>,
                PlanFailure,
            >(descriptors@),
            forall|k: int| 0 <= k < descriptors@.len() ==> unit_renderable(model, #[trigger] descriptors@[k]),
        decreases threads@.len() - thread_index,
    {
        let ghost before = descriptors@;
        let mut units = match thread_semantic_units(threads, thread_index, exclusive_limit) {
            Ok(units) => units,
            Err(f) => {
                proof {
                    lemma_units_of_threads_step(model, exclusive_limit as nat, thread_index as nat);
                    lemma_units_of_threads_failure_persists(
                        model,
                        exclusive_limit as nat,
                        (thread_index + 1) as nat,
                        model.len(),
                    );
                }
                return Err(f);
            },
        };
        let ghost added = units@;
        descriptors.append(&mut units);
        proof {
            assert(descriptors@ =~= before + added);
            lemma_units_of_threads_step(model, exclusive_limit as nat, thread_index as nat);
            assert forall|k: int| 0 <= k < descriptors@.len() implies unit_renderable(
                model,
                #[trigger] descriptors@[k],
            ) by {
                if k >= before.len() {
                    assert(descriptors@[k] == added[k - before.len()]);
                }
            }
        }
        thread_index = thread_index + 1;
    }
    Ok(descriptors)
}

/// The plan of the first `count` units under greedy packing.
proof fn lemma_pack_units_prefix(
    threads: Seq<ThreadModel>,
    limit: nat,
    units: Seq<SemanticUnitDescriptor>,
    count: int,
)
    requires
        0 <= count < units.len(),
    ensures
        units.subrange(0, count + 1).drop_last() == units.subrange(0, count),
        units.subrange(0, count + 1).last() == units[count],
{
    assert(units.subrange(0, count + 1).drop_last() =~= units.subrange(0, count));
}

/// Once packing a prefix of the units fails, packing all of them fails the same way.
proof fn lemma_pack_units_failure_persists(
    threads: Seq<ThreadModel>,
    limit: nat,
    units: Seq<SemanticUnitDescriptor>,
    count: int,
)
    requires
        0 <= count <= units.len(),
        pack_units(threads, limit, units.subrange(0, count)) is Err,
    ensures
        pack_units(threads, limit, units) == pack_units(threads, limit, units.subrange(0, count)),
    decreases units.len() - count,
{
    if count < units.len() {
        lemma_pack_units_prefix(threads, limit, units, count);
        lemma_pack_units_failure_persists(threads, limit, units, count + 1);
    } else {
        assert(units.subrange(0, count) =~= units);
    }
}

/// Plans ordered, UTF-8-safe semantic part descriptors under an exclusive byte limit.
pub fn plan_semantic_thread_parts(
    prepared: &PreparedThreadExportData,
    exclusive_limit: usize,
) -> (result: Result<SemanticThreadPartPlan, ThreadExportFailure>)
    requires
        threads_fit_ordinals(prepared.spec_threads()),
    ensures
        match result {
            Ok(plan) => planned_parts(prepared.spec_threads(), exclusive_limit as nat) == Ok::<
                Seq<PartModel>,
                PlanFailure,
            >(plan.spec_parts()) && plan.spec_exclusive_limit() == exclusive_limit
                && parts_renderable(prepared.spec_threads(), plan.spec_parts()),
            Err(f) => planned_parts(prepared.spec_threads(), exclusive_limit as nat) matches Err(e)
                && failure_matches(f, e),
        },
{
    let threads = prepared.threads();
    let ghost model = threads.deep_view();
    let ghost limit = exclusive_limit as nat;
    let descriptors = match all_semantic_units(threads, exclusive_limit) {
        Ok(descriptors) => descriptors,
        Err(f) => {
            return Err(f);
        },
    };
    let mut parts: Vec<PlannedSemanticPart> = Vec::new();
    let mut index: usize = 0;
    proof {
        assert(descriptors@.subrange(0, 0) =~= Seq::<SemanticUnitDescriptor>::empty());
        assert(parts_model(parts@) =~= Seq::<PartModel>::empty());
    }
    while index < descriptors.len()
        invariant
            model == threads.deep_view(),
            model == prepared.spec_threads(),
            limit == exclusive_limit,
            units_of_threads(model, limit, model.len()) == Ok::<
                Seq<SemanticUnitDescriptor>,
                PlanFailure,
            >(descriptors@),
            index <= descriptors@.len(),
            pack_units(model, limit, descriptors@.subrange(0, index as int)) == Ok::<
                Seq<PartModel>,
                PlanFailure,
            >(parts_model(parts@)),
            forall|k: int| 0 <= k < descriptors@.len() ==> unit_in_bounds(model, #[trigger] descriptors@[k]),
            forall|k: int| 0 <= k < descriptors@.len() ==> model[unit_thread(#[trigger] descriptors@[k]) as int].tweets.len() > 0,
            forall|k: int| 0 <= k < parts@.len() ==> (#[trigger] parts@[k]).encoded_bytes < exclusive_limit,
            parts_renderable(model, parts_model(parts@)),
        decreases descriptors@.len() - index,
    {
        let descriptor = descriptors[index];
        proof {
            lemma_pack_units_prefix(model, limit, descriptors@, index as int);
        }
        let encoded_bytes = semantic_unit_size(threads, &descriptor);
        if encoded_bytes >= exclusive_limit {
            proof {
                lemma_pack_units_failure_persists(model, limit, descriptors@, index + 1);
            }
            return Err(ThreadExportFailure::PartLimitTooSmall {
                exclusive_limit,
                minimum_required: encoded_bytes,
            });
        }
        let ghost before = parts_model(parts@);
        let count = parts.len();
        if count > 0 && parts[count - 1].encoded_bytes < exclusive_limit - encoded_bytes {
            let mut last = parts.pop().unwrap();
            last.units.push(descriptor);
            last.encoded_bytes = last.encoded_bytes + encoded_bytes;
            parts.push(last);
            proof {
                assert(parts_renderable(model, parts_model(parts@))) by {
                    assert forall|k: int, j: int|
                        0 <= k < parts_model(parts@).len() && 0 <= j
                            < parts_model(parts@)[k].units.len() implies unit_renderable(
                        model,
                        #[trigger] parts_model(parts@)[k].units[j],
                    ) by {
                        if k < count - 1 {
                            assert(parts_model(parts@)[k] == before[k]);
                        } else if j < before[k].units.len() {
                            assert(parts_model(parts@)[k].units[j] == before[k].units[j]);
                        }
                    }
                }
                assert(parts_model(parts@) =~= before.update(
                    before.len() - 1,
                    PartModel {
                        units: before.last().units.push(descriptor),
                        bytes: (before.last().bytes + encoded_bytes) as nat,
                    },
                ));
            }
        } else {
            let mut units: Vec<SemanticUnitDescriptor> = Vec::new();
            units.push(descriptor);
            parts.push(PlannedSemanticPart { units, encoded_bytes });
            proof {
                assert(units@ =~= seq![descriptor]);
                assert(parts_renderable(model, parts_model(parts@))) by {
                    assert forall|k: int, j: int|
                        0 <= k < parts_model(parts@).len() && 0 <= j
                            < parts_model(parts@)[k].units.len() implies unit_renderable(
                        model,
                        #[trigger] parts_model(parts@)[k].units[j],
                    ) by {
                        if k < count {
                            assert(parts_model(parts@)[k] == before[k]);
                        }
                    }
                }
                assert(parts_model(parts@) =~= before.push(
                    PartModel { units: seq![descriptor], bytes: encoded_bytes as nat },
                ));
            }
        }
        index = index + 1;
    }
    proof {
        assert(descriptors@.subrange(0, descriptors@.len() as int) =~= descriptors@);
    }
    Ok(SemanticThreadPartPlan { parts, exclusive_limit })
}

/// The texts of a list of units, concatenated in order.
pub open spec fn units_text(threads: Seq<ThreadModel>, units: Seq<SemanticUnitDescriptor>) -> Seq<
    char,
>
    decreases units.len(),
{
    if units.len() == 0 {
        Seq::empty()
    } else {
        units_text(threads, units.drop_last()) + unit_text(threads, units.last())
    }
}

/// The total encoded size of a list of units.
pub open spec fn units_size(threads: Seq<ThreadModel>, units: Seq<SemanticUnitDescriptor>) -> nat
    decreases units.len(),
{
    if units.len() == 0 {
        0
    } else {
        units_size(threads, units.drop_last()) + unit_size(threads, units.last())
    }
}

/// Every unit of every part can be rendered against the threads.
pub open spec fn parts_renderable(threads: Seq<ThreadModel>, parts: Seq<PartModel>) -> bool {
    forall|k: int, j: int|
        0 <= k < parts.len() && 0 <= j < parts[k].units.len() ==> unit_renderable(
            threads,
            #[trigger] parts[k].units[j],
        )
}

/// Whether each thread's tweet count and text size leave room for ordinal arithmetic.
fn threads_fit_ordinals_in(threads: &[Thread]) -> (fits: bool)
    ensures
        fits == threads_fit_ordinals(threads.deep_view()),
{
    let ghost model = threads.deep_view();
    let mut t: usize = 0;
    while t < threads.len()
        invariant
            model == threads.deep_view(),
            model.len() == threads@.len(),
            t <= threads@.len(),
            forall|u: int|
                0 <= u < t ==> model[u].tweets.len() + tweets_text_bytes(
                    #[trigger] model[u].tweets,
                    model[u].tweets.len(),
                ) < usize::MAX,
        decreases threads@.len() - t,
    {
        let tweets = &threads[t].tweets;
        let ghost thread_tweets = model[t as int].tweets;
        proof {
            assert(model[t as int] == threads@[t as int]@);
            assert(thread_tweets.len() == tweets@.len());
        }
        let mut total: usize = tweets.len();
        let mut k: usize = 0;
        while k < tweets.len()
            invariant
                model == threads.deep_view(),
                model.len() == threads@.len(),
                t < model.len(),
                thread_tweets == model[t as int].tweets,
                thread_tweets == tweets.deep_view(),
                thread_tweets.len() == tweets@.len(),
                k <= tweets@.len(),
                total == thread_tweets.len() + tweets_text_bytes(thread_tweets, k as nat),
            decreases tweets@.len() - k,
        {
            proof {
                assert(thread_tweets[k as int] == tweets@[k as int]@);
            }
            let size = encoded_len(tweets[k].full_text.as_str());
            match total.checked_add(size) {
                Some(next) => {
                    total = next;
                },
                None => {
                    proof {
                        lemma_tweets_text_bytes_monotonic(
                            thread_tweets,
                            (k + 1) as nat,
                            thread_tweets.len(),
                        );
                        assert(!(model[t as int].tweets.len() + tweets_text_bytes(
                            model[t as int].tweets,
                            model[t as int].tweets.len(),
                        ) < usize::MAX));
                    }
                    return false;
                },
            }
            k = k + 1;
        }
        if total == usize::MAX {
            return false;
        }
        t = t + 1;
    }
    true
}

/// Plans parts as [`plan_semantic_thread_parts`] does, or gives `None` when a thread's tweet
/// count and text size leave no room for ordinal arithmetic.
pub fn try_plan_semantic_thread_parts(
    prepared: &PreparedThreadExportData,
    exclusive_limit: usize,
) -> (result: Option<Result<SemanticThreadPartPlan, ThreadExportFailure>>)
    ensures
        match result {
            None => !threads_fit_ordinals(prepared.spec_threads()),
            Some(Ok(plan)) => threads_fit_ordinals(prepared.spec_threads()) && planned_parts(
                prepared.spec_threads(),
                exclusive_limit as nat,
            ) == Ok::<Seq<PartModel>, PlanFailure>(plan.spec_parts()) && plan.spec_exclusive_limit()
                == exclusive_limit && parts_renderable(prepared.spec_threads(), plan.spec_parts()),
            Some(Err(f)) => threads_fit_ordinals(prepared.spec_threads()) && (planned_parts(
                prepared.spec_threads(),
                exclusive_limit as nat,
            ) matches Err(e) && failure_matches(f, e)),
        },
{
    if !threads_fit_ordinals_in(prepared.threads()) {
        return None;
    }
    Some(plan_semantic_thread_parts(prepared, exclusive_limit))
}

/// Renders one planned part's payload: the texts of its units, in order.
pub fn render_planned_part_payload(
    prepared: &PreparedThreadExportData,
    plan: &SemanticThreadPartPlan,
    part_index: usize,
) -> (payload: String)
    requires
        part_index < plan.spec_parts().len(),
        parts_renderable(prepared.spec_threads(), plan.spec_parts()),
    ensures
        payload@ == units_text(prepared.spec_threads(), plan.spec_parts()[part_index as int].units),
{
    let threads = prepared.threads();
    let ghost model = threads.deep_view();
    let part = &plan.parts[part_index];
    let ghost units = plan.spec_parts()[part_index as int].units;
    proof {
        assert(units == part.units@);
    }
    let mut payload = String::new();
    let mut k: usize = 0;
    while k < part.units.len()
        invariant
            model == threads.deep_view(),
            model == prepared.spec_threads(),
            units == part.units@,
            k <= units.len(),
            forall|j: int| 0 <= j < units.len() ==> unit_renderable(model, #[trigger] units[j]),
            payload@ == units_text(model, units.subrange(0, k as int)),
        decreases units.len() - k,
    {
        let rendered = render_semantic_unit(threads, &part.units[k]);
        payload.append(rendered.as_str());
        proof {
            let next = units.subrange(0, k + 1);
            assert(next.drop_last() =~= units.subrange(0, k as int));
        }
        k = k + 1;
    }
    proof {
        assert(units.subrange(0, units.len() as int) =~= units);
    }
    payload
}

/// Checks a rendered part payload before it is written: it must be non-empty and strictly
/// under the plan's limit.
pub fn validate_part_payload(payload: &str, exclusive_limit: usize) -> (result: Result<
    (),
    ThreadExportFailure,
>)
    ensures
        match result {
            Ok(()) => 0 < utf8_bytes(payload@).len() < exclusive_limit,
            Err(f) => !(0 < utf8_bytes(payload@).len() < exclusive_limit) && f
                == ThreadExportFailure::PartLimitTooSmall {
                exclusive_limit,
                minimum_required: if utf8_bytes(payload@).len() < usize::MAX {
                    (utf8_bytes(payload@).len() + 1) as usize
                } else {
                    usize::MAX
                },
            },
        },
{
    let size = encoded_len(payload);
    if size == 0 || size >= exclusive_limit {
        return Err(ThreadExportFailure::PartLimitTooSmall {
            exclusive_limit,
            minimum_required: size.saturating_add(1),
        });
    }
    Ok(())
}

/// The name of the committed part file with the given ordinal.
pub open spec fn part_file_name(ordinal: nat) -> Seq<char> {
    "tweet-scrolls-part-"@ + zero_padded(ordinal, 3) + ".txt"@
}

/// The name of the temporary part file with the given ordinal.
pub open spec fn partial_part_file_name(ordinal: nat) -> Seq<char> {
    part_file_name(ordinal) + ".partial"@
}

/// The committed and the temporary paths of the part with the given ordinal.
pub fn part_output_paths(output_folder: &str, ordinal: usize) -> (paths: (String, String))
    ensures
        paths.0@ == join_path(output_folder@, part_file_name(ordinal as nat)),
        paths.1@ == join_path(output_folder@, partial_part_file_name(ordinal as nat)),
{
    let mut name = "tweet-scrolls-part-".to_owned();
    let padded = zero_padded_decimal(ordinal as u64, 3);
    name.append(padded.as_str());
    name.append(".txt");
    let completed = path_join(output_folder, name.as_str());
    let mut partial_name = name.clone();
    partial_name.append(".partial");
    let temporary = path_join(output_folder, partial_name.as_str());
    (completed, temporary)
}

/// Whether a file name belongs to a parts attempt: a committed or temporary numbered part.
pub open spec fn is_part_file_name(name: Seq<char>) -> bool {
    &&& bytes_start_with(name, "tweet-scrolls-part-"@)
    &&& (bytes_end_with(name, ".txt"@) || bytes_end_with(name, ".txt.partial"@))
}

/// Decides whether a directory entry is owned by a parts attempt and may be removed on cleanup.
pub fn is_owned_part_file(name: &str) -> (owned: bool)
    ensures
        owned == is_part_file_name(name@),
{
    str_starts_with(name, "tweet-scrolls-part-") && (str_ends_with(name, ".txt") || str_ends_with(
        name,
        ".txt.partial",
    ))
}

/// Optional-parts request retaining the already prepared full-export outcome.
#[derive(Debug, Clone, Copy)]
pub struct SemanticPartExportRequest<'a> {
    outcome: &'a CompleteThreadExportOutcome,
    exclusive_limit: usize,
}

impl<'a> SemanticPartExportRequest<'a> {
    /// The outcome whose prepared data is split.
    pub closed spec fn spec_outcome(&self) -> &'a CompleteThreadExportOutcome {
        self.outcome
    }

    /// The exclusive byte limit of every part.
    pub closed spec fn spec_exclusive_limit(&self) -> usize {
        self.exclusive_limit
    }

    /// Creates a production request using the exclusive one-million-byte boundary.
    pub fn new(outcome: &'a CompleteThreadExportOutcome) -> (request: Self)
        ensures
            request.spec_outcome() == outcome,
            request.spec_exclusive_limit() == PRODUCTION_PART_LIMIT_EXCLUSIVE,
    {
        SemanticPartExportRequest { outcome, exclusive_limit: PRODUCTION_PART_LIMIT_EXCLUSIVE }
    }

    /// Creates a request with a smaller boundary for deterministic verification.
    pub fn with_limit(outcome: &'a CompleteThreadExportOutcome, exclusive_limit: usize) -> (request:
        Self)
        ensures
            request.spec_outcome() == outcome,
            request.spec_exclusive_limit() == exclusive_limit,
    {
        SemanticPartExportRequest { outcome, exclusive_limit }
    }

    /// Returns the outcome whose prepared data is split.
    pub fn outcome(&self) -> (outcome: &'a CompleteThreadExportOutcome)
        ensures
            outcome == self.spec_outcome(),
    {
        self.outcome
    }

    /// Returns the exclusive byte limit of every part.
    pub fn exclusive_limit(&self) -> (limit: usize)
        ensures
            limit == self.spec_exclusive_limit(),
    {
        self.exclusive_limit
    }
}

/// Result returned only after every numbered part has been committed.
#[derive(Debug)]
pub struct SemanticPartExportResult {
    part_paths: Vec<String>,
}

impl SemanticPartExportResult {
    /// The consecutive completed part paths.
    pub closed spec fn spec_part_paths(&self) -> Seq<Seq<char>> {
        self.part_paths.deep_view()
    }

    /// Creates a result from paths already committed by an adapter or controlled test.
    pub fn from_paths(part_paths: Vec<String>) -> (result: Self)
        ensures
            result.spec_part_paths() == part_paths.deep_view(),
    {
        SemanticPartExportResult { part_paths }
    }

    /// Returns the number of atomically published numbered part files.
    pub fn part_count(&self) -> (n: usize)
        ensures
            n == self.spec_part_paths().len(),
    {
        self.part_paths.len()
    }

    /// Returns the consecutive completed part paths.
    pub fn part_paths(&self) -> (paths: &[String])
        ensures
            paths.deep_view() == self.spec_part_paths(),
    {
        let paths = self.part_paths.as_slice();
        assert(paths.deep_view() =~= self.part_paths.deep_view());
        paths
    }
}

} // verus!
