//! Validated archive selections and prepared thread data.

use vstd::prelude::*;

use vstd::string::StringSliceAdditionalSpecFns;
use vstd::utf8::*;

use crate::processing::data_structures::{Thread, ThreadModel, Tweet, TweetModel, TweetWrapper};
use crate::processing::reply_threads::{
    id_keys, lookup_tweet_by_id, positions_by_id, process_reply_threads, replies_acyclic, reply_chains_end,
    reply_threads, tweet_by_id,
};
use crate::sort::{instant_order, instant_order_desc, sorted_by_instant_key, stable_order};
use crate::text::{join_path, parse_u32, parsed_u32, path_join};
use super::error::ThreadExportFailure;

verus! {

/// The file that holds the archive's tweets.
pub open spec fn archive_tweets_file_name() -> Seq<char> {
    "tweets.js"@
}

/// A selected archive folder whose `tweets.js` was found readable.
#[derive(Debug)]
pub struct ValidatedTweetArchive {
    archive_folder: String,
    tweets_file: String,
}

impl ValidatedTweetArchive {
    /// The selected archive folder.
    pub closed spec fn spec_archive_folder(&self) -> Seq<char> {
        self.archive_folder@
    }

    /// The path of the validated `tweets.js`.
    pub closed spec fn spec_tweets_file(&self) -> Seq<char> {
        self.tweets_file@
    }

    /// The tweets file always sits directly in the archive folder.
    pub closed spec fn well_formed(&self) -> bool {
        self.tweets_file@ == join_path(self.archive_folder@, archive_tweets_file_name())
    }

    /// Records a folder whose `tweets.js` the caller has found to be a readable regular file.
    pub fn from_checked_folder(archive_folder: &str) -> (archive: Self)
        ensures
            archive.spec_archive_folder() == archive_folder@,
            archive.spec_tweets_file() == join_path(archive_folder@, archive_tweets_file_name()),
            archive.well_formed(),
    {
        let tweets_file = path_join(archive_folder, "tweets.js");
        ValidatedTweetArchive { archive_folder: archive_folder.to_owned(), tweets_file }
    }

    /// Returns the selected extracted archive folder.
    pub fn archive_folder(&self) -> (p: &str)
        ensures
            p@ == self.spec_archive_folder(),
    {
        self.archive_folder.as_str()
    }

    /// Returns the validated `tweets.js` path.
    pub fn tweets_file(&self) -> (p: &str)
        ensures
            p@ == self.spec_tweets_file(),
    {
        self.tweets_file.as_str()
    }
}

impl Clone for ValidatedTweetArchive {
    fn clone(&self) -> (res: Self)
        ensures
            res == *self,
    {
        ValidatedTweetArchive {
            archive_folder: self.archive_folder.clone(),
            tweets_file: self.tweets_file.clone(),
        }
    }
}

/// Prepared semantic thread data retained for the optional parts decision.
#[derive(Debug)]
pub struct PreparedThreadExportData {
    threads: Vec<Thread>,
    source_tweet_count: usize,
    excluded_retweet_count: usize,
}

impl PreparedThreadExportData {
    /// The reconstructed threads, newest root first.
    pub closed spec fn spec_threads(&self) -> Seq<ThreadModel> {
        self.threads.deep_view()
    }

    /// The number of wrappers decoded from `tweets.js`.
    pub closed spec fn spec_source_tweet_count(&self) -> nat {
        self.source_tweet_count as nat
    }

    /// The number of archive entries excluded by the retweet flag.
    pub closed spec fn spec_excluded_retweet_count(&self) -> nat {
        self.excluded_retweet_count as nat
    }

    /// Assembles prepared data from its parts.
    pub fn from_parts(
        threads: Vec<Thread>,
        source_tweet_count: usize,
        excluded_retweet_count: usize,
    ) -> (data: Self)
        ensures
            data.spec_threads() == threads.deep_view(),
            data.spec_source_tweet_count() == source_tweet_count,
            data.spec_excluded_retweet_count() == excluded_retweet_count,
    {
        PreparedThreadExportData { threads, source_tweet_count, excluded_retweet_count }
    }

    /// Returns reconstructed threads ordered newest root first.
    pub fn threads(&self) -> (t: &[Thread])
        ensures
            t.deep_view() == self.spec_threads(),
    {
        let t = self.threads.as_slice();
        assert(t.deep_view() =~= self.threads.deep_view());
        t
    }

    /// Returns the number of wrappers decoded from `tweets.js`.
    pub fn source_tweet_count(&self) -> (n: usize)
        ensures
            n == self.spec_source_tweet_count(),
    {
        self.source_tweet_count
    }

    /// Returns the number of archive entries excluded by the retweet flag.
    pub fn excluded_retweet_count(&self) -> (n: usize)
        ensures
            n == self.spec_excluded_retweet_count(),
    {
        self.excluded_retweet_count
    }
}

impl Clone for PreparedThreadExportData {
    fn clone(&self) -> (res: Self)
        ensures
            res.spec_threads() == self.spec_threads(),
            res.spec_source_tweet_count() == self.spec_source_tweet_count(),
            res.spec_excluded_retweet_count() == self.spec_excluded_retweet_count(),
    {
        let threads = self.threads.clone();
        assert(threads.deep_view() =~= self.threads.deep_view());
        PreparedThreadExportData {
            threads,
            source_tweet_count: self.source_tweet_count,
            excluded_retweet_count: self.excluded_retweet_count,
        }
    }
}

/// The position of the first byte `b` in `bytes`, among the first `count`.
pub open spec fn first_byte_at(bytes: Seq<u8>, b: u8, count: nat) -> Option<nat>
    decreases count,
{
    if count == 0 {
        None
    } else {
        match first_byte_at(bytes, b, (count - 1) as nat) {
            Some(p) => Some(p),
            None => if bytes[count - 1] == b {
                Some((count - 1) as nat)
            } else {
                None
            },
        }
    }
}

/// The position of the last byte `b` in `bytes`, among the first `count`.
pub open spec fn last_byte_at(bytes: Seq<u8>, b: u8, count: nat) -> Option<nat>
    decreases count,
{
    if count == 0 {
        None
    } else if bytes[count - 1] == b {
        Some((count - 1) as nat)
    } else {
        last_byte_at(bytes, b, (count - 1) as nat)
    }
}

/// The JSON array inside the archive script: from its first `[` to its last `]`, or the
/// message of why there is none.
pub open spec fn archive_json_bytes(script: Seq<char>) -> Result<Seq<u8>, Seq<char>> {
    let bytes = encode_utf8(script);
    match first_byte_at(bytes, 91, bytes.len()) {
        None => Err("missing opening bracket"@),
        Some(start) => match last_byte_at(bytes, 93, bytes.len()) {
            None => Err("missing closing bracket"@),
            Some(end) => if end < start {
                Err("closing bracket precedes opening bracket"@)
            } else {
                Ok(bytes.subrange(start as int, end + 1 as int))
            },
        },
    }
}

/// Finds the first byte `b`, scanning forward.
fn find_byte(bytes: &[u8], b: u8) -> (found: Option<usize>)
    ensures
        match found {
            Some(p) => first_byte_at(bytes@, b, bytes@.len()) == Some(p as nat),
            None => first_byte_at(bytes@, b, bytes@.len()) is None,
        },
{
    let len = bytes.len();
    let mut k: usize = 0;
    while k < len
        invariant
            len == bytes@.len(),
            k <= len,
            first_byte_at(bytes@, b, k as nat) is None,
        decreases len - k,
    {
        if bytes[k] == b {
            proof {
                lemma_first_byte_at_stays(bytes@, b, (k + 1) as nat, len as nat);
            }
            return Some(k);
        }
        k = k + 1;
    }
    None
}

/// Once the first occurrence is found, looking further keeps it.
proof fn lemma_first_byte_at_stays(bytes: Seq<u8>, b: u8, count: nat, total: nat)
    requires
        count <= total <= bytes.len(),
        first_byte_at(bytes, b, count) is Some,
    ensures
        first_byte_at(bytes, b, total) == first_byte_at(bytes, b, count),
    decreases total - count,
{
    if count < total {
        lemma_first_byte_at_stays(bytes, b, count, (total - 1) as nat);
    }
}

/// Finds the last byte `b`, scanning backward.
pub(crate) fn rfind_byte(bytes: &[u8], b: u8) -> (found: Option<usize>)
    ensures
        match found {
            Some(p) => last_byte_at(bytes@, b, bytes@.len()) == Some(p as nat),
            None => last_byte_at(bytes@, b, bytes@.len()) is None,
        },
{
    let mut k: usize = bytes.len();
    while k > 0
        invariant
            k <= bytes@.len(),
            last_byte_at(bytes@, b, bytes@.len()) == last_byte_at(bytes@, b, k as nat),
        decreases k,
    {
        if bytes[k - 1] == b {
            return Some(k - 1);
        }
        k = k - 1;
    }
    None
}

/// Locates the JSON array of an archive script: from its first `[` to its last `]`.
pub fn locate_archive_json<'a>(script: &'a str, tweets_file: &str) -> (result: Result<
    &'a str,
    ThreadExportFailure,
>)
    ensures
        match (result, archive_json_bytes(script@)) {
            (Ok(json), Ok(bytes)) => encode_utf8(json@) == bytes,
            (Err(f), Err(message)) => f matches ThreadExportFailure::ArchiveParse { path, message: m }
                && path@ == tweets_file@ && m@ == message,
            _ => false,
        },
{
    let bytes = script.as_bytes();
    let byte_count = bytes.len();
    let ghost all = encode_utf8(script@);
    proof {
        assert(bytes@ == all);
        encode_utf8_valid_utf8(script@);
    }
    let start = match find_byte(bytes, 91) {
        Some(p) => p,
        None => {
            return Err(ThreadExportFailure::ArchiveParse {
                path: tweets_file.to_owned(),
                message: "missing opening bracket".to_owned(),
            });
        },
    };
    let end = match rfind_byte(bytes, 93) {
        Some(p) => p,
        None => {
            return Err(ThreadExportFailure::ArchiveParse {
                path: tweets_file.to_owned(),
                message: "missing closing bracket".to_owned(),
            });
        },
    };
    if end < start {
        return Err(ThreadExportFailure::ArchiveParse {
            path: tweets_file.to_owned(),
            message: "closing bracket precedes opening bracket".to_owned(),
        });
    }
    proof {
        lemma_first_byte_at_found(all, 91, all.len());
        lemma_last_byte_at_found(all, 93, all.len());
        is_char_boundary_iff_not_is_continuation_byte(all, start as int);
        is_char_boundary_iff_not_is_continuation_byte(all, end as int);
        lemma_boundary_after_ascii(all, end as int);
    }
    let (head, _) = script.split_at(end + 1);
    proof {
        valid_utf8_split(all, end + 1);
        let prefix = all.subrange(0, end + 1);
        assert(head.spec_bytes() =~= prefix);
        if start < end + 1 {
            is_char_boundary_iff_not_is_continuation_byte(prefix, start as int);
        }
    }
    let (_, json) = head.split_at(start);
    proof {
        assert(json.spec_bytes() =~= all.subrange(start as int, end + 1));
    }
    Ok(json)
}

/// A found first occurrence is in range and holds the byte.
proof fn lemma_first_byte_at_found(bytes: Seq<u8>, b: u8, count: nat)
    requires
        count <= bytes.len(),
    ensures
        first_byte_at(bytes, b, count) matches Some(p) ==> p < count && bytes[p as int] == b,
    decreases count,
{
    if count > 0 {
        lemma_first_byte_at_found(bytes, b, (count - 1) as nat);
    }
}

/// A found last occurrence is in range and holds the byte.
pub(crate) proof fn lemma_last_byte_at_found(bytes: Seq<u8>, b: u8, count: nat)
    requires
        count <= bytes.len(),
    ensures
        last_byte_at(bytes, b, count) matches Some(p) ==> p < count && bytes[p as int] == b,
    decreases count,
{
    if count > 0 {
        lemma_last_byte_at_found(bytes, b, (count - 1) as nat);
    }
}

/// The position after an ASCII byte that starts a character starts a character too.
pub(crate) proof fn lemma_boundary_after_ascii(bytes: Seq<u8>, i: int)
    requires
        valid_utf8(bytes),
        0 <= i < bytes.len(),
        is_char_boundary(bytes, i),
        bytes[i] <= 0x7f,
    ensures
        is_char_boundary(bytes, i + 1),
    decreases bytes.len(),
{
    let rest = pop_first_scalar(bytes);
    let width = length_of_first_scalar(bytes);
    assert(valid_first_scalar(bytes) && valid_utf8(rest));
    assert(1 <= width <= bytes.len());
    assert(rest.len() == bytes.len() - width);
    if i == 0 {
        assert(width == 1);
        assert(is_char_boundary(rest, 0));
    } else {
        assert(is_char_boundary(rest, i - width));
        assert(rest[i - width] == bytes[i]);
        lemma_boundary_after_ascii(rest, i - width);
    }
}

/// The timestamp format of archive tweets.
pub open spec fn twitter_timestamp_format() -> Seq<char> {
    "%a %b %d %H:%M:%S %z %Y"@
}

/// The instant that a text names under a `strftime` format, as whole seconds since the epoch
/// and the nanoseconds past them.
pub uninterp spec fn parsed_instant(text: Seq<char>, format: Seq<char>) -> Option<(i64, u32)>;

/// Reads an instant from a text under a `strftime` format.
///
/// Calls `chrono::DateTime::parse_from_str`, then `timestamp` and `timestamp_subsec_nanos` of
/// the parsed value. The contract claims only that the result is the named reading of the two
/// arguments; which texts parse is left to chrono.
#[verifier::external_body]
pub(crate) fn parse_instant(text: &str, format: &str) -> (instant: Option<(i64, u32)>)
    ensures
        instant == parsed_instant(text@, format@),
{
    match chrono::DateTime::parse_from_str(text, format) {
        Ok(parsed) => Some((parsed.timestamp(), parsed.timestamp_subsec_nanos())),
        Err(_) => None,
    }
}

/// The instant of an archive timestamp.
pub open spec fn archive_instant(text: Seq<char>) -> Option<(i64, u32)> {
    parsed_instant(text, twitter_timestamp_format())
}

/// The tweets of the first `count` wrappers that are not retweets, in order.
pub open spec fn kept_tweets(wrapped: Seq<TweetModel>, count: nat) -> Seq<TweetModel>
    decreases count,
{
    if count == 0 {
        Seq::empty()
    } else {
        let before = kept_tweets(wrapped, (count - 1) as nat);
        if wrapped[count - 1].retweeted {
            before
        } else {
            before.push(wrapped[count - 1])
        }
    }
}

/// The first of the first `count` tweets whose timestamp cannot be read.
pub open spec fn first_unreadable_timestamp(tweets: Seq<TweetModel>, count: nat) -> Option<nat>
    decreases count,
{
    if count == 0 {
        None
    } else {
        match first_unreadable_timestamp(tweets, (count - 1) as nat) {
            Some(k) => Some(k),
            None => if archive_instant(tweets[count - 1].created_at) is None {
                Some((count - 1) as nat)
            } else {
                None
            },
        }
    }
}

/// The instant an identifier maps to: that of the last tweet carrying it.
pub open spec fn instant_of_id(tweets: Seq<TweetModel>, id: Seq<char>) -> (i64, u32) {
    match tweet_by_id(tweets, id) {
        Some(owner) => match archive_instant(tweets[owner as int].created_at) {
            Some(instant) => instant,
            None => (0, 0),
        },
        None => (0, 0),
    }
}

/// The identifier instants of a thread's tweets.
pub open spec fn instant_keys(tweets: Seq<TweetModel>, thread: Seq<TweetModel>) -> Seq<(i64, u32)> {
    Seq::new(thread.len(), |k: int| instant_of_id(tweets, thread[k].id_str))
}

/// A thread's tweets in instant order, keeping their order among equal instants.
pub open spec fn instant_sorted(tweets: Seq<TweetModel>, thread: Seq<TweetModel>) -> Seq<TweetModel> {
    let order = stable_order(instant_order(instant_keys(tweets, thread)), thread.len());
    Seq::new(thread.len(), |k: int| thread[order[k] as int])
}

/// The sum of the counts that parse among the first `count` texts.
pub open spec fn parsed_total(texts: Seq<Seq<char>>, count: nat) -> nat
    decreases count,
{
    if count == 0 {
        0
    } else {
        parsed_total(texts, (count - 1) as nat) + match parsed_u32(texts[count - 1]) {
            Some(v) => v as nat,
            None => 0,
        }
    }
}

/// The favorite counts of some tweets.
pub open spec fn favorite_texts(tweets: Seq<TweetModel>) -> Seq<Seq<char>> {
    Seq::new(tweets.len(), |k: int| tweets[k].favorite_count)
}

/// The retweet counts of some tweets.
pub open spec fn retweet_texts(tweets: Seq<TweetModel>) -> Seq<Seq<char>> {
    Seq::new(tweets.len(), |k: int| tweets[k].retweet_count)
}

/// The thread model of a non-empty list of tweets: named after its first tweet, with the sums
/// of the counts that parse.
pub open spec fn thread_model_of(tweets: Seq<TweetModel>) -> ThreadModel {
    ThreadModel {
        id: tweets[0].id_str,
        tweets,
        tweet_count: tweets.len(),
        favorite_count: parsed_total(favorite_texts(tweets), tweets.len()),
        retweet_count: parsed_total(retweet_texts(tweets), tweets.len()),
    }
}

/// The reply threads of the tweets, each in instant order.
pub open spec fn instant_sorted_threads(tweets: Seq<TweetModel>) -> Seq<Seq<TweetModel>> {
    let grouped = reply_threads(tweets);
    Seq::new(grouped.len(), |g: int| instant_sorted(tweets, grouped[g]))
}

/// The identifier instants of the threads' first tweets.
pub open spec fn thread_instant_keys(tweets: Seq<TweetModel>, threads: Seq<Seq<TweetModel>>) -> Seq<
    (i64, u32),
> {
    Seq::new(threads.len(), |g: int| instant_of_id(tweets, threads[g][0].id_str))
}

/// The prepared threads of the kept tweets: reply threads, each in instant order, the threads
/// newest first by their first tweet's instant.
pub open spec fn archive_threads(tweets: Seq<TweetModel>) -> Seq<ThreadModel> {
    let sorted = instant_sorted_threads(tweets);
    let order = stable_order(instant_order_desc(thread_instant_keys(tweets, sorted)), sorted.len());
    Seq::new(sorted.len(), |g: int| thread_model_of(sorted[order[g] as int]))
}

/// Every thread's favorite and retweet sums fit in a `u32`.
pub open spec fn thread_counts_fit(tweets: Seq<TweetModel>) -> bool {
    forall|g: int|
        0 <= g < instant_sorted_threads(tweets).len() ==> {
            let thread = #[trigger] instant_sorted_threads(tweets)[g];
            &&& parsed_total(favorite_texts(thread), thread.len()) <= u32::MAX
            &&& parsed_total(retweet_texts(thread), thread.len()) <= u32::MAX
        }
}

/// The tweet models of some wrappers.
pub open spec fn wrapped_tweets(wrappers: Seq<TweetWrapper>) -> Seq<TweetModel> {
    Seq::new(wrappers.len(), |k: int| wrappers[k].tweet@)
}

/// The tweets of the wrappers that are not retweets, in order.
fn kept_tweets_of(wrappers: &Vec<TweetWrapper>) -> (kept: Vec<Tweet>)
    ensures
        kept.deep_view() == kept_tweets(wrapped_tweets(wrappers@), wrappers@.len()),
{
    let ghost wrapped = wrapped_tweets(wrappers@);
    let mut kept: Vec<Tweet> = Vec::new();
    let mut k: usize = 0;
    while k < wrappers.len()
        invariant
            wrapped == wrapped_tweets(wrappers@),
            k <= wrappers@.len(),
            kept.deep_view() == kept_tweets(wrapped, k as nat),
        decreases wrappers@.len() - k,
    {
        let tweet = &wrappers[k].tweet;
        proof {
            assert(wrapped[k as int] == tweet@);
        }
        if !tweet.retweeted {
            let ghost before = kept.deep_view();
            kept.push(tweet.clone());
            proof {
                assert(kept.deep_view() =~= before.push(wrapped[k as int]));
            }
        }
        k = k + 1;
    }
    kept
}

/// Reads every tweet's timestamp, failing on the first that cannot be read.
fn validate_all_tweet_timestamps(tweets: &[Tweet]) -> (result: Result<
    Vec<(i64, u32)>,
    ThreadExportFailure,
>)
    ensures
        match result {
            Ok(instants) => first_unreadable_timestamp(tweets.deep_view(), tweets.deep_view().len())
                is None && instants@.len() == tweets.deep_view().len() && forall|k: int|
                0 <= k < instants@.len() ==> archive_instant(tweets.deep_view()[k].created_at)
                    == Some(#[trigger] instants@[k]),
            Err(f) => first_unreadable_timestamp(tweets.deep_view(), tweets.deep_view().len())
                matches Some(k) && f matches ThreadExportFailure::InvalidTimestamp {
                tweet_id,
                value,
            } && tweet_id@ == tweets.deep_view()[k as int].id_str && value@ == tweets.deep_view()[k as int].created_at,
        },
{
    let ghost model = tweets.deep_view();
    let format = "%a %b %d %H:%M:%S %z %Y";
    let mut instants: Vec<(i64, u32)> = Vec::new();
    let mut k: usize = 0;
    while k < tweets.len()
        invariant
            model == tweets.deep_view(),
            model.len() == tweets@.len(),
            format@ == twitter_timestamp_format(),
            k <= tweets@.len(),
            first_unreadable_timestamp(model, k as nat) is None,
            instants@.len() == k,
            forall|j: int| 0 <= j < k ==> archive_instant(model[j].created_at) == Some(#[trigger] instants@[j]),
        decreases tweets@.len() - k,
    {
        let tweet = &tweets[k];
        proof {
            assert(model[k as int] == tweet@);
        }
        match parse_instant(tweet.created_at.as_str(), format) {
            Some(instant) => {
                instants.push(instant);
            },
            None => {
                proof {
                    lemma_first_unreadable_stays(model, (k + 1) as nat, model.len());
                }
                return Err(ThreadExportFailure::InvalidTimestamp {
                    tweet_id: tweet.id_str.clone(),
                    value: tweet.created_at.clone(),
                });
            },
        }
        k = k + 1;
    }
    Ok(instants)
}

/// Once a first unreadable timestamp is found, looking further keeps it.
proof fn lemma_first_unreadable_stays(tweets: Seq<TweetModel>, count: nat, total: nat)
    requires
        count <= total,
        first_unreadable_timestamp(tweets, count) is Some,
    ensures
        first_unreadable_timestamp(tweets, total) == first_unreadable_timestamp(tweets, count),
    decreases total - count,
{
    if count < total {
        lemma_first_unreadable_stays(tweets, count, (total - 1) as nat);
    }
}

/// The instant an identifier maps to, from the tweets' instants.
fn lookup_instant(
    tweets: &[Tweet],
    by_id: &Vec<usize>,
    instants: &Vec<(i64, u32)>,
    id: &str,
) -> (instant: (i64, u32))
    requires
        crate::sort::is_sorted_order(
            by_id@,
            crate::sort::key_order(id_keys(tweets.deep_view())),
            tweets.deep_view().len(),
        ),
        crate::sort::strict_total_on(
            crate::sort::key_order(id_keys(tweets.deep_view())),
            tweets.deep_view().len(),
        ),
        instants@.len() == tweets.deep_view().len(),
        forall|k: int|
            0 <= k < instants@.len() ==> archive_instant(tweets.deep_view()[k].created_at) == Some(
                #[trigger] instants@[k],
            ),
    ensures
        instant == instant_of_id(tweets.deep_view(), id@),
{
    match lookup_tweet_by_id(tweets, by_id, id) {
        Some(owner) => {
            proof {
                crate::processing::reply_threads::lemma_tweet_by_id_in_range(tweets.deep_view(), id@);
            }
            instants[owner]
        },
        None => (0, 0),
    }
}

/// A thread's tweets in instant order, keeping their order among equal instants.
fn sort_grouped_tweet_instants(
    tweets: &[Tweet],
    by_id: &Vec<usize>,
    instants: &Vec<(i64, u32)>,
    thread: &Vec<Tweet>,
) -> (sorted: Vec<Tweet>)
    requires
        crate::sort::is_sorted_order(
            by_id@,
            crate::sort::key_order(id_keys(tweets.deep_view())),
            tweets.deep_view().len(),
        ),
        crate::sort::strict_total_on(
            crate::sort::key_order(id_keys(tweets.deep_view())),
            tweets.deep_view().len(),
        ),
        instants@.len() == tweets.deep_view().len(),
        forall|k: int|
            0 <= k < instants@.len() ==> archive_instant(tweets.deep_view()[k].created_at) == Some(
                #[trigger] instants@[k],
            ),
    ensures
        sorted.deep_view() == instant_sorted(tweets.deep_view(), thread.deep_view()),
{
    let ghost model = tweets.deep_view();
    let ghost members = thread.deep_view();
    let mut keys: Vec<(i64, u32)> = Vec::new();
    let mut k: usize = 0;
    while k < thread.len()
        invariant
            model == tweets.deep_view(),
            members == thread.deep_view(),
            members.len() == thread@.len(),
            crate::sort::is_sorted_order(by_id@, crate::sort::key_order(id_keys(model)), model.len()),
            crate::sort::strict_total_on(crate::sort::key_order(id_keys(model)), model.len()),
            instants@.len() == model.len(),
            forall|j: int| 0 <= j < instants@.len() ==> archive_instant(model[j].created_at) == Some(#[trigger] instants@[j]),
            k <= thread@.len(),
            keys@.len() == k,
            forall|j: int| 0 <= j < k ==> #[trigger] keys@[j] == instant_of_id(model, members[j].id_str),
        decreases thread@.len() - k,
    {
        proof {
            assert(members[k as int] == thread@[k as int]@);
        }
        let key = lookup_instant(tweets, by_id, instants, thread[k].id_str.as_str());
        keys.push(key);
        k = k + 1;
    }
    proof {
        assert(keys@ =~= instant_keys(model, members));
    }
    let order = sorted_by_instant_key(&keys, false);
    let mut sorted: Vec<Tweet> = Vec::new();
    let mut j: usize = 0;
    while j < order.len()
        invariant
            members == thread.deep_view(),
            members.len() == thread@.len(),
            keys@ == instant_keys(model, members),
            order@ == stable_order(instant_order(keys@), keys@.len()),
            order@.len() == members.len(),
            forall|i: int| 0 <= i < order@.len() ==> (#[trigger] order@[i]) < members.len(),
            j <= order@.len(),
            sorted@.len() == j,
            forall|i: int| 0 <= i < j ==> (#[trigger] sorted@[i])@ == members[order@[i] as int],
        decreases order@.len() - j,
    {
        proof {
            assert(members[order@[j as int] as int] == thread@[order@[j as int] as int]@);
        }
        sorted.push(thread[order[j]].clone());
        j = j + 1;
    }
    proof {
        assert(sorted.deep_view() =~= instant_sorted(model, members));
    }
    sorted
}

/// Builds the thread model of a non-empty list of tweets, summing the counts that parse.
pub(crate) fn convert_thread_model(tweets: Vec<Tweet>) -> (thread: Thread)
    requires
        tweets@.len() > 0,
        parsed_total(favorite_texts(tweets.deep_view()), tweets@.len()) <= u32::MAX,
        parsed_total(retweet_texts(tweets.deep_view()), tweets@.len()) <= u32::MAX,
    ensures
        thread@ == thread_model_of(tweets.deep_view()),
{
    let ghost model = tweets.deep_view();
    let mut favorite_count: u32 = 0;
    let mut retweet_count: u32 = 0;
    let mut k: usize = 0;
    while k < tweets.len()
        invariant
            model == tweets.deep_view(),
            model.len() == tweets@.len(),
            parsed_total(favorite_texts(model), model.len()) <= u32::MAX,
            parsed_total(retweet_texts(model), model.len()) <= u32::MAX,
            k <= tweets@.len(),
            favorite_count == parsed_total(favorite_texts(model), k as nat),
            retweet_count == parsed_total(retweet_texts(model), k as nat),
        decreases tweets@.len() - k,
    {
        proof {
            assert(model[k as int] == tweets@[k as int]@);
            lemma_parsed_total_monotonic(favorite_texts(model), (k + 1) as nat, model.len());
            lemma_parsed_total_monotonic(retweet_texts(model), (k + 1) as nat, model.len());
        }
        match parse_u32(tweets[k].favorite_count.as_str()) {
            Some(v) => {
                favorite_count = favorite_count + v;
            },
            None => {},
        }
        match parse_u32(tweets[k].retweet_count.as_str()) {
            Some(v) => {
                retweet_count = retweet_count + v;
            },
            None => {},
        }
        k = k + 1;
    }
    let id = tweets[0].id_str.clone();
    let tweet_count = tweets.len();
    proof {
        assert(model[0] == tweets@[0]@);
    }
    Thread { id, tweets, tweet_count, favorite_count, retweet_count }
}

/// Whether both count sums of some tweets fit in a `u32`.
pub(crate) fn parsed_totals_fit(tweets: &Vec<Tweet>) -> (fits: bool)
    ensures
        fits == (parsed_total(favorite_texts(tweets.deep_view()), tweets@.len()) <= u32::MAX
            && parsed_total(retweet_texts(tweets.deep_view()), tweets@.len()) <= u32::MAX),
{
    let ghost model = tweets.deep_view();
    let mut favorite_count: u32 = 0;
    let mut retweet_count: u32 = 0;
    let mut k: usize = 0;
    while k < tweets.len()
        invariant
            model == tweets.deep_view(),
            model.len() == tweets@.len(),
            k <= tweets@.len(),
            favorite_count == parsed_total(favorite_texts(model), k as nat),
            retweet_count == parsed_total(retweet_texts(model), k as nat),
        decreases tweets@.len() - k,
    {
        proof {
            assert(model[k as int] == tweets@[k as int]@);
        }
        let favorite = match parse_u32(tweets[k].favorite_count.as_str()) {
            Some(v) => v,
            None => 0,
        };
        let retweet = match parse_u32(tweets[k].retweet_count.as_str()) {
            Some(v) => v,
            None => 0,
        };
        match favorite_count.checked_add(favorite) {
            Some(total) => {
                favorite_count = total;
            },
            None => {
                proof {
                    lemma_parsed_total_monotonic(favorite_texts(model), (k + 1) as nat, model.len());
                }
                return false;
            },
        }
        match retweet_count.checked_add(retweet) {
            Some(total) => {
                retweet_count = total;
            },
            None => {
                proof {
                    lemma_parsed_total_monotonic(retweet_texts(model), (k + 1) as nat, model.len());
                }
                return false;
            },
        }
        k = k + 1;
    }
    true
}

/// Sums over longer prefixes are no smaller.
proof fn lemma_parsed_total_monotonic(texts: Seq<Seq<char>>, a: nat, b: nat)
    requires
        a <= b,
    ensures
        parsed_total(texts, a) <= parsed_total(texts, b),
    decreases b - a,
{
    if a < b {
        lemma_parsed_total_monotonic(texts, a, (b - 1) as nat);
    }
}

/// No more tweets are kept than there are wrappers.
proof fn lemma_kept_tweets_len(wrapped: Seq<TweetModel>, count: nat)
    ensures
        kept_tweets(wrapped, count).len() <= count,
    decreases count,
{
    if count > 0 {
        lemma_kept_tweets_len(wrapped, (count - 1) as nat);
    }
}

/// Prepares decoded archive wrappers for export: drops retweets, checks every timestamp,
/// reconstructs the reply threads, orders each thread's tweets by instant and the threads
/// newest first.
pub fn prepare_archive_thread_data(wrappers: Vec<TweetWrapper>) -> (result: Result<
    PreparedThreadExportData,
    ThreadExportFailure,
>)
    requires
        ({
            let kept = kept_tweets(wrapped_tweets(wrappers@), wrappers@.len());
            first_unreadable_timestamp(kept, kept.len()) is None ==> replies_acyclic(kept)
                && thread_counts_fit(kept)
        }),
    ensures
        ({
            let kept = kept_tweets(wrapped_tweets(wrappers@), wrappers@.len());
            match result {
                Ok(data) => {
                    &&& first_unreadable_timestamp(kept, kept.len()) is None
                    &&& data.spec_threads() == archive_threads(kept)
                    &&& data.spec_source_tweet_count() == wrappers@.len()
                    &&& data.spec_excluded_retweet_count() == wrappers@.len() - kept.len()
                },
                Err(f) => first_unreadable_timestamp(kept, kept.len()) matches Some(k)
                    && f matches ThreadExportFailure::InvalidTimestamp { tweet_id, value }
                    && tweet_id@ == kept[k as int].id_str && value@ == kept[k as int].created_at,
            }
        }),
{
    let source_tweet_count = wrappers.len();
    let tweets = kept_tweets_of(&wrappers);
    let ghost kept = tweets.deep_view();
    proof {
        lemma_kept_tweets_len(wrapped_tweets(wrappers@), wrappers@.len());
    }
    let excluded_retweet_count = source_tweet_count - tweets.len();
    let slice = tweets.as_slice();
    proof {
        assert(slice.deep_view() =~= kept);
    }
    let instants = match validate_all_tweet_timestamps(slice) {
        Ok(instants) => instants,
        Err(f) => {
            return Err(f);
        },
    };
    proof {
        crate::processing::reply_threads::lemma_reply_threads_nonempty(kept);
    }
    let grouped = process_reply_threads(slice, "");
    let by_id = positions_by_id(slice);
    let ghost sorted_model = instant_sorted_threads(kept);
    let mut models: Vec<Thread> = Vec::new();
    let mut g: usize = 0;
    while g < grouped.len()
        invariant
            kept == slice.deep_view(),
            kept.len() == slice@.len(),
            thread_counts_fit(kept),
            grouped.deep_view() == reply_threads(kept),
            forall|h: int| 0 <= h < reply_threads(kept).len() ==> (#[trigger] reply_threads(kept)[h]).len() > 0,
            sorted_model == instant_sorted_threads(kept),
            crate::sort::is_sorted_order(by_id@, crate::sort::key_order(id_keys(kept)), kept.len()),
            crate::sort::strict_total_on(crate::sort::key_order(id_keys(kept)), kept.len()),
            instants@.len() == kept.len(),
            forall|j: int| 0 <= j < instants@.len() ==> archive_instant(kept[j].created_at) == Some(#[trigger] instants@[j]),
            g <= grouped@.len(),
            models@.len() == g,
            forall|h: int| 0 <= h < g ==> (#[trigger] models@[h])@ == thread_model_of(sorted_model[h]),
        decreases grouped@.len() - g,
    {
        proof {
            assert(grouped.deep_view()[g as int] == grouped@[g as int].deep_view());
            assert(sorted_model[g as int] == instant_sorted(kept, reply_threads(kept)[g as int]));
        }
        let sorted = sort_grouped_tweet_instants(slice, &by_id, &instants, &grouped[g]);
        proof {
            assert(sorted.deep_view() == sorted_model[g as int]);
            assert(sorted_model[g as int].len() == reply_threads(kept)[g as int].len());
            assert(thread_counts_fit(kept));
            let thread = instant_sorted_threads(kept)[g as int];
            assert(parsed_total(favorite_texts(thread), thread.len()) <= u32::MAX);
        }
        let model = convert_thread_model(sorted);
        models.push(model);
        g = g + 1;
    }
    let mut keys: Vec<(i64, u32)> = Vec::new();
    let mut h: usize = 0;
    while h < models.len()
        invariant
            kept == slice.deep_view(),
            kept.len() == slice@.len(),
            sorted_model == instant_sorted_threads(kept),
            sorted_model.len() == models@.len(),
            forall|i: int| 0 <= i < models@.len() ==> (#[trigger] models@[i])@ == thread_model_of(sorted_model[i]),
            crate::sort::is_sorted_order(by_id@, crate::sort::key_order(id_keys(kept)), kept.len()),
            crate::sort::strict_total_on(crate::sort::key_order(id_keys(kept)), kept.len()),
            instants@.len() == kept.len(),
            forall|j: int| 0 <= j < instants@.len() ==> archive_instant(kept[j].created_at) == Some(#[trigger] instants@[j]),
            h <= models@.len(),
            keys@.len() == h,
            forall|i: int| 0 <= i < h ==> #[trigger] keys@[i] == instant_of_id(kept, sorted_model[i][0].id_str),
        decreases models@.len() - h,
    {
        let key = lookup_instant(slice, &by_id, &instants, models[h].id.as_str());
        keys.push(key);
        h = h + 1;
    }
    proof {
        assert(keys@ =~= thread_instant_keys(kept, sorted_model));
    }
    let order = sorted_by_instant_key(&keys, true);
    let mut threads: Vec<Thread> = Vec::new();
    let mut k: usize = 0;
    while k < order.len()
        invariant
            sorted_model.len() == models@.len(),
            forall|i: int| 0 <= i < models@.len() ==> (#[trigger] models@[i])@ == thread_model_of(sorted_model[i]),
            order@ == stable_order(instant_order_desc(thread_instant_keys(kept, sorted_model)), sorted_model.len()),
            order@.len() == models@.len(),
            forall|i: int| 0 <= i < order@.len() ==> (#[trigger] order@[i]) < models@.len(),
            k <= order@.len(),
            threads@.len() == k,
            forall|i: int| 0 <= i < k ==> (#[trigger] threads@[i])@ == thread_model_of(sorted_model[order@[i] as int]),
        decreases order@.len() - k,
    {
        threads.push(models[order[k]].clone());
        k = k + 1;
    }
    proof {
        assert(threads.deep_view() =~= archive_threads(kept));
    }
    Ok(PreparedThreadExportData::from_parts(threads, source_tweet_count, excluded_retweet_count))
}

/// Whether every reply thread of some tweets with readable timestamps, in instant order, has
/// favorite and retweet sums that fit in a `u32`.
fn thread_counts_fit_in(tweets: &[Tweet], instants: &Vec<(i64, u32)>) -> (fits: bool)
    requires
        replies_acyclic(tweets.deep_view()),
        instants@.len() == tweets.deep_view().len(),
        forall|k: int|
            0 <= k < instants@.len() ==> archive_instant(tweets.deep_view()[k].created_at) == Some(
                #[trigger] instants@[k],
            ),
    ensures
        fits == thread_counts_fit(tweets.deep_view()),
{
    let ghost kept = tweets.deep_view();
    let grouped = process_reply_threads(tweets, "");
    let by_id = positions_by_id(tweets);
    let ghost sorted_model = instant_sorted_threads(kept);
    let mut g: usize = 0;
    while g < grouped.len()
        invariant
            kept == tweets.deep_view(),
            kept.len() == tweets@.len(),
            grouped.deep_view() == reply_threads(kept),
            sorted_model == instant_sorted_threads(kept),
            crate::sort::is_sorted_order(by_id@, crate::sort::key_order(id_keys(kept)), kept.len()),
            crate::sort::strict_total_on(crate::sort::key_order(id_keys(kept)), kept.len()),
            instants@.len() == kept.len(),
            forall|j: int| 0 <= j < instants@.len() ==> archive_instant(kept[j].created_at) == Some(#[trigger] instants@[j]),
            g <= grouped@.len(),
            forall|h: int|
                0 <= h < g ==> {
                    let thread = #[trigger] sorted_model[h];
                    &&& parsed_total(favorite_texts(thread), thread.len()) <= u32::MAX
                    &&& parsed_total(retweet_texts(thread), thread.len()) <= u32::MAX
                },
        decreases grouped@.len() - g,
    {
        proof {
            assert(grouped.deep_view()[g as int] == grouped@[g as int].deep_view());
            assert(sorted_model[g as int] == instant_sorted(kept, reply_threads(kept)[g as int]));
        }
        let sorted = sort_grouped_tweet_instants(tweets, &by_id, &instants, &grouped[g]);
        if !parsed_totals_fit(&sorted) {
            proof {
                assert(sorted.deep_view() == sorted_model[g as int]);
                assert(!thread_counts_fit(kept)) by {
                    let thread = instant_sorted_threads(kept)[g as int];
                    assert(thread == sorted.deep_view());
                    assert(sorted.deep_view().len() == sorted@.len());
                }
            }
            return false;
        }
        proof {
            assert(sorted.deep_view() == sorted_model[g as int]);
            assert(sorted.deep_view().len() == sorted@.len());
        }
        g = g + 1;
    }
    proof {
        assert forall|h: int| 0 <= h < instant_sorted_threads(kept).len() implies {
            let thread = #[trigger] instant_sorted_threads(kept)[h];
            &&& parsed_total(favorite_texts(thread), thread.len()) <= u32::MAX
            &&& parsed_total(retweet_texts(thread), thread.len()) <= u32::MAX
        } by {
            assert(sorted_model[h] == instant_sorted_threads(kept)[h]);
        }
    }
    true
}

/// Prepares decoded archive wrappers as [`prepare_archive_thread_data`] does, or gives `None`
/// when the timestamps read but a chain of replies loops or a thread's count sums leave `u32`.
pub fn try_prepare_archive_thread_data(wrappers: Vec<TweetWrapper>) -> (result: Option<
    Result<PreparedThreadExportData, ThreadExportFailure>,
>)
    ensures
        ({
            let kept = kept_tweets(wrapped_tweets(wrappers@), wrappers@.len());
            match result {
                None => first_unreadable_timestamp(kept, kept.len()) is None && !(replies_acyclic(
                    kept,
                ) && thread_counts_fit(kept)),
                Some(Ok(data)) => {
                    &&& first_unreadable_timestamp(kept, kept.len()) is None
                    &&& data.spec_threads() == archive_threads(kept)
                    &&& data.spec_source_tweet_count() == wrappers@.len()
                    &&& data.spec_excluded_retweet_count() == wrappers@.len() - kept.len()
                },
                Some(Err(f)) => first_unreadable_timestamp(kept, kept.len()) matches Some(k)
                    && f matches ThreadExportFailure::InvalidTimestamp { tweet_id, value }
                    && tweet_id@ == kept[k as int].id_str && value@ == kept[k as int].created_at,
            }
        }),
{
    let tweets = kept_tweets_of(&wrappers);
    let slice = tweets.as_slice();
    proof {
        assert(slice.deep_view() =~= tweets.deep_view());
    }
    match validate_all_tweet_timestamps(slice) {
        Err(_) => Some(prepare_archive_thread_data(wrappers)),
        Ok(instants) => {
            if !reply_chains_end(slice) {
                return None;
            }
            if !thread_counts_fit_in(slice, &instants) {
                return None;
            }
            Some(prepare_archive_thread_data(wrappers))
        },
    }
}

/// The prepared threads read in time order: each thread lists its tweets from the earliest
/// instant to the latest, and the threads come newest first by their first tweet's instant
/// (each tweet's instant being that of the tweet its identifier looks up).
pub proof fn lemma_archive_threads_chronological(tweets: Seq<TweetModel>)
    requires
        tweets.len() <= usize::MAX,
    ensures
        forall|g: int, a: int, b: int|
            0 <= g < archive_threads(tweets).len() && 0 <= a < b < archive_threads(tweets)[g].tweets.len()
                ==> !crate::sort::instant_less(
                instant_of_id(tweets, (#[trigger] archive_threads(tweets)[g].tweets[b]).id_str),
                instant_of_id(tweets, (#[trigger] archive_threads(tweets)[g].tweets[a]).id_str),
            ),
        forall|g: int, h: int|
            0 <= g < h < archive_threads(tweets).len() ==> archive_threads(tweets)[g].tweets.len() > 0
                && !crate::sort::instant_less(
                instant_of_id(tweets, (#[trigger] archive_threads(tweets)[g]).tweets[0].id_str),
                instant_of_id(tweets, (#[trigger] archive_threads(tweets)[h]).tweets[0].id_str),
            ),
{
    let grouped = reply_threads(tweets);
    let sorted = instant_sorted_threads(tweets);
    let outer_keys = thread_instant_keys(tweets, sorted);
    let outer = stable_order(instant_order_desc(outer_keys), sorted.len());
    let threads = archive_threads(tweets);
    crate::processing::reply_threads::lemma_reply_threads_nonempty(tweets);
    crate::processing::reply_threads::lemma_reply_threads_bounded(tweets);
    crate::sort::lemma_instant_order_total(outer_keys);
    crate::sort::lemma_stable_order_facts(instant_order_desc(outer_keys), sorted.len());
    assert forall|g: int, a: int, b: int|
        0 <= g < threads.len() && 0 <= a < b < threads[g].tweets.len() implies !crate::sort::instant_less(
            instant_of_id(tweets, (#[trigger] threads[g].tweets[b]).id_str),
            instant_of_id(tweets, (#[trigger] threads[g].tweets[a]).id_str),
        ) by {
        let i = outer[g] as int;
        let group = grouped[i];
        let keys = instant_keys(tweets, group);
        crate::sort::lemma_instant_order_total(keys);
        crate::sort::lemma_stable_order_facts(instant_order(keys), group.len());
        let inner = stable_order(instant_order(keys), group.len());
        assert(threads[g].tweets == sorted[i]);
        assert(sorted[i] == instant_sorted(tweets, group));
        assert(threads[g].tweets[a] == group[inner[a] as int]);
        assert(threads[g].tweets[b] == group[inner[b] as int]);
        assert(instant_order(keys)(inner[a] as nat, inner[b] as nat));
    }
    assert forall|g: int, h: int| 0 <= g < h < threads.len() implies threads[g].tweets.len() > 0
        && !crate::sort::instant_less(
        instant_of_id(tweets, (#[trigger] threads[g]).tweets[0].id_str),
        instant_of_id(tweets, (#[trigger] threads[h]).tweets[0].id_str),
    ) by {
        let i = outer[g] as int;
        let j = outer[h] as int;
        assert(threads[g].tweets == sorted[i]);
        assert(threads[h].tweets == sorted[j]);
        assert(sorted[i].len() == grouped[i].len());
        assert(instant_order_desc(outer_keys)(outer[g] as nat, outer[h] as nat));
    }
}

} // verus!
