//! Per-tweet CSV records enriched with their thread context.

use vstd::prelude::*;

use crate::processing::data_structures::{Thread, ThreadModel, Tweet, TweetModel};
use crate::utils::tweet_classifier::{
    classify_tweet_type, create_reply_context, generate_twitter_url, reply_context_of,
    tweet_type_label, tweet_type_name, tweet_type_of, twitter_url_of,
};

verus! {

/// CSV record of one tweet with its thread context.
#[derive(Debug)]
pub struct CsvRecord {
    /// Identifier of the tweet.
    pub tweet_id: String,
    /// Full text of the tweet.
    pub tweet_text: String,
    /// Type of tweet (Original, ReplyToUser, ReplyToOthers).
    pub tweet_type: String,
    /// Creation timestamp of the tweet.
    pub created_at: String,
    /// Number of favorites of the tweet.
    pub favorite_count: String,
    /// Number of retweets of the tweet.
    pub retweet_count: String,
    /// Identifier of the thread the tweet belongs to.
    pub thread_id: String,
    /// Position of the tweet in its thread (1-based).
    pub thread_position: usize,
    /// Number of tweets in the thread.
    pub thread_tweet_count: usize,
    /// Favorites across the thread.
    pub thread_favorite_count: u32,
    /// Retweets across the thread.
    pub thread_retweet_count: u32,
    /// URL of the tweet.
    pub twitter_url: String,
    /// What the tweet replies to, or empty.
    pub reply_context: String,
    /// Language code of the tweet.
    pub lang: String,
    /// Source application of the tweet.
    pub source: String,
}

/// Abstract value of a [`CsvRecord`].
#[verifier::ext_equal]
pub struct CsvRecordModel {
    pub tweet_id: Seq<char>,
    pub tweet_text: Seq<char>,
    pub tweet_type: Seq<char>,
    pub created_at: Seq<char>,
    pub favorite_count: Seq<char>,
    pub retweet_count: Seq<char>,
    pub thread_id: Seq<char>,
    pub thread_position: nat,
    pub thread_tweet_count: nat,
    pub thread_favorite_count: nat,
    pub thread_retweet_count: nat,
    pub twitter_url: Seq<char>,
    pub reply_context: Seq<char>,
    pub lang: Seq<char>,
    pub source: Seq<char>,
}

impl DeepView for CsvRecord {
    type V = CsvRecordModel;

    open spec fn deep_view(&self) -> CsvRecordModel {
        CsvRecordModel {
            tweet_id: self.tweet_id@,
            tweet_text: self.tweet_text@,
            tweet_type: self.tweet_type@,
            created_at: self.created_at@,
            favorite_count: self.favorite_count@,
            retweet_count: self.retweet_count@,
            thread_id: self.thread_id@,
            thread_position: self.thread_position as nat,
            thread_tweet_count: self.thread_tweet_count as nat,
            thread_favorite_count: self.thread_favorite_count as nat,
            thread_retweet_count: self.thread_retweet_count as nat,
            twitter_url: self.twitter_url@,
            reply_context: self.reply_context@,
            lang: self.lang@,
            source: self.source@,
        }
    }
}

impl View for CsvRecord {
    type V = CsvRecordModel;

    open spec fn view(&self) -> CsvRecordModel {
        self.deep_view()
    }
}

/// The record written for `tweet` at 1-based `position` of `thread`.
pub open spec fn csv_record_of(
    tweet: TweetModel,
    thread: ThreadModel,
    screen_name: Seq<char>,
    position: nat,
) -> CsvRecordModel {
    CsvRecordModel {
        tweet_id: tweet.id_str,
        tweet_text: tweet.full_text,
        tweet_type: tweet_type_label(tweet_type_of(tweet, screen_name)),
        created_at: tweet.created_at,
        favorite_count: tweet.favorite_count,
        retweet_count: tweet.retweet_count,
        thread_id: thread.id,
        thread_position: position,
        thread_tweet_count: thread.tweet_count,
        thread_favorite_count: thread.favorite_count,
        thread_retweet_count: thread.retweet_count,
        twitter_url: twitter_url_of(tweet, screen_name),
        reply_context: match reply_context_of(tweet) {
            Some(c) => c,
            None => Seq::empty(),
        },
        lang: tweet.lang,
        source: tweet.source,
    }
}

/// The records of every tweet of a thread, positions counted from 1.
pub open spec fn thread_records(thread: ThreadModel, screen_name: Seq<char>) -> Seq<CsvRecordModel> {
    Seq::new(
        thread.tweets.len(),
        |i: int| csv_record_of(thread.tweets[i], thread, screen_name, (i + 1) as nat),
    )
}

impl CsvRecord {
    /// Create a CSV record from a tweet and its thread context.
    pub fn from_tweet_and_thread(
        tweet: &Tweet,
        thread: &Thread,
        screen_name: &str,
        position: usize,
    ) -> (record: Self)
        ensures
            record@ == csv_record_of(tweet@, thread@, screen_name@, position as nat),
    {
        let tweet_type = classify_tweet_type(tweet, screen_name);
        let twitter_url = generate_twitter_url(tweet, screen_name);
        let reply_context = match create_reply_context(tweet) {
            Some(c) => c,
            None => String::new(),
        };
        CsvRecord {
            tweet_id: tweet.id_str.clone(),
            tweet_text: tweet.full_text.clone(),
            tweet_type: tweet_type_name(tweet_type),
            created_at: tweet.created_at.clone(),
            favorite_count: tweet.favorite_count.clone(),
            retweet_count: tweet.retweet_count.clone(),
            thread_id: thread.id.clone(),
            thread_position: position,
            thread_tweet_count: thread.tweet_count,
            thread_favorite_count: thread.favorite_count,
            thread_retweet_count: thread.retweet_count,
            twitter_url,
            reply_context,
            lang: tweet.lang.clone(),
            source: tweet.source.clone(),
        }
    }
}

/// Buffers the CSV records of threads until the application writes them out.
pub struct EnhancedCsvWriter {
    output_path: String,
    records: Vec<CsvRecord>,
}

impl EnhancedCsvWriter {
    /// The destination path of the CSV file.
    pub closed spec fn spec_output_path(&self) -> Seq<char> {
        self.output_path@
    }

    /// The buffered records, in write order.
    pub closed spec fn spec_records(&self) -> Seq<CsvRecordModel> {
        self.records.deep_view()
    }

    /// Create a writer for the given output path with no records.
    pub fn new(output_path: &str) -> (w: Self)
        ensures
            w.spec_output_path() == output_path@,
            w.spec_records() == Seq::<CsvRecordModel>::empty(),
    {
        let w = EnhancedCsvWriter { output_path: output_path.to_owned(), records: Vec::new() };
        assert(w.records.deep_view() =~= Seq::<CsvRecordModel>::empty());
        w
    }

    /// Buffer one record for every tweet of the thread, in thread order.
    pub fn write_thread(&mut self, thread: &Thread, screen_name: &str)
        ensures
            final(self).spec_output_path() == old(self).spec_output_path(),
            final(self).spec_records() == old(self).spec_records() + thread_records(
                thread@,
                screen_name@,
            ),
    {
        let ghost start = self.records.deep_view();
        let n = thread.tweets.len();
        let mut position: usize = 0;
        while position < n
            invariant
                n == thread.tweets@.len(),
                position <= n,
                self.output_path@ == old(self).output_path@,
                self.records.deep_view() =~= start + thread_records(thread@, screen_name@).take(
                    position as int,
                ),
            decreases n - position,
        {
            let record = CsvRecord::from_tweet_and_thread(
                &thread.tweets[position],
                thread,
                screen_name,
                position + 1,
            );
            proof {
                assert(thread@.tweets[position as int] == thread.tweets[position as int]@);
                assert(thread_records(thread@, screen_name@)[position as int] == record@);
                assert(thread_records(thread@, screen_name@).take(position + 1) =~= thread_records(
                    thread@,
                    screen_name@,
                ).take(position as int).push(record@));
            }
            let ghost before = self.records.deep_view();
            let ghost record_view = record@;
            self.records.push(record);
            assert(self.records.deep_view() =~= before.push(record_view));
            position = position + 1;
        }
        assert(thread_records(thread@, screen_name@).take(n as int) =~= thread_records(
            thread@,
            screen_name@,
        ));
    }

    /// The destination path of the CSV file.
    pub fn output_path(&self) -> (p: &str)
        ensures
            p@ == self.spec_output_path(),
    {
        self.output_path.as_str()
    }

    /// Hands the buffered records to the caller for writing.
    pub fn into_records(self) -> (records: Vec<CsvRecord>)
        ensures
            records.deep_view() == self.spec_records(),
    {
        self.records
    }
}

} // verus!
