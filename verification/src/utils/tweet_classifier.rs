//! Classification of tweets by their reply status, and the derived strings.

use vstd::prelude::*;

use crate::processing::data_structures::{Tweet, TweetModel};
use crate::text::str_equal;

verus! {

/// How a tweet relates to the conversation it belongs to.
#[derive(Debug, Clone, Copy, PartialEq, Eq)]
pub enum TweetType {
    /// Not a reply.
    Original,
    /// A reply addressed to the archive owner's screen name.
    ReplyToUser,
    /// A reply addressed to someone else.
    ReplyToOthers,
}

/// The classification of a tweet for the given screen name.
pub open spec fn tweet_type_of(tweet: TweetModel, screen_name: Seq<char>) -> TweetType {
    if tweet.in_reply_to_status_id_str is None {
        TweetType::Original
    } else if tweet.in_reply_to_screen_name == Some(screen_name) {
        TweetType::ReplyToUser
    } else {
        TweetType::ReplyToOthers
    }
}

/// The `Debug` name of a tweet type, as written into CSV records.
pub open spec fn tweet_type_label(t: TweetType) -> Seq<char> {
    match t {
        TweetType::Original => "Original"@,
        TweetType::ReplyToUser => "ReplyToUser"@,
        TweetType::ReplyToOthers => "ReplyToOthers"@,
    }
}

/// The public URL of a tweet under the given screen name.
pub open spec fn twitter_url_of(tweet: TweetModel, screen_name: Seq<char>) -> Seq<char> {
    "https://twitter.com/"@ + screen_name + "/status/"@ + tweet.id_str
}

/// The human-readable context of a reply, if the tweet is one.
pub open spec fn reply_context_of(tweet: TweetModel) -> Option<Seq<char>> {
    match tweet.in_reply_to_status_id_str {
        Some(reply_to_id) => match tweet.in_reply_to_screen_name {
            Some(user) => Some("Reply to @"@ + user + " ("@ + reply_to_id + ")"@),
            None => Some("Reply to tweet "@ + reply_to_id),
        },
        None => None,
    }
}

/// Classify a tweet based on its reply status.
pub fn classify_tweet_type(tweet: &Tweet, screen_name: &str) -> (t: TweetType)
    ensures
        t == tweet_type_of(tweet@, screen_name@),
{
    if tweet.in_reply_to_status_id_str.is_none() {
        TweetType::Original
    } else {
        match &tweet.in_reply_to_screen_name {
            Some(name) => {
                if str_equal(name.as_str(), screen_name) {
                    TweetType::ReplyToUser
                } else {
                    TweetType::ReplyToOthers
                }
            },
            None => TweetType::ReplyToOthers,
        }
    }
}

/// The `Debug` name of a tweet type.
pub fn tweet_type_name(t: TweetType) -> (s: String)
    ensures
        s@ == tweet_type_label(t),
{
    match t {
        TweetType::Original => "Original".to_owned(),
        TweetType::ReplyToUser => "ReplyToUser".to_owned(),
        TweetType::ReplyToOthers => "ReplyToOthers".to_owned(),
    }
}

/// Generate the Twitter URL of a tweet.
pub fn generate_twitter_url(tweet: &Tweet, screen_name: &str) -> (url: String)
    ensures
        url@ == twitter_url_of(tweet@, screen_name@),
{
    let mut url = "https://twitter.com/".to_owned();
    url.append(screen_name);
    url.append("/status/");
    url.append(tweet.id_str.as_str());
    url
}

/// Create the reply context string of a tweet.
pub fn create_reply_context(tweet: &Tweet) -> (context: Option<String>)
    ensures
        match context {
            Some(c) => reply_context_of(tweet@) == Some(c@),
            None => reply_context_of(tweet@) is None,
        },
{
    match &tweet.in_reply_to_status_id_str {
        Some(reply_to_id) => match &tweet.in_reply_to_screen_name {
            Some(reply_to_user) => {
                let mut s = "Reply to @".to_owned();
                s.append(reply_to_user.as_str());
                s.append(" (");
                s.append(reply_to_id.as_str());
                s.append(")");
                Some(s)
            },
            None => {
                let mut s = "Reply to tweet ".to_owned();
                s.append(reply_to_id.as_str());
                Some(s)
            },
        },
        None => None,
    }
}

} // verus!
