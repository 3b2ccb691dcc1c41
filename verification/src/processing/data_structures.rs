//! Core data structures for tweet and DM processing.

use vstd::prelude::*;

verus! {

/// A tweet from the Twitter archive.
#[derive(Debug)]
pub struct Tweet {
    /// Twitter's string representation of the tweet ID.
    pub id_str: String,
    /// Numeric tweet ID.
    pub id: String,
    /// Full text content of the tweet.
    pub full_text: String,
    /// Creation timestamp in Twitter's format.
    pub created_at: String,
    /// Number of favorites/likes as a string.
    pub favorite_count: String,
    /// Number of retweets as a string.
    pub retweet_count: String,
    /// Whether this entry is a retweet by the archive owner.
    pub retweeted: bool,
    /// Whether this tweet has been favorited by the archive owner.
    pub favorited: bool,
    /// Whether the tweet was truncated in the original response.
    pub truncated: bool,
    /// Language code of the tweet.
    pub lang: String,
    /// Source application used to post the tweet.
    pub source: String,
    /// Display range indices for the tweet text.
    pub display_text_range: Vec<String>,
    /// ID of the tweet being replied to.
    pub in_reply_to_status_id: Option<String>,
    /// String representation of the tweet being replied to.
    pub in_reply_to_status_id_str: Option<String>,
    /// ID of the user being replied to.
    pub in_reply_to_user_id: Option<String>,
    /// String representation of the user ID being replied to.
    pub in_reply_to_user_id_str: Option<String>,
    /// Screen name of the user being replied to.
    pub in_reply_to_screen_name: Option<String>,
    /// Edit information (missing in older tweets).
    pub edit_info: Option<EditInfo>,
    /// Mentions, hashtags, symbols and URLs of the tweet.
    pub entities: TweetEntities,
    /// Whether the tweet contains sensitive content.
    pub possibly_sensitive: Option<bool>,
}

/// Edit information for tweets.
#[derive(Debug, Default)]
pub struct EditInfo {
    /// Initial edit information for the tweet.
    pub initial: Option<EditInitial>,
}

/// Initial edit information.
#[derive(Debug, Default)]
pub struct EditInitial {
    /// IDs of tweets in the edit history.
    pub edit_tweet_ids: Vec<String>,
    /// Timestamp until which the tweet can be edited.
    pub editable_until: String,
    /// Number of edits remaining for this tweet.
    pub edits_remaining: String,
    /// Whether the tweet is eligible for editing.
    pub is_edit_eligible: bool,
}

/// Tweet entities (mentions, hashtags, etc.).
#[derive(Debug, Default)]
pub struct TweetEntities {
    /// Hashtags in the tweet.
    pub hashtags: Vec<Hashtag>,
    /// Symbols (cashtags) in the tweet.
    pub symbols: Vec<Symbol>,
    /// Users mentioned in the tweet.
    pub user_mentions: Vec<UserMention>,
    /// URLs included in the tweet.
    pub urls: Vec<TweetUrl>,
}

/// Hashtag in a tweet.
#[derive(Debug, Default)]
pub struct Hashtag {
    /// Text of the hashtag without the `#`.
    pub text: String,
    /// Position indices in the tweet text.
    pub indices: Vec<String>,
}

/// Symbol (cashtag) in a tweet.
#[derive(Debug, Default)]
pub struct Symbol {
    /// Text of the symbol without the `$`.
    pub text: String,
    /// Position indices in the tweet text.
    pub indices: Vec<String>,
}

/// User mention in a tweet.
#[derive(Debug, Default)]
pub struct UserMention {
    /// Display name of the mentioned user.
    pub name: String,
    /// Screen name (handle) of the mentioned user.
    pub screen_name: String,
    /// Position indices in the tweet text.
    pub indices: Vec<String>,
    /// String representation of the mentioned user's ID.
    pub id_str: String,
    /// Numeric ID of the mentioned user.
    pub id: String,
}

/// URL in a tweet.
#[derive(Debug, Default)]
pub struct TweetUrl {
    /// Shortened URL as it appears in the tweet.
    pub url: String,
    /// Full expanded URL.
    pub expanded_url: String,
    /// Display version of the URL.
    pub display_url: String,
    /// Position indices in the tweet text.
    pub indices: Vec<String>,
}

/// Wrapper for one tweet entry of the archive's JSON array.
#[derive(Debug)]
pub struct TweetWrapper {
    /// The tweet data.
    pub tweet: Tweet,
}

/// A reconstructed conversation thread.
#[derive(Debug)]
pub struct Thread {
    /// Identifier of the thread (its first tweet's ID).
    pub id: String,
    /// Tweets of the thread in chronological order.
    pub tweets: Vec<Tweet>,
    /// Number of tweets in the thread.
    pub tweet_count: usize,
    /// Sum of the parseable favorite counts of the thread's tweets.
    pub favorite_count: u32,
    /// Sum of the parseable retweet counts of the thread's tweets.
    pub retweet_count: u32,
}

/// A processed DM conversation.
#[derive(Debug)]
pub struct ProcessedConversation {
    /// Identifier of the DM conversation.
    pub conversation_id: String,
    /// Number of messages in the conversation.
    pub message_count: u32,
    /// Participants of the conversation.
    pub participants: Vec<String>,
    /// Timestamp of the first message.
    pub first_message_date: Option<String>,
    /// Timestamp of the last message.
    pub last_message_date: Option<String>,
}


/// Abstract value of a [`Hashtag`] or a [`Symbol`].
#[verifier::ext_equal]
pub struct TagModel {
    pub text: Seq<char>,
    pub indices: Seq<Seq<char>>,
}

/// Abstract value of a [`UserMention`].
#[verifier::ext_equal]
pub struct UserMentionModel {
    pub name: Seq<char>,
    pub screen_name: Seq<char>,
    pub indices: Seq<Seq<char>>,
    pub id_str: Seq<char>,
    pub id: Seq<char>,
}

/// Abstract value of a [`TweetUrl`].
#[verifier::ext_equal]
pub struct TweetUrlModel {
    pub url: Seq<char>,
    pub expanded_url: Seq<char>,
    pub display_url: Seq<char>,
    pub indices: Seq<Seq<char>>,
}

/// Abstract value of [`TweetEntities`].
#[verifier::ext_equal]
pub struct TweetEntitiesModel {
    pub hashtags: Seq<TagModel>,
    pub symbols: Seq<TagModel>,
    pub user_mentions: Seq<UserMentionModel>,
    pub urls: Seq<TweetUrlModel>,
}

/// Abstract value of an [`EditInitial`].
#[verifier::ext_equal]
pub struct EditInitialModel {
    pub edit_tweet_ids: Seq<Seq<char>>,
    pub editable_until: Seq<char>,
    pub edits_remaining: Seq<char>,
    pub is_edit_eligible: bool,
}

/// Abstract value of a [`Tweet`]: every field taken by its view.
#[verifier::ext_equal]
pub struct TweetModel {
    pub id_str: Seq<char>,
    pub id: Seq<char>,
    pub full_text: Seq<char>,
    pub created_at: Seq<char>,
    pub favorite_count: Seq<char>,
    pub retweet_count: Seq<char>,
    pub retweeted: bool,
    pub favorited: bool,
    pub truncated: bool,
    pub lang: Seq<char>,
    pub source: Seq<char>,
    pub display_text_range: Seq<Seq<char>>,
    pub in_reply_to_status_id: Option<Seq<char>>,
    pub in_reply_to_status_id_str: Option<Seq<char>>,
    pub in_reply_to_user_id: Option<Seq<char>>,
    pub in_reply_to_user_id_str: Option<Seq<char>>,
    pub in_reply_to_screen_name: Option<Seq<char>>,
    pub edit_info: Option<Option<EditInitialModel>>,
    pub entities: TweetEntitiesModel,
    pub possibly_sensitive: Option<bool>,
}

/// Abstract value of a [`Thread`].
#[verifier::ext_equal]
pub struct ThreadModel {
    pub id: Seq<char>,
    pub tweets: Seq<TweetModel>,
    pub tweet_count: nat,
    pub favorite_count: nat,
    pub retweet_count: nat,
}

impl DeepView for Hashtag {
    type V = TagModel;

    open spec fn deep_view(&self) -> TagModel {
        TagModel { text: self.text@, indices: self.indices.deep_view() }
    }
}

impl DeepView for Symbol {
    type V = TagModel;

    open spec fn deep_view(&self) -> TagModel {
        TagModel { text: self.text@, indices: self.indices.deep_view() }
    }
}

impl DeepView for UserMention {
    type V = UserMentionModel;

    open spec fn deep_view(&self) -> UserMentionModel {
        UserMentionModel {
            name: self.name@,
            screen_name: self.screen_name@,
            indices: self.indices.deep_view(),
            id_str: self.id_str@,
            id: self.id@,
        }
    }
}

impl DeepView for TweetUrl {
    type V = TweetUrlModel;

    open spec fn deep_view(&self) -> TweetUrlModel {
        TweetUrlModel {
            url: self.url@,
            expanded_url: self.expanded_url@,
            display_url: self.display_url@,
            indices: self.indices.deep_view(),
        }
    }
}

impl DeepView for TweetEntities {
    type V = TweetEntitiesModel;

    open spec fn deep_view(&self) -> TweetEntitiesModel {
        TweetEntitiesModel {
            hashtags: self.hashtags.deep_view(),
            symbols: self.symbols.deep_view(),
            user_mentions: self.user_mentions.deep_view(),
            urls: self.urls.deep_view(),
        }
    }
}

impl DeepView for EditInitial {
    type V = EditInitialModel;

    open spec fn deep_view(&self) -> EditInitialModel {
        EditInitialModel {
            edit_tweet_ids: self.edit_tweet_ids.deep_view(),
            editable_until: self.editable_until@,
            edits_remaining: self.edits_remaining@,
            is_edit_eligible: self.is_edit_eligible,
        }
    }
}

impl DeepView for EditInfo {
    type V = Option<EditInitialModel>;

    open spec fn deep_view(&self) -> Option<EditInitialModel> {
        self.initial.deep_view()
    }
}

impl DeepView for Tweet {
    type V = TweetModel;

    open spec fn deep_view(&self) -> TweetModel {
        TweetModel {
            id_str: self.id_str@,
            id: self.id@,
            full_text: self.full_text@,
            created_at: self.created_at@,
            favorite_count: self.favorite_count@,
            retweet_count: self.retweet_count@,
            retweeted: self.retweeted,
            favorited: self.favorited,
            truncated: self.truncated,
            lang: self.lang@,
            source: self.source@,
            display_text_range: self.display_text_range.deep_view(),
            in_reply_to_status_id: self.in_reply_to_status_id.deep_view(),
            in_reply_to_status_id_str: self.in_reply_to_status_id_str.deep_view(),
            in_reply_to_user_id: self.in_reply_to_user_id.deep_view(),
            in_reply_to_user_id_str: self.in_reply_to_user_id_str.deep_view(),
            in_reply_to_screen_name: self.in_reply_to_screen_name.deep_view(),
            edit_info: self.edit_info.deep_view(),
            entities: self.entities.deep_view(),
            possibly_sensitive: self.possibly_sensitive,
        }
    }
}

impl View for Tweet {
    type V = TweetModel;

    open spec fn view(&self) -> TweetModel {
        self.deep_view()
    }
}

impl DeepView for Thread {
    type V = ThreadModel;

    open spec fn deep_view(&self) -> ThreadModel {
        ThreadModel {
            id: self.id@,
            tweets: self.tweets.deep_view(),
            tweet_count: self.tweet_count as nat,
            favorite_count: self.favorite_count as nat,
            retweet_count: self.retweet_count as nat,
        }
    }
}

impl View for Thread {
    type V = ThreadModel;

    open spec fn view(&self) -> ThreadModel {
        self.deep_view()
    }
}

fn clone_strings(v: &Vec<String>) -> (res: Vec<String>)
    ensures
        res.deep_view() == v.deep_view(),
{
    let res = v.clone();
    assert(res.deep_view() =~= v.deep_view());
    res
}

fn clone_opt_string(o: &Option<String>) -> (res: Option<String>)
    ensures
        res == *o,
{
    match o {
        Some(s) => Some(s.clone()),
        None => None,
    }
}

impl Clone for Hashtag {
    fn clone(&self) -> (res: Self)
        ensures
            res.deep_view() == self.deep_view(),
    {
        Hashtag { text: self.text.clone(), indices: clone_strings(&self.indices) }
    }
}

impl Clone for Symbol {
    fn clone(&self) -> (res: Self)
        ensures
            res.deep_view() == self.deep_view(),
    {
        Symbol { text: self.text.clone(), indices: clone_strings(&self.indices) }
    }
}

impl Clone for UserMention {
    fn clone(&self) -> (res: Self)
        ensures
            res.deep_view() == self.deep_view(),
    {
        UserMention {
            name: self.name.clone(),
            screen_name: self.screen_name.clone(),
            indices: clone_strings(&self.indices),
            id_str: self.id_str.clone(),
            id: self.id.clone(),
        }
    }
}

impl Clone for TweetUrl {
    fn clone(&self) -> (res: Self)
        ensures
            res.deep_view() == self.deep_view(),
    {
        TweetUrl {
            url: self.url.clone(),
            expanded_url: self.expanded_url.clone(),
            display_url: self.display_url.clone(),
            indices: clone_strings(&self.indices),
        }
    }
}

impl Clone for TweetEntities {
    fn clone(&self) -> (res: Self)
        ensures
            res.deep_view() == self.deep_view(),
    {
        let hashtags = self.hashtags.clone();
        let symbols = self.symbols.clone();
        let user_mentions = self.user_mentions.clone();
        let urls = self.urls.clone();
        assert(hashtags.deep_view() =~= self.hashtags.deep_view());
        assert(symbols.deep_view() =~= self.symbols.deep_view());
        assert(user_mentions.deep_view() =~= self.user_mentions.deep_view());
        assert(urls.deep_view() =~= self.urls.deep_view());
        TweetEntities { hashtags, symbols, user_mentions, urls }
    }
}

impl Clone for EditInitial {
    fn clone(&self) -> (res: Self)
        ensures
            res.deep_view() == self.deep_view(),
    {
        EditInitial {
            edit_tweet_ids: clone_strings(&self.edit_tweet_ids),
            editable_until: self.editable_until.clone(),
            edits_remaining: self.edits_remaining.clone(),
            is_edit_eligible: self.is_edit_eligible,
        }
    }
}

impl Clone for EditInfo {
    fn clone(&self) -> (res: Self)
        ensures
            res.deep_view() == self.deep_view(),
    {
        let initial = match &self.initial {
            Some(i) => Some(i.clone()),
            None => None,
        };
        EditInfo { initial }
    }
}

impl Clone for Tweet {
    fn clone(&self) -> (res: Self)
        ensures
            res@ == self@,
    {
        let edit_info = match &self.edit_info {
            Some(e) => Some(e.clone()),
            None => None,
        };
        Tweet {
            id_str: self.id_str.clone(),
            id: self.id.clone(),
            full_text: self.full_text.clone(),
            created_at: self.created_at.clone(),
            favorite_count: self.favorite_count.clone(),
            retweet_count: self.retweet_count.clone(),
            retweeted: self.retweeted,
            favorited: self.favorited,
            truncated: self.truncated,
            lang: self.lang.clone(),
            source: self.source.clone(),
            display_text_range: clone_strings(&self.display_text_range),
            in_reply_to_status_id: clone_opt_string(&self.in_reply_to_status_id),
            in_reply_to_status_id_str: clone_opt_string(&self.in_reply_to_status_id_str),
            in_reply_to_user_id: clone_opt_string(&self.in_reply_to_user_id),
            in_reply_to_user_id_str: clone_opt_string(&self.in_reply_to_user_id_str),
            in_reply_to_screen_name: clone_opt_string(&self.in_reply_to_screen_name),
            edit_info,
            entities: self.entities.clone(),
            possibly_sensitive: self.possibly_sensitive,
        }
    }
}

impl Clone for TweetWrapper {
    fn clone(&self) -> (res: Self)
        ensures
            res.tweet@ == self.tweet@,
    {
        TweetWrapper { tweet: self.tweet.clone() }
    }
}

impl Clone for Thread {
    fn clone(&self) -> (res: Self)
        ensures
            res@ == self@,
    {
        let tweets = self.tweets.clone();
        assert(tweets.deep_view() =~= self.tweets.deep_view());
        Thread {
            id: self.id.clone(),
            tweets,
            tweet_count: self.tweet_count,
            favorite_count: self.favorite_count,
            retweet_count: self.retweet_count,
        }
    }
}

} // verus!
