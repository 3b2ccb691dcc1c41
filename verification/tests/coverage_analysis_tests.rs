use tweet_scrolls::processing::coverage_analysis::{
    analyze_coverage, analyze_threading_quality, analyze_tweet_structure, coverage_summary,
    create_threads_from_tweets, extract_json_content, investigate_missing_tweets,
    threading_candidates, CoverageCounts, ThreadingQuality, TweetStructureCounts,
};
use tweet_scrolls::processing::data_structures::{
    Thread, Tweet, TweetEntities, TweetUrl, TweetWrapper, UserMention,
};

fn tweet(id: &str, minute: u32, reply_to: Option<(&str, &str)>) -> Tweet {
    Tweet {
        id_str: id.to_owned(),
        id: id.to_owned(),
        full_text: format!("text {id}"),
        created_at: format!("Mon Jan 01 12:{minute:02}:00 +0000 2024"),
        favorite_count: "1".to_owned(),
        retweet_count: "2".to_owned(),
        retweeted: false,
        favorited: false,
        truncated: false,
        lang: "en".to_owned(),
        source: "test".to_owned(),
        display_text_range: Vec::new(),
        in_reply_to_status_id: reply_to.map(|(parent, _)| parent.to_owned()),
        in_reply_to_status_id_str: reply_to.map(|(parent, _)| parent.to_owned()),
        in_reply_to_user_id: None,
        in_reply_to_user_id_str: None,
        in_reply_to_screen_name: reply_to.map(|(_, user)| user.to_owned()),
        edit_info: None,
        entities: TweetEntities::default(),
        possibly_sensitive: None,
    }
}

fn wrap(tweets: Vec<Tweet>) -> Vec<TweetWrapper> {
    tweets.into_iter().map(|tweet| TweetWrapper { tweet }).collect()
}

fn ids(threads: &[Thread]) -> Vec<Vec<String>> {
    threads.iter().map(|t| t.tweets.iter().map(|tw| tw.id_str.clone()).collect()).collect()
}

fn archive() -> Vec<TweetWrapper> {
    let mut retweet = tweet("9", 9, None);
    retweet.retweeted = true;
    let mut manual = tweet("8", 8, None);
    manual.full_text = "RT @someone: copied".to_owned();
    wrap(vec![
        tweet("1", 1, None),
        tweet("2", 2, Some(("1", "me"))),
        tweet("3", 3, Some(("2", "me"))),
        tweet("4", 4, Some(("1", "me"))),
        retweet,
        manual,
        tweet("5", 5, Some(("77", "other"))),
    ])
}

#[test]
fn retweets_and_manual_copies_are_not_threaded() {
    let kept = threading_candidates(&archive());
    assert_eq!(kept.iter().map(|t| t.id_str.as_str()).collect::<Vec<_>>(), vec!["1", "2", "3", "4", "5"]);
}

#[test]
fn chains_follow_the_walk_order() {
    let all = archive();
    let threads = create_threads_from_tweets(&all, "me", &[0, 1, 2, 3, 4]).expect("counts fit");
    // Newest first: the reply to another account (12:05) is a thread of its own.
    assert_eq!(ids(&threads), vec![vec!["5".to_string()], vec!["1".to_string(), "2".to_string(), "3".to_string()]]);
    assert_eq!(threads[1].favorite_count, 3);
    assert_eq!(threads[1].retweet_count, 6);
    assert_eq!(threads[1].tweet_count, 3);
    assert_eq!(threads[1].id, "1");

    let reversed = create_threads_from_tweets(&all, "me", &[4, 3, 2, 1, 0]).expect("counts fit");
    assert_eq!(ids(&reversed), vec![vec!["5".to_string()], vec!["1".to_string(), "4".to_string()]]);
}

#[test]
fn overflowing_thread_counts_are_reported() {
    let mut first = tweet("1", 1, None);
    first.favorite_count = "4294967295".to_owned();
    let second = tweet("2", 2, Some(("1", "me")));
    let all = wrap(vec![first, second]);
    assert!(create_threads_from_tweets(&all, "me", &[0, 1]).is_none());
}

#[test]
fn unreadable_timestamps_sort_as_the_epoch() {
    let mut old = tweet("1", 1, None);
    old.created_at = "not a date".to_owned();
    let all = wrap(vec![old, tweet("2", 2, None)]);
    let threads = create_threads_from_tweets(&all, "me", &[0, 1]).expect("counts fit");
    assert_eq!(ids(&threads), vec![vec!["2".to_string()], vec!["1".to_string()]]);
}

#[test]
fn json_content_is_cut_after_the_marker() {
    assert_eq!(
        extract_json_content("window.YTD.tweets.part0 = [{\"a\": 1}]\n"),
        Ok("[{\"a\": 1}]".to_string())
    );
    assert_eq!(
        extract_json_content("[1]"),
        Err("Could not find tweets start marker".to_string())
    );
    assert_eq!(
        extract_json_content("window.YTD.tweets.part0 = {}"),
        Err("Could not find tweets end marker".to_string())
    );
}

#[test]
fn structure_counts() {
    let mut with_url = tweet("6", 6, None);
    with_url.entities.urls.push(TweetUrl {
        url: "u".to_owned(),
        expanded_url: String::new(),
        display_url: String::new(),
        indices: Vec::new(),
    });
    with_url.edit_info = Some(Default::default());
    let mut all = archive();
    all.push(TweetWrapper { tweet: with_url });
    assert_eq!(
        analyze_tweet_structure(&all),
        TweetStructureCounts {
            original_tweets: 3,
            replies: 4,
            retweets: 1,
            has_edit_info: 1,
            has_entities: 1,
        }
    );
}

#[test]
fn coverage_and_quality_counts() {
    let all = archive();
    let threads = create_threads_from_tweets(&all, "me", &[0, 1, 2, 3, 4]).expect("counts fit");
    assert_eq!(
        analyze_coverage(&all, &threads),
        CoverageCounts { total_tweets: 7, non_retweet_count: 6, tweets_in_threads: 4 }
    );
    assert_eq!(
        analyze_threading_quality(&all, &threads),
        ThreadingQuality {
            total_threads: 2,
            single_tweet_threads: 1,
            multi_tweet_threads: 1,
            longest_thread: 3,
            total_thread_length: 4,
            reply_chains_found: 1,
        }
    );
    // Tweets 4, 8 and the retweet 9 are in no thread.
    assert_eq!(coverage_summary(&all, &threads), (4, 3));
}

#[test]
fn missing_tweets_are_sampled() {
    let mut all = archive();
    let mut mentioned = tweet("20", 20, None);
    mentioned.entities.user_mentions.push(UserMention {
        name: "x".to_owned(),
        screen_name: "x".to_owned(),
        indices: Vec::new(),
        id_str: "1".to_owned(),
        id: "1".to_owned(),
    });
    all.push(TweetWrapper { tweet: mentioned });
    let threads = create_threads_from_tweets(&all, "me", &[0, 1, 2, 3, 4]).expect("counts fit");
    let report = investigate_missing_tweets(&all, &threads);
    assert_eq!(
        report.missing.iter().map(|t| t.id_str.as_str()).collect::<Vec<_>>(),
        vec!["4", "8", "20"]
    );
    assert_eq!(report.sample_replies, 1);
    assert_eq!(report.sample_originals, 2);
    assert_eq!(report.sample_with_mentions, 1);
    assert_eq!(report.sample_with_urls, 0);
}

fn create_realistic_tweet_data() -> Vec<TweetWrapper> {
    vec![
        TweetWrapper {
            tweet: Tweet {
                id_str: "1947489885754986818".to_string(),
                id: "1947489885754986818".to_string(),
                full_text: "Via @NotebookLM whom I fed thousands of my tweets in txt format for analysis".to_string(),
                created_at: "Tue Jul 22 02:52:26 +0000 2025".to_string(),
                favorite_count: "5".to_string(),
                retweet_count: "0".to_string(),
                retweeted: false,
                favorited: false,
                truncated: false,
                lang: "en".to_string(),
                source: "<a href=\"https://mobile.twitter.com\" rel=\"nofollow\">Twitter Web App</a>".to_string(),
                display_text_range: vec!["0".to_string(), "270".to_string()],
                in_reply_to_status_id: None,
                in_reply_to_status_id_str: None,
                in_reply_to_user_id: None,
                in_reply_to_user_id_str: None,
                in_reply_to_screen_name: Some("testuser".to_string()),
                edit_info: None,
                entities: TweetEntities {
                    hashtags: vec![],
                    symbols: vec![],
                    user_mentions: vec![UserMention {
                        name: "NotebookLM".to_string(),
                        screen_name: "NotebookLM".to_string(),
                        indices: vec!["4".to_string(), "15".to_string()],
                        id_str: "1846671939437252609".to_string(),
                        id: "1846671939437252609".to_string(),
                    }],
                    urls: vec![],
                },
                possibly_sensitive: None,
            },
        },
        TweetWrapper {
            tweet: Tweet {
                id_str: "1947478130287120782".to_string(),
                id: "1947478130287120782".to_string(),
                full_text: "@TnvMadhav Been @dhh @jasonfried fan since I came to twitter in 2021".to_string(),
                created_at: "Tue Jul 22 02:05:43 +0000 2025".to_string(),
                favorite_count: "0".to_string(),
                retweet_count: "0".to_string(),
                retweeted: false,
                favorited: false,
                truncated: false,
                lang: "en".to_string(),
                source: "<a href=\"http://twitter.com/download/android\" rel=\"nofollow\">Twitter for Android</a>".to_string(),
                display_text_range: vec!["0".to_string(), "68".to_string()],
                in_reply_to_status_id: Some("1947467485424562448".to_string()),
                in_reply_to_status_id_str: Some("1947467485424562448".to_string()),
                in_reply_to_user_id: Some("848022794629730304".to_string()),
                in_reply_to_user_id_str: Some("848022794629730304".to_string()),
                in_reply_to_screen_name: Some("TnvMadhav".to_string()),
                edit_info: None,
                entities: TweetEntities {
                    hashtags: vec![],
                    symbols: vec![],
                    user_mentions: vec![UserMention {
                        name: "TnvMadhav".to_string(),
                        screen_name: "TnvMadhav".to_string(),
                        indices: vec!["0".to_string(), "10".to_string()],
                        id_str: "848022794629730304".to_string(),
                        id: "848022794629730304".to_string(),
                    }],
                    urls: vec![],
                },
                possibly_sensitive: None,
            },
        },
    ]
}

#[test]
fn test_retweet_filtering() {
    let mut tweets = create_realistic_tweet_data();

    // Add a retweet to test data
    let mut retweet = tweets[0].clone();
    retweet.tweet.retweeted = true;
    retweet.tweet.full_text = "RT @someone: This is a retweet".to_string();
    tweets.push(retweet);

    let filtered = threading_candidates(&tweets);

    assert_eq!(filtered.len(), 2, "Should filter out retweets");
    for tweet in filtered {
        assert!(!tweet.retweeted, "Filtered tweets should not be retweets");
        assert!(!tweet.full_text.starts_with("RT @"), "Should not start with RT @");
    }
}
