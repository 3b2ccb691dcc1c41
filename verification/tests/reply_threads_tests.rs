use tweet_scrolls::processing::data_structures::{Tweet, TweetEntities};
use tweet_scrolls::processing::reply_threads::{
    format_thread_as_text, process_reply_threads, reply_chains_end,
};

fn create_test_tweet(id: &str, text: &str, reply_to_id: Option<&str>, reply_to_user: Option<&str>) -> Tweet {
    Tweet {
        id_str: id.to_string(),
        id: id.to_string(),
        full_text: text.to_string(),
        created_at: format!("2023-01-01 12:{:02}:00", id.parse::<u32>().unwrap_or(0)),
        favorite_count: "0".to_string(),
        retweet_count: "0".to_string(),
        retweeted: false,
        favorited: false,
        truncated: false,
        lang: "en".to_string(),
        source: "test".to_string(),
        display_text_range: vec!["0".to_string(), text.len().to_string()],
        in_reply_to_status_id: reply_to_id.map(|s| s.to_string()),
        in_reply_to_status_id_str: reply_to_id.map(|s| s.to_string()),
        in_reply_to_user_id: None,
        in_reply_to_user_id_str: None,
        in_reply_to_screen_name: reply_to_user.map(|s| s.to_string()),
        edit_info: None,
        entities: TweetEntities::default(),
        possibly_sensitive: None,
    }
}

fn create_characterized_test_tweet(
    id: &str,
    created_at: &str,
    reply_to: Option<&str>,
    retweeted: bool,
) -> Tweet {
    Tweet {
        id_str: id.to_owned(),
        id: id.to_owned(),
        full_text: format!("tweet-{id}"),
        created_at: created_at.to_owned(),
        favorite_count: id.to_owned(),
        retweet_count: id.to_owned(),
        retweeted,
        favorited: false,
        truncated: false,
        lang: "en".to_owned(),
        source: "test".to_owned(),
        display_text_range: Vec::new(),
        in_reply_to_status_id: reply_to.map(str::to_owned),
        in_reply_to_status_id_str: reply_to.map(str::to_owned),
        in_reply_to_user_id: None,
        in_reply_to_user_id_str: None,
        in_reply_to_screen_name: reply_to.map(|_| "user".to_owned()),
        edit_info: None,
        entities: TweetEntities::default(),
        possibly_sensitive: None,
    }
}

fn canonicalize_thread_identifier_groups(threads: &[Vec<Tweet>]) -> Vec<Vec<String>> {
    let mut groups = threads
        .iter()
        .map(|thread| {
            thread
                .iter()
                .map(|tweet| tweet.id_str.clone())
                .collect::<Vec<_>>()
        })
        .collect::<Vec<_>>();
    groups.sort();
    groups
}

fn ids(threads: &[Vec<Tweet>]) -> Vec<Vec<String>> {
    threads
        .iter()
        .map(|thread| thread.iter().map(|tweet| tweet.id_str.clone()).collect())
        .collect()
}

#[test]
fn test_simple_reply_thread() {
    let tweets = vec![
        create_test_tweet("1", "Original tweet", None, None),
        create_test_tweet("2", "@user Reply to original", Some("1"), Some("testuser")),
        create_test_tweet("3", "@user Another reply", Some("2"), Some("testuser")),
    ];

    let threads = process_reply_threads(&tweets, "testuser");

    assert_eq!(threads.len(), 1);
    assert_eq!(threads[0].len(), 3);
    assert_eq!(threads[0][0].id_str, "1");
    assert_eq!(threads[0][1].id_str, "2");
    assert_eq!(threads[0][2].id_str, "3");
}

#[test]
fn test_multiple_reply_threads() {
    let tweets = vec![
        create_test_tweet("1", "First thread", None, None),
        create_test_tweet("2", "@user Reply to first", Some("1"), Some("testuser")),
        create_test_tweet("3", "Second thread", None, None),
        create_test_tweet("4", "@other Reply to other user", Some("100"), Some("other")),
        create_test_tweet("5", "@user Reply to second", Some("3"), Some("testuser")),
    ];

    let threads = process_reply_threads(&tweets, "testuser");

    // Should have 3 threads:
    // 1. Thread starting with tweet 1 (tweets 1, 2)
    // 2. Thread starting with tweet 3 (tweets 3, 5)
    // 3. Orphan reply thread (tweet 4)
    assert_eq!(threads.len(), 3);
}

#[test]
fn test_thread_formatting() {
    let thread = vec![
        create_test_tweet("1", "Starting a thread", None, None),
        create_test_tweet("2", "Continuing the thought", Some("1"), Some("testuser")),
    ];

    let formatted = format_thread_as_text(&thread, "testuser");

    assert!(formatted.contains("Thread with 2 tweets"));
    assert!(formatted.contains("[Thread Start]"));
    assert!(formatted.contains("Reply to @testuser"));
    assert!(formatted.contains("Starting a thread"));
    assert!(formatted.contains("Continuing the thought"));
}

#[test]
fn legacy_thread_groups_match() {
    let tweets = vec![
        create_characterized_test_tweet("1", "Mon Jan 01 12:00:00 +0000 2024", None, false),
        create_characterized_test_tweet("2", "Mon Jan 01 12:01:00 +0000 2024", Some("1"), false),
        create_characterized_test_tweet("3", "Mon Jan 01 12:02:00 +0000 2024", None, false),
    ];

    let threads = process_reply_threads(&tweets, "user");

    assert_eq!(
        canonicalize_thread_identifier_groups(&threads),
        vec![vec!["1".to_owned(), "2".to_owned()], vec!["3".to_owned()]]
    );
}

#[test]
fn threads_run_oldest_first_and_newest_thread_first() {
    // Replies listed before their parents still land after them, and the thread whose root
    // was created last comes first.
    let tweets = vec![
        create_test_tweet("5", "late reply", Some("1"), Some("testuser")),
        create_test_tweet("1", "early root", None, None),
        create_test_tweet("3", "later root", None, None),
        create_test_tweet("2", "early reply", Some("1"), Some("testuser")),
    ];
    let threads = process_reply_threads(&tweets, "testuser");
    assert_eq!(
        ids(&threads),
        vec![vec!["3".to_string()], vec!["1".to_string(), "2".to_string(), "5".to_string()]]
    );
}

#[test]
fn every_tweet_lands_in_exactly_one_thread() {
    let tweets = vec![
        create_test_tweet("1", "a", None, None),
        create_test_tweet("2", "b", Some("1"), None),
        create_test_tweet("3", "c", Some("2"), None),
        create_test_tweet("4", "d", Some("9"), None),
        create_test_tweet("6", "e", Some("1"), None),
    ];
    let threads = process_reply_threads(&tweets, "x");
    let mut all: Vec<String> = ids(&threads).into_iter().flatten().collect();
    all.sort();
    assert_eq!(all, vec!["1", "2", "3", "4", "6"]);
    assert!(threads.iter().all(|thread| !thread.is_empty()));
}

#[test]
fn empty_input_gives_no_threads() {
    let threads = process_reply_threads(&[], "x");
    assert!(threads.is_empty());
}

#[test]
fn reply_cycles_are_detected() {
    let cyclic = vec![
        create_test_tweet("1", "a", Some("2"), None),
        create_test_tweet("2", "b", Some("1"), None),
    ];
    assert!(!reply_chains_end(&cyclic));
    let self_reply = vec![create_test_tweet("7", "a", Some("7"), None)];
    assert!(!reply_chains_end(&self_reply));
    let chain = vec![
        create_test_tweet("1", "a", None, None),
        create_test_tweet("2", "b", Some("1"), None),
        create_test_tweet("3", "c", Some("404"), None),
    ];
    assert!(reply_chains_end(&chain));
}

#[test]
fn thread_text_layout() {
    let thread = vec![
        create_test_tweet("1", "Starting a thread", None, None),
        create_test_tweet("2", "Continuing the thought", Some("1"), Some("testuser")),
    ];
    let formatted = format_thread_as_text(&thread, "testuser");
    let rule = "─".repeat(50);
    let expected = format!(
        "🧵 Thread with 2 tweets\n{rule}\n🔹 [Thread Start]\nStarting a thread\n📅 2023-01-01 12:01:00 | ❤️ 0 | 🔁 0\n\n↳ Reply to @testuser\nContinuing the thought\n📅 2023-01-01 12:02:00 | ❤️ 0 | 🔁 0\n{rule}\n\n"
    );
    assert_eq!(formatted, expected);
}
