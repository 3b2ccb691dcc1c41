use std::sync::{Arc, Mutex};

use tweet_scrolls::cli::{choose_archive_file, CliConfig};
use tweet_scrolls::models::profile::UserProfile;
use tweet_scrolls::processing::data_structures::ProcessedConversation;
use tweet_scrolls::processing::keyed::{CountMap, NamedMap};

#[test]
fn test_processed_conversation_creation() {
    let conversation = ProcessedConversation {
        conversation_id: "test-conversation".to_string(),
        message_count: 5,
        participants: vec!["user1".to_string(), "user2".to_string()],
        first_message_date: Some("2023-01-01T10:00:00.000Z".to_string()),
        last_message_date: Some("2023-01-01T11:00:00.000Z".to_string()),
    };

    assert_eq!(conversation.conversation_id, "test-conversation");
    assert_eq!(conversation.message_count, 5);
    assert_eq!(conversation.participants.len(), 2);
    assert!(conversation.first_message_date.is_some());
    assert!(conversation.last_message_date.is_some());
}

#[test]
fn test_hash_consistency() {
    let user_id = "test_user_123";
    let hash1 = user_id.to_string();

    // Hash multiple times to ensure consistency
    for _ in 0..10 {
        let hash_n = user_id.to_string();
        assert_eq!(hash1, hash_n, "Hash should be consistent across multiple calls");
    }
}

#[test]
fn test_hash_uniqueness() {
    let mut hashes = std::collections::HashSet::new();

    // Generate hashes for different inputs
    for i in 0..100 {
        let user_id = format!("user_{}", i);
        let hash = user_id.to_string();

        // Each hash should be unique
        assert!(hashes.insert(hash), "Hash collision detected for user_{}", i);
    }

    assert_eq!(hashes.len(), 100, "Should have 100 unique hashes");
}

struct MockProgressBar {
    pub messages: Arc<Mutex<Vec<String>>>,
}

impl MockProgressBar {
    pub fn new() -> Self {
        Self { messages: Arc::new(Mutex::new(Vec::new())) }
    }
    pub fn set_message(&self, msg: String) {
        self.messages.lock().unwrap().push(msg);
    }
    pub fn inc(&self, _n: u64) {}
    pub fn finish_with_message(&self, msg: String) {
        self.messages.lock().unwrap().push(msg);
    }
}

fn simulate_progress_reporting(num_tweets: usize) -> Vec<String> {
    let pb = MockProgressBar::new();
    let mut original_tweet_count = 0;
    let mut reply_count = 0;
    let mut retweet_count = 0;
    let mut total_tweets = 0;
    let mut logs = Vec::new();
    for i in 0..num_tweets {
        total_tweets += 1;
        // Simulate tweet type
        if i % 3 == 0 {
            retweet_count += 1;
        } else if i % 3 == 1 {
            reply_count += 1;
        } else {
            original_tweet_count += 1;
        }
        if total_tweets % 10 == 0 {
            pb.set_message(format!("{} originals, {} replies, {} retweets", original_tweet_count, reply_count, retweet_count));
            logs.push(format!("[PROGRESS] Processed {} tweets: {} originals, {} replies, {} retweets", total_tweets, original_tweet_count, reply_count, retweet_count));
        }
        pb.inc(1);
    }
    pb.finish_with_message(format!("{} originals, {} replies, {} retweets", original_tweet_count, reply_count, retweet_count));
    logs
}

#[test]
fn test_progress_reporting_every_10_tweets() {
    let logs = simulate_progress_reporting(25);
    assert_eq!(logs.len(), 2);
    // The simulated logic assigns retweet for i%3==0, reply for i%3==1, original for i%3==2
    // So after 10 tweets: 4 retweets, 3 replies, 3 originals
    assert_eq!(logs[0], "[PROGRESS] Processed 10 tweets: 3 originals, 3 replies, 4 retweets");
    // After 20 tweets: 7 originals, 7 replies, 6 retweets
    assert_eq!(logs[1], "[PROGRESS] Processed 20 tweets: 6 originals, 7 replies, 7 retweets");
}

#[test]
fn test_progress_reporting_with_less_than_10_tweets() {
    let logs = simulate_progress_reporting(9);
    assert_eq!(logs.len(), 0);
}

#[test]
fn test_progress_reporting_with_exact_multiple() {
    let logs = simulate_progress_reporting(30);
    assert_eq!(logs.len(), 3);
    assert_eq!(logs[2], "[PROGRESS] Processed 30 tweets: 10 originals, 10 replies, 10 retweets");
}

#[test]
fn cli_invocation_contract_remains() {
    let archive_folder = "/tmp/archive".to_string();
    let explicit_output = "/tmp/output".to_string();

    let default_config = CliConfig {
        archive_folder: archive_folder.clone(),
        output_dir: None,
        non_interactive: true,
    };
    let explicit_config = CliConfig {
        archive_folder,
        output_dir: Some(explicit_output.clone()),
        non_interactive: true,
    };

    assert_eq!(default_config.get_output_dir("user", 42), "/tmp/archive/output_user_42");
    assert_eq!(explicit_config.get_output_dir("user", 42), explicit_output);
}

#[test]
fn archive_files_are_found_at_root_then_in_data() {
    let config = CliConfig {
        archive_folder: "/a".to_string(),
        output_dir: None,
        non_interactive: false,
    };
    let candidates = config.archive_file_candidates("tweets.js");
    assert_eq!(candidates, ("/a/tweets.js".to_string(), "/a/data/tweets.js".to_string()));
    assert_eq!(
        choose_archive_file(candidates.clone(), true, true),
        Some("/a/tweets.js".to_string())
    );
    assert_eq!(
        choose_archive_file(candidates.clone(), false, true),
        Some("/a/data/tweets.js".to_string())
    );
    assert_eq!(choose_archive_file(candidates, false, false), None);
}

#[test]
fn profiles_track_counts_and_bounds() {
    let mut profile = UserProfile::new("test_user".to_string());
    assert_eq!(profile.user_id, "test_user");
    assert_eq!(profile.total_interactions, 0);
    assert!(profile.interaction_counts.is_empty());
    profile.add_interaction("dm_sent".to_string(), (100, 5));
    profile.add_interaction("dm_sent".to_string(), (50, 0));
    profile.add_interaction("reply".to_string(), (100, 9));
    assert_eq!(profile.total_interactions, 3);
    assert_eq!(profile.interaction_counts.get("dm_sent"), Some(&2));
    assert_eq!(profile.interaction_counts.get("reply"), Some(&1));
    assert_eq!(profile.first_interaction, Some((50, 0)));
    assert_eq!(profile.last_interaction, Some((100, 9)));
    assert!(profile.metadata.is_empty());
}

#[test]
fn keyed_maps_replace_values() {
    let mut names: NamedMap<u32> = NamedMap::new();
    assert_eq!(names.insert("a".to_string(), 1), None);
    assert_eq!(names.insert("b".to_string(), 2), None);
    assert_eq!(names.insert("a".to_string(), 3), Some(1));
    assert_eq!(names.len(), 2);
    assert_eq!(names.get("a"), Some(&3));
    assert!(!names.contains_key("c"));
    assert_eq!(names.entries()[0], ("a".to_string(), 3));
    let mut counts = CountMap::new();
    assert_eq!(counts.insert(7, 1), None);
    assert_eq!(counts.insert(7, 2), Some(1));
    assert_eq!(counts.get(&7), Some(2));
    assert_eq!(counts.entries(), &[(7, 2)]);
}

#[test]
fn archive_file_paths_follow_existence() {
    let config = CliConfig {
        archive_folder: "/a".to_string(),
        output_dir: None,
        non_interactive: true,
    };
    assert_eq!(config.tweets_file(true, true), "/a/tweets.js");
    assert_eq!(config.tweets_file(false, true), "/a/data/tweets.js");
    assert_eq!(config.tweets_file(false, false), "/a/tweets.js");
    assert_eq!(config.dms_file(false, true), Some("/a/data/direct-messages.js".to_string()));
    assert_eq!(config.dms_file(false, false), None);
    assert_eq!(
        config.dm_headers_file(true, false),
        Some("/a/direct-message-headers.js".to_string())
    );
}

#[test]
fn test_user_profile_creation() {
    let profile = UserProfile::new("test_user_id".to_string());
    assert_eq!(profile.user_id, "test_user_id");
    assert_eq!(profile.total_interactions, 0);
    assert!(profile.interaction_counts.is_empty());
}

#[test]
fn test_user_profile_add_interaction() {
    let mut profile = UserProfile::new("test_user".to_string());
    // 2023-01-01 12:00:00 UTC as seconds since the epoch and nanoseconds.
    let timestamp = (1_672_574_400_i64, 0_u32);
    profile.add_interaction("dm_sent".to_string(), timestamp);

    assert_eq!(profile.total_interactions, 1);
    assert_eq!(profile.interaction_counts.get("dm_sent"), Some(&1));
}
