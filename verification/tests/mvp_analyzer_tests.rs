use tweet_scrolls::processing::data_structures::{
    EditInfo, EditInitial, Thread, Tweet, TweetEntities, UserMention,
};
use tweet_scrolls::processing::mvp_analyzer::{report_file_name_for, MvpAnalyzer, SimpleRelationship};

fn create_test_tweet(id: &str, text: &str, mentions: Vec<&str>, created_at: &str) -> Tweet {
    Tweet {
        id_str: id.to_string(),
        id: id.to_string(),
        full_text: text.to_string(),
        created_at: created_at.to_string(),
        favorite_count: "0".to_string(),
        retweet_count: "0".to_string(),
        retweeted: false,
        favorited: false,
        truncated: false,
        lang: "en".to_string(),
        source: "Twitter Web App".to_string(),
        display_text_range: vec!["0".to_string(), text.len().to_string()],
        in_reply_to_status_id: None,
        in_reply_to_status_id_str: None,
        in_reply_to_user_id: None,
        in_reply_to_user_id_str: None,
        in_reply_to_screen_name: None,
        edit_info: Some(EditInfo {
            initial: Some(EditInitial {
                edit_tweet_ids: vec![id.to_string()],
                editable_until: "2025-01-01T00:00:00.000Z".to_string(),
                edits_remaining: "5".to_string(),
                is_edit_eligible: false,
            }),
        }),
        entities: TweetEntities {
            hashtags: vec![],
            symbols: vec![],
            user_mentions: mentions
                .into_iter()
                .map(|m| UserMention {
                    name: m.to_string(),
                    screen_name: m.to_string(),
                    indices: vec!["0".to_string(), "10".to_string()],
                    id_str: "123456789".to_string(),
                    id: "123456789".to_string(),
                })
                .collect(),
            urls: vec![],
        },
        possibly_sensitive: None,
    }
}

fn single_thread(tweet: Tweet) -> Thread {
    Thread {
        id: tweet.id_str.clone(),
        tweets: vec![tweet],
        tweet_count: 1,
        favorite_count: 0,
        retweet_count: 0,
    }
}

#[test]
fn test_mvp_analyzer_creation() {
    let analyzer = MvpAnalyzer::new();
    assert_eq!(analyzer.relationships.len(), 0);
    assert_eq!(analyzer.hourly_activity.len(), 0);
    assert_eq!(analyzer.daily_activity.len(), 0);
}

#[test]
fn test_tweet_analysis() {
    let mut analyzer = MvpAnalyzer::new();

    let tweet = create_test_tweet(
        "123",
        "Hello @testuser this is a test",
        vec!["testuser"],
        "Mon Jan 01 12:00:00 +0000 2024",
    );

    let thread = Thread {
        id: "123".to_string(),
        tweets: vec![tweet],
        tweet_count: 1,
        favorite_count: 0,
        retweet_count: 0,
    };

    let result = analyzer.analyze_tweets(&[thread]);
    assert!(result.is_ok());

    // Check that relationship was extracted
    assert_eq!(analyzer.relationships.len(), 1);
    assert!(analyzer.relationships.contains_key("testuser"));

    // Check that activity was tracked
    assert!(analyzer.hourly_activity.contains_key(&12)); // 12:00 PM
}

#[test]
fn test_top_relationships() {
    let mut analyzer = MvpAnalyzer::new();

    // Add some test relationships
    analyzer.relationships.insert(
        "user1".to_string(),
        SimpleRelationship {
            username: "user1".to_string(),
            interaction_count: 10,
            last_interaction: "2024-01-01".to_string(),
            interaction_type: "tweets".to_string(),
        },
    );

    analyzer.relationships.insert(
        "user2".to_string(),
        SimpleRelationship {
            username: "user2".to_string(),
            interaction_count: 5,
            last_interaction: "2024-01-01".to_string(),
            interaction_type: "dms".to_string(),
        },
    );

    let top = analyzer.get_top_relationships(2);
    assert_eq!(top.len(), 2);
    assert_eq!(top[0].username, "user1");
    assert_eq!(top[0].interaction_count, 10);
    assert_eq!(top[1].username, "user2");
    assert_eq!(top[1].interaction_count, 5);
}

#[test]
fn test_activity_patterns() {
    let mut analyzer = MvpAnalyzer::new();

    // Add some test activity
    analyzer.hourly_activity.insert(9, 10); // 9 AM
    analyzer.hourly_activity.insert(14, 15); // 2 PM
    analyzer.hourly_activity.insert(20, 5); // 8 PM

    let peak_hours = analyzer.get_peak_activity_hours(2);
    assert_eq!(peak_hours.len(), 2);
    assert_eq!(peak_hours[0], (14, 15)); // 2 PM should be first
    assert_eq!(peak_hours[1], (9, 10)); // 9 AM should be second
}

#[test]
fn repeated_mentions_accumulate() {
    let mut analyzer = MvpAnalyzer::new();
    let threads = vec![
        single_thread(create_test_tweet("1", "hi @a @b", vec!["a", "b"], "Mon Jan 01 09:15:00 +0000 2024")),
        single_thread(create_test_tweet("2", "hi @a", vec!["a"], "Tue Jan 02 09:45:00 +0000 2024")),
        single_thread(create_test_tweet("3", "bad time", vec!["a"], "not a timestamp")),
    ];
    assert!(analyzer.analyze_tweets(&threads).is_ok());
    let a = analyzer.relationships.get("a").expect("a is recorded");
    assert_eq!(a.interaction_count, 3);
    assert_eq!(a.last_interaction, "not a timestamp");
    assert_eq!(a.interaction_type, "tweets");
    assert_eq!(analyzer.relationships.get("b").map(|r| r.interaction_count), Some(1));
    // The unreadable timestamp adds no activity.
    assert_eq!(analyzer.hourly_activity.get(&9), Some(2));
    assert_eq!(analyzer.hourly_activity.len(), 1);
    assert_eq!(analyzer.daily_activity.get("Monday"), Some(&1));
    assert_eq!(analyzer.daily_activity.get("Tuesday"), Some(&1));
    let top = analyzer.get_top_relationships(10);
    assert_eq!(top.iter().map(|r| r.username.as_str()).collect::<Vec<_>>(), vec!["a", "b"]);
}

#[test]
fn ties_keep_first_recorded_order() {
    let mut analyzer = MvpAnalyzer::new();
    analyzer.hourly_activity.insert(3, 4);
    analyzer.hourly_activity.insert(1, 4);
    analyzer.hourly_activity.insert(2, 9);
    assert_eq!(analyzer.get_peak_activity_hours(5), vec![(2, 9), (3, 4), (1, 4)]);
    assert_eq!(analyzer.get_peak_activity_hours(0), vec![]);
    analyzer.daily_activity.insert("Friday".to_string(), 2);
    analyzer.daily_activity.insert("Monday".to_string(), 7);
    assert_eq!(
        analyzer.get_most_active_days(),
        vec![("Monday".to_string(), 7), ("Friday".to_string(), 2)]
    );
}

#[test]
fn empty_report_text() {
    let analyzer = MvpAnalyzer::new();
    let report = analyzer.build_report("2024-01-01 00:00:00 UTC");
    assert_eq!(
        report,
        "🎯 TWITTER RELATIONSHIP & ACTIVITY INTELLIGENCE REPORT\n\
=====================================================\n\n\
👥 TOP PEOPLE YOU INTERACT WITH\n\
--------------------------------\n\
No significant relationships found in the data.\n\n\
⏰ WHEN YOU'RE MOST ACTIVE\n\
---------------------------\n\
📊 SUMMARY STATISTICS\n\
---------------------\n\
Total unique relationships: 0\n\
Total activities tracked: 0\n\
\n\
💡 INSIGHTS & RECOMMENDATIONS\n\
------------------------------\n\
\n\
Generated by Tweet-Scrolls Relationship Intelligence System\n\
Report generated at: 2024-01-01 00:00:00 UTC\n"
    );
}

#[test]
fn report_sections_with_data() {
    let mut analyzer = MvpAnalyzer::new();
    analyzer.relationships.insert(
        "ann".to_string(),
        SimpleRelationship {
            username: "ann".to_string(),
            interaction_count: 4,
            last_interaction: "x".to_string(),
            interaction_type: "tweets".to_string(),
        },
    );
    analyzer.hourly_activity.insert(0, 3);
    analyzer.hourly_activity.insert(13, 3);
    analyzer.daily_activity.insert("Sunday".to_string(), 6);
    let report = analyzer.build_report("now");
    assert!(report.contains("1. @ann - 4 interactions (tweets)\n\n"));
    assert!(report.contains("Peak Activity Hours:\n  12:00 AM - 3 activities\n  1:00 PM - 3 activities\n\n"));
    assert!(report.contains("Most Active Days:\n  Sunday - 6 activities\n\n"));
    assert!(report.contains("Total activities tracked: 6\n"));
    // The last of equally busy hours is the peak.
    assert!(report.contains("Peak activity time: 1:00 PM (3 activities)\n"));
    assert!(report.contains("• Your strongest connection is @ann with 4 interactions\n"));
    assert!(report.contains("• You're most active around 1:00 PM\n"));
    assert!(report.contains("• You tend to interact with a focused group of people\n"));
}

#[test]
fn report_file_names() {
    assert_eq!(report_file_name_for("me", 42), "relationship_intelligence_me_42.txt");
    assert_eq!(report_file_name_for("me", -7), "relationship_intelligence_me_-7.txt");
}

#[test]
fn overflowing_counts_leave_the_analyzer_unchanged() {
    let mut analyzer = MvpAnalyzer::new();
    analyzer.hourly_activity.insert(12, u32::MAX);
    let threads = vec![single_thread(create_test_tweet(
        "1",
        "hi @a",
        vec!["a"],
        "Mon Jan 01 12:00:00 +0000 2024",
    ))];
    assert_eq!(analyzer.try_analyze_tweets(&threads), None);
    assert_eq!(analyzer.hourly_activity.get(&12), Some(u32::MAX));
    assert!(analyzer.relationships.is_empty());
    assert!(analyzer.daily_activity.is_empty());

    let mut fresh = MvpAnalyzer::new();
    assert_eq!(fresh.try_analyze_tweets(&threads), Some(Ok(())));
    assert_eq!(fresh.hourly_activity.get(&12), Some(1));
    assert_eq!(fresh.relationships.get("a").map(|r| r.interaction_count), Some(1));
}
