use tweet_scrolls::processing::data_structures::{Thread, Tweet, TweetEntities, TweetWrapper};
use tweet_scrolls::thread_export::archive::{locate_archive_json, prepare_archive_thread_data};
use tweet_scrolls::thread_export::full_export::complete_output_paths;
use tweet_scrolls::thread_export::semantic_parts::{
    is_owned_part_file, part_output_paths, plan_semantic_thread_parts, render_planned_part_payload,
    validate_part_payload, SemanticPartExportRequest,
};
use tweet_scrolls::thread_export::{
    derive_timestamp_output_folder, render_single_thread_block, CompleteThreadExportOutcome,
    CompleteThreadExportRequest, CompleteThreadOutput, PreparedThreadExportData,
    ThreadExportFailure, ThreadExportFailureKind, ValidatedTweetArchive,
    PRODUCTION_PART_LIMIT_EXCLUSIVE,
};

fn create_full_export_tweet(id: &str, text: &str, reply_to: Option<&str>) -> Tweet {
    Tweet {
        id_str: id.to_owned(),
        id: id.to_owned(),
        full_text: text.to_owned(),
        created_at: format!("Mon Jan 01 12:0{id}:00 +0000 2024"),
        favorite_count: id.to_owned(),
        retweet_count: id.to_owned(),
        retweeted: false,
        favorited: false,
        truncated: false,
        lang: "en".to_owned(),
        source: "test".to_owned(),
        display_text_range: Vec::new(),
        in_reply_to_status_id: reply_to.map(str::to_owned),
        in_reply_to_status_id_str: reply_to.map(str::to_owned),
        in_reply_to_user_id: None,
        in_reply_to_user_id_str: None,
        in_reply_to_screen_name: reply_to.map(|_| "fixture-user".to_owned()),
        edit_info: None,
        entities: TweetEntities::default(),
        possibly_sensitive: None,
    }
}

fn create_full_export_thread(tweets: Vec<Tweet>) -> Thread {
    Thread {
        id: tweets
            .first()
            .map(|tweet| tweet.id_str.clone())
            .unwrap_or_else(|| "empty-thread".to_owned()),
        tweet_count: tweets.len(),
        favorite_count: tweets
            .iter()
            .filter_map(|tweet| tweet.favorite_count.parse::<u32>().ok())
            .sum(),
        retweet_count: tweets
            .iter()
            .filter_map(|tweet| tweet.retweet_count.parse::<u32>().ok())
            .sum(),
        tweets,
    }
}

fn create_archive_fixture_tweet(
    id: &str,
    created_at: &str,
    reply_to: Option<&str>,
    retweeted: bool,
) -> Tweet {
    let mut tweet = create_full_export_tweet(id, &format!("tweet-{id}"), reply_to);
    tweet.created_at = created_at.to_owned();
    tweet.retweeted = retweeted;
    tweet
}

fn create_parts_export_tweet(id: &str, text: &str, reply_to: Option<&str>) -> Tweet {
    let mut tweet = create_full_export_tweet(id, text, reply_to);
    tweet.favorite_count = "0".to_owned();
    tweet.retweet_count = "0".to_owned();
    tweet
}

fn wrap(tweets: Vec<Tweet>) -> Vec<TweetWrapper> {
    tweets.into_iter().map(|tweet| TweetWrapper { tweet }).collect()
}

fn prepare(tweets: Vec<Tweet>) -> PreparedThreadExportData {
    prepare_archive_thread_data(wrap(tweets)).expect("fixture timestamps are valid")
}

fn full_text(prepared: &PreparedThreadExportData) -> String {
    prepared
        .threads()
        .iter()
        .map(|thread| render_single_thread_block(thread).expect("threads are non-empty"))
        .collect()
}

fn part_payloads(prepared: &PreparedThreadExportData, limit: usize) -> Vec<String> {
    let plan = plan_semantic_thread_parts(prepared, limit).expect("the limit is large enough");
    assert_eq!(plan.exclusive_limit(), limit);
    let payloads: Vec<String> = (0..plan.part_count())
        .map(|index| render_planned_part_payload(prepared, &plan, index))
        .collect();
    assert_eq!(
        plan.encoded_part_sizes(),
        payloads.iter().map(|payload| payload.len()).collect::<Vec<_>>()
    );
    payloads
}

fn canonical_thread_identifier_groups(prepared: &PreparedThreadExportData) -> Vec<Vec<String>> {
    let mut groups = prepared
        .threads()
        .iter()
        .map(|thread| thread.tweets.iter().map(|tweet| tweet.id_str.clone()).collect::<Vec<_>>())
        .collect::<Vec<_>>();
    groups.sort();
    groups
}

#[test]
fn thread_block_rendering_matches() {
    let thread = create_full_export_thread(vec![
        create_full_export_tweet("1", "First line\nSecond line", None),
        create_full_export_tweet("2", "Reply text", Some("1")),
    ]);

    let rendered = render_single_thread_block(&thread).expect("a non-empty thread renders");

    assert_eq!(
        rendered,
        "--- Start of Thread ---\n\
Thread ID: 1\n\
Timestamp: Mon Jan 01 12:01:00 +0000 2024\n\
Public Support: 1 retweets, 1 likes\n\
Thread text:\n\
- Tweet 1:\n\
First line\nSecond line\n\
\n\
- Tweet 2:\n\
Reply text\n\
\n\
--- End of Thread ---\n\n"
    );
}

#[test]
fn empty_thread_rendering_fails() {
    let thread = create_full_export_thread(Vec::new());

    let failure = render_single_thread_block(&thread)
        .expect_err("an empty semantic thread must not be indexed");

    assert_eq!(failure.kind(), ThreadExportFailureKind::InvalidThread);
    assert_eq!(failure.thread_id(), Some("empty-thread"));
    assert_eq!(failure.to_string(), "thread empty-thread has no tweets");
}

#[test]
fn timestamp_output_folder_derives() {
    let archive = "/tmp/extracted-twitter-archive";

    let output = derive_timestamp_output_folder(archive, 1_723_456_789_012);

    assert_eq!(output, "/tmp/extracted-twitter-archive/tweet-scrolls-1723456789012");
}

#[test]
fn request_and_output_paths() {
    let archive = ValidatedTweetArchive::from_checked_folder("/tmp/a");
    assert_eq!(archive.tweets_file(), "/tmp/a/tweets.js");
    let request = CompleteThreadExportRequest::new(archive, 42);
    assert_eq!(request.timestamp_millis(), 42);
    assert_eq!(request.output_folder(), "/tmp/a/tweet-scrolls-42");
    let (partial, complete) = complete_output_paths("/tmp/a/tweet-scrolls-42");
    assert_eq!(partial, "/tmp/a/tweet-scrolls-42/tweet-scrolls-full.txt.partial");
    assert_eq!(complete, "/tmp/a/tweet-scrolls-42/tweet-scrolls-full.txt");
    let (done, temporary) = part_output_paths("/out", 9);
    assert_eq!(done, "/out/tweet-scrolls-part-009.txt");
    assert_eq!(temporary, "/out/tweet-scrolls-part-009.txt.partial");
    let (done, _) = part_output_paths("/out", 1234);
    assert_eq!(done, "/out/tweet-scrolls-part-1234.txt");
}

#[test]
fn part_file_ownership() {
    assert!(is_owned_part_file("tweet-scrolls-part-001.txt"));
    assert!(is_owned_part_file("tweet-scrolls-part-009.txt.partial"));
    assert!(!is_owned_part_file("tweet-scrolls-full.txt"));
    assert!(!is_owned_part_file("tweet-scrolls-part-001.md"));
    assert!(!is_owned_part_file("sentinel.bin"));
}

#[test]
fn archive_json_is_located() {
    let script = "window.YTD.tweets.part0 = [{\"tweet\": 1}]\n";
    assert_eq!(locate_archive_json(script, "tweets.js").ok(), Some("[{\"tweet\": 1}]"));
    for (broken, message) in [
        ("window.YTD.tweets.part0 = no-array", "missing opening bracket"),
        ("window.YTD.tweets.part0 = [", "missing closing bracket"),
        ("] then [", "closing bracket precedes opening bracket"),
    ] {
        let failure = locate_archive_json(broken, "/a/tweets.js").expect_err("no JSON array");
        assert_eq!(failure.kind(), ThreadExportFailureKind::ArchiveParse);
        assert_eq!(
            failure.to_string(),
            format!("failed to parse Twitter archive file /a/tweets.js: {message}")
        );
    }
}

#[test]
fn current_thread_semantics_match() {
    let tweets = vec![
        create_archive_fixture_tweet("1", "Mon Jan 01 12:00:00 +0000 2024", None, false),
        create_archive_fixture_tweet("2", "Mon Jan 01 12:01:00 +0000 2024", Some("1"), false),
        create_archive_fixture_tweet("3", "Mon Jan 01 12:02:00 +0000 2024", None, false),
        create_archive_fixture_tweet("4", "Mon Jan 01 12:03:00 +0000 2024", None, true),
    ];

    let prepared = prepare(tweets);

    assert_eq!(prepared.source_tweet_count(), 4);
    assert_eq!(prepared.excluded_retweet_count(), 1);
    assert_eq!(
        canonical_thread_identifier_groups(&prepared),
        vec![vec!["1".to_owned(), "2".to_owned()], vec!["3".to_owned()]]
    );
    let connected = prepared
        .threads()
        .iter()
        .find(|thread| thread.id == "1")
        .expect("the connected fixture thread must exist");
    assert_eq!(connected.favorite_count, 3);
    assert_eq!(connected.retweet_count, 3);
    assert_eq!(connected.tweet_count, 2);
    // Newest root first.
    assert_eq!(prepared.threads()[0].id, "3");
}

#[test]
fn invalid_timestamp_returns_error() {
    let tweets = vec![create_archive_fixture_tweet("broken", "not-a-date", None, false)];

    let failure = prepare_archive_thread_data(wrap(tweets))
        .expect_err("invalid timestamps must not panic");

    assert_eq!(failure.kind(), ThreadExportFailureKind::InvalidTimestamp);
    assert_eq!(failure.tweet_id(), Some("broken"));
    assert_eq!(failure.to_string(), "tweet broken has invalid timestamp \"not-a-date\"");
}

#[test]
fn retweeted_bad_timestamps_are_ignored() {
    let tweets = vec![
        create_archive_fixture_tweet("1", "Mon Jan 01 12:00:00 +0000 2024", None, false),
        create_archive_fixture_tweet("2", "garbage", None, true),
    ];
    let prepared = prepare(tweets);
    assert_eq!(prepared.threads().len(), 1);
    assert_eq!(prepared.excluded_retweet_count(), 1);
}

#[test]
fn empty_archive_exports_zero() {
    for tweets in [
        Vec::new(),
        vec![create_archive_fixture_tweet("1", "Mon Jan 01 12:00:00 +0000 2024", None, true)],
    ] {
        let prepared = prepare(tweets);
        assert!(prepared.threads().is_empty());
    }
}

#[test]
fn thread_tweets_sort_chronologically() {
    let tweets = vec![
        create_archive_fixture_tweet("1", "Wed Jan 31 23:59:00 +0000 2024", None, false),
        create_archive_fixture_tweet("2", "Thu Feb 01 00:01:00 +0000 2024", Some("1"), false),
    ];

    let prepared = prepare(tweets);
    let identifiers = prepared.threads()[0]
        .tweets
        .iter()
        .map(|tweet| tweet.id_str.as_str())
        .collect::<Vec<_>>();

    assert_eq!(identifiers, vec!["1", "2"]);
    assert_eq!(prepared.threads()[0].id, "1");
}

#[test]
fn offsets_order_by_instant() {
    // 12:30 at +0200 is 10:30 UTC, before 11:00 UTC.
    let tweets = vec![
        create_archive_fixture_tweet("1", "Mon Jan 01 11:00:00 +0000 2024", None, false),
        create_archive_fixture_tweet("2", "Mon Jan 01 12:30:00 +0200 2024", None, false),
    ];
    let prepared = prepare(tweets);
    let order = prepared.threads().iter().map(|thread| thread.id.as_str()).collect::<Vec<_>>();
    assert_eq!(order, vec!["1", "2"]);
}

#[test]
fn semantic_parts_respect_limit() {
    let tweets = vec![
        create_parts_export_tweet("1", &format!("marker-a {}", "a".repeat(90)), None),
        create_parts_export_tweet("2", &format!("marker-b {}", "b".repeat(90)), None),
        create_parts_export_tweet("3", &format!("marker-c {}", "c".repeat(90)), None),
    ];
    let prepared = prepare(tweets);
    let full_payload = full_text(&prepared);
    let limit = 300;

    let payloads = part_payloads(&prepared, limit);

    assert!(payloads.len() > 1);
    assert!(payloads.iter().all(|payload| !payload.is_empty() && payload.len() < limit));
    assert!(payloads.iter().all(|payload| validate_part_payload(payload, limit).is_ok()));
    let combined = payloads.join("");
    let mut full_order = ["marker-a", "marker-b", "marker-c"];
    full_order.sort_by_key(|marker| full_payload.find(marker));
    let mut parts_order = ["marker-a", "marker-b", "marker-c"];
    parts_order.sort_by_key(|marker| combined.find(marker));
    assert_eq!(parts_order, full_order);
    // Whole threads fit, so the parts rebuild the complete text.
    assert_eq!(combined, full_payload);
}

#[test]
fn small_export_creates_one() {
    let prepared = prepare(vec![create_parts_export_tweet("1", "small text", None)]);
    let full_payload = full_text(&prepared);

    let payloads = part_payloads(&prepared, 10_000);

    assert_eq!(payloads, vec![full_payload]);
}

#[test]
fn oversized_thread_splits_tweets() {
    let prepared = prepare(vec![
        create_parts_export_tweet("1", &"a".repeat(220), None),
        create_parts_export_tweet("2", &"b".repeat(220), Some("1")),
    ]);

    let payloads = part_payloads(&prepared, 450);

    assert!(payloads.len() >= 2);
    assert!(payloads.iter().all(|payload| {
        payload.contains("Thread ID: 1") && payload.contains("Thread continuation:")
    }));
    assert!(payloads.join("").find(&"a".repeat(220)).is_some());
    assert!(payloads.join("").find(&"b".repeat(220)).is_some());
    assert!(payloads.iter().all(|payload| payload.len() < 450));
}

#[test]
fn oversized_tweet_splits_utf8() {
    let unicode_text = "🙂".repeat(300);
    let prepared = prepare(vec![create_parts_export_tweet("1", &unicode_text, None)]);

    let payloads = part_payloads(&prepared, 350);

    assert!(payloads.len() > 1);
    assert!(payloads
        .iter()
        .all(|payload| payload.len() < 350 && payload.contains("Tweet text continuation:")));
    assert_eq!(payloads.join("").matches('🙂').count(), 300);
}

#[test]
fn impossible_part_limit_fails() {
    let prepared = prepare(vec![create_parts_export_tweet("1", "cannot fit", None)]);

    let failure = plan_semantic_thread_parts(&prepared, 40)
        .expect_err("a limit below required metadata must fail without looping");

    assert_eq!(failure.kind(), ThreadExportFailureKind::PartLimitTooSmall);
}

#[test]
fn empty_export_plans_no_parts() {
    let prepared = prepare(Vec::new());
    let plan = plan_semantic_thread_parts(&prepared, 100).expect("nothing to split");
    assert_eq!(plan.part_count(), 0);
}

#[test]
fn payload_validation() {
    let failure = validate_part_payload("", 10).expect_err("empty payloads are refused");
    assert_eq!(
        failure.to_string(),
        "exclusive part limit 10 is too small; at least 1 bytes are required"
    );
    let failure = validate_part_payload("0123456789", 10).expect_err("the limit is exclusive");
    assert_eq!(failure.kind(), ThreadExportFailureKind::PartLimitTooSmall);
    assert_eq!(
        failure.to_string(),
        "exclusive part limit 10 is too small; at least 11 bytes are required"
    );
    assert!(validate_part_payload("012345678", 10).is_ok());
}

#[test]
fn part_requests_default_to_production_limit() {
    let outcome = CompleteThreadExportOutcome::new(
        "/out".to_owned(),
        CompleteThreadOutput::new("/out/tweet-scrolls-full.txt".to_owned(), 12, 1),
        prepare(vec![create_parts_export_tweet("1", "x", None)]),
    );
    assert_eq!(SemanticPartExportRequest::new(&outcome).exclusive_limit(), PRODUCTION_PART_LIMIT_EXCLUSIVE);
    assert_eq!(SemanticPartExportRequest::with_limit(&outcome, 77).exclusive_limit(), 77);
    assert!(outcome.has_thread_content());
    assert_eq!(outcome.byte_count(), 12);
}

#[test]
fn failure_messages() {
    let cases = [
        (
            ThreadExportFailure::InvalidArchive { path: "/p".into(), message: "m".into() },
            ThreadExportFailureKind::InvalidArchive,
            "invalid Twitter archive at /p: m",
        ),
        (
            ThreadExportFailure::ArchiveRead { path: "/p".into(), source: "s".into() },
            ThreadExportFailureKind::ArchiveRead,
            "failed to read Twitter archive file /p: s",
        ),
        (
            ThreadExportFailure::OutputCollision { path: "/o".into() },
            ThreadExportFailureKind::OutputCollision,
            "output folder already exists: /o",
        ),
        (
            ThreadExportFailure::OutputWrite { path: "/o".into(), source: "s".into() },
            ThreadExportFailureKind::OutputWrite,
            "failed to write output path /o: s",
        ),
        (
            ThreadExportFailure::OutputCommit {
                temporary_path: "/t".into(),
                completed_path: "/c".into(),
                source: "s".into(),
            },
            ThreadExportFailureKind::OutputCommit,
            "failed to commit output from /t to /c: s",
        ),
        (
            ThreadExportFailure::PartWrite { path: "/p".into(), source: "s".into() },
            ThreadExportFailureKind::PartWrite,
            "failed to write semantic part /p: s",
        ),
        (
            ThreadExportFailure::PartCommit {
                temporary_path: "/t".into(),
                completed_path: "/c".into(),
                source: "s".into(),
            },
            ThreadExportFailureKind::PartCommit,
            "failed to commit semantic part from /t to /c: s",
        ),
        (
            ThreadExportFailure::BackgroundTask { message: "m".into() },
            ThreadExportFailureKind::BackgroundTask,
            "background archive task failed: m",
        ),
    ];
    for (failure, kind, message) in cases {
        assert_eq!(failure.kind(), kind);
        assert_eq!(failure.to_string(), message);
        assert_eq!(failure.tweet_id(), None);
        assert_eq!(failure.thread_id(), None);
    }
}
