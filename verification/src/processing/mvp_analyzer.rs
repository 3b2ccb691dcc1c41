//! Relationship and activity analysis of tweets: who you interact with most, and when you
//! are most active.

use vstd::prelude::*;

use crate::processing::data_structures::{Thread, ThreadModel, TweetModel, UserMentionModel};
use crate::processing::keyed::{inserted, lemma_lookup_inserted, lookup, CountMap, NamedMap};
use crate::sort::{count_order_desc, sorted_by_count_desc, stable_order};
use crate::text::{decimal, u64_to_decimal};

verus! {

/// Simple relationship statistics.
#[derive(Debug)]
pub struct SimpleRelationship {
    /// The username of the user in this relationship.
    pub username: String,
    /// Total number of interactions with this user.
    pub interaction_count: u32,
    /// Timestamp of the last interaction.
    pub last_interaction: String,
    /// Type of interactions: `tweets`, `dms` or `both`.
    pub interaction_type: String,
}

/// Abstract value of a [`SimpleRelationship`].
pub struct RelationshipModel {
    /// The username.
    pub username: Seq<char>,
    /// The interaction count.
    pub interaction_count: u32,
    /// The last interaction's timestamp.
    pub last_interaction: Seq<char>,
    /// The interaction type.
    pub interaction_type: Seq<char>,
}

impl View for SimpleRelationship {
    type V = RelationshipModel;

    open spec fn view(&self) -> RelationshipModel {
        RelationshipModel {
            username: self.username@,
            interaction_count: self.interaction_count,
            last_interaction: self.last_interaction@,
            interaction_type: self.interaction_type@,
        }
    }
}

impl Clone for SimpleRelationship {
    fn clone(&self) -> (res: Self)
        ensures
            res@ == self@,
    {
        SimpleRelationship {
            username: self.username.clone(),
            interaction_count: self.interaction_count,
            last_interaction: self.last_interaction.clone(),
            interaction_type: self.interaction_type.clone(),
        }
    }
}

/// Simple activity pattern.
#[derive(Debug)]
pub struct ActivityPattern {
    /// Hour of the day (0-23).
    pub hour: u32,
    /// Number of activities in this time period.
    pub activity_count: u32,
    /// Day of the week.
    pub day_of_week: String,
}

impl Clone for ActivityPattern {
    fn clone(&self) -> (res: Self)
        ensures
            res.hour == self.hour,
            res.activity_count == self.activity_count,
            res.day_of_week@ == self.day_of_week@,
    {
        ActivityPattern {
            hour: self.hour,
            activity_count: self.activity_count,
            day_of_week: self.day_of_week.clone(),
        }
    }
}

/// The local hour and weekday name of a timestamp text read under a `strftime` format.
pub uninterp spec fn parsed_hour_and_weekday(text: Seq<char>, format: Seq<char>) -> Option<
    (u32, Seq<char>),
>;

/// Reads the local hour and the weekday name of a timestamp.
///
/// Calls `chrono::DateTime::parse_from_str`, then `hour` and `format("%A")` of the parsed
/// value. The contract claims that the result is the named reading of the two arguments and,
/// as chrono documents for `hour`, that the hour is below 24.
#[verifier::external_body]
fn parse_hour_and_weekday(text: &str, format: &str) -> (reading: Option<(u32, String)>)
    ensures
        match reading {
            Some((hour, day)) => parsed_hour_and_weekday(text@, format@) == Some((hour, day@))
                && hour < 24,
            None => parsed_hour_and_weekday(text@, format@) is None,
        },
{
    match chrono::DateTime::parse_from_str(text, format) {
        Ok(parsed) => Some((chrono::Timelike::hour(&parsed), parsed.format("%A").to_string())),
        Err(_) => None,
    }
}

/// The analyzer's state as plain values.
pub struct AnalyzerModel {
    /// Relationship records by user name.
    pub relationships: Seq<(Seq<char>, RelationshipModel)>,
    /// Activity counts by hour.
    pub hourly: Seq<(u32, u32)>,
    /// Activity counts by weekday name.
    pub daily: Seq<(Seq<char>, u32)>,
}

/// Whether an entry's count can be bumped without leaving `u32`.
pub open spec fn can_bump<K>(entries: Seq<(K, u32)>, key: K) -> bool {
    match lookup(entries, key) {
        Some(c) => c < u32::MAX,
        None => true,
    }
}

/// Adds one to the count of `key`, starting it at one.
pub open spec fn bumped<K>(entries: Seq<(K, u32)>, key: K) -> Seq<(K, u32)> {
    match lookup(entries, key) {
        Some(c) => inserted(entries, key, (c + 1) as u32),
        None => inserted(entries, key, 1),
    }
}

/// Whether an interaction with `name` can be recorded without leaving `u32`.
pub open spec fn can_record(relationships: Seq<(Seq<char>, RelationshipModel)>, name: Seq<char>) -> bool {
    match lookup(relationships, name) {
        Some(r) => r.interaction_count < u32::MAX,
        None => true,
    }
}

/// Records a tweet interaction with `name` at `at`: one more interaction, now the last one.
pub open spec fn recorded(
    relationships: Seq<(Seq<char>, RelationshipModel)>,
    name: Seq<char>,
    at: Seq<char>,
) -> Seq<(Seq<char>, RelationshipModel)> {
    match lookup(relationships, name) {
        Some(r) => inserted(
            relationships,
            name,
            RelationshipModel {
                interaction_count: (r.interaction_count + 1) as u32,
                last_interaction: at,
                ..r
            },
        ),
        None => inserted(
            relationships,
            name,
            RelationshipModel {
                username: name,
                interaction_count: 1,
                last_interaction: at,
                interaction_type: "tweets"@,
            },
        ),
    }
}

/// The tweet timestamp format.
pub open spec fn tweet_timestamp_format() -> Seq<char> {
    "%a %b %d %H:%M:%S %z %Y"@
}

/// The names a tweet interacts with: its mentions, in order, then the user it replies to.
pub open spec fn interaction_names(tweet: TweetModel) -> Seq<Seq<char>> {
    let mentions = Seq::new(
        tweet.entities.user_mentions.len(),
        |k: int| tweet.entities.user_mentions[k].screen_name,
    );
    match tweet.in_reply_to_screen_name {
        Some(user) => mentions.push(user),
        None => mentions,
    }
}

/// Records interactions with the first `count` names.
pub open spec fn recorded_all(
    relationships: Seq<(Seq<char>, RelationshipModel)>,
    names: Seq<Seq<char>>,
    at: Seq<char>,
    count: nat,
) -> Seq<(Seq<char>, RelationshipModel)>
    decreases count,
{
    if count == 0 {
        relationships
    } else {
        recorded(recorded_all(relationships, names, at, (count - 1) as nat), names[count - 1], at)
    }
}

/// Whether recording the first `count` names stays within `u32`.
pub open spec fn can_record_all(
    relationships: Seq<(Seq<char>, RelationshipModel)>,
    names: Seq<Seq<char>>,
    at: Seq<char>,
    count: nat,
) -> bool
    decreases count,
{
    if count == 0 {
        true
    } else {
        can_record_all(relationships, names, at, (count - 1) as nat) && can_record(
            recorded_all(relationships, names, at, (count - 1) as nat),
            names[count - 1],
        )
    }
}

/// The state after one tweet: its activity hour and day when its timestamp reads, then its
/// interactions.
pub open spec fn after_tweet(state: AnalyzerModel, tweet: TweetModel) -> AnalyzerModel {
    let timed = match parsed_hour_and_weekday(tweet.created_at, tweet_timestamp_format()) {
        Some((hour, day)) => AnalyzerModel {
            hourly: bumped(state.hourly, hour),
            daily: bumped(state.daily, day),
            ..state
        },
        None => state,
    };
    let names = interaction_names(tweet);
    AnalyzerModel {
        relationships: recorded_all(timed.relationships, names, tweet.created_at, names.len()),
        ..timed
    }
}

/// Whether one tweet's updates stay within `u32`.
pub open spec fn tweet_fits(state: AnalyzerModel, tweet: TweetModel) -> bool {
    let timed_fits = match parsed_hour_and_weekday(tweet.created_at, tweet_timestamp_format()) {
        Some((hour, day)) => can_bump(state.hourly, hour) && can_bump(state.daily, day),
        None => true,
    };
    let names = interaction_names(tweet);
    timed_fits && can_record_all(state.relationships, names, tweet.created_at, names.len())
}

/// The state after the first `count` tweets.
pub open spec fn after_tweets(state: AnalyzerModel, tweets: Seq<TweetModel>, count: nat) -> AnalyzerModel
    decreases count,
{
    if count == 0 {
        state
    } else {
        after_tweet(after_tweets(state, tweets, (count - 1) as nat), tweets[count - 1])
    }
}

/// Whether analysing the first `count` tweets stays within `u32`.
pub open spec fn tweets_fit(state: AnalyzerModel, tweets: Seq<TweetModel>, count: nat) -> bool
    decreases count,
{
    if count == 0 {
        true
    } else {
        tweets_fit(state, tweets, (count - 1) as nat) && tweet_fits(
            after_tweets(state, tweets, (count - 1) as nat),
            tweets[count - 1],
        )
    }
}

/// The state after the tweets of the first `count` threads, thread after thread.
pub open spec fn after_threads(state: AnalyzerModel, threads: Seq<ThreadModel>, count: nat) -> AnalyzerModel
    decreases count,
{
    if count == 0 {
        state
    } else {
        let before = after_threads(state, threads, (count - 1) as nat);
        after_tweets(before, threads[count - 1].tweets, threads[count - 1].tweets.len())
    }
}

/// Whether analysing the tweets of the first `count` threads stays within `u32`.
pub open spec fn threads_fit(state: AnalyzerModel, threads: Seq<ThreadModel>, count: nat) -> bool
    decreases count,
{
    if count == 0 {
        true
    } else {
        let before = after_threads(state, threads, (count - 1) as nat);
        threads_fit(state, threads, (count - 1) as nat) && tweets_fit(
            before,
            threads[count - 1].tweets,
            threads[count - 1].tweets.len(),
        )
    }
}

/// A prefix of a run that fits also fits.
proof fn lemma_tweets_fit_prefix(state: AnalyzerModel, tweets: Seq<TweetModel>, count: nat, total: nat)
    requires
        count <= total,
        tweets_fit(state, tweets, total),
    ensures
        tweets_fit(state, tweets, count),
    decreases total - count,
{
    if count < total {
        lemma_tweets_fit_prefix(state, tweets, count, (total - 1) as nat);
    }
}

/// A prefix of a run of threads that fits also fits.
proof fn lemma_threads_fit_prefix(state: AnalyzerModel, threads: Seq<ThreadModel>, count: nat, total: nat)
    requires
        count <= total,
        threads_fit(state, threads, total),
    ensures
        threads_fit(state, threads, count),
    decreases total - count,
{
    if count < total {
        lemma_threads_fit_prefix(state, threads, count, (total - 1) as nat);
    }
}

/// A prefix of the recorded names that fits also fits.
proof fn lemma_record_fit_prefix(
    relationships: Seq<(Seq<char>, RelationshipModel)>,
    names: Seq<Seq<char>>,
    at: Seq<char>,
    count: nat,
    total: nat,
)
    requires
        count <= total,
        can_record_all(relationships, names, at, total),
    ensures
        can_record_all(relationships, names, at, count),
    decreases total - count,
{
    if count < total {
        lemma_record_fit_prefix(relationships, names, at, count, (total - 1) as nat);
    }
}

/// The counts of some counted entries.
pub open spec fn entry_counts<K>(entries: Seq<(K, u32)>) -> Seq<u32> {
    Seq::new(entries.len(), |k: int| entries[k].1)
}

/// The interaction counts of some relationship records.
pub open spec fn interaction_counts(relationships: Seq<(Seq<char>, RelationshipModel)>) -> Seq<u32> {
    Seq::new(relationships.len(), |k: int| relationships[k].1.interaction_count)
}

/// The first `limit` entries in stable order of descending counts.
pub open spec fn top_by_count<T>(items: Seq<T>, counts: Seq<u32>, limit: nat) -> Seq<T> {
    let order = stable_order(count_order_desc(counts), counts.len());
    let taken = if limit < counts.len() {
        limit
    } else {
        counts.len()
    };
    Seq::new(taken, |k: int| items[order[k] as int])
}

/// An hour of the day on a twelve-hour clock.
pub open spec fn clock_time(hour: u32) -> Seq<char> {
    if hour == 0 {
        "12:00 AM"@
    } else if hour < 12 {
        decimal(hour as nat) + ":00 AM"@
    } else if hour == 12 {
        "12:00 PM"@
    } else {
        decimal((hour - 12) as nat) + ":00 PM"@
    }
}

/// An hour of the day in words: midnight and noon by name.
pub open spec fn spoken_time(hour: u32) -> Seq<char> {
    if hour == 0 {
        "midnight"@
    } else if hour < 12 {
        decimal(hour as nat) + ":00 AM"@
    } else if hour == 12 {
        "noon"@
    } else {
        decimal((hour - 12) as nat) + ":00 PM"@
    }
}

/// The position of the last largest count among the first `count` counts.
pub open spec fn last_max_index(counts: Seq<u32>, count: nat) -> Option<nat>
    decreases count,
{
    if count == 0 {
        None
    } else {
        match last_max_index(counts, (count - 1) as nat) {
            Some(m) => if counts[count - 1] >= counts[m as int] {
                Some((count - 1) as nat)
            } else {
                Some(m)
            },
            None => Some((count - 1) as nat),
        }
    }
}

/// The sum of the first `count` counts.
pub open spec fn count_sum(counts: Seq<u32>, count: nat) -> nat
    decreases count,
{
    if count == 0 {
        0
    } else {
        count_sum(counts, (count - 1) as nat) + counts[count - 1] as nat
    }
}

/// The report lines of the top relationships.
pub open spec fn relationship_lines(top: Seq<RelationshipModel>, count: nat) -> Seq<char>
    decreases count,
{
    if count == 0 {
        Seq::empty()
    } else {
        let r = top[count - 1];
        relationship_lines(top, (count - 1) as nat) + decimal(count) + ". @"@ + r.username + " - "@
            + decimal(r.interaction_count as nat) + " interactions ("@ + r.interaction_type + ")\n"@
    }
}

/// The report lines of the peak hours.
pub open spec fn hour_lines(peaks: Seq<(u32, u32)>, count: nat) -> Seq<char>
    decreases count,
{
    if count == 0 {
        Seq::empty()
    } else {
        hour_lines(peaks, (count - 1) as nat) + "  "@ + clock_time(peaks[count - 1].0) + " - "@
            + decimal(peaks[count - 1].1 as nat) + " activities\n"@
    }
}

/// The report lines of the active days.
pub open spec fn day_lines(days: Seq<(Seq<char>, u32)>, count: nat) -> Seq<char>
    decreases count,
{
    if count == 0 {
        Seq::empty()
    } else {
        day_lines(days, (count - 1) as nat) + "  "@ + days[count - 1].0 + " - "@ + decimal(
            days[count - 1].1 as nat,
        ) + " activities\n"@
    }
}

/// The top relationships of a state: at most ten, the most interactions first.
pub open spec fn top_relationships(state: AnalyzerModel) -> Seq<RelationshipModel> {
    let values = Seq::new(state.relationships.len(), |k: int| state.relationships[k].1);
    top_by_count(values, interaction_counts(state.relationships), 10)
}

/// The top relationships are at most ten, ranked by interaction count, most first.
pub proof fn lemma_top_relationships_ranked(state: AnalyzerModel)
    requires
        state.relationships.len() <= usize::MAX,
    ensures
        top_relationships(state).len() <= 10,
        forall|a: int, b: int|
            0 <= a < b < top_relationships(state).len() ==> (#[trigger] top_relationships(state)[a]).interaction_count
                >= (#[trigger] top_relationships(state)[b]).interaction_count,
{
    let counts = interaction_counts(state.relationships);
    crate::sort::lemma_count_order_total(counts);
    crate::sort::lemma_stable_order_facts(count_order_desc(counts), counts.len());
    let order = stable_order(count_order_desc(counts), counts.len());
    assert forall|a: int, b: int|
        0 <= a < b < top_relationships(state).len() implies (#[trigger] top_relationships(state)[a]).interaction_count
            >= (#[trigger] top_relationships(state)[b]).interaction_count by {
        assert(count_order_desc(counts)(order[a] as nat, order[b] as nat));
    }
}

/// The position of the busiest hour of a state.
pub open spec fn busiest_hour(state: AnalyzerModel) -> Option<nat> {
    last_max_index(entry_counts(state.hourly), state.hourly.len())
}

/// The report section on the top relationships.
pub open spec fn relationships_section(state: AnalyzerModel) -> Seq<char> {
    let top = top_relationships(state);
    "👥 TOP PEOPLE YOU INTERACT WITH\n"@ + "--------------------------------\n"@ + if top.len() == 0 {
        "No significant relationships found in the data.\n\n"@
    } else {
        relationship_lines(top, top.len()) + "\n"@
    }
}

/// The report section on activity times.
pub open spec fn activity_section(state: AnalyzerModel) -> Seq<char> {
    let peaks = top_by_count(state.hourly, entry_counts(state.hourly), 5);
    let days = top_by_count(state.daily, entry_counts(state.daily), state.daily.len());
    let hours_part = if peaks.len() == 0 {
        Seq::empty()
    } else {
        "Peak Activity Hours:\n"@ + hour_lines(peaks, peaks.len()) + "\n"@
    };
    let days_part = if days.len() == 0 {
        Seq::empty()
    } else {
        "Most Active Days:\n"@ + day_lines(days, days.len()) + "\n"@
    };
    "⏰ WHEN YOU'RE MOST ACTIVE\n"@ + "---------------------------\n"@ + hours_part + days_part
}

/// The report section of summary statistics.
pub open spec fn summary_section(state: AnalyzerModel) -> Seq<char> {
    let peak_line = match busiest_hour(state) {
        Some(m) => "Peak activity time: "@ + clock_time(state.hourly[m as int].0) + " ("@ + decimal(
            state.hourly[m as int].1 as nat,
        ) + " activities)\n"@,
        None => Seq::empty(),
    };
    "📊 SUMMARY STATISTICS\n"@ + "---------------------\n"@ + "Total unique relationships: "@
        + decimal(state.relationships.len()) + "\n"@ + "Total activities tracked: "@ + decimal(
        count_sum(entry_counts(state.hourly), state.hourly.len()),
    ) + "\n"@ + peak_line + "\n"@
}

/// The report section of insights.
pub open spec fn insights_section(state: AnalyzerModel) -> Seq<char> {
    let top = top_relationships(state);
    let strongest = if top.len() == 0 {
        Seq::empty()
    } else {
        "• Your strongest connection is @"@ + top[0].username + " with "@ + decimal(
            top[0].interaction_count as nat,
        ) + " interactions\n"@
    };
    let active_around = match busiest_hour(state) {
        Some(m) => "• You're most active around "@ + spoken_time(state.hourly[m as int].0) + "\n"@,
        None => Seq::empty(),
    };
    let network = if state.relationships.len() > 5 {
        "• You have a diverse network of connections\n"@
    } else if state.relationships.len() > 0 {
        "• You tend to interact with a focused group of people\n"@
    } else {
        Seq::empty()
    };
    "💡 INSIGHTS & RECOMMENDATIONS\n"@ + "------------------------------\n"@ + strongest
        + active_around + network + "\n"@
}

/// The relationship intelligence report of an analyzer state, stamped with its generation
/// time.
pub open spec fn report_text(state: AnalyzerModel, generated_at: Seq<char>) -> Seq<char> {
    "🎯 TWITTER RELATIONSHIP & ACTIVITY INTELLIGENCE REPORT\n"@
        + "=====================================================\n\n"@ + relationships_section(state)
        + activity_section(state) + summary_section(state) + insights_section(state)
        + "Generated by Tweet-Scrolls Relationship Intelligence System\n"@
        + "Report generated at: "@ + generated_at + "\n"@
}

/// The name of the report file for a screen name and a run timestamp.
pub open spec fn report_file_name(screen_name: Seq<char>, timestamp: int) -> Seq<char> {
    "relationship_intelligence_"@ + screen_name + "_"@ + crate::text::signed_decimal(timestamp)
        + ".txt"@
}

/// Builds the name of the report file.
pub fn report_file_name_for(screen_name: &str, timestamp: i64) -> (name: String)
    ensures
        name@ == report_file_name(screen_name@, timestamp as int),
{
    let mut name = "relationship_intelligence_".to_owned();
    name.append(screen_name);
    name.append("_");
    let stamp = crate::text::i64_to_decimal(timestamp);
    name.append(stamp.as_str());
    name.append(".txt");
    name
}

/// Renders an hour on a twelve-hour clock.
fn clock_time_text(hour: u32) -> (text: String)
    ensures
        text@ == clock_time(hour),
{
    if hour == 0 {
        "12:00 AM".to_owned()
    } else if hour < 12 {
        let mut text = u64_to_decimal(hour as u64);
        text.append(":00 AM");
        text
    } else if hour == 12 {
        "12:00 PM".to_owned()
    } else {
        let mut text = u64_to_decimal((hour - 12) as u64);
        text.append(":00 PM");
        text
    }
}

/// Renders an hour in words.
fn spoken_time_text(hour: u32) -> (text: String)
    ensures
        text@ == spoken_time(hour),
{
    if hour == 0 {
        "midnight".to_owned()
    } else if hour < 12 {
        let mut text = u64_to_decimal(hour as u64);
        text.append(":00 AM");
        text
    } else if hour == 12 {
        "noon".to_owned()
    } else {
        let mut text = u64_to_decimal((hour - 12) as u64);
        text.append(":00 PM");
        text
    }
}

/// Appends the lines of the top relationships.
fn push_relationship_lines(report: &mut String, top: &Vec<SimpleRelationship>)
    ensures
        final(report)@ == old(report)@ + relationship_lines(
            Seq::new(top@.len(), |k: int| top@[k]@),
            top@.len(),
        ),
{
    let ghost models = Seq::new(top@.len(), |k: int| top@[k]@);
    let ghost start = report@;
    let mut i: usize = 0;
    while i < top.len()
        invariant
            models == Seq::new(top@.len(), |k: int| top@[k]@),
            i <= top@.len(),
            report@ == start + relationship_lines(models, i as nat),
        decreases top@.len() - i,
    {
        let r = &top[i];
        let position = u64_to_decimal((i as u64) + 1);
        report.append(position.as_str());
        report.append(". @");
        report.append(r.username.as_str());
        report.append(" - ");
        let count = u64_to_decimal(r.interaction_count as u64);
        report.append(count.as_str());
        report.append(" interactions (");
        report.append(r.interaction_type.as_str());
        report.append(")\n");
        proof {
            assert(models[i as int] == r@);
            assert(report@ =~= start + relationship_lines(models, (i + 1) as nat));
        }
        i = i + 1;
    }
}

/// Appends the lines of the peak hours.
fn push_hour_lines(report: &mut String, peaks: &Vec<(u32, u32)>)
    ensures
        final(report)@ == old(report)@ + hour_lines(peaks@, peaks@.len()),
{
    let ghost start = report@;
    let mut i: usize = 0;
    while i < peaks.len()
        invariant
            i <= peaks@.len(),
            report@ == start + hour_lines(peaks@, i as nat),
        decreases peaks@.len() - i,
    {
        let (hour, count) = peaks[i];
        report.append("  ");
        let time = clock_time_text(hour);
        report.append(time.as_str());
        report.append(" - ");
        let count_text = u64_to_decimal(count as u64);
        report.append(count_text.as_str());
        report.append(" activities\n");
        proof {
            assert(report@ =~= start + hour_lines(peaks@, (i + 1) as nat));
        }
        i = i + 1;
    }
}

/// Appends the lines of the active days.
fn push_day_lines(report: &mut String, days: &Vec<(String, u32)>)
    ensures
        final(report)@ == old(report)@ + day_lines(
            Seq::new(days@.len(), |k: int| (days@[k].0@, days@[k].1)),
            days@.len(),
        ),
{
    let ghost models = Seq::new(days@.len(), |k: int| (days@[k].0@, days@[k].1));
    let ghost start = report@;
    let mut i: usize = 0;
    while i < days.len()
        invariant
            models == Seq::new(days@.len(), |k: int| (days@[k].0@, days@[k].1)),
            i <= days@.len(),
            report@ == start + day_lines(models, i as nat),
        decreases days@.len() - i,
    {
        report.append("  ");
        report.append(days[i].0.as_str());
        report.append(" - ");
        let count_text = u64_to_decimal(days[i].1 as u64);
        report.append(count_text.as_str());
        report.append(" activities\n");
        proof {
            assert(report@ =~= start + day_lines(models, (i + 1) as nat));
        }
        i = i + 1;
    }
}

/// The sum of some counts, when it fits in a `u32`.
fn sum_counts(entries: &[(u32, u32)]) -> (total: u32)
    requires
        count_sum(entry_counts(entries@), entries@.len()) <= u32::MAX,
    ensures
        total == count_sum(entry_counts(entries@), entries@.len()),
{
    let ghost counts = entry_counts(entries@);
    let mut total: u32 = 0;
    let mut k: usize = 0;
    while k < entries.len()
        invariant
            counts == entry_counts(entries@),
            counts.len() == entries@.len(),
            count_sum(counts, counts.len()) <= u32::MAX,
            k <= entries@.len(),
            total == count_sum(counts, k as nat),
        decreases entries@.len() - k,
    {
        proof {
            lemma_count_sum_monotonic(counts, (k + 1) as nat, counts.len());
        }
        total = total + entries[k].1;
        k = k + 1;
    }
    total
}

/// Sums over longer prefixes are no smaller.
proof fn lemma_count_sum_monotonic(counts: Seq<u32>, a: nat, b: nat)
    requires
        a <= b,
    ensures
        count_sum(counts, a) <= count_sum(counts, b),
    decreases b - a,
{
    if a < b {
        lemma_count_sum_monotonic(counts, a, (b - 1) as nat);
    }
}

/// The position of the last largest count, as `max_by_key` finds it.
fn busiest_position(entries: &[(u32, u32)]) -> (found: Option<usize>)
    ensures
        match found {
            Some(m) => last_max_index(entry_counts(entries@), entries@.len()) == Some(m as nat)
                && m < entries@.len(),
            None => last_max_index(entry_counts(entries@), entries@.len()) is None,
        },
{
    let ghost counts = entry_counts(entries@);
    let mut best: Option<usize> = None;
    let mut k: usize = 0;
    while k < entries.len()
        invariant
            counts == entry_counts(entries@),
            k <= entries@.len(),
            match best {
                Some(m) => last_max_index(counts, k as nat) == Some(m as nat) && m < k,
                None => last_max_index(counts, k as nat) is None && k == 0,
            },
        decreases entries@.len() - k,
    {
        best = match best {
            Some(m) => if entries[k].1 >= entries[m].1 {
                Some(k)
            } else {
                Some(m)
            },
            None => Some(k),
        };
        k = k + 1;
    }
    best
}

/// Analyzer for immediate insights into relationships and activity.
#[derive(Debug)]
pub struct MvpAnalyzer {
    /// Relationship records by user name.
    pub relationships: NamedMap<SimpleRelationship>,
    /// Activity counts by hour of day (0-23).
    pub hourly_activity: CountMap,
    /// Activity counts by day of week.
    pub daily_activity: NamedMap<u32>,
}

impl MvpAnalyzer {
    /// The analyzer's state.
    pub open spec fn model(&self) -> AnalyzerModel {
        AnalyzerModel {
            relationships: self.relationships.spec_entries(),
            hourly: self.hourly_activity.spec_entries(),
            daily: self.daily_activity.spec_entries(),
        }
    }

    /// Creates an analyzer with nothing recorded.
    pub fn new() -> (analyzer: Self)
        ensures
            analyzer.model().relationships.len() == 0,
            analyzer.model().hourly.len() == 0,
            analyzer.model().daily.len() == 0,
    {
        MvpAnalyzer {
            relationships: NamedMap::new(),
            hourly_activity: CountMap::new(),
            daily_activity: NamedMap::new(),
        }
    }

    /// Adds one to the count of an hour.
    fn bump_hour(&mut self, hour: u32)
        requires
            can_bump(old(self).model().hourly, hour),
        ensures
            final(self).model() == (AnalyzerModel { hourly: bumped(old(self).model().hourly, hour), ..old(self).model() }),
    {
        let next = match self.hourly_activity.get(&hour) {
            Some(c) => c + 1,
            None => 1,
        };
        self.hourly_activity.insert(hour, next);
    }

    /// Adds one to the count of a day.
    fn bump_day(&mut self, day: String)
        requires
            can_bump(old(self).model().daily, day@),
        ensures
            final(self).model() == (AnalyzerModel { daily: bumped(old(self).model().daily, day@), ..old(self).model() }),
    {
        let next = match self.daily_activity.get(day.as_str()) {
            Some(c) => *c + 1,
            None => 1,
        };
        self.daily_activity.insert(day, next);
    }

    /// Records a tweet interaction with `name` at `at`.
    fn record_tweet_interaction(&mut self, name: &str, at: &str)
        requires
            can_record(old(self).model().relationships, name@),
        ensures
            final(self).model() == (AnalyzerModel {
                relationships: recorded(old(self).model().relationships, name@, at@),
                ..old(self).model()
            }),
    {
        proof {
            reveal_strlit("tweets");
        }
        let updated = match self.relationships.get(name) {
            Some(r) => SimpleRelationship {
                username: r.username.clone(),
                interaction_count: r.interaction_count + 1,
                last_interaction: at.to_owned(),
                interaction_type: r.interaction_type.clone(),
            },
            None => SimpleRelationship {
                username: name.to_owned(),
                interaction_count: 1,
                last_interaction: at.to_owned(),
                interaction_type: "tweets".to_owned(),
            },
        };
        self.relationships.insert(name.to_owned(), updated);
    }

    /// Analyzes one tweet: its activity hour and day, then its interactions.
    fn analyze_tweet(&mut self, tweet: &crate::processing::data_structures::Tweet)
        requires
            tweet_fits(old(self).model(), tweet@),
        ensures
            final(self).model() == after_tweet(old(self).model(), tweet@),
    {
        let ghost start = self.model();
        proof {
            reveal_strlit("%a %b %d %H:%M:%S %z %Y");
        }
        match parse_hour_and_weekday(tweet.created_at.as_str(), "%a %b %d %H:%M:%S %z %Y") {
            Some((hour, day)) => {
                self.bump_hour(hour);
                self.bump_day(day);
            },
            None => {},
        }
        let ghost timed = self.model();
        let ghost names = interaction_names(tweet@);
        let mentions = &tweet.entities.user_mentions;
        let mut k: usize = 0;
        while k < mentions.len()
            invariant
                names == interaction_names(tweet@),
                k <= mentions@.len(),
                mentions@.len() <= names.len(),
                forall|j: int| 0 <= j < mentions@.len() ==> names[j] == (#[trigger] mentions@[j]).screen_name@,
                can_record_all(timed.relationships, names, tweet.created_at@, names.len()),
                self.model() == (AnalyzerModel {
                    relationships: recorded_all(timed.relationships, names, tweet.created_at@, k as nat),
                    ..timed
                }),
            decreases mentions@.len() - k,
        {
            proof {
                lemma_record_fit_prefix(timed.relationships, names, tweet.created_at@, (k + 1) as nat, names.len());
            }
            self.record_tweet_interaction(mentions[k].screen_name.as_str(), tweet.created_at.as_str());
            k = k + 1;
        }
        match &tweet.in_reply_to_screen_name {
            Some(user) => {
                self.record_tweet_interaction(user.as_str(), tweet.created_at.as_str());
            },
            None => {},
        }
    }

    /// Whether recording an interaction with `name` would leave `u32`.
    fn relationship_full(&self, name: &str) -> (full: bool)
        ensures
            full == !can_record(self.model().relationships, name@),
    {
        match self.relationships.get(name) {
            Some(r) => r.interaction_count == u32::MAX,
            None => false,
        }
    }

    /// Analyzes one tweet as [`Self::analyze_tweet`] does when its updates fit, and reports
    /// whether they fit; when they do not, the state left behind is unspecified.
    fn checked_analyze_tweet(&mut self, tweet: &crate::processing::data_structures::Tweet) -> (ok:
        bool)
        ensures
            ok == tweet_fits(old(self).model(), tweet@),
            ok ==> final(self).model() == after_tweet(old(self).model(), tweet@),
    {
        let ghost start = self.model();
        proof {
            reveal_strlit("%a %b %d %H:%M:%S %z %Y");
        }
        match parse_hour_and_weekday(tweet.created_at.as_str(), "%a %b %d %H:%M:%S %z %Y") {
            Some((hour, day)) => {
                let hour_full = match self.hourly_activity.get(&hour) {
                    Some(c) => c == u32::MAX,
                    None => false,
                };
                let day_full = match self.daily_activity.get(day.as_str()) {
                    Some(c) => *c == u32::MAX,
                    None => false,
                };
                if hour_full || day_full {
                    return false;
                }
                self.bump_hour(hour);
                self.bump_day(day);
            },
            None => {},
        }
        let ghost timed = self.model();
        let ghost names = interaction_names(tweet@);
        let ghost at = tweet.created_at@;
        let mentions = &tweet.entities.user_mentions;
        let mut k: usize = 0;
        while k < mentions.len()
            invariant
                names == interaction_names(tweet@),
                at == tweet.created_at@,
                start == old(self).model(),
                timed.relationships == start.relationships,
                k <= mentions@.len(),
                mentions@.len() <= names.len(),
                forall|j: int| 0 <= j < mentions@.len() ==> names[j] == (#[trigger] mentions@[j]).screen_name@,
                can_record_all(timed.relationships, names, at, k as nat),
                self.model() == (AnalyzerModel {
                    relationships: recorded_all(timed.relationships, names, at, k as nat),
                    ..timed
                }),
            decreases mentions@.len() - k,
        {
            if self.relationship_full(mentions[k].screen_name.as_str()) {
                proof {
                    assert(!can_record_all(timed.relationships, names, at, (k + 1) as nat));
                    if can_record_all(timed.relationships, names, at, names.len()) {
                        lemma_record_fit_prefix(timed.relationships, names, at, (k + 1) as nat, names.len());
                    }
                    assert(tweet@.created_at == at);
                    assert(!tweet_fits(start, tweet@));
                }
                return false;
            }
            self.record_tweet_interaction(mentions[k].screen_name.as_str(), tweet.created_at.as_str());
            k = k + 1;
        }
        match &tweet.in_reply_to_screen_name {
            Some(user) => {
                if self.relationship_full(user.as_str()) {
                    proof {
                        assert(names.len() == k + 1);
                        assert(!can_record_all(timed.relationships, names, at, names.len()));
                    }
                    return false;
                }
                self.record_tweet_interaction(user.as_str(), tweet.created_at.as_str());
            },
            None => {
                proof {
                    assert(names.len() == k);
                }
            },
        }
        true
    }

    /// Analyzes the tweets of the threads as [`Self::analyze_tweets`] does, or gives `None`
    /// and leaves the analyzer unchanged when some count would leave `u32`.
    pub fn try_analyze_tweets(&mut self, threads: &[Thread]) -> (result: Option<Result<(), String>>)
        ensures
            match result {
                None => !threads_fit(old(self).model(), threads.deep_view(), threads.deep_view().len())
                    && final(self).model() == old(self).model(),
                Some(r) => threads_fit(old(self).model(), threads.deep_view(), threads.deep_view().len())
                    && r is Ok && final(self).model() == after_threads(
                    old(self).model(),
                    threads.deep_view(),
                    threads.deep_view().len(),
                ),
            },
    {
        let ghost start = self.model();
        let ghost model = threads.deep_view();
        let mut scratch = MvpAnalyzer {
            relationships: self.relationships.copied(),
            hourly_activity: self.hourly_activity.copied(),
            daily_activity: self.daily_activity.copied(),
        };
        let mut t: usize = 0;
        while t < threads.len()
            invariant
                model == threads.deep_view(),
                model.len() == threads@.len(),
                start == self.model(),
                t <= threads@.len(),
                threads_fit(start, model, t as nat),
                scratch.model() == after_threads(start, model, t as nat),
            decreases threads@.len() - t,
        {
            let thread = &threads[t];
            proof {
                assert(model[t as int] == thread@);
            }
            let ghost before = scratch.model();
            let ghost tweets = thread@.tweets;
            let mut k: usize = 0;
            while k < thread.tweets.len()
                invariant
                    model == threads.deep_view(),
                    model.len() == threads@.len(),
                    start == self.model(),
                    t < threads@.len(),
                    model[t as int] == thread@,
                    tweets == thread@.tweets,
                    tweets.len() == thread.tweets@.len(),
                    before == after_threads(start, model, t as nat),
                    threads_fit(start, model, t as nat),
                    k <= tweets.len(),
                    tweets_fit(before, tweets, k as nat),
                    scratch.model() == after_tweets(before, tweets, k as nat),
                decreases tweets.len() - k,
            {
                proof {
                    assert(tweets[k as int] == thread.tweets@[k as int]@);
                }
                if !scratch.checked_analyze_tweet(&thread.tweets[k]) {
                    proof {
                        assert(!tweets_fit(before, tweets, (k + 1) as nat));
                        if tweets_fit(before, tweets, tweets.len()) {
                            lemma_tweets_fit_prefix(before, tweets, (k + 1) as nat, tweets.len());
                        }
                        assert(!threads_fit(start, model, (t + 1) as nat));
                        if threads_fit(start, model, model.len()) {
                            lemma_threads_fit_prefix(start, model, (t + 1) as nat, model.len());
                        }
                    }
                    return None;
                }
                k = k + 1;
            }
            t = t + 1;
        }
        Some(self.analyze_tweets(threads))
    }

    /// Analyzes the tweets of the threads, thread after thread, for relationships and activity
    /// patterns. It never fails.
    pub fn analyze_tweets(&mut self, threads: &[Thread]) -> (result: Result<(), String>)
        requires
            threads_fit(old(self).model(), threads.deep_view(), threads.deep_view().len()),
        ensures
            result is Ok,
            final(self).model() == after_threads(old(self).model(), threads.deep_view(), threads.deep_view().len()),
    {
        let ghost start = self.model();
        let ghost model = threads.deep_view();
        let mut t: usize = 0;
        while t < threads.len()
            invariant
                model == threads.deep_view(),
                model.len() == threads@.len(),
                t <= threads@.len(),
                threads_fit(start, model, model.len()),
                self.model() == after_threads(start, model, t as nat),
            decreases threads@.len() - t,
        {
            let thread = &threads[t];
            proof {
                assert(model[t as int] == thread@);
                lemma_threads_fit_prefix(start, model, (t + 1) as nat, model.len());
            }
            let ghost before = self.model();
            let ghost tweets = thread@.tweets;
            let mut k: usize = 0;
            while k < thread.tweets.len()
                invariant
                    tweets == thread@.tweets,
                    tweets.len() == thread.tweets@.len(),
                    k <= tweets.len(),
                    tweets_fit(before, tweets, tweets.len()),
                    self.model() == after_tweets(before, tweets, k as nat),
                decreases tweets.len() - k,
            {
                proof {
                    assert(tweets[k as int] == thread.tweets@[k as int]@);
                    lemma_tweets_fit_prefix(before, tweets, (k + 1) as nat, tweets.len());
                }
                self.analyze_tweet(&thread.tweets[k]);
                k = k + 1;
            }
            t = t + 1;
        }
        Ok(())
    }

    /// Get top relationships by interaction count: the most interactions first, records with
    /// equal counts in the order they were first seen, at most `limit` of them.
    pub fn get_top_relationships(&self, limit: usize) -> (top: Vec<SimpleRelationship>)
        ensures
            top@.len() <= limit,
            Seq::new(top@.len(), |k: int| top@[k]@) == top_by_count(
                Seq::new(self.model().relationships.len(), |k: int| self.model().relationships[k].1),
                interaction_counts(self.model().relationships),
                limit as nat,
            ),
    {
        let ghost rels = self.model().relationships;
        let entries = self.relationships.entries();
        let mut counts: Vec<u32> = Vec::new();
        let mut k: usize = 0;
        while k < entries.len()
            invariant
                entries@.len() == rels.len(),
                forall|j: int| 0 <= j < entries@.len() ==> (#[trigger] entries@[j]).1@ == rels[j].1,
                k <= entries@.len(),
                counts@.len() == k,
                forall|j: int| 0 <= j < k ==> #[trigger] counts@[j] == rels[j].1.interaction_count,
            decreases entries@.len() - k,
        {
            counts.push(entries[k].1.interaction_count);
            k = k + 1;
        }
        proof {
            assert(counts@ =~= interaction_counts(rels));
        }
        let order = sorted_by_count_desc(&counts);
        let taken = if limit < order.len() {
            limit
        } else {
            order.len()
        };
        let mut top: Vec<SimpleRelationship> = Vec::new();
        let mut j: usize = 0;
        while j < taken
            invariant
                entries@.len() == rels.len(),
                forall|i: int| 0 <= i < entries@.len() ==> (#[trigger] entries@[i]).1@ == rels[i].1,
                order@ == stable_order(count_order_desc(interaction_counts(rels)), rels.len()),
                order@.len() == rels.len(),
                forall|i: int| 0 <= i < order@.len() ==> (#[trigger] order@[i]) < rels.len(),
                taken <= order@.len(),
                j <= taken,
                top@.len() == j,
                forall|i: int| 0 <= i < j ==> (#[trigger] top@[i])@ == rels[order@[i] as int].1,
            decreases taken - j,
        {
            top.push(entries[order[j]].1.clone());
            j = j + 1;
        }
        proof {
            assert(Seq::new(top@.len(), |k: int| top@[k]@) =~= top_by_count(
                Seq::new(rels.len(), |k: int| rels[k].1),
                interaction_counts(rels),
                limit as nat,
            ));
        }
        top
    }

    /// Get peak activity hours: the busiest hours first, hours with equal counts in the order
    /// they were first seen, at most `limit` of them.
    pub fn get_peak_activity_hours(&self, limit: usize) -> (peaks: Vec<(u32, u32)>)
        ensures
            peaks@ == top_by_count(self.model().hourly, entry_counts(self.model().hourly), limit as nat),
    {
        let entries = self.hourly_activity.entries();
        let mut counts: Vec<u32> = Vec::new();
        let mut k: usize = 0;
        while k < entries.len()
            invariant
                k <= entries@.len(),
                counts@.len() == k,
                forall|j: int| 0 <= j < k ==> #[trigger] counts@[j] == entries@[j].1,
            decreases entries@.len() - k,
        {
            counts.push(entries[k].1);
            k = k + 1;
        }
        proof {
            assert(counts@ =~= entry_counts(entries@));
        }
        let order = sorted_by_count_desc(&counts);
        let taken = if limit < order.len() {
            limit
        } else {
            order.len()
        };
        let mut peaks: Vec<(u32, u32)> = Vec::new();
        let mut j: usize = 0;
        while j < taken
            invariant
                order@ == stable_order(count_order_desc(entry_counts(entries@)), entries@.len()),
                order@.len() == entries@.len(),
                forall|i: int| 0 <= i < order@.len() ==> (#[trigger] order@[i]) < entries@.len(),
                taken <= order@.len(),
                j <= taken,
                peaks@.len() == j,
                forall|i: int| 0 <= i < j ==> #[trigger] peaks@[i] == entries@[order@[i] as int],
            decreases taken - j,
        {
            peaks.push(entries[order[j]]);
            j = j + 1;
        }
        proof {
            assert(peaks@ =~= top_by_count(entries@, entry_counts(entries@), limit as nat));
        }
        peaks
    }

    /// Get most active days: the busiest days first, days with equal counts in the order they
    /// were first seen.
    pub fn get_most_active_days(&self) -> (days: Vec<(String, u32)>)
        ensures
            Seq::new(days@.len(), |k: int| (days@[k].0@, days@[k].1)) == top_by_count(
                self.model().daily,
                entry_counts(self.model().daily),
                self.model().daily.len(),
            ),
    {
        let ghost daily = self.model().daily;
        let entries = self.daily_activity.entries();
        let mut counts: Vec<u32> = Vec::new();
        let mut k: usize = 0;
        while k < entries.len()
            invariant
                entries@.len() == daily.len(),
                forall|j: int| 0 <= j < entries@.len() ==> (#[trigger] entries@[j]).0@ == daily[j].0 && entries@[j].1 == daily[j].1,
                k <= entries@.len(),
                counts@.len() == k,
                forall|j: int| 0 <= j < k ==> #[trigger] counts@[j] == daily[j].1,
            decreases entries@.len() - k,
        {
            counts.push(entries[k].1);
            k = k + 1;
        }
        proof {
            assert(counts@ =~= entry_counts(daily));
        }
        let order = sorted_by_count_desc(&counts);
        let mut days: Vec<(String, u32)> = Vec::new();
        let mut j: usize = 0;
        while j < order.len()
            invariant
                entries@.len() == daily.len(),
                forall|i: int| 0 <= i < entries@.len() ==> (#[trigger] entries@[i]).0@ == daily[i].0 && entries@[i].1 == daily[i].1,
                order@ == stable_order(count_order_desc(entry_counts(daily)), daily.len()),
                order@.len() == daily.len(),
                forall|i: int| 0 <= i < order@.len() ==> (#[trigger] order@[i]) < daily.len(),
                j <= order@.len(),
                days@.len() == j,
                forall|i: int| 0 <= i < j ==> (#[trigger] days@[i]).0@ == daily[order@[i] as int].0 && days@[i].1 == daily[order@[i] as int].1,
            decreases order@.len() - j,
        {
            let entry = &entries[order[j]];
            days.push((entry.0.clone(), entry.1));
            j = j + 1;
        }
        proof {
            assert(Seq::new(days@.len(), |k: int| (days@[k].0@, days@[k].1)) =~= top_by_count(
                daily,
                entry_counts(daily),
                daily.len(),
            ));
        }
        days
    }

    /// The report section on the top relationships.
    fn render_relationships_section(&self) -> (section: String)
        ensures
            section@ == relationships_section(self.model()),
    {
        let ghost state = self.model();
        let mut section = "👥 TOP PEOPLE YOU INTERACT WITH\n".to_owned();
        section.append("--------------------------------\n");
        let top = self.get_top_relationships(10);
        let ghost start = section@;
        if top.len() == 0 {
            section.append("No significant relationships found in the data.\n\n");
        } else {
            push_relationship_lines(&mut section, &top);
            section.append("\n");
        }
        proof {
            assert(Seq::new(top@.len(), |k: int| top@[k]@) == top_relationships(state));
            assert(section@ =~= relationships_section(state));
        }
        section
    }

    /// The report section on activity times.
    fn render_activity_section(&self) -> (section: String)
        ensures
            section@ == activity_section(self.model()),
    {
        let ghost state = self.model();
        let mut section = "⏰ WHEN YOU'RE MOST ACTIVE\n".to_owned();
        section.append("---------------------------\n");
        let peaks = self.get_peak_activity_hours(5);
        if peaks.len() > 0 {
            section.append("Peak Activity Hours:\n");
            push_hour_lines(&mut section, &peaks);
            section.append("\n");
        }
        let ghost after_hours = section@;
        let days = self.get_most_active_days();
        if days.len() > 0 {
            section.append("Most Active Days:\n");
            push_day_lines(&mut section, &days);
            section.append("\n");
        }
        proof {
            assert(section@ =~= activity_section(state));
        }
        section
    }

    /// The report section of summary statistics.
    fn render_summary_section(&self) -> (section: String)
        requires
            count_sum(entry_counts(self.model().hourly), self.model().hourly.len()) <= u32::MAX,
        ensures
            section@ == summary_section(self.model()),
    {
        let ghost state = self.model();
        let mut section = "📊 SUMMARY STATISTICS\n".to_owned();
        section.append("---------------------\n");
        section.append("Total unique relationships: ");
        let unique = u64_to_decimal(self.relationships.len() as u64);
        section.append(unique.as_str());
        section.append("\n");
        section.append("Total activities tracked: ");
        let entries = self.hourly_activity.entries();
        let total = sum_counts(entries);
        let total_text = u64_to_decimal(total as u64);
        section.append(total_text.as_str());
        section.append("\n");
        match busiest_position(entries) {
            Some(m) => {
                section.append("Peak activity time: ");
                let time = clock_time_text(entries[m].0);
                section.append(time.as_str());
                section.append(" (");
                let count = u64_to_decimal(entries[m].1 as u64);
                section.append(count.as_str());
                section.append(" activities)\n");
            },
            None => {},
        }
        section.append("\n");
        proof {
            assert(section@ =~= summary_section(state));
        }
        section
    }

    /// The report section of insights.
    fn render_insights_section(&self) -> (section: String)
        ensures
            section@ == insights_section(self.model()),
    {
        let ghost state = self.model();
        let mut section = "💡 INSIGHTS & RECOMMENDATIONS\n".to_owned();
        section.append("------------------------------\n");
        let top = self.get_top_relationships(10);
        proof {
            assert(Seq::new(top@.len(), |k: int| top@[k]@) == top_relationships(state));
        }
        if top.len() > 0 {
            section.append("• Your strongest connection is @");
            section.append(top[0].username.as_str());
            section.append(" with ");
            let count = u64_to_decimal(top[0].interaction_count as u64);
            section.append(count.as_str());
            section.append(" interactions\n");
            proof {
                assert(top_relationships(state)[0] == top@[0]@);
            }
        }
        let ghost after_strongest = section@;
        let entries = self.hourly_activity.entries();
        match busiest_position(entries) {
            Some(m) => {
                section.append("• You're most active around ");
                let time = spoken_time_text(entries[m].0);
                section.append(time.as_str());
                section.append("\n");
            },
            None => {},
        }
        if self.relationships.len() > 5 {
            section.append("• You have a diverse network of connections\n");
        } else if self.relationships.len() > 0 {
            section.append("• You tend to interact with a focused group of people\n");
        }
        section.append("\n");
        proof {
            assert(section@ =~= insights_section(state));
        }
        section
    }

    /// Builds the relationship intelligence report, stamped with its generation time.
    pub fn build_report(&self, generated_at: &str) -> (report: String)
        requires
            count_sum(entry_counts(self.model().hourly), self.model().hourly.len()) <= u32::MAX,
        ensures
            report@ == report_text(self.model(), generated_at@),
    {
        let mut report = "🎯 TWITTER RELATIONSHIP & ACTIVITY INTELLIGENCE REPORT\n".to_owned();
        report.append("=====================================================\n\n");
        let relationships = self.render_relationships_section();
        report.append(relationships.as_str());
        let activity = self.render_activity_section();
        report.append(activity.as_str());
        let summary = self.render_summary_section();
        report.append(summary.as_str());
        let insights = self.render_insights_section();
        report.append(insights.as_str());
        report.append("Generated by Tweet-Scrolls Relationship Intelligence System\n");
        report.append("Report generated at: ");
        report.append(generated_at);
        report.append("\n");
        proof {
            assert(report@ =~= report_text(self.model(), generated_at@));
        }
        report
    }
}

/// The interaction count recorded for `name`, zero when there is no record.
pub open spec fn interaction_count_of(
    relationships: Seq<(Seq<char>, RelationshipModel)>,
    name: Seq<char>,
) -> int {
    match lookup(relationships, name) {
        Some(r) => r.interaction_count as int,
        None => 0,
    }
}

/// How many of the first `count` mentions name `name`.
pub open spec fn mentions_of(mentions: Seq<UserMentionModel>, name: Seq<char>, count: nat) -> nat
    decreases count,
{
    if count == 0 {
        0
    } else {
        mentions_of(mentions, name, (count - 1) as nat) + if mentions[count - 1].screen_name == name {
            1nat
        } else {
            0nat
        }
    }
}

/// How many of the first `count` names are `name`.
spec fn occurrences(names: Seq<Seq<char>>, name: Seq<char>, count: nat) -> nat
    decreases count,
{
    if count == 0 {
        0
    } else {
        occurrences(names, name, (count - 1) as nat) + if names[count - 1] == name {
            1nat
        } else {
            0nat
        }
    }
}

/// Recording a run of names adds one interaction with each name per occurrence, and leaves the
/// record of a name that does not occur as it was.
proof fn lemma_recorded_all_counts(
    relationships: Seq<(Seq<char>, RelationshipModel)>,
    names: Seq<Seq<char>>,
    at: Seq<char>,
    count: nat,
    name: Seq<char>,
)
    requires
        count <= names.len(),
        can_record_all(relationships, names, at, count),
    ensures
        interaction_count_of(recorded_all(relationships, names, at, count), name)
            == interaction_count_of(relationships, name) + occurrences(names, name, count),
        occurrences(names, name, count) > 0 ==> (lookup(recorded_all(relationships, names, at, count), name) matches Some(r)
            && r.last_interaction == at),
        occurrences(names, name, count) == 0 ==> lookup(recorded_all(relationships, names, at, count), name)
            == lookup(relationships, name),
    decreases count,
{
    if count > 0 {
        let before = recorded_all(relationships, names, at, (count - 1) as nat);
        lemma_recorded_all_counts(relationships, names, at, (count - 1) as nat, name);
        let n = names[count - 1];
        match lookup(before, n) {
            Some(r) => {
                lemma_lookup_inserted(
                    before,
                    n,
                    RelationshipModel {
                        interaction_count: (r.interaction_count + 1) as u32,
                        last_interaction: at,
                        ..r
                    },
                    name,
                );
            },
            None => {
                lemma_lookup_inserted(
                    before,
                    n,
                    RelationshipModel {
                        username: n,
                        interaction_count: 1,
                        last_interaction: at,
                        interaction_type: "tweets"@,
                    },
                    name,
                );
            },
        }
    }
}

/// The names a tweet interacts with hold its mentions, name for name.
proof fn lemma_interaction_names_count(tweet: TweetModel, name: Seq<char>, count: nat)
    requires
        count <= tweet.entities.user_mentions.len(),
    ensures
        occurrences(interaction_names(tweet), name, count) == mentions_of(
            tweet.entities.user_mentions,
            name,
            count,
        ),
    decreases count,
{
    if count > 0 {
        lemma_interaction_names_count(tweet, name, (count - 1) as nat);
    }
}

/// Analysing a tweet records one interaction with each user per mention of that user, and one
/// more with the user it replies to; the last interaction of each such user is the tweet's
/// timestamp, and every other user's record is left as it was.
pub proof fn lemma_tweet_interactions_counted(state: AnalyzerModel, tweet: TweetModel, name: Seq<char>)
    requires
        tweet_fits(state, tweet),
    ensures
        ({
            let after = after_tweet(state, tweet).relationships;
            let added = mentions_of(tweet.entities.user_mentions, name, tweet.entities.user_mentions.len())
                + if tweet.in_reply_to_screen_name == Some(name) {
                1nat
            } else {
                0nat
            };
            &&& interaction_count_of(after, name) == interaction_count_of(state.relationships, name)
                + added
            &&& added > 0 ==> (lookup(after, name) matches Some(r) && r.last_interaction
                == tweet.created_at)
            &&& added == 0 ==> lookup(after, name) == lookup(state.relationships, name)
        }),
{
    let names = interaction_names(tweet);
    let mentions = tweet.entities.user_mentions;
    lemma_interaction_names_count(tweet, name, mentions.len());
    lemma_recorded_all_counts(state.relationships, names, tweet.created_at, names.len(), name);
    match tweet.in_reply_to_screen_name {
        Some(user) => {
            assert(names.len() == mentions.len() + 1);
            assert(names[mentions.len() as int] == user);
        },
        None => {
            assert(names.len() == mentions.len());
        },
    }
}

} // verus!
