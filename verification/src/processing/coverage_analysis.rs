//! The thread-coverage diagnostic: an independent reconstruction of reply chains, and counts
//! of how well threads cover the archive.

use vstd::prelude::*;

use vstd::string::StringSliceAdditionalSpecFns;
use vstd::utf8::*;

use crate::processing::data_structures::{Thread, ThreadModel, Tweet, TweetModel, TweetWrapper};
use crate::processing::reply_threads::{lookup_tweet_by_id, positions_by_id, tweet_by_id};
use crate::sort::{instant_order_desc, sorted_by_instant_key, stable_order};
use crate::text::{bytes_match_at, bytes_start_with, str_equal, str_starts_with};
use crate::thread_export::archive::{
    archive_instant, last_byte_at, lemma_boundary_after_ascii, lemma_last_byte_at_found, rfind_byte, convert_thread_model, favorite_texts, parse_instant, parsed_total,
    parsed_totals_fit, retweet_texts, thread_model_of, twitter_timestamp_format, wrapped_tweets,
};

verus! {

/// Whether a tweet takes part in the diagnostic's threading: not a retweet, and not a
/// manual `RT @` copy.
pub open spec fn threadable(tweet: TweetModel) -> bool {
    !tweet.retweeted && !bytes_start_with(tweet.full_text, "RT @"@)
}

/// The threadable tweets among the first `count`, in order.
pub open spec fn threadable_tweets(tweets: Seq<TweetModel>, count: nat) -> Seq<TweetModel>
    decreases count,
{
    if count == 0 {
        Seq::empty()
    } else {
        let before = threadable_tweets(tweets, (count - 1) as nat);
        if threadable(tweets[count - 1]) {
            before.push(tweets[count - 1])
        } else {
            before
        }
    }
}

/// The tweets of the archive wrappers that take part in the diagnostic's threading.
pub fn threading_candidates(all_tweets: &[TweetWrapper]) -> (kept: Vec<Tweet>)
    ensures
        kept.deep_view() == threadable_tweets(wrapped_tweets(all_tweets@), all_tweets@.len()),
{
    let ghost wrapped = wrapped_tweets(all_tweets@);
    let mut kept: Vec<Tweet> = Vec::new();
    let mut k: usize = 0;
    while k < all_tweets.len()
        invariant
            wrapped == wrapped_tweets(all_tweets@),
            k <= all_tweets@.len(),
            kept.deep_view() == threadable_tweets(wrapped, k as nat),
        decreases all_tweets@.len() - k,
    {
        let tweet = &all_tweets[k].tweet;
        proof {
            assert(wrapped[k as int] == tweet@);
        }
        if !tweet.retweeted && !str_starts_with(tweet.full_text.as_str(), "RT @") {
            let ghost before = kept.deep_view();
            kept.push(tweet.clone());
            proof {
                assert(kept.deep_view() =~= before.push(wrapped[k as int]));
            }
        }
        k = k + 1;
    }
    kept
}

/// Whether a tweet starts a thread of the account: it replies to nothing, or to someone else.
pub open spec fn starts_thread(tweet: TweetModel, screen_name: Seq<char>) -> bool {
    tweet.in_reply_to_status_id is None || tweet.in_reply_to_screen_name != Some(screen_name)
}

/// Among the first `count` entries of the walk order, the first whose tweet replies to `id`.
pub open spec fn first_reply(
    kept: Seq<TweetModel>,
    order: Seq<usize>,
    id: Seq<char>,
    count: nat,
) -> Option<nat>
    decreases count,
{
    if count == 0 {
        None
    } else {
        match first_reply(kept, order, id, (count - 1) as nat) {
            Some(j) => Some(j),
            None => if kept[order[count - 1] as int].in_reply_to_status_id_str == Some(id) {
                Some((count - 1) as nat)
            } else {
                None
            },
        }
    }
}

/// How many of the first `count` entries of the walk order carry an unprocessed identifier.
pub open spec fn unprocessed(
    kept: Seq<TweetModel>,
    order: Seq<usize>,
    processed: Set<Seq<char>>,
    count: nat,
) -> nat
    decreases count,
{
    if count == 0 {
        0
    } else {
        unprocessed(kept, order, processed, (count - 1) as nat) + if processed.contains(
            kept[order[count - 1] as int].id_str,
        ) {
            0nat
        } else {
            1nat
        }
    }
}

/// A found reply is an entry of the walk order, replying to `id`.
proof fn lemma_first_reply(kept: Seq<TweetModel>, order: Seq<usize>, id: Seq<char>, count: nat)
    ensures
        first_reply(kept, order, id, count) matches Some(j) ==> j < count
            && kept[order[j as int] as int].in_reply_to_status_id_str == Some(id),
        first_reply(kept, order, id, count) is None ==> forall|j: int|
            0 <= j < count ==> kept[#[trigger] order[j] as int].in_reply_to_status_id_str != Some(
                id,
            ),
    decreases count,
{
    if count > 0 {
        lemma_first_reply(kept, order, id, (count - 1) as nat);
    }
}

/// Processing the identifier of an unprocessed entry leaves fewer unprocessed ones.
proof fn lemma_unprocessed_insert(
    kept: Seq<TweetModel>,
    order: Seq<usize>,
    processed: Set<Seq<char>>,
    count: nat,
    j: nat,
)
    requires
        j < count,
        !processed.contains(kept[order[j as int] as int].id_str),
    ensures
        unprocessed(kept, order, processed.insert(kept[order[j as int] as int].id_str), count)
            < unprocessed(kept, order, processed, count),
    decreases count,
{
    let id = kept[order[j as int] as int].id_str;
    if j < count - 1 {
        lemma_unprocessed_insert(kept, order, processed, (count - 1) as nat, j);
    } else {
        lemma_unprocessed_insert_le(kept, order, processed, (count - 1) as nat, id);
    }
}

/// Processing one more identifier never adds unprocessed entries.
proof fn lemma_unprocessed_insert_le(
    kept: Seq<TweetModel>,
    order: Seq<usize>,
    processed: Set<Seq<char>>,
    count: nat,
    id: Seq<char>,
)
    ensures
        unprocessed(kept, order, processed.insert(id), count) <= unprocessed(
            kept,
            order,
            processed,
            count,
        ),
    decreases count,
{
    if count > 0 {
        lemma_unprocessed_insert_le(kept, order, processed, (count - 1) as nat, id);
    }
}

/// The reply chain after the tweet with identifier `current`: repeatedly the first tweet in
/// walk order replying to the last one, until none does or its identifier was processed.
/// Gives the chain's positions and the identifiers processed after it.
pub open spec fn reply_chain(
    kept: Seq<TweetModel>,
    order: Seq<usize>,
    processed: Set<Seq<char>>,
    current: Seq<char>,
) -> (Seq<usize>, Set<Seq<char>>)
    decreases unprocessed(kept, order, processed, order.len()),
    via reply_chain_decreases
{
    match first_reply(kept, order, current, order.len()) {
        None => (Seq::empty(), processed),
        Some(j) => {
            let q = order[j as int];
            let id = kept[q as int].id_str;
            if processed.contains(id) {
                (Seq::empty(), processed)
            } else {
                let (rest, done) = reply_chain(kept, order, processed.insert(id), id);
                (seq![q] + rest, done)
            }
        },
    }
}

#[via_fn]
proof fn reply_chain_decreases(
    kept: Seq<TweetModel>,
    order: Seq<usize>,
    processed: Set<Seq<char>>,
    current: Seq<char>,
) {
    lemma_first_reply(kept, order, current, order.len());
    if let Some(j) = first_reply(kept, order, current, order.len()) {
        let id = kept[order[j as int] as int].id_str;
        if !processed.contains(id) {
            lemma_unprocessed_insert(kept, order, processed, order.len(), j);
        }
    }
}

/// The chains built from the first `count` entries of the walk order: an entry whose
/// identifier is processed, or that does not start a thread, is passed over; any other
/// starts a chain. Gives the chains and the processed identifiers.
pub open spec fn chain_threads(
    kept: Seq<TweetModel>,
    order: Seq<usize>,
    screen_name: Seq<char>,
    count: nat,
) -> (Seq<Seq<usize>>, Set<Seq<char>>)
    decreases count,
{
    if count == 0 {
        (Seq::empty(), Set::empty())
    } else {
        let (chains, processed) = chain_threads(kept, order, screen_name, (count - 1) as nat);
        let p = order[count - 1];
        let tweet = kept[p as int];
        if processed.contains(tweet.id_str) || !starts_thread(tweet, screen_name) {
            (chains, processed)
        } else {
            let (rest, done) = reply_chain(kept, order, processed.insert(tweet.id_str), tweet.id_str);
            (chains.push(seq![p] + rest), done)
        }
    }
}

/// The identifiers recorded in a list of texts.
pub open spec fn id_set(ids: Seq<String>) -> Set<Seq<char>> {
    Set::new(|id: Seq<char>| exists|k: int| 0 <= k < ids.len() && ids[k]@ == id)
}

/// Whether an identifier is recorded.
fn recorded_id(ids: &Vec<String>, id: &str) -> (found: bool)
    ensures
        found == id_set(ids@).contains(id@),
{
    let mut k: usize = 0;
    while k < ids.len()
        invariant
            k <= ids@.len(),
            forall|j: int| 0 <= j < k ==> ids@[j]@ != id@,
        decreases ids@.len() - k,
    {
        if str_equal(ids[k].as_str(), id) {
            return true;
        }
        k = k + 1;
    }
    false
}

/// Records an identifier.
fn record_id(ids: &mut Vec<String>, id: &str)
    ensures
        id_set(final(ids)@) == id_set(old(ids)@).insert(id@),
{
    let ghost before = ids@;
    ids.push(id.to_owned());
    proof {
        assert forall|x: Seq<char>| id_set(ids@).contains(x) == id_set(before).insert(id@).contains(
            x,
        ) by {
            if id_set(before).contains(x) {
                let k = choose|k: int| 0 <= k < before.len() && before[k]@ == x;
                assert(ids@[k] == before[k]);
            }
            if x == id@ {
                assert(ids@[before.len() as int]@ == id@);
            }
            if id_set(ids@).contains(x) {
                let k = choose|k: int| 0 <= k < ids@.len() && ids@[k]@ == x;
                if k < before.len() {
                    assert(ids@[k] == before[k]);
                }
            }
        }
        assert(id_set(ids@) =~= id_set(before).insert(id@));
    }
}

/// The first entry of the walk order whose tweet replies to `id`.
fn find_first_reply(kept: &Vec<Tweet>, order: &[usize], id: &str) -> (found: Option<usize>)
    requires
        forall|k: int| 0 <= k < order@.len() ==> #[trigger] order@[k] < kept@.len(),
    ensures
        match found {
            Some(j) => first_reply(kept.deep_view(), order@, id@, order@.len()) == Some(j as nat),
            None => first_reply(kept.deep_view(), order@, id@, order@.len()) is None,
        },
{
    let ghost model = kept.deep_view();
    let mut j: usize = 0;
    while j < order.len()
        invariant
            model == kept.deep_view(),
            model.len() == kept@.len(),
            forall|k: int| 0 <= k < order@.len() ==> #[trigger] order@[k] < kept@.len(),
            j <= order@.len(),
            first_reply(model, order@, id@, j as nat) is None,
        decreases order@.len() - j,
    {
        let tweet = &kept[order[j]];
        proof {
            assert(model[order@[j as int] as int] == tweet@);
        }
        let replies = match &tweet.in_reply_to_status_id_str {
            Some(parent) => str_equal(parent.as_str(), id),
            None => false,
        };
        if replies {
            proof {
                lemma_first_reply_stays(model, order@, id@, (j + 1) as nat, order@.len());
            }
            return Some(j);
        }
        j = j + 1;
    }
    None
}

/// Once a first reply is found, looking further keeps it.
proof fn lemma_first_reply_stays(
    kept: Seq<TweetModel>,
    order: Seq<usize>,
    id: Seq<char>,
    count: nat,
    total: nat,
)
    requires
        count <= total,
        first_reply(kept, order, id, count) is Some,
    ensures
        first_reply(kept, order, id, total) == first_reply(kept, order, id, count),
    decreases total - count,
{
    if count < total {
        lemma_first_reply_stays(kept, order, id, count, (total - 1) as nat);
    }
}

/// Follows the reply chain after the tweet with identifier `start`, processing the
/// identifiers of the tweets it takes.
fn follow_chain(kept: &Vec<Tweet>, order: &[usize], processed: &mut Vec<String>, start: &str) -> (chain:
    Vec<usize>)
    requires
        forall|k: int| 0 <= k < order@.len() ==> #[trigger] order@[k] < kept@.len(),
    ensures
        (chain@, id_set(final(processed)@)) == reply_chain(
            kept.deep_view(),
            order@,
            id_set(old(processed)@),
            start@,
        ),
{
    let ghost model = kept.deep_view();
    let ghost whole = reply_chain(model, order@, id_set(processed@), start@);
    let mut chain: Vec<usize> = Vec::new();
    let mut current = start.to_owned();
    loop
        invariant
            model == kept.deep_view(),
            model.len() == kept@.len(),
            forall|k: int| 0 <= k < order@.len() ==> #[trigger] order@[k] < kept@.len(),
            whole == (
                chain@ + reply_chain(model, order@, id_set(processed@), current@).0,
                reply_chain(model, order@, id_set(processed@), current@).1,
            ),
        ensures
            whole == (chain@, id_set(processed@)),
        decreases unprocessed(model, order@, id_set(processed@), order@.len()),
    {
        let ghost before_chain = chain@;
        let ghost before_set = id_set(processed@);
        proof {
            lemma_first_reply(model, order@, current@, order@.len());
        }
        match find_first_reply(kept, order, current.as_str()) {
            None => {
                proof {
                    assert(chain@ + Seq::<usize>::empty() =~= chain@);
                }
                break;
            },
            Some(j) => {
                let q = order[j];
                let next = &kept[q];
                proof {
                    assert(model[q as int] == next@);
                }
                if recorded_id(processed, next.id_str.as_str()) {
                    proof {
                        assert(chain@ + Seq::<usize>::empty() =~= chain@);
                    }
                    break;
                }
                proof {
                    lemma_unprocessed_insert(model, order@, before_set, order@.len(), j as nat);
                }
                record_id(processed, next.id_str.as_str());
                chain.push(q);
                current = next.id_str.clone();
                proof {
                    let tail = reply_chain(model, order@, id_set(processed@), current@).0;
                    assert(before_chain + (seq![q] + tail) =~= chain@ + tail);
                }
            },
        }
    }
    chain
}

/// Builds the reply chains of the walk order.
fn build_chains(kept: &Vec<Tweet>, screen_name: &str, order: &[usize]) -> (chains: Vec<Vec<usize>>)
    requires
        forall|k: int| 0 <= k < order@.len() ==> #[trigger] order@[k] < kept@.len(),
    ensures
        chains@.len() == chain_threads(kept.deep_view(), order@, screen_name@, order@.len()).0.len(),
        forall|g: int|
            0 <= g < chains@.len() ==> (#[trigger] chains@[g])@ == chain_threads(
                kept.deep_view(),
                order@,
                screen_name@,
                order@.len(),
            ).0[g],
{
    let ghost model = kept.deep_view();
    let mut chains: Vec<Vec<usize>> = Vec::new();
    let mut processed: Vec<String> = Vec::new();
    proof {
        assert(id_set(processed@) =~= Set::<Seq<char>>::empty());
    }
    let mut i: usize = 0;
    while i < order.len()
        invariant
            model == kept.deep_view(),
            model.len() == kept@.len(),
            forall|k: int| 0 <= k < order@.len() ==> #[trigger] order@[k] < kept@.len(),
            i <= order@.len(),
            chains@.len() == chain_threads(model, order@, screen_name@, i as nat).0.len(),
            forall|g: int|
                0 <= g < chains@.len() ==> (#[trigger] chains@[g])@ == chain_threads(
                    model,
                    order@,
                    screen_name@,
                    i as nat,
                ).0[g],
            id_set(processed@) == chain_threads(model, order@, screen_name@, i as nat).1,
        decreases order@.len() - i,
    {
        let p = order[i];
        let tweet = &kept[p];
        proof {
            assert(model[p as int] == tweet@);
        }
        let starts = match &tweet.in_reply_to_status_id {
            None => true,
            Some(_) => match &tweet.in_reply_to_screen_name {
                Some(name) => !str_equal(name.as_str(), screen_name),
                None => true,
            },
        };
        if !recorded_id(&processed, tweet.id_str.as_str()) && starts {
            record_id(&mut processed, tweet.id_str.as_str());
            let rest = follow_chain(kept, order, &mut processed, tweet.id_str.as_str());
            let mut chain: Vec<usize> = Vec::new();
            chain.push(p);
            let mut k: usize = 0;
            while k < rest.len()
                invariant
                    k <= rest@.len(),
                    chain@ == seq![p] + rest@.subrange(0, k as int),
                decreases rest@.len() - k,
            {
                chain.push(rest[k]);
                proof {
                    assert(rest@.subrange(0, k + 1) =~= rest@.subrange(0, k as int).push(rest@[k as int]));
                }
                k = k + 1;
            }
            proof {
                assert(rest@.subrange(0, rest@.len() as int) =~= rest@);
            }
            let ghost before_chains = chains@;
            chains.push(chain);
            proof {
                let now = chain_threads(model, order@, screen_name@, (i + 1) as nat);
                assert forall|g: int| 0 <= g < chains@.len() implies (#[trigger] chains@[g])@ == now.0[g] by {
                    if g < before_chains.len() {
                        assert(chains@[g] == before_chains[g]);
                    }
                }
            }
        }
        i = i + 1;
    }
    chains
}

/// A reply chain holds entries of the walk order.
proof fn lemma_reply_chain_entries(
    kept: Seq<TweetModel>,
    order: Seq<usize>,
    processed: Set<Seq<char>>,
    current: Seq<char>,
)
    ensures
        forall|k: int|
            0 <= k < reply_chain(kept, order, processed, current).0.len() ==> order.contains(
                #[trigger] reply_chain(kept, order, processed, current).0[k],
            ),
    decreases unprocessed(kept, order, processed, order.len()),
{
    lemma_first_reply(kept, order, current, order.len());
    if let Some(j) = first_reply(kept, order, current, order.len()) {
        let q = order[j as int];
        let id = kept[q as int].id_str;
        if !processed.contains(id) {
            lemma_unprocessed_insert(kept, order, processed, order.len(), j);
            lemma_reply_chain_entries(kept, order, processed.insert(id), id);
            let rest = reply_chain(kept, order, processed.insert(id), id).0;
            assert forall|k: int| 0 <= k < (seq![q] + rest).len() implies order.contains(
                #[trigger] (seq![q] + rest)[k],
            ) by {
                if k > 0 {
                    assert((seq![q] + rest)[k] == rest[k - 1]);
                }
            }
        }
    }
}

/// Every chain is non-empty and holds entries of the walk order.
proof fn lemma_chain_threads_shape(
    kept: Seq<TweetModel>,
    order: Seq<usize>,
    screen_name: Seq<char>,
    count: nat,
)
    requires
        count <= order.len(),
    ensures
        forall|g: int|
            0 <= g < chain_threads(kept, order, screen_name, count).0.len() ==> {
                let chain = #[trigger] chain_threads(kept, order, screen_name, count).0[g];
                &&& chain.len() > 0
                &&& forall|k: int| 0 <= k < chain.len() ==> order.contains(#[trigger] chain[k])
            },
    decreases count,
{
    if count > 0 {
        lemma_chain_threads_shape(kept, order, screen_name, (count - 1) as nat);
        let (chains, processed) = chain_threads(kept, order, screen_name, (count - 1) as nat);
        let p = order[count - 1];
        let tweet = kept[p as int];
        if !(processed.contains(tweet.id_str) || !starts_thread(tweet, screen_name)) {
            lemma_reply_chain_entries(kept, order, processed.insert(tweet.id_str), tweet.id_str);
            let rest = reply_chain(kept, order, processed.insert(tweet.id_str), tweet.id_str).0;
            let now = chain_threads(kept, order, screen_name, count).0;
            assert(now == chains.push(seq![p] + rest));
            assert forall|g: int| 0 <= g < now.len() implies {
                let chain = #[trigger] now[g];
                &&& chain.len() > 0
                &&& forall|k: int| 0 <= k < chain.len() ==> order.contains(#[trigger] chain[k])
            } by {
                if g < chains.len() {
                    assert(now[g] == chains[g]);
                } else {
                    assert(now[g] == seq![p] + rest);
                    assert forall|k: int| 0 <= k < now[g].len() implies order.contains(#[trigger] now[g][k]) by {
                        if k == 0 {
                            assert(order[count - 1] == p);
                        } else {
                            assert(now[g][k] == rest[k - 1]);
                        }
                    }
                }
            }
        }
    }
}

/// The instant a chain sorts by: that of its first tweet, or the epoch when its timestamp
/// does not read.
pub open spec fn chain_instant(kept: Seq<TweetModel>, chain: Seq<usize>) -> (i64, u32) {
    match archive_instant(kept[chain[0] as int].created_at) {
        Some(instant) => instant,
        None => (0, 0),
    }
}

/// The tweets of a chain.
pub open spec fn chain_tweets(kept: Seq<TweetModel>, chain: Seq<usize>) -> Seq<TweetModel> {
    Seq::new(chain.len(), |k: int| kept[chain[k] as int])
}

/// The diagnostic's threads: the reply chains of the walk order, newest first by the instant
/// of their first tweet, chains with equal instants in the order they were built.
pub open spec fn coverage_chains(
    kept: Seq<TweetModel>,
    order: Seq<usize>,
    screen_name: Seq<char>,
) -> Seq<Seq<TweetModel>> {
    let chains = chain_threads(kept, order, screen_name, order.len()).0;
    let keys = Seq::new(chains.len(), |g: int| chain_instant(kept, chains[g]));
    let sorted = stable_order(instant_order_desc(keys), chains.len());
    Seq::new(chains.len(), |g: int| chain_tweets(kept, chains[sorted[g] as int]))
}

/// Every thread's favorite and retweet sums fit in a `u32`.
pub open spec fn chain_counts_fit(chains: Seq<Seq<TweetModel>>) -> bool {
    forall|g: int|
        0 <= g < chains.len() ==> {
            &&& parsed_total(favorite_texts(#[trigger] chains[g]), chains[g].len()) <= u32::MAX
            &&& parsed_total(retweet_texts(chains[g]), chains[g].len()) <= u32::MAX
        }
}

/// Builds the diagnostic's threads from the archive: the threadable tweets, chained along
/// replies in the given walk order (the order in which an identifier-keyed map of those
/// tweets yields its entries), newest first; or `None` when a thread's count sums leave
/// `u32`.
pub fn create_threads_from_tweets(
    all_tweets: &[TweetWrapper],
    screen_name: &str,
    walk_order: &[usize],
) -> (threads: Option<Vec<Thread>>)
    requires
        forall|k: int|
            0 <= k < walk_order@.len() ==> #[trigger] walk_order@[k] < threadable_tweets(
                wrapped_tweets(all_tweets@),
                all_tweets@.len(),
            ).len(),
    ensures
        ({
            let chains = coverage_chains(
                threadable_tweets(wrapped_tweets(all_tweets@), all_tweets@.len()),
                walk_order@,
                screen_name@,
            );
            match threads {
                Some(ts) => chain_counts_fit(chains) && ts@.len() == chains.len() && forall|g: int|
                    0 <= g < ts@.len() ==> (#[trigger] ts@[g])@ == thread_model_of(chains[g]),
                None => !chain_counts_fit(chains),
            }
        }),
{
    let kept = threading_candidates(all_tweets);
    let ghost model = kept.deep_view();
    let chains = build_chains(&kept, screen_name, walk_order);
    let ghost spec_chains = chain_threads(model, walk_order@, screen_name@, walk_order@.len()).0;
    proof {
        lemma_chain_threads_shape(model, walk_order@, screen_name@, walk_order@.len());
        reveal_strlit("%a %b %d %H:%M:%S %z %Y");
    }
    let mut keys: Vec<(i64, u32)> = Vec::new();
    let mut g: usize = 0;
    while g < chains.len()
        invariant
            model == kept.deep_view(),
            model.len() == kept@.len(),
            forall|k: int| 0 <= k < walk_order@.len() ==> #[trigger] walk_order@[k] < kept@.len(),
            spec_chains == chain_threads(model, walk_order@, screen_name@, walk_order@.len()).0,
            chains@.len() == spec_chains.len(),
            forall|h: int| 0 <= h < chains@.len() ==> (#[trigger] chains@[h])@ == spec_chains[h],
            forall|h: int|
                0 <= h < spec_chains.len() ==> {
                    let chain = #[trigger] spec_chains[h];
                    &&& chain.len() > 0
                    &&& forall|k: int| 0 <= k < chain.len() ==> walk_order@.contains(#[trigger] chain[k])
                },
            g <= chains@.len(),
            keys@.len() == g,
            forall|h: int| 0 <= h < g ==> #[trigger] keys@[h] == chain_instant(model, spec_chains[h]),
        decreases chains@.len() - g,
    {
        proof {
            assert(chains@[g as int]@ == spec_chains[g as int]);
            assert(walk_order@.contains(spec_chains[g as int][0]));
        }
        let first = &kept[chains[g][0]];
        proof {
            assert(model[chains@[g as int]@[0] as int] == first@);
        }
        let key = match parse_instant(first.created_at.as_str(), "%a %b %d %H:%M:%S %z %Y") {
            Some(instant) => instant,
            None => (0, 0),
        };
        keys.push(key);
        g = g + 1;
    }
    let order = sorted_by_instant_key(&keys, true);
    proof {
        assert(keys@ =~= Seq::new(spec_chains.len(), |h: int| chain_instant(model, spec_chains[h])));
    }
    let ghost result = coverage_chains(model, walk_order@, screen_name@);
    let mut threads: Vec<Thread> = Vec::new();
    let mut t: usize = 0;
    while t < order.len()
        invariant
            model == kept.deep_view(),
            model == threadable_tweets(wrapped_tweets(all_tweets@), all_tweets@.len()),
            model.len() == kept@.len(),
            forall|k: int| 0 <= k < walk_order@.len() ==> #[trigger] walk_order@[k] < kept@.len(),
            spec_chains == chain_threads(model, walk_order@, screen_name@, walk_order@.len()).0,
            chains@.len() == spec_chains.len(),
            forall|h: int| 0 <= h < chains@.len() ==> (#[trigger] chains@[h])@ == spec_chains[h],
            forall|h: int|
                0 <= h < spec_chains.len() ==> {
                    let chain = #[trigger] spec_chains[h];
                    &&& chain.len() > 0
                    &&& forall|k: int| 0 <= k < chain.len() ==> walk_order@.contains(#[trigger] chain[k])
                },
            result == coverage_chains(model, walk_order@, screen_name@),
            order@ == stable_order(
                instant_order_desc(Seq::new(spec_chains.len(), |h: int| chain_instant(model, spec_chains[h]))),
                spec_chains.len(),
            ),
            order@.len() == spec_chains.len(),
            forall|h: int| 0 <= h < order@.len() ==> (#[trigger] order@[h]) < spec_chains.len(),
            result.len() == spec_chains.len(),
            t <= order@.len(),
            threads@.len() == t,
            forall|h: int| 0 <= h < t ==> (#[trigger] threads@[h])@ == thread_model_of(result[h]),
            forall|h: int|
                0 <= h < t ==> parsed_total(favorite_texts(#[trigger] result[h]), result[h].len())
                    <= u32::MAX && parsed_total(retweet_texts(result[h]), result[h].len()) <= u32::MAX,
        decreases order@.len() - t,
    {
        let chain = &chains[order[t]];
        let ghost spec_chain = spec_chains[order@[t as int] as int];
        proof {
            assert(chain@ == spec_chain);
        }
        let mut tweets: Vec<Tweet> = Vec::new();
        let mut k: usize = 0;
        while k < chain.len()
            invariant
                model == kept.deep_view(),
                model.len() == kept@.len(),
                forall|j: int| 0 <= j < walk_order@.len() ==> #[trigger] walk_order@[j] < kept@.len(),
                chain@ == spec_chain,
                forall|j: int| 0 <= j < spec_chain.len() ==> walk_order@.contains(#[trigger] spec_chain[j]),
                k <= chain@.len(),
                tweets.deep_view() == chain_tweets(model, spec_chain.subrange(0, k as int)),
            decreases chain@.len() - k,
        {
            proof {
                assert(walk_order@.contains(spec_chain[k as int]));
            }
            let tweet = &kept[chain[k]];
            let ghost before = tweets.deep_view();
            tweets.push(tweet.clone());
            proof {
                assert(model[chain@[k as int] as int] == tweet@);
                assert(tweets.deep_view() =~= before.push(tweet@));
                assert(tweets.deep_view() =~= chain_tweets(model, spec_chain.subrange(0, k + 1)));
            }
            k = k + 1;
        }
        proof {
            assert(spec_chain.subrange(0, spec_chain.len() as int) =~= spec_chain);
            assert(result[t as int] == chain_tweets(model, spec_chain));
            assert(tweets.deep_view().len() == tweets@.len());
        }
        if !parsed_totals_fit(&tweets) {
            proof {
                assert(!chain_counts_fit(result)) by {
                    assert(!(parsed_total(favorite_texts(result[t as int]), result[t as int].len()) <= u32::MAX
                        && parsed_total(retweet_texts(result[t as int]), result[t as int].len()) <= u32::MAX));
                }
            }
            return None;
        }
        let thread = convert_thread_model(tweets);
        threads.push(thread);
        t = t + 1;
    }
    Some(threads)
}

/// How an archive's tweets divide: originals, replies and retweets, and how many carry edit
/// information or entities.
#[derive(Debug, Clone, Copy, PartialEq, Eq)]
pub struct TweetStructureCounts {
    /// Tweets that are neither retweets nor replies.
    pub original_tweets: usize,
    /// Replies that are not retweets.
    pub replies: usize,
    /// Retweets.
    pub retweets: usize,
    /// Tweets with edit information.
    pub has_edit_info: usize,
    /// Tweets with hashtags, mentions or URLs.
    pub has_entities: usize,
}

/// Whether a tweet has hashtags, mentions or URLs.
pub open spec fn has_entities(tweet: TweetModel) -> bool {
    tweet.entities.hashtags.len() > 0 || tweet.entities.user_mentions.len() > 0
        || tweet.entities.urls.len() > 0
}

/// The structure counts of the first `count` tweets.
pub open spec fn structure_counts(tweets: Seq<TweetModel>, count: nat) -> (nat, nat, nat, nat, nat)
    decreases count,
{
    if count == 0 {
        (0, 0, 0, 0, 0)
    } else {
        let (originals, replies, retweets, edits, entities) = structure_counts(
            tweets,
            (count - 1) as nat,
        );
        let tweet = tweets[count - 1];
        let (o, r, t) = if tweet.retweeted {
            (originals, replies, retweets + 1)
        } else if tweet.in_reply_to_status_id_str is Some {
            (originals, replies + 1, retweets)
        } else {
            (originals + 1, replies, retweets)
        };
        (
            o,
            r,
            t,
            if tweet.edit_info is Some {
                edits + 1
            } else {
                edits
            },
            if has_entities(tweet) {
                entities + 1
            } else {
                entities
            },
        )
    }
}

/// No count exceeds the number of tweets counted.
proof fn lemma_structure_counts_bounded(tweets: Seq<TweetModel>, count: nat)
    ensures
        ({
            let c = structure_counts(tweets, count);
            c.0 + c.1 + c.2 == count && c.3 <= count && c.4 <= count
        }),
    decreases count,
{
    if count > 0 {
        lemma_structure_counts_bounded(tweets, (count - 1) as nat);
    }
}

/// Counts the originals, replies and retweets of the archive, and the tweets with edit
/// information or entities.
pub fn analyze_tweet_structure(tweets: &[TweetWrapper]) -> (counts: TweetStructureCounts)
    ensures
        ({
            let c = structure_counts(wrapped_tweets(tweets@), tweets@.len());
            &&& counts.original_tweets == c.0
            &&& counts.replies == c.1
            &&& counts.retweets == c.2
            &&& counts.has_edit_info == c.3
            &&& counts.has_entities == c.4
        }),
{
    let ghost model = wrapped_tweets(tweets@);
    let mut counts = TweetStructureCounts {
        original_tweets: 0,
        replies: 0,
        retweets: 0,
        has_edit_info: 0,
        has_entities: 0,
    };
    let mut k: usize = 0;
    while k < tweets.len()
        invariant
            model == wrapped_tweets(tweets@),
            k <= tweets@.len(),
            ({
                let c = structure_counts(model, k as nat);
                &&& counts.original_tweets == c.0
                &&& counts.replies == c.1
                &&& counts.retweets == c.2
                &&& counts.has_edit_info == c.3
                &&& counts.has_entities == c.4
            }),
        decreases tweets@.len() - k,
    {
        let tweet = &tweets[k].tweet;
        proof {
            assert(model[k as int] == tweet@);
            lemma_structure_counts_bounded(model, k as nat);
        }
        if tweet.retweeted {
            counts.retweets = counts.retweets + 1;
        } else if tweet.in_reply_to_status_id_str.is_some() {
            counts.replies = counts.replies + 1;
        } else {
            counts.original_tweets = counts.original_tweets + 1;
        }
        if tweet.edit_info.is_some() {
            counts.has_edit_info = counts.has_edit_info + 1;
        }
        let entities = &tweet.entities;
        if entities.hashtags.len() > 0 || entities.user_mentions.len() > 0 || entities.urls.len()
            > 0 {
            counts.has_entities = counts.has_entities + 1;
        }
        k = k + 1;
    }
    counts
}

/// The total length of the first `count` threads.
pub open spec fn thread_length_sum(threads: Seq<ThreadModel>, count: nat) -> nat
    decreases count,
{
    if count == 0 {
        0
    } else {
        thread_length_sum(threads, (count - 1) as nat) + threads[count - 1].tweets.len()
    }
}

/// Sums over longer prefixes are no smaller.
proof fn lemma_thread_length_sum_monotonic(threads: Seq<ThreadModel>, a: nat, b: nat)
    requires
        a <= b,
    ensures
        thread_length_sum(threads, a) <= thread_length_sum(threads, b),
    decreases b - a,
{
    if a < b {
        lemma_thread_length_sum_monotonic(threads, a, (b - 1) as nat);
    }
}

/// The number of the first `count` tweets that are not retweets.
pub open spec fn non_retweet_count(tweets: Seq<TweetModel>, count: nat) -> nat
    decreases count,
{
    if count == 0 {
        0
    } else {
        non_retweet_count(tweets, (count - 1) as nat) + if tweets[count - 1].retweeted {
            0nat
        } else {
            1nat
        }
    }
}

/// How much of the archive the threads hold.
#[derive(Debug, Clone, Copy, PartialEq, Eq)]
pub struct CoverageCounts {
    /// Tweets in the archive.
    pub total_tweets: usize,
    /// Archive tweets that are not retweets.
    pub non_retweet_count: usize,
    /// Tweets across all threads.
    pub tweets_in_threads: usize,
}

/// Counts the archive's tweets, its non-retweets, and the tweets held by the threads.
pub fn analyze_coverage(all_tweets: &[TweetWrapper], threads: &[Thread]) -> (counts: CoverageCounts)
    requires
        thread_length_sum(threads.deep_view(), threads.deep_view().len()) <= usize::MAX,
    ensures
        counts.total_tweets == all_tweets@.len(),
        counts.non_retweet_count == non_retweet_count(wrapped_tweets(all_tweets@), all_tweets@.len()),
        counts.tweets_in_threads == thread_length_sum(threads.deep_view(), threads.deep_view().len()),
{
    let ghost model = threads.deep_view();
    let mut tweets_in_threads: usize = 0;
    let mut t: usize = 0;
    while t < threads.len()
        invariant
            model == threads.deep_view(),
            model.len() == threads@.len(),
            thread_length_sum(model, model.len()) <= usize::MAX,
            t <= threads@.len(),
            tweets_in_threads == thread_length_sum(model, t as nat),
        decreases threads@.len() - t,
    {
        proof {
            assert(model[t as int] == threads@[t as int]@);
            lemma_thread_length_sum_monotonic(model, (t + 1) as nat, model.len());
        }
        tweets_in_threads = tweets_in_threads + threads[t].tweets.len();
        t = t + 1;
    }
    let ghost wrapped = wrapped_tweets(all_tweets@);
    let mut non_retweets: usize = 0;
    let mut k: usize = 0;
    while k < all_tweets.len()
        invariant
            wrapped == wrapped_tweets(all_tweets@),
            k <= all_tweets@.len(),
            non_retweets == non_retweet_count(wrapped, k as nat),
            non_retweets <= k,
        decreases all_tweets@.len() - k,
    {
        proof {
            assert(wrapped[k as int] == all_tweets@[k as int].tweet@);
        }
        if !all_tweets[k].tweet.retweeted {
            non_retweets = non_retweets + 1;
        }
        k = k + 1;
    }
    CoverageCounts {
        total_tweets: all_tweets.len(),
        non_retweet_count: non_retweets,
        tweets_in_threads,
    }
}

/// Whether each tweet of a thread after the first replies to the one before it.
pub open spec fn is_reply_chain(tweets: Seq<TweetModel>) -> bool {
    forall|i: int|
        1 <= i < tweets.len() ==> (#[trigger] tweets[i]).in_reply_to_status_id_str == Some(
            tweets[i - 1].id_str,
        )
}

/// How the threads are shaped.
#[derive(Debug, Clone, Copy, PartialEq, Eq)]
pub struct ThreadingQuality {
    /// Threads.
    pub total_threads: usize,
    /// Threads of one tweet.
    pub single_tweet_threads: usize,
    /// Threads of several tweets.
    pub multi_tweet_threads: usize,
    /// The length of the longest thread.
    pub longest_thread: usize,
    /// Tweets across all threads.
    pub total_thread_length: usize,
    /// Threads of several tweets in which each tweet replies to the one before it.
    pub reply_chains_found: usize,
}

/// The shape counts of the first `count` threads: single-tweet threads, multi-tweet threads,
/// the longest length, and the multi-tweet threads that are reply chains.
pub open spec fn quality_counts(threads: Seq<ThreadModel>, count: nat) -> (nat, nat, nat, nat)
    decreases count,
{
    if count == 0 {
        (0, 0, 0, 0)
    } else {
        let (single, multi, longest, chains) = quality_counts(threads, (count - 1) as nat);
        let tweets = threads[count - 1].tweets;
        (
            if tweets.len() == 1 {
                single + 1
            } else {
                single
            },
            if tweets.len() == 1 {
                multi
            } else {
                multi + 1
            },
            if tweets.len() > longest {
                tweets.len()
            } else {
                longest
            },
            if tweets.len() != 1 && is_reply_chain(tweets) {
                chains + 1
            } else {
                chains
            },
        )
    }
}

/// The counts stay within the number of threads counted.
proof fn lemma_quality_counts_bounded(threads: Seq<ThreadModel>, count: nat)
    ensures
        ({
            let c = quality_counts(threads, count);
            c.0 + c.1 == count && c.3 <= c.1
        }),
    decreases count,
{
    if count > 0 {
        lemma_quality_counts_bounded(threads, (count - 1) as nat);
    }
}

/// Whether a thread's tweets each reply to the tweet before them.
fn reply_chain_holds(thread: &Thread) -> (holds: bool)
    ensures
        holds == is_reply_chain(thread@.tweets),
{
    let ghost tweets = thread@.tweets;
    let mut i: usize = 1;
    while i < thread.tweets.len()
        invariant
            tweets == thread@.tweets,
            tweets.len() == thread.tweets@.len(),
            1 <= i,
            forall|j: int|
                1 <= j < i && j < tweets.len() ==> (#[trigger] tweets[j]).in_reply_to_status_id_str
                    == Some(tweets[j - 1].id_str),
        decreases thread.tweets@.len() - i,
    {
        let current = &thread.tweets[i];
        let previous = &thread.tweets[i - 1];
        proof {
            assert(tweets[i as int] == current@ && tweets[i - 1] == previous@);
        }
        let replies = match &current.in_reply_to_status_id_str {
            Some(reply_to) => str_equal(reply_to.as_str(), previous.id_str.as_str()),
            None => false,
        };
        if !replies {
            return false;
        }
        i = i + 1;
    }
    true
}

/// Measures the threads' shapes: how many have one tweet or several, the longest, the total
/// length, and how many multi-tweet threads are reply chains.
pub fn analyze_threading_quality(_all_tweets: &[TweetWrapper], threads: &[Thread]) -> (quality:
    ThreadingQuality)
    requires
        thread_length_sum(threads.deep_view(), threads.deep_view().len()) <= usize::MAX,
    ensures
        ({
            let c = quality_counts(threads.deep_view(), threads.deep_view().len());
            &&& quality.total_threads == threads@.len()
            &&& quality.single_tweet_threads == c.0
            &&& quality.multi_tweet_threads == c.1
            &&& quality.longest_thread == c.2
            &&& quality.total_thread_length == thread_length_sum(
                threads.deep_view(),
                threads.deep_view().len(),
            )
            &&& quality.reply_chains_found == c.3
        }),
{
    let ghost model = threads.deep_view();
    let mut quality = ThreadingQuality {
        total_threads: threads.len(),
        single_tweet_threads: 0,
        multi_tweet_threads: 0,
        longest_thread: 0,
        total_thread_length: 0,
        reply_chains_found: 0,
    };
    let mut t: usize = 0;
    while t < threads.len()
        invariant
            model == threads.deep_view(),
            model.len() == threads@.len(),
            thread_length_sum(model, model.len()) <= usize::MAX,
            t <= threads@.len(),
            quality.total_threads == threads@.len(),
            quality.total_thread_length == thread_length_sum(model, t as nat),
            ({
                let c = quality_counts(model, t as nat);
                &&& quality.single_tweet_threads == c.0
                &&& quality.multi_tweet_threads == c.1
                &&& quality.longest_thread == c.2
                &&& quality.reply_chains_found == c.3
            }),
        decreases threads@.len() - t,
    {
        let thread = &threads[t];
        proof {
            assert(model[t as int] == thread@);
            lemma_thread_length_sum_monotonic(model, (t + 1) as nat, model.len());
            lemma_quality_counts_bounded(model, t as nat);
        }
        let len = thread.tweets.len();
        quality.total_thread_length = quality.total_thread_length + len;
        if len == 1 {
            quality.single_tweet_threads = quality.single_tweet_threads + 1;
        } else {
            quality.multi_tweet_threads = quality.multi_tweet_threads + 1;
            if reply_chain_holds(thread) {
                quality.reply_chains_found = quality.reply_chains_found + 1;
            }
        }
        if len > quality.longest_thread {
            quality.longest_thread = len;
        }
        t = t + 1;
    }
    quality
}

/// Whether some thread holds a tweet with identifier `id`.
pub open spec fn threaded(threads: Seq<ThreadModel>, id: Seq<char>) -> bool {
    exists|g: int, k: int|
        0 <= g < threads.len() && 0 <= k < threads[g].tweets.len() && (#[trigger] threads[g].tweets[k]).id_str
            == id
}

/// The tweets of the first `count` threads, one thread after another.
pub open spec fn flat_tweets(threads: Seq<ThreadModel>, count: nat) -> Seq<TweetModel>
    decreases count,
{
    if count == 0 {
        Seq::empty()
    } else {
        flat_tweets(threads, (count - 1) as nat) + threads[count - 1].tweets
    }
}

/// An identifier is among the flattened tweets exactly when a thread holds it.
proof fn lemma_flat_tweets_hold(threads: Seq<ThreadModel>, count: nat, id: Seq<char>)
    requires
        count <= threads.len(),
    ensures
        (exists|j: int| 0 <= j < flat_tweets(threads, count).len() && (#[trigger] flat_tweets(threads, count)[j]).id_str == id)
            <==> (exists|g: int, k: int|
            0 <= g < count && 0 <= k < threads[g].tweets.len() && (#[trigger] threads[g].tweets[k]).id_str == id),
    decreases count,
{
    if count > 0 {
        lemma_flat_tweets_hold(threads, (count - 1) as nat, id);
        let before = flat_tweets(threads, (count - 1) as nat);
        let last = threads[count - 1].tweets;
        let flat = flat_tweets(threads, count);
        assert(flat == before + last);
        if exists|j: int| 0 <= j < flat.len() && (#[trigger] flat[j]).id_str == id {
            let j = choose|j: int| 0 <= j < flat.len() && (#[trigger] flat[j]).id_str == id;
            if j < before.len() {
                assert(flat[j] == before[j]);
                assert(exists|j: int| 0 <= j < before.len() && (#[trigger] before[j]).id_str == id);
            } else {
                assert(flat[j] == last[j - before.len()]);
                assert(threads[count - 1].tweets[j - before.len()].id_str == id);
            }
        }
        if exists|g: int, k: int|
            0 <= g < count && 0 <= k < threads[g].tweets.len() && (#[trigger] threads[g].tweets[k]).id_str == id {
            let (g, k) = choose|g: int, k: int|
                0 <= g < count && 0 <= k < threads[g].tweets.len() && (#[trigger] threads[g].tweets[k]).id_str == id;
            if g < count - 1 {
                let j = choose|j: int| 0 <= j < before.len() && (#[trigger] before[j]).id_str == id;
                assert(flat[j] == before[j]);
            } else {
                assert(flat[before.len() + k] == last[k]);
            }
        }
    }
}

/// The tweets of all threads, one thread after another.
fn flatten_threads(threads: &[Thread]) -> (flat: Vec<Tweet>)
    ensures
        flat.deep_view() == flat_tweets(threads.deep_view(), threads.deep_view().len()),
{
    let ghost model = threads.deep_view();
    let mut flat: Vec<Tweet> = Vec::new();
    let mut t: usize = 0;
    while t < threads.len()
        invariant
            model == threads.deep_view(),
            model.len() == threads@.len(),
            t <= threads@.len(),
            flat.deep_view() == flat_tweets(model, t as nat),
        decreases threads@.len() - t,
    {
        let thread = &threads[t];
        proof {
            assert(model[t as int] == thread@);
        }
        let ghost start = flat.deep_view();
        let mut k: usize = 0;
        while k < thread.tweets.len()
            invariant
                k <= thread.tweets@.len(),
                flat.deep_view() == start + thread@.tweets.subrange(0, k as int),
            decreases thread.tweets@.len() - k,
        {
            let ghost before = flat.deep_view();
            flat.push(thread.tweets[k].clone());
            proof {
                assert(thread@.tweets[k as int] == thread.tweets@[k as int]@);
                assert(flat.deep_view() =~= before.push(thread.tweets@[k as int]@));
                assert(thread@.tweets.subrange(0, k + 1) =~= thread@.tweets.subrange(0, k as int).push(
                    thread@.tweets[k as int],
                ));
                assert(flat.deep_view() =~= start + thread@.tweets.subrange(0, k + 1));
            }
            k = k + 1;
        }
        proof {
            assert(thread@.tweets.subrange(0, thread@.tweets.len() as int) =~= thread@.tweets);
        }
        t = t + 1;
    }
    flat
}

/// The number of the first `count` archive tweets that some thread holds.
pub open spec fn covered_count(tweets: Seq<TweetModel>, threads: Seq<ThreadModel>, count: nat) -> nat
    decreases count,
{
    if count == 0 {
        0
    } else {
        covered_count(tweets, threads, (count - 1) as nat) + if threaded(
            threads,
            tweets[count - 1].id_str,
        ) {
            1nat
        } else {
            0nat
        }
    }
}

/// Counts the archive tweets, retweets included, that some thread holds, and those that none
/// does.
pub fn coverage_summary(all_tweets: &[TweetWrapper], threads: &[Thread]) -> (summary: (usize, usize))
    ensures
        summary.0 == covered_count(wrapped_tweets(all_tweets@), threads.deep_view(), all_tweets@.len()),
        summary.0 + summary.1 == all_tweets@.len(),
{
    let ghost model = threads.deep_view();
    let flat = flatten_threads(threads);
    let ghost flat_model = flat.deep_view();
    let slice = flat.as_slice();
    let by_id = positions_by_id(slice);
    proof {
        assert(slice.deep_view() =~= flat_model);
    }
    let ghost wrapped = wrapped_tweets(all_tweets@);
    let mut covered: usize = 0;
    let mut missed: usize = 0;
    let mut k: usize = 0;
    while k < all_tweets.len()
        invariant
            model == threads.deep_view(),
            model.len() == threads@.len(),
            flat_model == flat_tweets(model, model.len()),
            slice.deep_view() == flat_model,
            crate::sort::is_sorted_order(
                by_id@,
                crate::sort::key_order(crate::processing::reply_threads::id_keys(flat_model)),
                flat_model.len(),
            ),
            crate::sort::strict_total_on(
                crate::sort::key_order(crate::processing::reply_threads::id_keys(flat_model)),
                flat_model.len(),
            ),
            wrapped == wrapped_tweets(all_tweets@),
            k <= all_tweets@.len(),
            covered == covered_count(wrapped, model, k as nat),
            covered + missed == k,
        decreases all_tweets@.len() - k,
    {
        let tweet = &all_tweets[k].tweet;
        proof {
            assert(wrapped[k as int] == tweet@);
        }
        let found = lookup_tweet_by_id(slice, &by_id, tweet.id_str.as_str());
        proof {
            crate::processing::reply_threads::lemma_last_with_id(flat_model, tweet.id_str@, flat_model.len());
            lemma_flat_tweets_hold(model, model.len(), tweet.id_str@);
            if found is Some {
                let p = found.unwrap() as int;
                assert(flat_model[p].id_str == tweet.id_str@);
                assert(exists|j: int| 0 <= j < flat_model.len() && (#[trigger] flat_model[j]).id_str == tweet.id_str@);
            } else {
                assert(!exists|j: int| 0 <= j < flat_model.len() && (#[trigger] flat_model[j]).id_str == tweet.id_str@);
            }
        }
        if found.is_some() {
            covered = covered + 1;
        } else {
            missed = missed + 1;
        }
        k = k + 1;
    }
    (covered, missed)
}

/// The archive tweets among the first `count` that are not retweets and that no thread holds,
/// in order.
pub open spec fn missing_tweets(tweets: Seq<TweetModel>, threads: Seq<ThreadModel>, count: nat) -> Seq<
    TweetModel,
>
    decreases count,
{
    if count == 0 {
        Seq::empty()
    } else {
        let before = missing_tweets(tweets, threads, (count - 1) as nat);
        let tweet = tweets[count - 1];
        if !tweet.retweeted && !threaded(threads, tweet.id_str) {
            before.push(tweet)
        } else {
            before
        }
    }
}

/// The first `count` tweets of a sample that satisfy `keep`.
pub open spec fn count_where(tweets: Seq<TweetModel>, keep: spec_fn(TweetModel) -> bool, count: nat) -> nat
    decreases count,
{
    if count == 0 {
        0
    } else {
        count_where(tweets, keep, (count - 1) as nat) + if keep(tweets[count - 1]) {
            1nat
        } else {
            0nat
        }
    }
}

/// No more tweets satisfy a test than were counted.
proof fn lemma_count_where_bounded(tweets: Seq<TweetModel>, keep: spec_fn(TweetModel) -> bool, count: nat)
    ensures
        count_where(tweets, keep, count) <= count,
    decreases count,
{
    if count > 0 {
        lemma_count_where_bounded(tweets, keep, (count - 1) as nat);
    }
}

/// The number of missing tweets sampled for a closer look.
pub open spec fn sample_size(missing: nat) -> nat {
    if missing < 5 {
        missing
    } else {
        5
    }
}

/// The tweets that no thread holds, with a closer look at the first five of them.
#[derive(Debug)]
pub struct MissingTweetsReport {
    /// Non-retweets that no thread holds, in archive order.
    pub missing: Vec<Tweet>,
    /// Replies among the sampled tweets.
    pub sample_replies: usize,
    /// Originals among the sampled tweets.
    pub sample_originals: usize,
    /// Sampled tweets with mentions.
    pub sample_with_mentions: usize,
    /// Sampled tweets with URLs.
    pub sample_with_urls: usize,
}

/// Finds the non-retweets that no thread holds, and counts, among the first five of them, the
/// replies, the originals, and those with mentions or URLs.
pub fn investigate_missing_tweets(all_tweets: &[TweetWrapper], threads: &[Thread]) -> (report:
    MissingTweetsReport)
    ensures
        ({
            let missing = missing_tweets(wrapped_tweets(all_tweets@), threads.deep_view(), all_tweets@.len());
            let n = sample_size(missing.len());
            &&& report.missing.deep_view() == missing
            &&& report.sample_replies == count_where(missing, |t: TweetModel| t.in_reply_to_status_id_str is Some, n)
            &&& report.sample_originals == count_where(missing, |t: TweetModel| t.in_reply_to_status_id_str is None, n)
            &&& report.sample_with_mentions == count_where(missing, |t: TweetModel| t.entities.user_mentions.len() > 0, n)
            &&& report.sample_with_urls == count_where(missing, |t: TweetModel| t.entities.urls.len() > 0, n)
        }),
{
    let ghost model = threads.deep_view();
    let flat = flatten_threads(threads);
    let ghost flat_model = flat.deep_view();
    let slice = flat.as_slice();
    let by_id = positions_by_id(slice);
    proof {
        assert(slice.deep_view() =~= flat_model);
    }
    let ghost wrapped = wrapped_tweets(all_tweets@);
    let mut missing: Vec<Tweet> = Vec::new();
    let mut k: usize = 0;
    while k < all_tweets.len()
        invariant
            model == threads.deep_view(),
            model.len() == threads@.len(),
            flat_model == flat.deep_view(),
            flat_model == flat_tweets(model, model.len()),
            slice.deep_view() == flat_model,
            crate::sort::is_sorted_order(
                by_id@,
                crate::sort::key_order(crate::processing::reply_threads::id_keys(flat_model)),
                flat_model.len(),
            ),
            crate::sort::strict_total_on(
                crate::sort::key_order(crate::processing::reply_threads::id_keys(flat_model)),
                flat_model.len(),
            ),
            wrapped == wrapped_tweets(all_tweets@),
            k <= all_tweets@.len(),
            missing.deep_view() == missing_tweets(wrapped, model, k as nat),
        decreases all_tweets@.len() - k,
    {
        let tweet = &all_tweets[k].tweet;
        proof {
            assert(wrapped[k as int] == tweet@);
        }
        if !tweet.retweeted {
            let found = lookup_tweet_by_id(slice, &by_id, tweet.id_str.as_str());
            proof {
                crate::processing::reply_threads::lemma_last_with_id(flat_model, tweet.id_str@, flat_model.len());
                lemma_flat_tweets_hold(model, model.len(), tweet.id_str@);
                if found is Some {
                    let p = found.unwrap() as int;
                    assert(flat_model[p].id_str == tweet.id_str@);
                    assert(exists|j: int| 0 <= j < flat_model.len() && (#[trigger] flat_model[j]).id_str == tweet.id_str@);
                } else {
                    assert(!exists|j: int| 0 <= j < flat_model.len() && (#[trigger] flat_model[j]).id_str == tweet.id_str@);
                }
            }
            if found.is_none() {
                let ghost before = missing.deep_view();
                missing.push(tweet.clone());
                proof {
                    assert(missing.deep_view() =~= before.push(wrapped[k as int]));
                }
            }
        }
        k = k + 1;
    }
    let ghost missing_model = missing.deep_view();
    let sample = if missing.len() < 5 {
        missing.len()
    } else {
        5
    };
    let mut report = MissingTweetsReport {
        missing: Vec::new(),
        sample_replies: 0,
        sample_originals: 0,
        sample_with_mentions: 0,
        sample_with_urls: 0,
    };
    let mut i: usize = 0;
    while i < sample
        invariant
            missing_model == missing.deep_view(),
            missing_model.len() == missing@.len(),
            sample == sample_size(missing_model.len()),
            i <= sample,
            report.sample_replies == count_where(missing_model, |t: TweetModel| t.in_reply_to_status_id_str is Some, i as nat),
            report.sample_originals == count_where(missing_model, |t: TweetModel| t.in_reply_to_status_id_str is None, i as nat),
            report.sample_with_mentions == count_where(missing_model, |t: TweetModel| t.entities.user_mentions.len() > 0, i as nat),
            report.sample_with_urls == count_where(missing_model, |t: TweetModel| t.entities.urls.len() > 0, i as nat),
        decreases sample - i,
    {
        let tweet = &missing[i];
        proof {
            assert(missing_model[i as int] == tweet@);
            lemma_count_where_bounded(missing_model, |t: TweetModel| t.in_reply_to_status_id_str is Some, i as nat);
            lemma_count_where_bounded(missing_model, |t: TweetModel| t.in_reply_to_status_id_str is None, i as nat);
            lemma_count_where_bounded(missing_model, |t: TweetModel| t.entities.user_mentions.len() > 0, i as nat);
            lemma_count_where_bounded(missing_model, |t: TweetModel| t.entities.urls.len() > 0, i as nat);
        }
        if tweet.in_reply_to_status_id_str.is_some() {
            report.sample_replies = report.sample_replies + 1;
        } else {
            report.sample_originals = report.sample_originals + 1;
        }
        if tweet.entities.user_mentions.len() > 0 {
            report.sample_with_mentions = report.sample_with_mentions + 1;
        }
        if tweet.entities.urls.len() > 0 {
            report.sample_with_urls = report.sample_with_urls + 1;
        }
        i = i + 1;
    }
    report.missing = missing;
    report
}

/// The bytes of the assignment that precedes the tweets array in `tweets.js`:
/// `window.YTD.tweets.part0 = `.
pub open spec fn tweets_marker() -> Seq<u8> {
    seq![
        119u8, 105, 110, 100, 111, 119, 46, 89, 84, 68, 46, 116, 119, 101, 101, 116, 115, 46, 112,
        97, 114, 116, 48, 32, 61, 32,
    ]
}

/// The first position below `count` where `needle` occurs in `hay`.
pub open spec fn first_match(hay: Seq<u8>, needle: Seq<u8>, count: nat) -> Option<nat>
    decreases count,
{
    if count == 0 {
        None
    } else {
        match first_match(hay, needle, (count - 1) as nat) {
            Some(i) => Some(i),
            None => {
                let i = (count - 1) as nat;
                if i + needle.len() <= hay.len() && hay.subrange(i as int, (i + needle.len()) as int) == needle {
                    Some(i)
                } else {
                    None
                }
            },
        }
    }
}

/// A found match is a match.
proof fn lemma_first_match(hay: Seq<u8>, needle: Seq<u8>, count: nat)
    ensures
        first_match(hay, needle, count) matches Some(i) ==> i < count && i + needle.len()
            <= hay.len() && hay.subrange(i as int, (i + needle.len()) as int) == needle,
    decreases count,
{
    if count > 0 {
        lemma_first_match(hay, needle, (count - 1) as nat);
    }
}

/// Once a first match is found, looking further keeps it.
proof fn lemma_first_match_stays(hay: Seq<u8>, needle: Seq<u8>, count: nat, total: nat)
    requires
        count <= total,
        first_match(hay, needle, count) is Some,
    ensures
        first_match(hay, needle, total) == first_match(hay, needle, count),
    decreases total - count,
{
    if count < total {
        lemma_first_match_stays(hay, needle, count, (total - 1) as nat);
    }
}

/// The tweets array of a `tweets.js` script: from just after the marker to its last `]`, or
/// the message of what is missing.
pub open spec fn tweets_json_bytes(content: Seq<char>) -> Result<Seq<u8>, Seq<char>> {
    let bytes = encode_utf8(content);
    match first_match(bytes, tweets_marker(), bytes.len() + 1) {
        None => Err("Could not find tweets start marker"@),
        Some(start) => match last_byte_at(bytes, 93, bytes.len()) {
            None => Err("Could not find tweets end marker"@),
            Some(end) => Ok(bytes.subrange((start + tweets_marker().len()) as int, (end + 1) as int)),
        },
    }
}

/// The last `]` does not come before the marker ends, so that the array can be cut out.
pub open spec fn tweets_json_cuttable(content: Seq<char>) -> bool {
    let bytes = encode_utf8(content);
    match (first_match(bytes, tweets_marker(), bytes.len() + 1), last_byte_at(bytes, 93, bytes.len())) {
        (Some(start), Some(end)) => start + tweets_marker().len() <= end + 1,
        _ => true,
    }
}

/// Finds the first occurrence of `needle`.
fn find_bytes(hay: &[u8], needle: &[u8]) -> (found: Option<usize>)
    ensures
        match found {
            Some(i) => first_match(hay@, needle@, hay@.len() + 1) == Some(i as nat),
            None => first_match(hay@, needle@, hay@.len() + 1) is None,
        },
{
    let hay_len = hay.len();
    let needle_len = needle.len();
    let mut i: usize = 0;
    while i <= hay_len
        invariant
            hay_len == hay@.len(),
            needle_len == needle@.len(),
            i <= hay_len + 1,
            first_match(hay@, needle@, i as nat) is None,
        decreases hay_len + 1 - i,
    {
        if needle_len <= hay_len - i {
            if bytes_match_at(hay, needle, i) {
                proof {
                    lemma_first_match_stays(hay@, needle@, (i + 1) as nat, hay@.len() + 1);
                }
                return Some(i);
            }
        }
        if i == hay_len {
            proof {
                assert(first_match(hay@, needle@, (i + 1) as nat) is None);
            }
            return None;
        }
        i = i + 1;
    }
    None
}

/// Extracts the tweets array from a `tweets.js` script: from just after the
/// `window.YTD.tweets.part0 = ` marker to the last `]`.
pub fn extract_json_content(content: &str) -> (result: Result<String, String>)
    requires
        tweets_json_cuttable(content@),
    ensures
        match (result, tweets_json_bytes(content@)) {
            (Ok(json), Ok(bytes)) => encode_utf8(json@) == bytes,
            (Err(message), Err(expected)) => message@ == expected,
            _ => false,
        },
{
    let bytes = content.as_bytes();
    let byte_count = bytes.len();
    let ghost all = encode_utf8(content@);
    proof {
        assert(bytes@ == all);
        encode_utf8_valid_utf8(content@);
    }
    let marker: Vec<u8> = vec![
        119u8, 105, 110, 100, 111, 119, 46, 89, 84, 68, 46, 116, 119, 101, 101, 116, 115, 46, 112,
        97, 114, 116, 48, 32, 61, 32,
    ];
    proof {
        assert(marker@ =~= tweets_marker());
    }
    let start = match find_bytes(bytes, marker.as_slice()) {
        Some(p) => p,
        None => {
            return Err("Could not find tweets start marker".to_owned());
        },
    };
    let end = match rfind_byte(bytes, 93) {
        Some(p) => p,
        None => {
            return Err("Could not find tweets end marker".to_owned());
        },
    };
    proof {
        lemma_first_match(all, tweets_marker(), all.len() + 1);
        lemma_last_byte_at_found(all, 93, all.len());
    }
    let json_start = start + 26;
    proof {
        assert(all.subrange(start as int, start + 26) == tweets_marker());
        assert(all[start + 25] == all.subrange(start as int, start + 26)[25]);
        is_char_boundary_iff_not_is_continuation_byte(all, start + 25);
        lemma_boundary_after_ascii(all, start + 25);
        is_char_boundary_iff_not_is_continuation_byte(all, end as int);
        lemma_boundary_after_ascii(all, end as int);
    }
    let (head, _) = content.split_at(end + 1);
    proof {
        valid_utf8_split(all, end + 1);
        let prefix = all.subrange(0, end + 1);
        assert(head.spec_bytes() =~= prefix);
        if json_start < end + 1 {
            is_char_boundary_iff_not_is_continuation_byte(prefix, json_start as int);
            is_char_boundary_iff_not_is_continuation_byte(all, json_start as int);
        }
    }
    let (_, json) = head.split_at(json_start);
    proof {
        assert(json.spec_bytes() =~= all.subrange(json_start as int, end + 1));
    }
    Ok(json.to_owned())
}

} // verus!
