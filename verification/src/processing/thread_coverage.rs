//! What reply-thread reconstruction keeps: every tweet's identifier ends up in a thread.

use vstd::prelude::*;

use crate::processing::data_structures::TweetModel;
use crate::processing::reply_threads::{
    created_keys, created_order, first_created_keys, ids_of, newest_first_order, parent_of,
    pushed_replies, reaches_root, replies_acyclic, replies_to, reply_threads, root_from,
    sorted_group, thread_groups, thread_root, walk,
};
use crate::sort::{all_positions, lemma_key_order_total, lemma_stable_order_exists, stable_order};

verus! {

/// A tweet replying to `id` is among the replies to `id`.
proof fn lemma_replies_to_contains(tweets: Seq<TweetModel>, id: Seq<char>, count: nat, c: nat)
    requires
        tweets.len() <= usize::MAX,
        c < count <= tweets.len(),
        tweets[c as int].in_reply_to_status_id == Some(id),
    ensures
        replies_to(tweets, id, count).contains(c as usize),
    decreases count,
{
    let before = replies_to(tweets, id, (count - 1) as nat);
    if c < count - 1 {
        lemma_replies_to_contains(tweets, id, (count - 1) as nat, c);
        let j = choose|j: int| 0 <= j < before.len() && before[j] == c as usize;
        if tweets[count - 1].in_reply_to_status_id == Some(id) {
            assert(replies_to(tweets, id, count) == before.push((count - 1) as usize));
            assert(replies_to(tweets, id, count)[j] == c as usize);
        }
    } else {
        assert(replies_to(tweets, id, count) == before.push((count - 1) as usize));
        assert(replies_to(tweets, id, count)[before.len() as int] == c as usize);
    }
}

/// A candidate whose identifier is unseen is pushed.
proof fn lemma_pushed_replies_contains(
    tweets: Seq<TweetModel>,
    candidates: Seq<usize>,
    seen: Set<Seq<char>>,
    c: usize,
)
    requires
        candidates.contains(c),
        c < tweets.len(),
        !seen.contains(tweets[c as int].id_str),
    ensures
        pushed_replies(tweets, candidates, seen).contains(c),
    decreases candidates.len(),
{
    let rest = pushed_replies(tweets, candidates.drop_first(), seen);
    if candidates[0] == c {
        assert(pushed_replies(tweets, candidates, seen) == rest.push(c));
        assert(rest.push(c)[rest.len() as int] == c);
    } else {
        let j = choose|j: int| 0 <= j < candidates.len() && candidates[j] == c;
        assert(candidates.drop_first()[j - 1] == c);
        lemma_pushed_replies_contains(tweets, candidates.drop_first(), seen, c);
        let k = choose|k: int| 0 <= k < rest.len() && rest[k] == c;
        if !seen.contains(tweets[candidates[0] as int].id_str) {
            assert(pushed_replies(tweets, candidates, seen) == rest.push(candidates[0]));
            assert(rest.push(candidates[0])[k] == c);
        }
    }
}

/// A walk is closed under replies: every tweet on the stack, and every reply to an emitted
/// tweet, has its identifier seen before the walk or emitted by it; and it emits only tweet
/// positions.
proof fn lemma_walk_closed(tweets: Seq<TweetModel>, stack: Seq<usize>, seen: Set<Seq<char>>)
    requires
        tweets.len() <= usize::MAX,
    ensures
        forall|k: int|
            0 <= k < stack.len() && stack[k] < tweets.len() ==> seen.contains(
                tweets[#[trigger] stack[k] as int].id_str,
            ) || ids_of(tweets, walk(tweets, stack, seen)).contains(tweets[stack[k] as int].id_str),
        forall|e: int, c: nat|
            #![trigger walk(tweets, stack, seen)[e], tweets[c as int]]
            0 <= e < walk(tweets, stack, seen).len() && c < tweets.len()
                && tweets[c as int].in_reply_to_status_id == Some(
                tweets[walk(tweets, stack, seen)[e] as int].id_str,
            ) ==> seen.contains(tweets[c as int].id_str) || ids_of(
                tweets,
                walk(tweets, stack, seen),
            ).contains(tweets[c as int].id_str),
        forall|e: int|
            0 <= e < walk(tweets, stack, seen).len() ==> #[trigger] walk(tweets, stack, seen)[e]
                < tweets.len(),
    decreases crate::processing::reply_threads::unseen_count(tweets, seen, tweets.len()), stack.len(),
{
    let w = walk(tweets, stack, seen);
    if stack.len() == 0 {
    } else {
        let top = stack.last();
        let rest = stack.drop_last();
        if top >= tweets.len() || seen.contains(tweets[top as int].id_str) {
            lemma_walk_closed(tweets, rest, seen);
            assert(w == walk(tweets, rest, seen));
            assert forall|k: int|
                0 <= k < stack.len() && stack[k] < tweets.len() implies seen.contains(
                    tweets[#[trigger] stack[k] as int].id_str,
                ) || ids_of(tweets, w).contains(tweets[stack[k] as int].id_str) by {
                if k < rest.len() {
                    assert(stack[k] == rest[k]);
                }
            }
        } else {
            let id = tweets[top as int].id_str;
            let now_seen = seen.insert(id);
            let pushed = pushed_replies(tweets, replies_to(tweets, id, tweets.len()), now_seen);
            let next = rest + pushed;
            crate::processing::reply_threads::lemma_unseen_count_insert(
                tweets,
                seen,
                tweets.len(),
                top as nat,
            );
            lemma_walk_closed(tweets, next, now_seen);
            let inner = walk(tweets, next, now_seen);
            assert(w == seq![top] + inner);
            assert forall|x: Seq<char>| ids_of(tweets, inner).contains(x) implies ids_of(
                tweets,
                w,
            ).contains(x) by {
                let k = choose|k: int| 0 <= k < inner.len() && tweets[inner[k] as int].id_str == x;
                assert(w[k + 1] == inner[k]);
            }
            assert(ids_of(tweets, w).contains(id)) by {
                assert(w[0] == top);
            }
            assert forall|k: int|
                0 <= k < stack.len() && stack[k] < tweets.len() implies seen.contains(
                    tweets[#[trigger] stack[k] as int].id_str,
                ) || ids_of(tweets, w).contains(tweets[stack[k] as int].id_str) by {
                if k < rest.len() {
                    assert(stack[k] == next[k]);
                }
            }
            assert forall|e: int, c: nat|
                #![trigger w[e], tweets[c as int]]
                0 <= e < w.len() && c < tweets.len() && tweets[c as int].in_reply_to_status_id
                    == Some(tweets[w[e] as int].id_str) implies seen.contains(
                    tweets[c as int].id_str,
                ) || ids_of(tweets, w).contains(tweets[c as int].id_str) by {
                if e == 0 {
                    assert(w[0] == top);
                    let cid = tweets[c as int].id_str;
                    if !now_seen.contains(cid) {
                        lemma_replies_to_contains(tweets, id, tweets.len(), c);
                        lemma_pushed_replies_contains(
                            tweets,
                            replies_to(tweets, id, tweets.len()),
                            now_seen,
                            c as usize,
                        );
                        let j = choose|j: int| 0 <= j < pushed.len() && pushed[j] == c as usize;
                        assert(next[rest.len() + j] == c as usize);
                    }
                } else {
                    assert(w[e] == inner[e - 1]);
                }
            }
            assert forall|e: int| 0 <= e < w.len() implies #[trigger] w[e] < tweets.len() by {
                if e > 0 {
                    assert(w[e] == inner[e - 1]);
                }
            }
        }
    }
}

/// Following replies upward from `x` ends at `root`, so the walk from `root` emits `x`'s
/// identifier.
proof fn lemma_walk_reaches(tweets: Seq<TweetModel>, root: usize, x: nat, steps: nat)
    requires
        tweets.len() <= usize::MAX,
        x < tweets.len(),
        root < tweets.len(),
        reaches_root(tweets, x, steps),
        root_from(tweets, x, steps) == root as nat,
    ensures
        ids_of(tweets, walk(tweets, seq![root], Set::empty())).contains(tweets[x as int].id_str),
    decreases steps,
{
    let w = walk(tweets, seq![root], Set::empty());
    lemma_walk_closed(tweets, seq![root], Set::empty());
    match parent_of(tweets, x) {
        None => {
            assert(seq![root][0] == root);
        },
        Some(p) => {
            crate::processing::reply_threads::lemma_tweet_by_id_in_range(
                tweets,
                tweets[x as int].in_reply_to_status_id.unwrap(),
            );
            lemma_walk_reaches(tweets, root, p, (steps - 1) as nat);
            let e = choose|e: int| 0 <= e < w.len() && tweets[w[e] as int].id_str == tweets[p as int].id_str;
            assert(tweets[x as int].in_reply_to_status_id == Some(tweets[w[e] as int].id_str));
        },
    }
}

/// Following replies upward from a tweet stays among the tweets.
proof fn lemma_root_from_in_range(tweets: Seq<TweetModel>, x: nat, steps: nat)
    requires
        x < tweets.len(),
    ensures
        root_from(tweets, x, steps) < tweets.len(),
    decreases steps,
{
    if let Some(p) = parent_of(tweets, x) {
        crate::processing::reply_threads::lemma_tweet_by_id_in_range(
            tweets,
            tweets[x as int].in_reply_to_status_id.unwrap(),
        );
        if steps > 0 {
            lemma_root_from_in_range(tweets, p, (steps - 1) as nat);
        }
    }
}

/// After the first `count` tweets, every one of their identifiers is placed, and every
/// placed identifier is that of a member of some group; members are tweet positions.
proof fn lemma_thread_groups_cover(tweets: Seq<TweetModel>, count: nat)
    requires
        tweets.len() <= usize::MAX,
        count <= tweets.len(),
        replies_acyclic(tweets),
    ensures
        forall|i: nat|
            i < count ==> thread_groups(tweets, count).1.contains(#[trigger] tweets[i as int].id_str),
        forall|x: Seq<char>|
            #[trigger] thread_groups(tweets, count).1.contains(x) ==> exists|g: int, k: int|
                0 <= g < thread_groups(tweets, count).0.len() && 0 <= k < thread_groups(
                    tweets,
                    count,
                ).0[g].len() && tweets[thread_groups(tweets, count).0[g][k] as int].id_str == x,
        forall|g: int, k: int|
            0 <= g < thread_groups(tweets, count).0.len() && 0 <= k < thread_groups(
                tweets,
                count,
            ).0[g].len() ==> #[trigger] thread_groups(tweets, count).0[g][k] < tweets.len(),
    decreases count,
{
    if count > 0 {
        let i = (count - 1) as nat;
        lemma_thread_groups_cover(tweets, i);
        let groups = thread_groups(tweets, i).0;
        let placed = thread_groups(tweets, i).1;
        let now = thread_groups(tweets, count);
        if placed.contains(tweets[i as int].id_str) {
            assert(now == (groups, placed));
        } else {
            let root = thread_root(tweets, i);
            lemma_root_from_in_range(tweets, i, tweets.len());
            let group = walk(tweets, seq![root as usize], Set::empty());
            assert(reaches_root(tweets, i, tweets.len()));
            lemma_walk_reaches(tweets, root as usize, i, tweets.len());
            lemma_walk_closed(tweets, seq![root as usize], Set::empty());
            let next_groups = if group.len() > 0 {
                groups.push(group)
            } else {
                groups
            };
            assert(now == (next_groups, placed.union(ids_of(tweets, group))));
            assert forall|x: Seq<char>| #[trigger] now.1.contains(x) implies exists|g: int, k: int|
                0 <= g < now.0.len() && 0 <= k < now.0[g].len() && tweets[now.0[g][k] as int].id_str
                    == x by {
                if placed.contains(x) {
                    let (g, k) = choose|g: int, k: int|
                        0 <= g < groups.len() && 0 <= k < groups[g].len() && tweets[groups[g][k] as int].id_str
                            == x;
                    assert(now.0[g] == groups[g]);
                } else {
                    let k = choose|k: int|
                        0 <= k < group.len() && tweets[group[k] as int].id_str == x;
                    assert(now.0[groups.len() as int] == group);
                }
            }
            assert forall|g: int, k: int|
                0 <= g < now.0.len() && 0 <= k < now.0[g].len() implies #[trigger] now.0[g][k]
                < tweets.len() by {
                if g < groups.len() {
                    assert(now.0[g] == groups[g]);
                } else {
                    assert(now.0[g] == group);
                }
            }
        }
    }
}

/// A position below `n` appears in the stable order of `0..n`.
proof fn lemma_stable_order_covers(lt: spec_fn(nat, nat) -> bool, n: nat, k: nat)
    requires
        crate::sort::strict_total_on(lt, n),
        n <= usize::MAX,
        k < n,
    ensures
        exists|j: int| 0 <= j < n && stable_order(lt, n)[j] == k as usize,
{
    broadcast use vstd::seq_lib::group_to_multiset_ensures;

    lemma_stable_order_exists(lt, n);
    let order = stable_order(lt, n);
    assert(all_positions(n)[k as int] == k as usize);
    assert(all_positions(n).contains(k as usize));
    assert(order.to_multiset().count(k as usize) > 0);
    assert(order.contains(k as usize));
    assert(order.len() == order.to_multiset().len());
    assert(all_positions(n).len() == all_positions(n).to_multiset().len());
}

/// No tweet is lost: the identifier of every tweet appears in some reconstructed thread.
pub proof fn lemma_reply_threads_cover_tweets(tweets: Seq<TweetModel>)
    requires
        tweets.len() <= usize::MAX,
        replies_acyclic(tweets),
    ensures
        forall|i: int|
            0 <= i < tweets.len() ==> exists|g: int, k: int|
                0 <= g < reply_threads(tweets).len() && 0 <= k < reply_threads(tweets)[g].len()
                    && (#[trigger] reply_threads(tweets)[g][k]).id_str == (#[trigger] tweets[i]).id_str,
{
    let n = tweets.len();
    let groups = thread_groups(tweets, n).0;
    let sorted = Seq::new(groups.len(), |g: int| sorted_group(tweets, groups[g]));
    let outer_lt = newest_first_order(tweets, sorted);
    let outer = stable_order(outer_lt, sorted.len());
    lemma_thread_groups_cover(tweets, n);
    crate::processing::reply_threads::lemma_thread_groups_shape(tweets, n);
    lemma_key_order_total(first_created_keys(tweets, sorted));
    assert forall|i: int| 0 <= i < n implies exists|g: int, k: int|
        0 <= g < reply_threads(tweets).len() && 0 <= k < reply_threads(tweets)[g].len()
            && (#[trigger] reply_threads(tweets)[g][k]).id_str == (#[trigger] tweets[i]).id_str by {
        let x = tweets[i].id_str;
        assert(thread_groups(tweets, n).1.contains(tweets[i as nat as int].id_str));
        let (g0, k0) = choose|g: int, k: int|
            0 <= g < groups.len() && 0 <= k < groups[g].len() && tweets[groups[g][k] as int].id_str == x;
        let group = groups[g0];
        let inner_lt = created_order(tweets, group);
        lemma_key_order_total(created_keys(tweets, group));
        lemma_stable_order_covers(inner_lt, group.len(), k0 as nat);
        let inner = stable_order(inner_lt, group.len());
        let k1 = choose|j: int| 0 <= j < group.len() && inner[j] == k0 as usize;
        assert(sorted_group(tweets, group)[k1] == group[k0]);
        lemma_stable_order_covers(outer_lt, sorted.len(), g0 as nat);
        let g1 = choose|j: int| 0 <= j < sorted.len() && outer[j] == g0 as usize;
        assert(reply_threads(tweets)[g1][k1] == tweets[group[k0] as int]);
    }
}

/// No two tweets share an identifier.
pub open spec fn distinct_ids(tweets: Seq<TweetModel>) -> bool {
    forall|a: int, b: int|
        0 <= a < tweets.len() && 0 <= b < tweets.len() && a != b ==> (#[trigger] tweets[a]).id_str
            != (#[trigger] tweets[b]).id_str
}

/// A walk emits identifiers not seen before it, each at most once.
proof fn lemma_walk_distinct(tweets: Seq<TweetModel>, stack: Seq<usize>, seen: Set<Seq<char>>)
    ensures
        forall|e: int|
            0 <= e < walk(tweets, stack, seen).len() ==> !seen.contains(
                tweets[#[trigger] walk(tweets, stack, seen)[e] as int].id_str,
            ),
        forall|a: int, b: int|
            0 <= a < b < walk(tweets, stack, seen).len() ==> tweets[#[trigger] walk(
                tweets,
                stack,
                seen,
            )[a] as int].id_str != tweets[#[trigger] walk(tweets, stack, seen)[b] as int].id_str,
    decreases crate::processing::reply_threads::unseen_count(tweets, seen, tweets.len()), stack.len(),
{
    let w = walk(tweets, stack, seen);
    if stack.len() > 0 {
        let top = stack.last();
        let rest = stack.drop_last();
        if top >= tweets.len() || seen.contains(tweets[top as int].id_str) {
            lemma_walk_distinct(tweets, rest, seen);
            assert(w == walk(tweets, rest, seen));
        } else {
            let id = tweets[top as int].id_str;
            let now_seen = seen.insert(id);
            let next = rest + pushed_replies(tweets, replies_to(tweets, id, tweets.len()), now_seen);
            crate::processing::reply_threads::lemma_unseen_count_insert(
                tweets,
                seen,
                tweets.len(),
                top as nat,
            );
            lemma_walk_distinct(tweets, next, now_seen);
            let inner = walk(tweets, next, now_seen);
            assert(w == seq![top] + inner);
            assert forall|e: int| 0 <= e < w.len() implies !seen.contains(
                tweets[#[trigger] w[e] as int].id_str,
            ) by {
                if e > 0 {
                    assert(w[e] == inner[e - 1]);
                }
            }
            assert forall|a: int, b: int| 0 <= a < b < w.len() implies tweets[#[trigger] w[
                a
            ] as int].id_str != tweets[#[trigger] w[b] as int].id_str by {
                assert(w[b] == inner[b - 1]);
                if a > 0 {
                    assert(w[a] == inner[a - 1]);
                } else {
                    assert(!now_seen.contains(tweets[inner[b - 1] as int].id_str));
                }
            }
        }
    }
}

/// Pushed replies are candidates.
proof fn lemma_pushed_replies_subset(
    tweets: Seq<TweetModel>,
    candidates: Seq<usize>,
    seen: Set<Seq<char>>,
)
    ensures
        forall|j: int|
            0 <= j < pushed_replies(tweets, candidates, seen).len() ==> candidates.contains(
                #[trigger] pushed_replies(tweets, candidates, seen)[j],
            ),
    decreases candidates.len(),
{
    if candidates.len() > 0 {
        let tail = candidates.drop_first();
        lemma_pushed_replies_subset(tweets, tail, seen);
        let rest = pushed_replies(tweets, tail, seen);
        let pushed = pushed_replies(tweets, candidates, seen);
        assert forall|j: int| 0 <= j < pushed.len() implies candidates.contains(
            #[trigger] pushed[j],
        ) by {
            if j < rest.len() {
                assert(pushed[j] == rest[j]);
                let m = choose|m: int| 0 <= m < tail.len() && tail[m] == rest[j];
                assert(candidates[m + 1] == tail[m]);
            } else {
                assert(pushed[j] == candidates[0]);
            }
        }
    }
}

/// The replies to `id` reply to `id`.
proof fn lemma_replies_to_reply(tweets: Seq<TweetModel>, id: Seq<char>, count: nat)
    requires
        count <= tweets.len() <= usize::MAX,
    ensures
        forall|j: int|
            0 <= j < replies_to(tweets, id, count).len() ==> {
                let c = #[trigger] replies_to(tweets, id, count)[j];
                &&& c < count
                &&& tweets[c as int].in_reply_to_status_id == Some(id)
            },
    decreases count,
{
    if count > 0 {
        lemma_replies_to_reply(tweets, id, (count - 1) as nat);
        let before = replies_to(tweets, id, (count - 1) as nat);
        let now = replies_to(tweets, id, count);
        assert forall|j: int| 0 <= j < now.len() implies {
            let c = #[trigger] now[j];
            &&& c < count
            &&& tweets[c as int].in_reply_to_status_id == Some(id)
        } by {
            if j < before.len() {
                assert(now[j] == before[j]);
            }
        }
    }
}

/// Once following replies upward ends within `steps` steps, more steps reach the same root.
proof fn lemma_root_from_stable(tweets: Seq<TweetModel>, x: nat, steps: nat, more: nat)
    requires
        reaches_root(tweets, x, steps),
        steps <= more,
    ensures
        reaches_root(tweets, x, more),
        root_from(tweets, x, more) == root_from(tweets, x, steps),
    decreases steps,
{
    if let Some(p) = parent_of(tweets, x) {
        lemma_root_from_stable(tweets, p, (steps - 1) as nat, (more - 1) as nat);
    }
}

/// With distinct identifiers, a reply's thread root is that of the tweet it replies to.
proof fn lemma_reply_shares_root(tweets: Seq<TweetModel>, top: nat, c: nat)
    requires
        distinct_ids(tweets),
        replies_acyclic(tweets),
        top < tweets.len(),
        c < tweets.len(),
        tweets[c as int].in_reply_to_status_id == Some(tweets[top as int].id_str),
    ensures
        thread_root(tweets, c) == thread_root(tweets, top),
{
    let n = tweets.len();
    assert forall|q: nat| top < q < n implies tweets[q as int].id_str != tweets[top as int].id_str by {
        assert(tweets[q as int].id_str != tweets[top as int].id_str);
    }
    crate::processing::reply_threads::lemma_last_with_id_is(tweets, tweets[top as int].id_str, top);
    assert(parent_of(tweets, c) == Some(top));
    assert(reaches_root(tweets, c, n));
    assert(reaches_root(tweets, top, (n - 1) as nat));
    lemma_root_from_stable(tweets, top, (n - 1) as nat, n);
}

/// With distinct identifiers, a walk from tweets sharing a thread root emits only tweets
/// with that root.
proof fn lemma_walk_roots(tweets: Seq<TweetModel>, stack: Seq<usize>, seen: Set<Seq<char>>, root: nat)
    requires
        tweets.len() <= usize::MAX,
        distinct_ids(tweets),
        replies_acyclic(tweets),
        forall|k: int|
            0 <= k < stack.len() && #[trigger] stack[k] < tweets.len() ==> thread_root(
                tweets,
                stack[k] as nat,
            ) == root,
    ensures
        forall|e: int|
            0 <= e < walk(tweets, stack, seen).len() ==> thread_root(
                tweets,
                #[trigger] walk(tweets, stack, seen)[e] as nat,
            ) == root,
    decreases crate::processing::reply_threads::unseen_count(tweets, seen, tweets.len()), stack.len(),
{
    let w = walk(tweets, stack, seen);
    if stack.len() > 0 {
        let top = stack.last();
        let rest = stack.drop_last();
        assert forall|k: int| 0 <= k < rest.len() && #[trigger] rest[k] < tweets.len() implies thread_root(
            tweets,
            rest[k] as nat,
        ) == root by {
            assert(rest[k] == stack[k]);
        }
        if top >= tweets.len() || seen.contains(tweets[top as int].id_str) {
            lemma_walk_roots(tweets, rest, seen, root);
            assert(w == walk(tweets, rest, seen));
        } else {
            assert(stack[stack.len() - 1] == top);
            let id = tweets[top as int].id_str;
            let now_seen = seen.insert(id);
            let candidates = replies_to(tweets, id, tweets.len());
            let pushed = pushed_replies(tweets, candidates, now_seen);
            let next = rest + pushed;
            lemma_pushed_replies_subset(tweets, candidates, now_seen);
            lemma_replies_to_reply(tweets, id, tweets.len());
            assert forall|k: int| 0 <= k < next.len() && #[trigger] next[k] < tweets.len() implies thread_root(
                tweets,
                next[k] as nat,
            ) == root by {
                if k < rest.len() {
                    assert(next[k] == rest[k]);
                } else {
                    assert(next[k] == pushed[k - rest.len()]);
                    let m = choose|m: int| 0 <= m < candidates.len() && candidates[m] == pushed[k - rest.len()];
                    let c = candidates[m];
                    lemma_reply_shares_root(tweets, top as nat, c as nat);
                }
            }
            crate::processing::reply_threads::lemma_unseen_count_insert(
                tweets,
                seen,
                tweets.len(),
                top as nat,
            );
            lemma_walk_roots(tweets, next, now_seen, root);
            let inner = walk(tweets, next, now_seen);
            assert(w == seq![top] + inner);
            assert forall|e: int| 0 <= e < w.len() implies thread_root(
                tweets,
                #[trigger] w[e] as nat,
            ) == root by {
                if e > 0 {
                    assert(w[e] == inner[e - 1]);
                }
            }
        }
    }
}

/// Following replies upward until it ends stops at a tweet that replies to no listed tweet.
proof fn lemma_root_has_no_parent(tweets: Seq<TweetModel>, x: nat, steps: nat)
    requires
        reaches_root(tweets, x, steps),
    ensures
        parent_of(tweets, root_from(tweets, x, steps)) is None,
    decreases steps,
{
    if let Some(p) = parent_of(tweets, x) {
        lemma_root_has_no_parent(tweets, p, (steps - 1) as nat);
    }
}

/// With distinct identifiers, each group is the walk from its first member, a thread root
/// that all its members share; every member's identifier is placed; and no position is in
/// two places.
proof fn lemma_thread_groups_disjoint(tweets: Seq<TweetModel>, count: nat)
    requires
        tweets.len() <= usize::MAX,
        count <= tweets.len(),
        replies_acyclic(tweets),
        distinct_ids(tweets),
    ensures
        forall|g: int|
            0 <= g < thread_groups(tweets, count).0.len() ==> {
                let group = #[trigger] thread_groups(tweets, count).0[g];
                &&& group.len() > 0
                &&& group == walk(tweets, seq![group[0]], Set::empty())
                &&& forall|k: int|
                    0 <= k < group.len() ==> thread_root(tweets, #[trigger] group[k] as nat)
                        == group[0] as nat
            },
        forall|g: int, k: int|
            0 <= g < thread_groups(tweets, count).0.len() && 0 <= k < thread_groups(
                tweets,
                count,
            ).0[g].len() ==> thread_groups(tweets, count).1.contains(
                tweets[#[trigger] thread_groups(tweets, count).0[g][k] as int].id_str,
            ),
        forall|g1: int, k1: int, g2: int, k2: int|
            0 <= g1 < thread_groups(tweets, count).0.len() && 0 <= k1 < thread_groups(
                tweets,
                count,
            ).0[g1].len() && 0 <= g2 < thread_groups(tweets, count).0.len() && 0 <= k2
                < thread_groups(tweets, count).0[g2].len() && #[trigger] thread_groups(
                tweets,
                count,
            ).0[g1][k1] == #[trigger] thread_groups(tweets, count).0[g2][k2] ==> g1 == g2 && k1
                == k2,
    decreases count,
{
    if count > 0 {
        let i = (count - 1) as nat;
        lemma_thread_groups_disjoint(tweets, i);
        lemma_thread_groups_cover(tweets, i);
        let groups = thread_groups(tweets, i).0;
        let placed = thread_groups(tweets, i).1;
        let now = thread_groups(tweets, count);
        if placed.contains(tweets[i as int].id_str) {
            assert(now == (groups, placed));
        } else {
            let n = tweets.len();
            let root = thread_root(tweets, i);
            lemma_root_from_in_range(tweets, i, n);
            assert(reaches_root(tweets, i, n));
            lemma_root_has_no_parent(tweets, i, n);
            assert(thread_root(tweets, root) == root);
            let stack = seq![root as usize];
            let group = walk(tweets, stack, Set::empty());
            lemma_walk_reaches(tweets, root as usize, i, n);
            lemma_walk_closed(tweets, stack, Set::empty());
            lemma_walk_distinct(tweets, stack, Set::empty());
            assert forall|k: int| 0 <= k < stack.len() && #[trigger] stack[k] < tweets.len() implies thread_root(
                tweets,
                stack[k] as nat,
            ) == root as nat by {
                assert(stack[k] == root as usize);
            }
            lemma_walk_roots(tweets, stack, Set::empty(), root);
            let ki = choose|k: int| 0 <= k < group.len() && tweets[group[k] as int].id_str == tweets[i as int].id_str;
            assert(group[0] == root as usize) by {
                assert(stack.last() == root as usize);
                assert(stack.drop_last() + pushed_replies(
                    tweets,
                    replies_to(tweets, tweets[root as int].id_str, n),
                    Set::<Seq<char>>::empty().insert(tweets[root as int].id_str),
                ) == stack.drop_last() + pushed_replies(
                    tweets,
                    replies_to(tweets, tweets[root as int].id_str, n),
                    Set::<Seq<char>>::empty().insert(tweets[root as int].id_str),
                ));
            }
            assert(now.0 == groups.push(group));
            assert(now.1 == placed.union(ids_of(tweets, group)));
            assert forall|g: int| 0 <= g < now.0.len() implies {
                let grp = #[trigger] now.0[g];
                &&& grp.len() > 0
                &&& grp == walk(tweets, seq![grp[0]], Set::empty())
                &&& forall|k: int|
                    0 <= k < grp.len() ==> thread_root(tweets, #[trigger] grp[k] as nat) == grp[0] as nat
            } by {
                if g < groups.len() {
                    assert(now.0[g] == groups[g]);
                } else {
                    assert(now.0[g] == group);
                    assert(seq![group[0]] == stack);
                }
            }
            assert forall|g: int, k: int|
                0 <= g < now.0.len() && 0 <= k < now.0[g].len() implies now.1.contains(
                    tweets[#[trigger] now.0[g][k] as int].id_str,
                ) by {
                if g < groups.len() {
                    assert(now.0[g] == groups[g]);
                } else {
                    assert(now.0[g] == group);
                    assert(ids_of(tweets, group).contains(tweets[group[k] as int].id_str));
                }
            }
            assert forall|g1: int, k1: int, g2: int, k2: int|
                0 <= g1 < now.0.len() && 0 <= k1 < now.0[g1].len() && 0 <= g2 < now.0.len() && 0
                    <= k2 < now.0[g2].len() && #[trigger] now.0[g1][k1] == #[trigger] now.0[g2][k2] implies g1
                == g2 && k1 == k2 by {
                let old_len = groups.len() as int;
                if g1 < old_len && g2 < old_len {
                    assert(now.0[g1] == groups[g1] && now.0[g2] == groups[g2]);
                    assert(groups[g1][k1] == groups[g2][k2]);
                } else if g1 == old_len && g2 == old_len {
                    assert(now.0[g1] == group);
                    if k1 < k2 {
                        assert(tweets[group[k1] as int].id_str != tweets[group[k2] as int].id_str);
                    } else if k2 < k1 {
                        assert(tweets[group[k2] as int].id_str != tweets[group[k1] as int].id_str);
                    }
                } else {
                    let (go, ko, kn) = if g1 < old_len {
                        (g1, k1, k2)
                    } else {
                        (g2, k2, k1)
                    };
                    assert(now.0[go] == groups[go]);
                    assert(now.0[old_len] == group);
                    let m = group[kn];
                    assert(groups[go][ko] == m);
                    let old_group = groups[go];
                    assert(thread_root(tweets, old_group[ko] as nat) == old_group[0] as nat);
                    assert(thread_root(tweets, group[kn] as nat) == root);
                    assert(old_group[0] == root as usize);
                    assert(old_group == group);
                    assert(placed.contains(tweets[groups[go][ki] as int].id_str));
                    assert(false);
                }
            }
        }
    }
}

/// Two positions of a stable order holding the same position are the same.
proof fn lemma_stable_order_injective(lt: spec_fn(nat, nat) -> bool, n: nat, a: int, b: int)
    requires
        crate::sort::strict_total_on(lt, n),
        n <= usize::MAX,
        0 <= a < n,
        0 <= b < n,
        stable_order(lt, n)[a] == stable_order(lt, n)[b],
    ensures
        a == b,
{
    crate::sort::lemma_stable_order_facts(lt, n);
    let order = stable_order(lt, n);
    if a < b {
        assert(lt(order[a] as nat, order[b] as nat));
    } else if b < a {
        assert(lt(order[b] as nat, order[a] as nat));
    }
}

/// With distinct identifiers, no tweet appears twice among the reconstructed threads; with
/// [`lemma_reply_threads_cover_tweets`], each tweet is in exactly one thread, once.
pub proof fn lemma_reply_threads_place_each_tweet_once(tweets: Seq<TweetModel>)
    requires
        tweets.len() <= usize::MAX,
        replies_acyclic(tweets),
        distinct_ids(tweets),
    ensures
        forall|g1: int, k1: int, g2: int, k2: int|
            0 <= g1 < reply_threads(tweets).len() && 0 <= k1 < reply_threads(tweets)[g1].len() && 0
                <= g2 < reply_threads(tweets).len() && 0 <= k2 < reply_threads(tweets)[g2].len()
                && (#[trigger] reply_threads(tweets)[g1][k1]).id_str == (#[trigger] reply_threads(
                tweets,
            )[g2][k2]).id_str ==> g1 == g2 && k1 == k2,
{
    let n = tweets.len();
    let groups = thread_groups(tweets, n).0;
    let sorted = Seq::new(groups.len(), |g: int| sorted_group(tweets, groups[g]));
    let outer_lt = newest_first_order(tweets, sorted);
    let outer = stable_order(outer_lt, sorted.len());
    lemma_thread_groups_cover(tweets, n);
    lemma_thread_groups_disjoint(tweets, n);
    crate::processing::reply_threads::lemma_thread_groups_shape(tweets, n);
    lemma_key_order_total(first_created_keys(tweets, sorted));
    crate::sort::lemma_stable_order_facts(outer_lt, sorted.len());
    assert forall|g1: int, k1: int, g2: int, k2: int|
        0 <= g1 < reply_threads(tweets).len() && 0 <= k1 < reply_threads(tweets)[g1].len() && 0
            <= g2 < reply_threads(tweets).len() && 0 <= k2 < reply_threads(tweets)[g2].len()
            && (#[trigger] reply_threads(tweets)[g1][k1]).id_str == (#[trigger] reply_threads(
            tweets,
        )[g2][k2]).id_str implies g1 == g2 && k1 == k2 by {
        let h1 = outer[g1] as int;
        let h2 = outer[g2] as int;
        let group1 = groups[h1];
        let group2 = groups[h2];
        lemma_key_order_total(created_keys(tweets, group1));
        lemma_key_order_total(created_keys(tweets, group2));
        crate::sort::lemma_stable_order_facts(created_order(tweets, group1), group1.len());
        crate::sort::lemma_stable_order_facts(created_order(tweets, group2), group2.len());
        let inner1 = stable_order(created_order(tweets, group1), group1.len());
        let inner2 = stable_order(created_order(tweets, group2), group2.len());
        let p1 = group1[inner1[k1] as int];
        let p2 = group2[inner2[k2] as int];
        assert(reply_threads(tweets)[g1][k1] == tweets[p1 as int]);
        assert(reply_threads(tweets)[g2][k2] == tweets[p2 as int]);
        assert(p1 < n && p2 < n);
        assert(p1 == p2);
        assert(groups[h1][inner1[k1] as int] == groups[h2][inner2[k2] as int]);
        assert(h1 == h2);
        lemma_stable_order_injective(outer_lt, sorted.len(), g1, g2);
        lemma_stable_order_injective(created_order(tweets, group1), group1.len(), k1, k2);
    }
}

} // verus!
