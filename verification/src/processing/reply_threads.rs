//! Reply thread reconstruction: every reply is a potential thread member, and each thread
//! is the reply tree below a root tweet.

use vstd::prelude::*;

use crate::processing::data_structures::{Tweet, TweetModel};
use crate::sort::{
    all_positions, encoded_keys, is_sorted_order, key_order, key_order_desc, lemma_key_order_total,
    sorted_by_text_key, stable_order, strict_total_on,
};
use crate::text::{
    decimal, repeat_char, u64_to_decimal, bytes_less, lemma_bytes_less_irreflexive, lemma_bytes_less_total, lemma_bytes_less_transitive,
    lemma_encode_utf8_injective, str_equal, str_less,
};
use vstd::utf8::encode_utf8;

verus! {

/// The position of the last of the first `count` tweets whose `id_str` is `id`.
pub open spec fn last_with_id(tweets: Seq<TweetModel>, id: Seq<char>, count: nat) -> Option<nat>
    decreases count,
{
    if count == 0 {
        None
    } else if tweets[count - 1].id_str == id {
        Some((count - 1) as nat)
    } else {
        last_with_id(tweets, id, (count - 1) as nat)
    }
}

/// The tweet that an identifier looks up: the last tweet carrying it.
pub open spec fn tweet_by_id(tweets: Seq<TweetModel>, id: Seq<char>) -> Option<nat> {
    last_with_id(tweets, id, tweets.len())
}

/// The tweet that tweet `i` replies to, when that tweet is in the list.
pub open spec fn parent_of(tweets: Seq<TweetModel>, i: nat) -> Option<nat> {
    match tweets[i as int].in_reply_to_status_id {
        Some(parent_id) => tweet_by_id(tweets, parent_id),
        None => None,
    }
}

/// Following replies upward from tweet `i` reaches a tweet without a parent within `steps`
/// steps.
pub open spec fn reaches_root(tweets: Seq<TweetModel>, i: nat, steps: nat) -> bool
    decreases steps,
{
    match parent_of(tweets, i) {
        None => true,
        Some(p) => steps > 0 && reaches_root(tweets, p, (steps - 1) as nat),
    }
}

/// No chain of replies loops: from every tweet, following replies upward ends.
pub open spec fn replies_acyclic(tweets: Seq<TweetModel>) -> bool {
    forall|i: nat| i < tweets.len() ==> #[trigger] reaches_root(tweets, i, tweets.len())
}

/// The tweet reached from `i` by following replies upward for at most `steps` steps.
pub open spec fn root_from(tweets: Seq<TweetModel>, i: nat, steps: nat) -> nat
    decreases steps,
{
    match parent_of(tweets, i) {
        None => i,
        Some(p) => if steps > 0 {
            root_from(tweets, p, (steps - 1) as nat)
        } else {
            i
        },
    }
}

/// The root of tweet `i`'s thread.
pub open spec fn thread_root(tweets: Seq<TweetModel>, i: nat) -> nat {
    root_from(tweets, i, tweets.len())
}

/// The positions, in list order, of the first `count` tweets that reply to identifier `id`.
pub open spec fn replies_to(tweets: Seq<TweetModel>, id: Seq<char>, count: nat) -> Seq<usize>
    decreases count,
{
    if count == 0 {
        Seq::empty()
    } else {
        let before = replies_to(tweets, id, (count - 1) as nat);
        if tweets[count - 1].in_reply_to_status_id == Some(id) {
            before.push((count - 1) as usize)
        } else {
            before
        }
    }
}

/// The candidates whose identifiers are not yet seen, in reverse order: the order in which
/// the walk pushes them onto its stack.
pub open spec fn pushed_replies(
    tweets: Seq<TweetModel>,
    candidates: Seq<usize>,
    seen: Set<Seq<char>>,
) -> Seq<usize>
    decreases candidates.len(),
{
    if candidates.len() == 0 {
        Seq::empty()
    } else {
        let rest = pushed_replies(tweets, candidates.drop_first(), seen);
        if seen.contains(tweets[candidates[0] as int].id_str) {
            rest
        } else {
            rest.push(candidates[0])
        }
    }
}

/// How many of the first `count` tweets carry an identifier not yet seen.
pub open spec fn unseen_count(tweets: Seq<TweetModel>, seen: Set<Seq<char>>, count: nat) -> nat
    decreases count,
{
    if count == 0 {
        0
    } else {
        unseen_count(tweets, seen, (count - 1) as nat) + if seen.contains(
            tweets[count - 1].id_str,
        ) {
            0nat
        } else {
            1nat
        }
    }
}

/// Seeing one more identifier never adds unseen tweets, and seeing the identifier of an
/// unseen tweet removes at least that one.
pub(crate) proof fn lemma_unseen_count_insert(
    tweets: Seq<TweetModel>,
    seen: Set<Seq<char>>,
    count: nat,
    t: nat,
)
    requires
        t < count <= tweets.len(),
        !seen.contains(tweets[t as int].id_str),
    ensures
        unseen_count(tweets, seen.insert(tweets[t as int].id_str), count) < unseen_count(
            tweets,
            seen,
            count,
        ),
    decreases count,
{
    if t < count - 1 {
        lemma_unseen_count_insert(tweets, seen, (count - 1) as nat, t);
    } else {
        lemma_unseen_count_insert_le(tweets, seen, (count - 1) as nat, tweets[t as int].id_str);
    }
}

/// Seeing one more identifier never adds unseen tweets.
proof fn lemma_unseen_count_insert_le(
    tweets: Seq<TweetModel>,
    seen: Set<Seq<char>>,
    count: nat,
    id: Seq<char>,
)
    requires
        count <= tweets.len(),
    ensures
        unseen_count(tweets, seen.insert(id), count) <= unseen_count(tweets, seen, count),
    decreases count,
{
    if count > 0 {
        lemma_unseen_count_insert_le(tweets, seen, (count - 1) as nat, id);
    }
}

/// The depth-first walk over replies: pop a tweet; skip it when its identifier was seen;
/// otherwise emit it, mark its identifier seen and push its unseen replies so that the first
/// reply is walked next.
pub open spec fn walk(tweets: Seq<TweetModel>, stack: Seq<usize>, seen: Set<Seq<char>>) -> Seq<usize>
    decreases unseen_count(tweets, seen, tweets.len()), stack.len(),
    via walk_decreases
{
    if stack.len() == 0 {
        Seq::empty()
    } else {
        let top = stack.last();
        let rest = stack.drop_last();
        if top >= tweets.len() || seen.contains(tweets[top as int].id_str) {
            walk(tweets, rest, seen)
        } else {
            let id = tweets[top as int].id_str;
            let now_seen = seen.insert(id);
            seq![top] + walk(
                tweets,
                rest + pushed_replies(tweets, replies_to(tweets, id, tweets.len()), now_seen),
                now_seen,
            )
        }
    }
}

#[via_fn]
proof fn walk_decreases(tweets: Seq<TweetModel>, stack: Seq<usize>, seen: Set<Seq<char>>) {
    if stack.len() > 0 {
        let top = stack.last();
        if !(top >= tweets.len() || seen.contains(tweets[top as int].id_str)) {
            lemma_unseen_count_insert(tweets, seen, tweets.len(), top as nat);
        }
    }
}

/// The identifiers of some tweets.
pub open spec fn ids_of(tweets: Seq<TweetModel>, positions: Seq<usize>) -> Set<Seq<char>> {
    Set::new(|id: Seq<char>| exists|k: int| 0 <= k < positions.len() && tweets[positions[k] as int].id_str == id)
}

/// The unsorted groups made from the first `count` tweets, with the identifiers already
/// placed: a tweet whose identifier is placed is skipped; otherwise the walk from its root
/// forms a new group.
pub open spec fn thread_groups(tweets: Seq<TweetModel>, count: nat) -> (Seq<Seq<usize>>, Set<
    Seq<char>,
>)
    decreases count,
{
    if count == 0 {
        (Seq::empty(), Set::empty())
    } else {
        let (groups, placed) = thread_groups(tweets, (count - 1) as nat);
        let i = (count - 1) as nat;
        if placed.contains(tweets[i as int].id_str) {
            (groups, placed)
        } else {
            let group = walk(tweets, seq![thread_root(tweets, i) as usize], Set::empty());
            (
                if group.len() > 0 { groups.push(group) } else { groups },
                placed.union(ids_of(tweets, group)),
            )
        }
    }
}

/// The encoded `created_at` texts of a group's members.
pub open spec fn created_keys(tweets: Seq<TweetModel>, group: Seq<usize>) -> Seq<Seq<u8>> {
    Seq::new(group.len(), |k: int| encode_utf8(tweets[group[k] as int].created_at))
}

/// Orders the members of a group by `created_at` text, keeping walk order among equal ones.
pub open spec fn created_order(tweets: Seq<TweetModel>, group: Seq<usize>) -> spec_fn(nat, nat) -> bool {
    key_order(created_keys(tweets, group))
}

/// A group with its members in `created_at` order.
pub open spec fn sorted_group(tweets: Seq<TweetModel>, group: Seq<usize>) -> Seq<usize> {
    let order = stable_order(created_order(tweets, group), group.len());
    Seq::new(group.len(), |k: int| group[order[k] as int])
}

/// The encoded `created_at` texts of the groups' first members.
pub open spec fn first_created_keys(tweets: Seq<TweetModel>, groups: Seq<Seq<usize>>) -> Seq<Seq<u8>> {
    Seq::new(groups.len(), |g: int| encode_utf8(tweets[groups[g][0] as int].created_at))
}

/// Orders groups newest first by the `created_at` text of their first member, keeping group
/// order among equal ones.
pub open spec fn newest_first_order(tweets: Seq<TweetModel>, groups: Seq<Seq<usize>>) -> spec_fn(
    nat,
    nat,
) -> bool {
    key_order_desc(first_created_keys(tweets, groups))
}

/// The reconstructed threads as lists of tweet positions: the groups, each in `created_at`
/// order, the groups newest first.
pub open spec fn reply_thread_positions(tweets: Seq<TweetModel>) -> Seq<Seq<usize>> {
    let groups = thread_groups(tweets, tweets.len()).0;
    let sorted = Seq::new(groups.len(), |g: int| sorted_group(tweets, groups[g]));
    let order = stable_order(newest_first_order(tweets, sorted), sorted.len());
    Seq::new(sorted.len(), |k: int| sorted[order[k] as int])
}

/// The reconstructed threads as lists of tweets.
pub open spec fn reply_threads(tweets: Seq<TweetModel>) -> Seq<Seq<TweetModel>> {
    let positions = reply_thread_positions(tweets);
    Seq::new(positions.len(), |g: int| Seq::new(positions[g].len(), |k: int| tweets[positions[g][k] as int]))
}

/// What `last_with_id` finds: the last matching position, or that none matches.
pub(crate) proof fn lemma_last_with_id(tweets: Seq<TweetModel>, id: Seq<char>, count: nat)
    requires
        count <= tweets.len(),
    ensures
        match last_with_id(tweets, id, count) {
            Some(p) => p < count && tweets[p as int].id_str == id && forall|q: nat|
                p < q < count ==> tweets[q as int].id_str != id,
            None => forall|q: nat| q < count ==> tweets[q as int].id_str != id,
        },
    decreases count,
{
    if count > 0 {
        lemma_last_with_id(tweets, id, (count - 1) as nat);
    }
}

/// The last position carrying `id` is the one `last_with_id` finds.
pub(crate) proof fn lemma_last_with_id_is(tweets: Seq<TweetModel>, id: Seq<char>, p: nat)
    requires
        p < tweets.len(),
        tweets[p as int].id_str == id,
        forall|q: nat| p < q < tweets.len() ==> tweets[q as int].id_str != id,
    ensures
        tweet_by_id(tweets, id) == Some(p),
{
    lemma_last_with_id(tweets, id, tweets.len());
    match tweet_by_id(tweets, id) {
        Some(r) => {
            if r < p {
            } else if r > p {
            }
        },
        None => {},
    }
}

/// The UTF-8 encodings of the tweets' identifiers.
pub open spec fn id_keys(tweets: Seq<TweetModel>) -> Seq<Seq<u8>> {
    Seq::new(tweets.len(), |k: int| encode_utf8(tweets[k].id_str))
}

/// The tweet positions in identifier order.
pub(crate) fn positions_by_id(tweets: &[Tweet]) -> (order: Vec<usize>)
    ensures
        is_sorted_order(order@, key_order(id_keys(tweets.deep_view())), tweets.deep_view().len()),
        strict_total_on(key_order(id_keys(tweets.deep_view())), tweets.deep_view().len()),
{
    let ghost model = tweets.deep_view();
    let mut ids: Vec<&str> = Vec::new();
    let mut k: usize = 0;
    while k < tweets.len()
        invariant
            model == tweets.deep_view(),
            k <= tweets@.len(),
            model.len() == tweets@.len(),
            ids@.len() == k,
            forall|j: int| 0 <= j < k ==> (#[trigger] ids@[j])@ == model[j].id_str,
        decreases tweets@.len() - k,
    {
        ids.push(tweets[k].id_str.as_str());
        k = k + 1;
    }
    proof {
        assert(encoded_keys(ids@) =~= id_keys(model));
        lemma_key_order_total(id_keys(model));
    }
    sorted_by_text_key(&ids, false)
}

/// `a` sorts no later than `b`: below it or equal.
pub open spec fn bytes_at_most(a: Seq<u8>, b: Seq<u8>) -> bool {
    !bytes_less(b, a)
}

/// Looks up the tweet an identifier refers to: the last tweet carrying it.
pub(crate) fn lookup_tweet_by_id(tweets: &[Tweet], by_id: &Vec<usize>, id: &str) -> (found: Option<usize>)
    requires
        is_sorted_order(by_id@, key_order(id_keys(tweets.deep_view())), tweets.deep_view().len()),
        strict_total_on(key_order(id_keys(tweets.deep_view())), tweets.deep_view().len()),
    ensures
        match found {
            Some(p) => tweet_by_id(tweets.deep_view(), id@) == Some(p as nat),
            None => tweet_by_id(tweets.deep_view(), id@) is None,
        },
{
    broadcast use vstd::seq_lib::group_to_multiset_ensures;

    let ghost model = tweets.deep_view();
    let ghost keys = id_keys(model);
    let ghost target = encode_utf8(id@);
    let ghost lt = key_order(keys);
    let n = by_id.len();
    proof {
        assert(n == model.len()) by {
            assert(by_id@.len() == by_id@.to_multiset().len());
            assert(all_positions(model.len()).len() == all_positions(model.len()).to_multiset().len());
        }
        assert forall|k: int| 0 <= k < n implies (#[trigger] by_id@[k]) < model.len() by {
            assert(by_id@.to_multiset().count(by_id@[k]) > 0);
            assert(all_positions(model.len()).contains(by_id@[k]));
        }
    }
    let mut lo: usize = 0;
    let mut hi: usize = n;
    while lo < hi
        invariant
            model == tweets.deep_view(),
            keys == id_keys(model),
            target == encode_utf8(id@),
            lt == key_order(keys),
            n == by_id@.len(),
            n == model.len(),
            n == tweets@.len(),
            is_sorted_order(by_id@, lt, model.len()),
            strict_total_on(lt, model.len()),
            forall|k: int| 0 <= k < n ==> (#[trigger] by_id@[k]) < model.len(),
            0 <= lo <= hi <= n,
            forall|k: int| 0 <= k < lo ==> bytes_at_most(keys[#[trigger] by_id@[k] as int], target),
            forall|k: int| hi <= k < n ==> bytes_less(target, keys[#[trigger] by_id@[k] as int]),
        decreases hi - lo,
    {
        let mid = lo + (hi - lo) / 2;
        let p = by_id[mid];
        proof {
            assert(tweets@[p as int]@ == model[p as int]);
        }
        let above = str_less(id, tweets[p].id_str.as_str());
        if above {
            proof {
                assert forall|k: int| mid <= k < n implies bytes_less(
                    target,
                    keys[#[trigger] by_id@[k] as int],
                ) by {
                    if k > mid {
                        assert(lt(by_id@[mid as int] as nat, by_id@[k] as nat));
                        if bytes_less(keys[p as int], keys[by_id@[k] as int]) {
                            lemma_bytes_less_transitive(target, keys[p as int], keys[by_id@[k] as int]);
                        }
                    }
                }
            }
            hi = mid;
        } else {
            proof {
                assert forall|k: int| 0 <= k <= mid implies bytes_at_most(
                    keys[#[trigger] by_id@[k] as int],
                    target,
                ) by {
                    if k < mid {
                        assert(lt(by_id@[k] as nat, by_id@[mid as int] as nat));
                        if bytes_less(target, keys[by_id@[k] as int]) {
                            if bytes_less(keys[by_id@[k] as int], keys[p as int]) {
                                lemma_bytes_less_transitive(target, keys[by_id@[k] as int], keys[p as int]);
                            }
                        }
                    }
                }
            }
            lo = mid + 1;
        }
    }
    if lo > 0 {
        let p = by_id[lo - 1];
        proof {
            assert(tweets@[p as int]@ == model[p as int]);
        }
        if str_equal(tweets[p].id_str.as_str(), id) {
            proof {
                assert forall|q: nat| p < q < model.len() implies model[q as int].id_str != id@ by {
                    if model[q as int].id_str == id@ {
                        assert(all_positions(model.len())[q as int] == q);
                        assert(by_id@.to_multiset().count(q as usize) > 0);
                        assert(by_id@.contains(q as usize));
                        let m = choose|m: int| 0 <= m < n && by_id@[m] == q;
                        if m >= lo {
                            assert(bytes_less(target, keys[q as int]));
                            lemma_bytes_less_irreflexive(target);
                        } else if m < lo - 1 {
                            assert(lt(by_id@[m] as nat, by_id@[lo - 1] as nat));
                            lemma_bytes_less_irreflexive(target);
                        }
                    }
                }
                lemma_last_with_id_is(model, id@, p as nat);
            }
            return Some(p);
        }
        proof {
            assert(model[p as int].id_str != id@);
            if encode_utf8(model[p as int].id_str) == target {
                lemma_encode_utf8_injective(model[p as int].id_str, id@);
            }
            lemma_bytes_less_total(keys[p as int], target);
        }
    }
    proof {
        lemma_last_with_id(model, id@, model.len());
        assert forall|q: nat| q < model.len() implies model[q as int].id_str != id@ by {
            if model[q as int].id_str == id@ {
                assert(all_positions(model.len())[q as int] == q);
                assert(by_id@.to_multiset().count(q as usize) > 0);
                assert(by_id@.contains(q as usize));
                let m = choose|m: int| 0 <= m < n && by_id@[m] == q;
                if m >= lo {
                    assert(bytes_less(target, keys[q as int]));
                    lemma_bytes_less_irreflexive(target);
                } else {
                    let last = by_id@[lo - 1];
                    if m < lo - 1 {
                        assert(lt(by_id@[m] as nat, last as nat));
                        if bytes_less(keys[q as int], keys[last as int]) {
                            lemma_bytes_less_transitive(keys[last as int], target, keys[last as int]);
                            lemma_bytes_less_irreflexive(keys[last as int]);
                        }
                    }
                }
            }
        }
    }
    None
}

/// Tweet `c` is the one its own identifier looks up.
pub open spec fn is_id_owner(tweets: Seq<TweetModel>, c: nat) -> bool {
    tweet_by_id(tweets, tweets[c as int].id_str) == Some(c)
}

/// Every tweet's identifier looks up some tweet carrying it.
proof fn lemma_tweet_by_own_id(tweets: Seq<TweetModel>, k: nat)
    requires
        k < tweets.len(),
    ensures
        tweet_by_id(tweets, tweets[k as int].id_str) matches Some(c) && c < tweets.len()
            && tweets[c as int].id_str == tweets[k as int].id_str && is_id_owner(tweets, c),
{
    lemma_last_with_id(tweets, tweets[k as int].id_str, tweets.len());
}

/// For each tweet, the tweet its identifier looks up.
fn id_owners(tweets: &[Tweet], by_id: &Vec<usize>) -> (owners: Vec<usize>)
    requires
        is_sorted_order(by_id@, key_order(id_keys(tweets.deep_view())), tweets.deep_view().len()),
        strict_total_on(key_order(id_keys(tweets.deep_view())), tweets.deep_view().len()),
    ensures
        owners@.len() == tweets.deep_view().len(),
        forall|k: int|
            0 <= k < owners@.len() ==> tweet_by_id(
                tweets.deep_view(),
                tweets.deep_view()[k].id_str,
            ) == Some(#[trigger] owners@[k] as nat),
        forall|k: int| 0 <= k < owners@.len() ==> (#[trigger] owners@[k]) < tweets.deep_view().len(),
{
    let ghost model = tweets.deep_view();
    let mut owners: Vec<usize> = Vec::new();
    let mut k: usize = 0;
    while k < tweets.len()
        invariant
            model == tweets.deep_view(),
            model.len() == tweets@.len(),
            is_sorted_order(by_id@, key_order(id_keys(model)), model.len()),
            strict_total_on(key_order(id_keys(model)), model.len()),
            k <= tweets@.len(),
            owners@.len() == k,
            forall|j: int|
                0 <= j < k ==> tweet_by_id(model, model[j].id_str) == Some(
                    #[trigger] owners@[j] as nat,
                ),
            forall|j: int| 0 <= j < k ==> (#[trigger] owners@[j]) < model.len(),
        decreases tweets@.len() - k,
    {
        proof {
            assert(tweets@[k as int]@ == model[k as int]);
            lemma_tweet_by_own_id(model, k as nat);
        }
        let owner = match lookup_tweet_by_id(tweets, by_id, tweets[k].id_str.as_str()) {
            Some(c) => c,
            None => k,
        };
        owners.push(owner);
        k = k + 1;
    }
    owners
}

/// For each tweet that owns its identifier, the positions of the tweets replying to it, in
/// list order; other positions get no replies.
fn reply_lists(tweets: &[Tweet], by_id: &Vec<usize>) -> (replies: Vec<Vec<usize>>)
    requires
        is_sorted_order(by_id@, key_order(id_keys(tweets.deep_view())), tweets.deep_view().len()),
        strict_total_on(key_order(id_keys(tweets.deep_view())), tweets.deep_view().len()),
    ensures
        replies@.len() == tweets.deep_view().len(),
        forall|c: int|
            0 <= c < replies@.len() ==> is_id_owner(tweets.deep_view(), c as nat) ==> (
            #[trigger] replies@[c])@ == replies_to(
                tweets.deep_view(),
                tweets.deep_view()[c].id_str,
                tweets.deep_view().len(),
            ),
{
    let ghost model = tweets.deep_view();
    let n = tweets.len();
    let mut replies: Vec<Vec<usize>> = Vec::new();
    let mut c: usize = 0;
    while c < n
        invariant
            model.len() == n,
            n == tweets@.len(),
            c <= n,
            replies@.len() == c,
            forall|j: int| 0 <= j < c ==> (#[trigger] replies@[j])@ == Seq::<usize>::empty(),
        decreases n - c,
    {
        replies.push(Vec::new());
        c = c + 1;
    }
    let mut k: usize = 0;
    while k < n
        invariant
            model == tweets.deep_view(),
            model.len() == n,
            n == tweets@.len(),
            is_sorted_order(by_id@, key_order(id_keys(model)), model.len()),
            strict_total_on(key_order(id_keys(model)), model.len()),
            k <= n,
            replies@.len() == n,
            forall|c: int|
                0 <= c < n ==> (#[trigger] replies@[c])@ == if is_id_owner(model, c as nat) {
                    replies_to(model, model[c].id_str, k as nat)
                } else {
                    Seq::empty()
                },
        decreases n - k,
    {
        proof {
            assert(tweets@[k as int]@ == model[k as int]);
        }
        let ghost before = replies@;
        match &tweets[k].in_reply_to_status_id {
            Some(parent_id) => {
                match lookup_tweet_by_id(tweets, by_id, parent_id.as_str()) {
                    Some(owner) => {
                        proof {
                            lemma_last_with_id(model, parent_id@, model.len());
                        }
                        replies[owner].push(k);
                        proof {
                            assert forall|c: int| 0 <= c < n implies (#[trigger] replies@[c])@ == if is_id_owner(
                                model,
                                c as nat,
                            ) {
                                replies_to(model, model[c].id_str, (k + 1) as nat)
                            } else {
                                Seq::empty()
                            } by {
                                if c == owner {
                                    assert(is_id_owner(model, c as nat));
                                    assert(replies_to(model, model[c].id_str, (k + 1) as nat) == replies_to(
                                        model,
                                        model[c].id_str,
                                        k as nat,
                                    ).push(k));
                                } else {
                                    assert(replies@[c] == before[c]);
                                    if is_id_owner(model, c as nat) {
                                        assert(model[c].id_str != parent_id@);
                                    }
                                }
                            }
                        }
                    },
                    None => {
                        proof {
                            lemma_last_with_id(model, parent_id@, model.len());
                            assert forall|c: int| 0 <= c < n && is_id_owner(model, c as nat) implies model[c].id_str
                                != parent_id@ by {}
                        }
                    },
                }
            },
            None => {},
        }
        k = k + 1;
    }
    replies
}

/// The lookup facts about a tweet list that the walks rely on.
pub open spec fn reply_index_facts(
    tweets: Seq<TweetModel>,
    owners: Seq<usize>,
    replies: Seq<Vec<usize>>,
) -> bool {
    &&& owners.len() == tweets.len()
    &&& replies.len() == tweets.len()
    &&& forall|k: int|
        0 <= k < owners.len() ==> tweet_by_id(tweets, tweets[k].id_str) == Some(
            #[trigger] owners[k] as nat,
        )
    &&& forall|k: int| 0 <= k < owners.len() ==> (#[trigger] owners[k]) < tweets.len()
    &&& forall|c: int|
        0 <= c < replies.len() ==> is_id_owner(tweets, c as nat) ==> (#[trigger] replies[c])@
            == replies_to(tweets, tweets[c].id_str, tweets.len())
}

/// Finds the root of tweet `start`'s thread by following replies upward.
fn find_thread_root(tweets: &[Tweet], by_id: &Vec<usize>, start: usize) -> (root: usize)
    requires
        is_sorted_order(by_id@, key_order(id_keys(tweets.deep_view())), tweets.deep_view().len()),
        strict_total_on(key_order(id_keys(tweets.deep_view())), tweets.deep_view().len()),
        replies_acyclic(tweets.deep_view()),
        start < tweets.deep_view().len(),
    ensures
        root == thread_root(tweets.deep_view(), start as nat),
        root < tweets.deep_view().len(),
{
    let ghost model = tweets.deep_view();
    let ghost n = model.len();
    proof {
        assert(reaches_root(model, start as nat, n));
    }
    let mut current = start;
    let ghost mut steps: nat = n;
    loop
        invariant
            model == tweets.deep_view(),
            n == model.len(),
            n == tweets@.len(),
            is_sorted_order(by_id@, key_order(id_keys(model)), n),
            strict_total_on(key_order(id_keys(model)), n),
            current < n,
            reaches_root(model, current as nat, steps),
            root_from(model, start as nat, n) == root_from(model, current as nat, steps),
        decreases steps,
    {
        proof {
            assert(tweets@[current as int]@ == model[current as int]);
        }
        match &tweets[current].in_reply_to_status_id {
            Some(parent_id) => {
                match lookup_tweet_by_id(tweets, by_id, parent_id.as_str()) {
                    Some(parent) => {
                        proof {
                            lemma_last_with_id(model, parent_id@, n);
                            steps = (steps - 1) as nat;
                        }
                        current = parent;
                    },
                    None => {
                        return current;
                    },
                }
            },
            None => {
                return current;
            },
        }
    }
}

/// The depth-first walk over replies from `root`, with a scratch table of seen identifiers
/// (indexed by owner) that starts and ends all clear.
fn walk_from_root(
    tweets: &[Tweet],
    owners: &Vec<usize>,
    replies: &Vec<Vec<usize>>,
    root: usize,
    seen: &mut Vec<bool>,
) -> (group: Vec<usize>)
    requires
        reply_index_facts(tweets.deep_view(), owners@, replies@),
        root < tweets.deep_view().len(),
        old(seen)@.len() == tweets.deep_view().len(),
        forall|c: int| 0 <= c < old(seen)@.len() ==> !(#[trigger] old(seen)@[c]),
    ensures
        group@ == walk(tweets.deep_view(), seq![root], Set::empty()),
        final(seen)@.len() == tweets.deep_view().len(),
        forall|c: int| 0 <= c < final(seen)@.len() ==> !(#[trigger] final(seen)@[c]),
        forall|j: int| 0 <= j < group@.len() ==> (#[trigger] group@[j]) < tweets.deep_view().len(),
{
    let ghost model = tweets.deep_view();
    let ghost n = model.len();
    let tweet_count = tweets.len();
    let mut stack: Vec<usize> = Vec::new();
    stack.push(root);
    let mut group: Vec<usize> = Vec::new();
    let ghost mut seen_ids: Set<Seq<char>> = Set::empty();
    proof {
        assert(stack@ =~= seq![root]);
        assert(group@ + walk(model, stack@, seen_ids) =~= walk(model, seq![root], Set::empty()));
    }
    while stack.len() > 0
        invariant
            model == tweets.deep_view(),
            n == model.len(),
            n == tweets@.len(),
            n <= usize::MAX,
            reply_index_facts(model, owners@, replies@),
            seen@.len() == n,
            walk(model, seq![root], Set::empty()) == group@ + walk(model, stack@, seen_ids),
            forall|k: int| 0 <= k < n ==> seen@[#[trigger] owners@[k] as int] == seen_ids.contains(model[k].id_str),
            forall|c: int| 0 <= c < n && #[trigger] seen@[c] ==> exists|j: int| 0 <= j < group@.len() && owners@[group@[j] as int] == c,
            forall|j: int| 0 <= j < group@.len() ==> (#[trigger] group@[j]) < n,
            forall|j: int| 0 <= j < stack@.len() ==> (#[trigger] stack@[j]) < n,
        decreases unseen_count(model, seen_ids, n), stack@.len(),
    {
        let ghost before_stack = stack@;
        let top = stack.pop().unwrap();
        proof {
            assert(stack@ == before_stack.drop_last());
            assert(top == before_stack.last());
            lemma_tweet_by_own_id(model, top as nat);
        }
        let owner = owners[top];
        if seen[owner] {
            proof {
                assert(seen_ids.contains(model[top as int].id_str));
            }
        } else {
            let ghost id = model[top as int].id_str;
            let ghost old_seen = seen_ids;
            proof {
                lemma_unseen_count_insert(model, seen_ids, n, top as nat);
                seen_ids = seen_ids.insert(id);
            }
            seen.set(owner, true);
            let ghost group_before = group@;
            group.push(top);
            proof {
                assert forall|k: int| 0 <= k < n implies seen@[#[trigger] owners@[k] as int] == seen_ids.contains(
                    model[k].id_str,
                ) by {
                    lemma_tweet_by_own_id(model, k as nat);
                    if model[k].id_str == id {
                        assert(owners@[k] == owner);
                    } else {
                        assert(model[owners@[k] as int].id_str == model[k].id_str);
                        assert(model[owner as int].id_str == id);
                        assert(owners@[k] != owner);
                    }
                }
                assert forall|c: int| 0 <= c < n && #[trigger] seen@[c] implies exists|j: int|
                    0 <= j < group@.len() && owners@[group@[j] as int] == c by {
                    if c == owner {
                        assert(owners@[group@[group@.len() - 1] as int] == c);
                    } else {
                        let j = choose|j: int| 0 <= j < group_before.len() && owners@[group_before[j] as int] == c;
                        assert(group@[j] == group_before[j]);
                    }
                }
            }
            let list = &replies[owner];
            proof {
                assert(is_id_owner(model, owner as nat));
                assert(model[owner as int].id_str == id);
                assert(list@ == replies_to(model, id, n));
                lemma_replies_to_bounded(model, id, n);
            }
            let ghost rest = stack@;
            let mut k = list.len();
            proof {
                assert(list@.subrange(k as int, list@.len() as int) =~= Seq::<usize>::empty());
                assert(stack@ =~= rest + pushed_replies(model, list@.subrange(k as int, list@.len() as int), seen_ids));
            }
            while k > 0
                invariant
                    model == tweets.deep_view(),
                    n == model.len(),
                    reply_index_facts(model, owners@, replies@),
                    seen@.len() == n,
                    forall|k: int| 0 <= k < n ==> seen@[#[trigger] owners@[k] as int] == seen_ids.contains(model[k].id_str),
                    k <= list@.len(),
                    forall|j: int| 0 <= j < list@.len() ==> (#[trigger] list@[j]) < n,
                    forall|j: int| 0 <= j < rest.len() ==> (#[trigger] rest[j]) < n,
                    stack@ == rest + pushed_replies(model, list@.subrange(k as int, list@.len() as int), seen_ids),
                    forall|j: int| 0 <= j < stack@.len() ==> (#[trigger] stack@[j]) < n,
                decreases k,
            {
                k = k - 1;
                let candidate = list[k];
                let ghost stack_before = stack@;
                proof {
                    let tail = list@.subrange(k as int, list@.len() as int);
                    assert(tail.drop_first() =~= list@.subrange(k + 1, list@.len() as int));
                    assert(tail[0] == candidate);
                }
                if !seen[owners[candidate]] {
                    stack.push(candidate);
                }
            }
            proof {
                assert(list@.subrange(0, list@.len() as int) =~= list@);
                assert(walk(model, before_stack, old_seen) == seq![top] + walk(model, stack@, seen_ids));
                assert(group@ =~= group_before + seq![top]);
            }
        }
    }
    proof {
        assert(walk(model, stack@, seen_ids) == Seq::<usize>::empty());
        assert(group@ + Seq::<usize>::empty() =~= group@);
    }
    let mut j: usize = 0;
    while j < group.len()
        invariant
            n == model.len(),
            reply_index_facts(model, owners@, replies@),
            seen@.len() == n,
            j <= group@.len(),
            forall|i: int| 0 <= i < group@.len() ==> (#[trigger] group@[i]) < n,
            forall|c: int| 0 <= c < n && #[trigger] seen@[c] ==> exists|i: int| j <= i < group@.len() && owners@[group@[i] as int] == c,
        decreases group@.len() - j,
    {
        let owner = owners[group[j]];
        seen.set(owner, false);
        proof {
            assert forall|c: int| 0 <= c < n && #[trigger] seen@[c] implies exists|i: int|
                j + 1 <= i < group@.len() && owners@[group@[i] as int] == c by {
                let i = choose|i: int| j <= i < group@.len() && owners@[group@[i] as int] == c;
                assert(i != j);
            }
        }
        j = j + 1;
    }
    group
}

/// Reply positions are tweet positions.
proof fn lemma_replies_to_bounded(tweets: Seq<TweetModel>, id: Seq<char>, count: nat)
    requires
        count <= tweets.len() <= usize::MAX,
    ensures
        forall|j: int| 0 <= j < replies_to(tweets, id, count).len() ==> (#[trigger] replies_to(tweets, id, count)[j]) < count,
    decreases count,
{
    if count > 0 {
        lemma_replies_to_bounded(tweets, id, (count - 1) as nat);
        let before = replies_to(tweets, id, (count - 1) as nat);
        if tweets[count - 1].in_reply_to_status_id == Some(id) {
            assert(replies_to(tweets, id, count) == before.push((count - 1) as usize));
            assert forall|j: int| 0 <= j < replies_to(tweets, id, count).len() implies (#[trigger] replies_to(
                tweets,
                id,
                count,
            )[j]) < count by {
                if j < before.len() {
                    assert(replies_to(tweets, id, count)[j] == before[j]);
                }
            }
        }
    }
}

/// The unsorted groups of all tweets, each a non-empty walk from a root.
fn reply_thread_groups(tweets: &[Tweet]) -> (groups: Vec<Vec<usize>>)
    requires
        replies_acyclic(tweets.deep_view()),
    ensures
        groups.deep_view() == thread_groups(tweets.deep_view(), tweets.deep_view().len()).0,
        forall|g: int| 0 <= g < groups@.len() ==> (#[trigger] groups@[g])@.len() > 0,
        forall|g: int, k: int|
            0 <= g < groups@.len() && 0 <= k < groups@[g]@.len() ==> (#[trigger] groups@[g]@[k])
                < tweets.deep_view().len(),
{
    let ghost model = tweets.deep_view();
    let n = tweets.len();
    let by_id = positions_by_id(tweets);
    let owners = id_owners(tweets, &by_id);
    let replies = reply_lists(tweets, &by_id);
    let mut seen: Vec<bool> = Vec::new();
    let mut placed: Vec<bool> = Vec::new();
    let mut c: usize = 0;
    while c < n
        invariant
            c <= n,
            seen@.len() == c,
            placed@.len() == c,
            forall|j: int| 0 <= j < c ==> !(#[trigger] seen@[j]),
            forall|j: int| 0 <= j < c ==> !(#[trigger] placed@[j]),
        decreases n - c,
    {
        seen.push(false);
        placed.push(false);
        c = c + 1;
    }
    let mut groups: Vec<Vec<usize>> = Vec::new();
    let ghost mut placed_ids: Set<Seq<char>> = Set::empty();
    proof {
        assert(groups.deep_view() =~= Seq::<Seq<usize>>::empty());
    }
    let mut i: usize = 0;
    while i < n
        invariant
            model == tweets.deep_view(),
            n == model.len(),
            n == tweets@.len(),
            replies_acyclic(model),
            is_sorted_order(by_id@, key_order(id_keys(model)), n as nat),
            strict_total_on(key_order(id_keys(model)), n as nat),
            reply_index_facts(model, owners@, replies@),
            seen@.len() == n,
            placed@.len() == n,
            forall|j: int| 0 <= j < n ==> !(#[trigger] seen@[j]),
            i <= n,
            thread_groups(model, i as nat) == (groups.deep_view(), placed_ids),
            forall|k: int| 0 <= k < n ==> placed@[#[trigger] owners@[k] as int] == placed_ids.contains(model[k].id_str),
            forall|g: int| 0 <= g < groups@.len() ==> (#[trigger] groups@[g])@.len() > 0,
            forall|g: int, k: int|
                0 <= g < groups@.len() && 0 <= k < groups@[g]@.len() ==> (#[trigger] groups@[g]@[k]) < n,
        decreases n - i,
    {
        proof {
            assert(tweets@[i as int]@ == model[i as int]);
            lemma_tweet_by_own_id(model, i as nat);
        }
        if !placed[owners[i]] {
            let root = find_thread_root(tweets, &by_id, i);
            let group = walk_from_root(tweets, &owners, &replies, root, &mut seen);
            let ghost before_placed = placed_ids;
            proof {
                placed_ids = placed_ids.union(ids_of(model, group@));
            }
            let mut j: usize = 0;
            while j < group.len()
                invariant
                    n == model.len(),
                    reply_index_facts(model, owners@, replies@),
                    placed@.len() == n,
                    forall|e: int| 0 <= e < group@.len() ==> (#[trigger] group@[e]) < n,
                    j <= group@.len(),
                    forall|k: int| 0 <= k < n ==> placed@[#[trigger] owners@[k] as int] == (before_placed.contains(
                        model[k].id_str,
                    ) || exists|e: int| 0 <= e < j && model[group@[e] as int].id_str == model[k].id_str),
                decreases group@.len() - j,
            {
                let owner = owners[group[j]];
                placed.set(owner, true);
                proof {
                    assert forall|k: int| 0 <= k < n implies placed@[#[trigger] owners@[k] as int] == (before_placed.contains(
                        model[k].id_str,
                    ) || exists|e: int| 0 <= e < j + 1 && model[group@[e] as int].id_str == model[k].id_str) by {
                        lemma_tweet_by_own_id(model, k as nat);
                        lemma_tweet_by_own_id(model, group@[j as int] as nat);
                        if model[group@[j as int] as int].id_str == model[k].id_str {
                            assert(owners@[k] == owner);
                        } else {
                            assert(owners@[k] != owner);
                            if exists|e: int| 0 <= e < j + 1 && model[group@[e] as int].id_str == model[k].id_str {
                                let e = choose|e: int| 0 <= e < j + 1 && model[group@[e] as int].id_str == model[k].id_str;
                                assert(e < j);
                            }
                        }
                    }
                }
                j = j + 1;
            }
            proof {
                assert forall|k: int| 0 <= k < n implies placed@[#[trigger] owners@[k] as int] == placed_ids.contains(
                    model[k].id_str,
                ) by {
                    if exists|e: int| 0 <= e < group@.len() && model[group@[e] as int].id_str == model[k].id_str {
                        let e = choose|e: int| 0 <= e < group@.len() && model[group@[e] as int].id_str == model[k].id_str;
                        assert(ids_of(model, group@).contains(model[k].id_str));
                    }
                    if ids_of(model, group@).contains(model[k].id_str) {
                        let e = choose|e: int| 0 <= e < group@.len() && model[group@[e] as int].id_str == model[k].id_str;
                    }
                }
            }
            let ghost groups_before = groups.deep_view();
            let ghost walked = group@;
            proof {
                assert(group.deep_view() =~= walked);
            }
            if group.len() > 0 {
                groups.push(group);
                proof {
                    assert(groups.deep_view() =~= groups_before.push(walked));
                }
            }
        } else {
            proof {
                assert(placed_ids.contains(model[i as int].id_str));
            }
        }
        i = i + 1;
    }
    groups
}

/// A group's members in `created_at` order.
fn sort_group_by_created(tweets: &[Tweet], group: &Vec<usize>) -> (sorted: Vec<usize>)
    requires
        forall|k: int| 0 <= k < group@.len() ==> (#[trigger] group@[k]) < tweets.deep_view().len(),
    ensures
        sorted@ == sorted_group(tweets.deep_view(), group@),
        sorted@.len() == group@.len(),
        forall|k: int| 0 <= k < sorted@.len() ==> (#[trigger] sorted@[k]) < tweets.deep_view().len(),
{
    let ghost model = tweets.deep_view();
    let mut keys: Vec<&str> = Vec::new();
    let mut k: usize = 0;
    while k < group.len()
        invariant
            model == tweets.deep_view(),
            model.len() == tweets@.len(),
            forall|j: int| 0 <= j < group@.len() ==> (#[trigger] group@[j]) < model.len(),
            k <= group@.len(),
            keys@.len() == k,
            forall|j: int| 0 <= j < k ==> (#[trigger] keys@[j])@ == model[group@[j] as int].created_at,
        decreases group@.len() - k,
    {
        proof {
            assert(tweets@[group@[k as int] as int]@ == model[group@[k as int] as int]);
        }
        keys.push(tweets[group[k]].created_at.as_str());
        k = k + 1;
    }
    proof {
        assert(encoded_keys(keys@) =~= created_keys(model, group@));
    }
    let order = sorted_by_text_key(&keys, false);
    let ghost order_spec = stable_order(created_order(model, group@), group@.len());
    let mut sorted: Vec<usize> = Vec::new();
    let mut j: usize = 0;
    while j < order.len()
        invariant
            order@ == order_spec,
            order@.len() == group@.len(),
            forall|i: int| 0 <= i < order@.len() ==> (#[trigger] order@[i]) < group@.len(),
            j <= order@.len(),
            sorted@.len() == j,
            forall|i: int| 0 <= i < j ==> #[trigger] sorted@[i] == group@[order@[i] as int],
            forall|i: int| 0 <= i < group@.len() ==> (#[trigger] group@[i]) < model.len(),
            forall|i: int| 0 <= i < j ==> (#[trigger] sorted@[i]) < model.len(),
        decreases order@.len() - j,
    {
        sorted.push(group[order[j]]);
        j = j + 1;
    }
    proof {
        assert(sorted@ =~= sorted_group(model, group@));
    }
    sorted
}

/// The tweets at some positions, cloned, in order.
fn tweets_at(tweets: &[Tweet], positions: &Vec<usize>) -> (picked: Vec<Tweet>)
    requires
        forall|k: int| 0 <= k < positions@.len() ==> (#[trigger] positions@[k]) < tweets.deep_view().len(),
    ensures
        picked.deep_view() == Seq::new(positions@.len(), |k: int| tweets.deep_view()[positions@[k] as int]),
{
    let ghost model = tweets.deep_view();
    let mut picked: Vec<Tweet> = Vec::new();
    let mut k: usize = 0;
    while k < positions.len()
        invariant
            model == tweets.deep_view(),
            model.len() == tweets@.len(),
            forall|j: int| 0 <= j < positions@.len() ==> (#[trigger] positions@[j]) < model.len(),
            k <= positions@.len(),
            picked@.len() == k,
            forall|j: int| 0 <= j < k ==> (#[trigger] picked@[j])@ == model[positions@[j] as int],
        decreases positions@.len() - k,
    {
        proof {
            assert(tweets@[positions@[k as int] as int]@ == model[positions@[k as int] as int]);
        }
        picked.push(tweets[positions[k]].clone());
        k = k + 1;
    }
    proof {
        assert(picked.deep_view() =~= Seq::new(positions@.len(), |j: int| model[positions@[j] as int]));
    }
    picked
}

/// Process tweets to identify and build reply threads.
///
/// Every reply is a potential thread member, not only self-replies: each thread is the reply
/// tree below a root tweet, its tweets in `created_at` order, and the threads come newest
/// first. The screen name is not used.
pub fn process_reply_threads(tweets: &[Tweet], _screen_name: &str) -> (threads: Vec<Vec<Tweet>>)
    requires
        replies_acyclic(tweets.deep_view()),
    ensures
        threads.deep_view() == reply_threads(tweets.deep_view()),
{
    let ghost model = tweets.deep_view();
    let groups = reply_thread_groups(tweets);
    let ghost unsorted = groups.deep_view();
    let mut sorted: Vec<Vec<usize>> = Vec::new();
    let mut g: usize = 0;
    while g < groups.len()
        invariant
            model == tweets.deep_view(),
            unsorted == groups.deep_view(),
            forall|h: int| 0 <= h < groups@.len() ==> (#[trigger] groups@[h])@.len() > 0,
            forall|h: int, k: int|
                0 <= h < groups@.len() && 0 <= k < groups@[h]@.len() ==> (#[trigger] groups@[h]@[k])
                    < model.len(),
            g <= groups@.len(),
            sorted@.len() == g,
            forall|h: int| 0 <= h < g ==> (#[trigger] sorted@[h])@ == sorted_group(model, unsorted[h]),
            forall|h: int| 0 <= h < g ==> (#[trigger] sorted@[h])@.len() == unsorted[h].len(),
            forall|h: int, k: int|
                0 <= h < g && 0 <= k < sorted@[h]@.len() ==> (#[trigger] sorted@[h]@[k]) < model.len(),
        decreases groups@.len() - g,
    {
        let group_sorted = sort_group_by_created(tweets, &groups[g]);
        proof {
            assert(groups@[g as int]@ == unsorted[g as int]);
        }
        sorted.push(group_sorted);
        g = g + 1;
    }
    let ghost sorted_model = Seq::new(unsorted.len(), |h: int| sorted_group(model, unsorted[h]));
    proof {
        assert(unsorted.len() == groups@.len());
        assert forall|i: int| 0 <= i < sorted@.len() implies sorted.deep_view()[i] == sorted_model[i] by {
            assert(sorted@[i].deep_view() =~= sorted@[i]@);
        }
        assert(sorted.deep_view() =~= sorted_model);
    }
    let mut firsts: Vec<&str> = Vec::new();
    let mut h: usize = 0;
    while h < sorted.len()
        invariant
            model == tweets.deep_view(),
            model.len() == tweets@.len(),
            sorted.deep_view() == sorted_model,
            forall|i: int| 0 <= i < sorted@.len() ==> (#[trigger] sorted@[i])@.len() > 0,
            forall|i: int, k: int|
                0 <= i < sorted@.len() && 0 <= k < sorted@[i]@.len() ==> (#[trigger] sorted@[i]@[k]) < model.len(),
            h <= sorted@.len(),
            firsts@.len() == h,
            forall|i: int| 0 <= i < h ==> (#[trigger] firsts@[i])@ == model[sorted@[i]@[0] as int].created_at,
        decreases sorted@.len() - h,
    {
        proof {
            assert(sorted@[h as int]@.len() > 0);
            assert(tweets@[sorted@[h as int]@[0] as int]@ == model[sorted@[h as int]@[0] as int]);
        }
        firsts.push(tweets[sorted[h][0]].created_at.as_str());
        h = h + 1;
    }
    proof {
        assert forall|i: int| 0 <= i < sorted_model.len() implies sorted_model[i] == (#[trigger] sorted@[i])@ by {
            assert(sorted.deep_view()[i] == sorted@[i]@);
        }
        assert(encoded_keys(firsts@) =~= first_created_keys(model, sorted_model));
    }
    let order = sorted_by_text_key(&firsts, true);
    let mut threads: Vec<Vec<Tweet>> = Vec::new();
    let mut k: usize = 0;
    while k < order.len()
        invariant
            model == tweets.deep_view(),
            sorted.deep_view() == sorted_model,
            forall|i: int| 0 <= i < sorted_model.len() ==> sorted_model[i] == (#[trigger] sorted@[i])@,
            forall|i: int, j: int|
                0 <= i < sorted@.len() && 0 <= j < sorted@[i]@.len() ==> (#[trigger] sorted@[i]@[j]) < model.len(),
            order@ == stable_order(newest_first_order(model, sorted_model), sorted_model.len()),
            order@.len() == sorted@.len(),
            forall|j: int| 0 <= j < order@.len() ==> (#[trigger] order@[j]) < sorted@.len(),
            k <= order@.len(),
            threads@.len() == k,
            forall|j: int| 0 <= j < k ==> (#[trigger] threads@[j]).deep_view() == Seq::new(
                sorted_model[order@[j] as int].len(),
                |i: int| model[sorted_model[order@[j] as int][i] as int],
            ),
        decreases order@.len() - k,
    {
        let picked = tweets_at(tweets, &sorted[order[k]]);
        threads.push(picked);
        k = k + 1;
    }
    proof {
        assert(threads.deep_view() =~= reply_threads(model));
    }
    threads
}

/// Groups are only ever added when non-empty, and there are at most as many groups as tweets
/// considered, each with at most as many members as there are tweets.
pub(crate) proof fn lemma_thread_groups_shape(tweets: Seq<TweetModel>, count: nat)
    requires
        count <= tweets.len(),
    ensures
        thread_groups(tweets, count).0.len() <= count,
        forall|g: int|
            0 <= g < thread_groups(tweets, count).0.len() ==> 0 < (#[trigger] thread_groups(
                tweets,
                count,
            ).0[g]).len() <= tweets.len(),
    decreases count,
{
    if count > 0 {
        let i = (count - 1) as nat;
        lemma_thread_groups_shape(tweets, i);
        let groups = thread_groups(tweets, i).0;
        let placed = thread_groups(tweets, i).1;
        if !placed.contains(tweets[i as int].id_str) {
            let group = walk(tweets, seq![thread_root(tweets, i) as usize], Set::empty());
            lemma_walk_small(tweets, seq![thread_root(tweets, i) as usize], Set::empty());
            lemma_unseen_count_le(tweets, Set::empty(), tweets.len());
            if group.len() > 0 {
                assert(thread_groups(tweets, count).0 == groups.push(group));
                assert forall|g: int| 0 <= g < groups.len() + 1 implies 0 < (#[trigger] groups.push(
                    group,
                )[g]).len() <= tweets.len() by {
                    if g < groups.len() {
                        assert(groups.push(group)[g] == groups[g]);
                    }
                }
            } else {
                assert(thread_groups(tweets, count).0 == groups);
            }
        } else {
            assert(thread_groups(tweets, count).0 == groups);
        }
    }
}

/// At most every tweet is unseen.
proof fn lemma_unseen_count_le(tweets: Seq<TweetModel>, seen: Set<Seq<char>>, count: nat)
    ensures
        unseen_count(tweets, seen, count) <= count,
    decreases count,
{
    if count > 0 {
        lemma_unseen_count_le(tweets, seen, (count - 1) as nat);
    }
}

/// Each reconstructed thread lists its tweets in `created_at` order, as the texts compare.
pub proof fn lemma_reply_threads_chronological(tweets: Seq<TweetModel>)
    requires
        tweets.len() <= usize::MAX,
    ensures
        forall|g: int, a: int, b: int|
            0 <= g < reply_threads(tweets).len() && 0 <= a < b < reply_threads(tweets)[g].len()
                ==> bytes_at_most(
                encode_utf8(#[trigger] reply_threads(tweets)[g][a].created_at),
                encode_utf8(#[trigger] reply_threads(tweets)[g][b].created_at),
            ),
{
    let groups = thread_groups(tweets, tweets.len()).0;
    let sorted = Seq::new(groups.len(), |h: int| sorted_group(tweets, groups[h]));
    let outer = stable_order(newest_first_order(tweets, sorted), sorted.len());
    lemma_thread_groups_shape(tweets, tweets.len());
    lemma_key_order_total(first_created_keys(tweets, sorted));
    crate::sort::lemma_stable_order_facts(newest_first_order(tweets, sorted), sorted.len());
    assert forall|g: int, a: int, b: int|
        0 <= g < reply_threads(tweets).len() && 0 <= a < b < reply_threads(tweets)[g].len()
            implies bytes_at_most(
        encode_utf8(#[trigger] reply_threads(tweets)[g][a].created_at),
        encode_utf8(#[trigger] reply_threads(tweets)[g][b].created_at),
    ) by {
        let h = outer[g] as int;
        let group = groups[h];
        let keys = created_keys(tweets, group);
        lemma_key_order_total(keys);
        crate::sort::lemma_stable_order_facts(created_order(tweets, group), group.len());
        let ord = stable_order(created_order(tweets, group), group.len());
        assert(key_order(keys)(ord[a] as nat, ord[b] as nat));
        let x = keys[ord[a] as int];
        let y = keys[ord[b] as int];
        assert(reply_threads(tweets)[g][a] == tweets[group[ord[a] as int] as int]);
        assert(reply_threads(tweets)[g][b] == tweets[group[ord[b] as int] as int]);
        if bytes_less(y, x) {
            if bytes_less(x, y) {
                lemma_bytes_less_transitive(x, y, x);
            }
            lemma_bytes_less_irreflexive(x);
        }
    }
}

/// The threads come newest first: each thread's first tweet is no earlier, as the
/// `created_at` texts compare, than the next thread's.
pub proof fn lemma_reply_threads_newest_first(tweets: Seq<TweetModel>)
    requires
        tweets.len() <= usize::MAX,
    ensures
        forall|g: int, h: int|
            0 <= g < h < reply_threads(tweets).len() ==> reply_threads(tweets)[g].len() > 0
                && bytes_at_most(
                encode_utf8(#[trigger] reply_threads(tweets)[h][0].created_at),
                encode_utf8(#[trigger] reply_threads(tweets)[g][0].created_at),
            ),
{
    let groups = thread_groups(tweets, tweets.len()).0;
    let sorted = Seq::new(groups.len(), |i: int| sorted_group(tweets, groups[i]));
    let keys = first_created_keys(tweets, sorted);
    let outer = stable_order(newest_first_order(tweets, sorted), sorted.len());
    lemma_thread_groups_shape(tweets, tweets.len());
    lemma_key_order_total(keys);
    crate::sort::lemma_stable_order_facts(newest_first_order(tweets, sorted), sorted.len());
    assert forall|g: int, h: int| 0 <= g < h < reply_threads(tweets).len() implies reply_threads(
        tweets,
    )[g].len() > 0 && bytes_at_most(
        encode_utf8(#[trigger] reply_threads(tweets)[h][0].created_at),
        encode_utf8(#[trigger] reply_threads(tweets)[g][0].created_at),
    ) by {
        let gi = outer[g] as int;
        let hi = outer[h] as int;
        assert(groups[gi].len() > 0);
        assert(groups[hi].len() > 0);
        assert(key_order_desc(keys)(outer[g] as nat, outer[h] as nat));
        let x = keys[gi];
        let y = keys[hi];
        assert(reply_threads(tweets)[g][0] == tweets[sorted[gi][0] as int]);
        assert(reply_threads(tweets)[h][0] == tweets[sorted[hi][0] as int]);
        if bytes_less(x, y) {
            if bytes_less(y, x) {
                lemma_bytes_less_transitive(x, y, x);
            }
            lemma_bytes_less_irreflexive(x);
        }
    }
}

/// A walk emits each identifier at most once, so it emits at most as many tweets as there are.
proof fn lemma_walk_small(tweets: Seq<TweetModel>, stack: Seq<usize>, seen: Set<Seq<char>>)
    ensures
        walk(tweets, stack, seen).len() <= unseen_count(tweets, seen, tweets.len()),
    decreases unseen_count(tweets, seen, tweets.len()), stack.len(),
{
    if stack.len() > 0 {
        let top = stack.last();
        let rest = stack.drop_last();
        if top >= tweets.len() || seen.contains(tweets[top as int].id_str) {
            lemma_walk_small(tweets, rest, seen);
        } else {
            let id = tweets[top as int].id_str;
            let now_seen = seen.insert(id);
            lemma_unseen_count_insert(tweets, seen, tweets.len(), top as nat);
            lemma_walk_small(
                tweets,
                rest + pushed_replies(tweets, replies_to(tweets, id, tweets.len()), now_seen),
                now_seen,
            );
        }
    }
}

/// The rule line of a formatted thread.
pub open spec fn thread_rule() -> Seq<char> {
    repeat_char('─', 50)
}

/// The entry of the tweet at `idx` in a formatted thread.
pub open spec fn formatted_tweet_entry(thread: Seq<TweetModel>, idx: nat) -> Seq<char> {
    let tweet = thread[idx as int];
    let position = if idx == 0 {
        "🔹 [Thread Start]\n"@
    } else {
        match tweet.in_reply_to_screen_name {
            Some(user) => "↳ Reply to @"@ + user + "\n"@,
            None => Seq::empty(),
        }
    };
    let separator = if idx + 1 < thread.len() {
        "\n"@
    } else {
        Seq::empty()
    };
    position + tweet.full_text + "\n"@ + "📅 "@ + tweet.created_at + " | ❤️ "@
        + tweet.favorite_count + " | 🔁 "@ + tweet.retweet_count + "\n"@ + separator
}

/// The entries of the first `count` tweets of a formatted thread.
pub open spec fn formatted_tweet_entries(thread: Seq<TweetModel>, count: nat) -> Seq<char>
    decreases count,
{
    if count == 0 {
        Seq::empty()
    } else {
        formatted_tweet_entries(thread, (count - 1) as nat) + formatted_tweet_entry(
            thread,
            (count - 1) as nat,
        )
    }
}

/// A thread in the human-readable format: a header with the tweet count and a rule, one
/// entry per tweet, and a closing rule.
pub open spec fn formatted_thread(thread: Seq<TweetModel>) -> Seq<char> {
    "🧵 Thread with "@ + decimal(thread.len()) + " tweets\n"@ + thread_rule() + "\n"@
        + formatted_tweet_entries(thread, thread.len()) + thread_rule() + "\n\n"@
}

/// The rule line.
fn rule_line() -> (rule: String)
    ensures
        rule@ == thread_rule(),
{
    let mut rule = String::new();
    let mut i: usize = 0;
    while i < 50
        invariant
            i <= 50,
            rule@ == repeat_char('─', i as nat),
        decreases 50 - i,
    {
        proof {
            reveal_strlit("─");
        }
        rule.append("─");
        i = i + 1;
    }
    rule
}

/// Appends the entry of the tweet at `idx` of a formatted thread.
fn push_formatted_entry(output: &mut String, thread: &[Tweet], idx: usize)
    requires
        idx < thread.deep_view().len(),
    ensures
        final(output)@ == old(output)@ + formatted_tweet_entry(thread.deep_view(), idx as nat),
{
    let ghost model = thread.deep_view();
    let tweet = &thread[idx];
    proof {
        assert(model[idx as int] == tweet@);
    }
    if idx == 0 {
        output.append("🔹 [Thread Start]\n");
    } else {
        match &tweet.in_reply_to_screen_name {
            Some(user) => {
                output.append("↳ Reply to @");
                output.append(user.as_str());
                output.append("\n");
            },
            None => {},
        }
    }
    output.append(tweet.full_text.as_str());
    output.append("\n");
    output.append("📅 ");
    output.append(tweet.created_at.as_str());
    output.append(" | ❤️ ");
    output.append(tweet.favorite_count.as_str());
    output.append(" | 🔁 ");
    output.append(tweet.retweet_count.as_str());
    output.append("\n");
    if idx + 1 < thread.len() {
        output.append("\n");
    }
    proof {
        assert(output@ =~= old(output)@ + formatted_tweet_entry(model, idx as nat));
    }
}

/// Convert a thread of tweets into a human-readable format.
pub fn format_thread_as_text(thread: &[Tweet], _screen_name: &str) -> (output: String)
    ensures
        output@ == formatted_thread(thread.deep_view()),
{
    let ghost model = thread.deep_view();
    let rule = rule_line();
    let mut output = "🧵 Thread with ".to_owned();
    let count = u64_to_decimal(thread.len() as u64);
    output.append(count.as_str());
    output.append(" tweets\n");
    output.append(rule.as_str());
    output.append("\n");
    let ghost header = output@;
    let mut idx: usize = 0;
    while idx < thread.len()
        invariant
            model == thread.deep_view(),
            model.len() == thread@.len(),
            idx <= thread@.len(),
            output@ == header + formatted_tweet_entries(model, idx as nat),
        decreases thread@.len() - idx,
    {
        let ghost before = output@;
        push_formatted_entry(&mut output, thread, idx);
        proof {
            assert(output@ =~= header + formatted_tweet_entries(model, (idx + 1) as nat));
        }
        idx = idx + 1;
    }
    output.append(rule.as_str());
    output.append("\n\n");
    proof {
        assert(output@ =~= formatted_thread(model));
    }
    output
}

/// The entries of the first `count` tweets extend those of any shorter prefix by `rest`.
proof fn lemma_formatted_entries_extend(thread: Seq<TweetModel>, shorter: nat, count: nat) -> (rest:
    Seq<char>)
    requires
        shorter <= count,
    ensures
        formatted_tweet_entries(thread, count) == formatted_tweet_entries(thread, shorter) + rest,
    decreases count,
{
    if shorter == count {
        assert(formatted_tweet_entries(thread, count) =~= formatted_tweet_entries(thread, shorter)
            + Seq::<char>::empty());
        Seq::<char>::empty()
    } else {
        let rest = lemma_formatted_entries_extend(thread, shorter, (count - 1) as nat);
        let longer = rest + formatted_tweet_entry(thread, (count - 1) as nat);
        assert(formatted_tweet_entries(thread, count) =~= formatted_tweet_entries(thread, shorter)
            + longer);
        longer
    }
}

/// A tweet's text and metadata line, as one piece.
spec fn text_and_metadata(f: Seq<char>, c: Seq<char>, fav: Seq<char>, rt: Seq<char>) -> Seq<char> {
    f + "\n"@ + "📅 "@ + c + " | ❤️ "@ + fav + " | 🔁 "@ + rt + "\n"@
}

/// Regrouping the text and metadata line between what precedes and what follows it.
proof fn lemma_metadata_grouping(
    b: Seq<char>,
    f: Seq<char>,
    c: Seq<char>,
    fav: Seq<char>,
    rt: Seq<char>,
    a: Seq<char>,
)
    ensures
        b + f + "\n"@ + "📅 "@ + c + " | ❤️ "@ + fav + " | 🔁 "@ + rt + "\n"@ + a == b
            + text_and_metadata(f, c, fav, rt) + a,
{
    assert(b + f + "\n"@ + "📅 "@ + c + " | ❤️ "@ + fav + " | 🔁 "@ + rt + "\n"@ + a =~= b
        + text_and_metadata(f, c, fav, rt) + a);
}

/// Regrouping a formatted thread around one entry's middle piece.
proof fn lemma_thread_grouping(
    h: Seq<char>,
    e: Seq<char>,
    p: Seq<char>,
    x: Seq<char>,
    s: Seq<char>,
    r: Seq<char>,
    t: Seq<char>,
)
    ensures
        h + (e + (p + x + s) + r) + t == (h + e + p) + x + (s + r + t),
{
    assert(h + (e + (p + x + s) + r) + t =~= (h + e + p) + x + (s + r + t));
}

/// In a formatted thread, every tweet's text is followed by its metadata line: its date after
/// "📅 ", its favourite count after "❤️ " and its retweet count after "🔁 ".
pub proof fn lemma_formatted_thread_metadata(thread: Seq<TweetModel>, idx: nat) -> (around: (
    Seq<char>,
    Seq<char>,
))
    requires
        idx < thread.len(),
    ensures
        formatted_thread(thread) == around.0 + thread[idx as int].full_text + "\n"@ + "📅 "@
            + thread[idx as int].created_at + " | ❤️ "@ + thread[idx as int].favorite_count
            + " | 🔁 "@ + thread[idx as int].retweet_count + "\n"@ + around.1,
{
    let tweet = thread[idx as int];
    let position = if idx == 0 {
        "🔹 [Thread Start]\n"@
    } else {
        match tweet.in_reply_to_screen_name {
            Some(user) => "↳ Reply to @"@ + user + "\n"@,
            None => Seq::empty(),
        }
    };
    let separator = if idx + 1 < thread.len() {
        "\n"@
    } else {
        Seq::<char>::empty()
    };
    let x = text_and_metadata(
        tweet.full_text,
        tweet.created_at,
        tweet.favorite_count,
        tweet.retweet_count,
    );
    lemma_metadata_grouping(
        position,
        tweet.full_text,
        tweet.created_at,
        tweet.favorite_count,
        tweet.retweet_count,
        separator,
    );
    assert(formatted_tweet_entry(thread, idx) == position + x + separator);
    let rest = lemma_formatted_entries_extend(thread, idx + 1, thread.len());
    let entries_before = formatted_tweet_entries(thread, idx);
    assert(formatted_tweet_entries(thread, idx + 1) == entries_before + formatted_tweet_entry(
        thread,
        idx,
    ));
    let header = "🧵 Thread with "@ + decimal(thread.len()) + " tweets\n"@ + thread_rule() + "\n"@;
    let closing = thread_rule() + "\n\n"@;
    assert(formatted_thread(thread) == header + formatted_tweet_entries(thread, thread.len())
        + closing);
    lemma_thread_grouping(header, entries_before, position, x, separator, rest, closing);
    let before = header + entries_before + position;
    let after = separator + rest + closing;
    lemma_metadata_grouping(
        before,
        tweet.full_text,
        tweet.created_at,
        tweet.favorite_count,
        tweet.retweet_count,
        after,
    );
    (before, after)
}

/// A tweet an identifier looks up is one of the tweets.
pub proof fn lemma_tweet_by_id_in_range(tweets: Seq<TweetModel>, id: Seq<char>)
    ensures
        tweet_by_id(tweets, id) matches Some(p) ==> p < tweets.len() && tweets[p as int].id_str == id,
{
    lemma_last_with_id(tweets, id, tweets.len());
}

/// Every reconstructed thread has at least one tweet.
pub proof fn lemma_reply_threads_nonempty(tweets: Seq<TweetModel>)
    requires
        tweets.len() <= usize::MAX,
    ensures
        forall|g: int| 0 <= g < reply_threads(tweets).len() ==> (#[trigger] reply_threads(tweets)[g]).len() > 0,
{
    let groups = thread_groups(tweets, tweets.len()).0;
    let sorted = Seq::new(groups.len(), |i: int| sorted_group(tweets, groups[i]));
    let outer = stable_order(newest_first_order(tweets, sorted), sorted.len());
    lemma_thread_groups_shape(tweets, tweets.len());
    lemma_key_order_total(first_created_keys(tweets, sorted));
    crate::sort::lemma_stable_order_facts(newest_first_order(tweets, sorted), sorted.len());
    assert forall|g: int| 0 <= g < reply_threads(tweets).len() implies (#[trigger] reply_threads(tweets)[g]).len() > 0 by {
        let gi = outer[g] as int;
        assert(groups[gi].len() > 0);
    }
}

/// There are no more threads than tweets, and no thread is longer than the tweet list.
pub(crate) proof fn lemma_reply_threads_bounded(tweets: Seq<TweetModel>)
    requires
        tweets.len() <= usize::MAX,
    ensures
        reply_threads(tweets).len() <= tweets.len(),
        forall|g: int| 0 <= g < reply_threads(tweets).len() ==> (#[trigger] reply_threads(tweets)[g]).len() <= tweets.len(),
{
    let groups = thread_groups(tweets, tweets.len()).0;
    let sorted = Seq::new(groups.len(), |i: int| sorted_group(tweets, groups[i]));
    let outer = stable_order(newest_first_order(tweets, sorted), sorted.len());
    lemma_thread_groups_shape(tweets, tweets.len());
    lemma_key_order_total(first_created_keys(tweets, sorted));
    crate::sort::lemma_stable_order_facts(newest_first_order(tweets, sorted), sorted.len());
    assert forall|g: int| 0 <= g < reply_threads(tweets).len() implies (#[trigger] reply_threads(tweets)[g]).len() <= tweets.len() by {
        let gi = outer[g] as int;
        assert(groups[gi].len() <= tweets.len());
    }
}

/// Whether following replies upward ends from every tweet, so that threads can be built.
pub fn reply_chains_end(tweets: &[Tweet]) -> (ends: bool)
    ensures
        ends == replies_acyclic(tweets.deep_view()),
{
    let ghost model = tweets.deep_view();
    let n = tweets.len();
    let by_id = positions_by_id(tweets);
    let mut i: usize = 0;
    while i < n
        invariant
            model == tweets.deep_view(),
            n == model.len(),
            n == tweets@.len(),
            crate::sort::is_sorted_order(by_id@, key_order(id_keys(model)), n as nat),
            strict_total_on(key_order(id_keys(model)), n as nat),
            i <= n,
            forall|j: nat| j < i ==> #[trigger] reaches_root(model, j, n as nat),
        decreases n - i,
    {
        let mut current = i;
        let mut steps = n;
        let ghost target = reaches_root(model, i as nat, n as nat);
        loop
            invariant
                model == tweets.deep_view(),
                n == model.len(),
                n == tweets@.len(),
                crate::sort::is_sorted_order(by_id@, key_order(id_keys(model)), n as nat),
                strict_total_on(key_order(id_keys(model)), n as nat),
                current < n,
                i < n,
                steps <= n,
                target == reaches_root(model, i as nat, n as nat),
                target == reaches_root(model, current as nat, steps as nat),
            ensures
                target,
            decreases steps,
        {
            proof {
                assert(tweets@[current as int]@ == model[current as int]);
            }
            let parent = match &tweets[current].in_reply_to_status_id {
                Some(parent_id) => {
                    proof {
                        lemma_last_with_id(model, parent_id@, n as nat);
                    }
                    lookup_tweet_by_id(tweets, &by_id, parent_id.as_str())
                },
                None => None,
            };
            match parent {
                Some(p) => {
                    if steps == 0 {
                        proof {
                            assert(!reaches_root(model, i as nat, n as nat));
                        }
                        return false;
                    }
                    current = p;
                    steps = steps - 1;
                },
                None => {
                    break;
                },
            }
        }
        i = i + 1;
    }
    true
}

} // verus!
