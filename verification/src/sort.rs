//! A stable order for lists: a merge sort of positions under a strict total order.

use vstd::prelude::*;

use vstd::multiset::Multiset;
use vstd::utf8::encode_utf8;

use crate::text::{
    bytes_less, lemma_bytes_less_irreflexive, lemma_bytes_less_total, lemma_bytes_less_transitive,
    lemma_encode_utf8_injective, str_equal, str_less,
};
use vstd::seq_lib::{lemma_multiset_commutative, to_multiset_build};

verus! {

/// `lt` is a strict total order on the positions below `n`.
pub open spec fn strict_total_on(lt: spec_fn(nat, nat) -> bool, n: nat) -> bool {
    &&& forall|i: nat| i < n ==> !#[trigger] lt(i, i)
    &&& forall|i: nat, j: nat, k: nat|
        i < n && j < n && k < n && #[trigger] lt(i, j) && #[trigger] lt(j, k) ==> lt(i, k)
    &&& forall|i: nat, j: nat| i < n && j < n && i != j ==> #[trigger] lt(i, j) || #[trigger] lt(j, i)
}

/// Every position of `s` comes strictly before the next ones under `lt`.
pub open spec fn sorted_under(s: Seq<usize>, lt: spec_fn(nat, nat) -> bool) -> bool {
    forall|a: int, b: int| 0 <= a < b < s.len() ==> lt(#[trigger] s[a] as nat, #[trigger] s[b] as nat)
}

/// The positions `0, 1, ..., n - 1`.
pub open spec fn all_positions(n: nat) -> Seq<usize> {
    Seq::new(n, |i: int| i as usize)
}

/// `less` computes `lt` on the positions below `n`.
pub open spec fn computes_order<F: Fn(usize, usize) -> bool>(
    less: F,
    lt: spec_fn(nat, nat) -> bool,
    n: nat,
) -> bool {
    &&& forall|i: usize, j: usize| i < n && j < n ==> #[trigger] less.requires((i, j))
    &&& forall|i: usize, j: usize, r: bool|
        i < n && j < n && #[trigger] less.ensures((i, j), r) ==> r == lt(i as nat, j as nat)
}

/// `order` lists the positions `0..n` once each, sorted under `lt`.
pub open spec fn is_sorted_order(order: Seq<usize>, lt: spec_fn(nat, nat) -> bool, n: nat) -> bool {
    &&& order.to_multiset() == all_positions(n).to_multiset()
    &&& sorted_under(order, lt)
}

/// The positions `0..n` in the order `lt` sorts them.
pub open spec fn stable_order(lt: spec_fn(nat, nat) -> bool, n: nat) -> Seq<usize> {
    choose|order: Seq<usize>| is_sorted_order(order, lt, n)
}

/// Two lists with the same elements below `n`, both sorted under a strict total order, are
/// the same list.
proof fn lemma_sorted_lists_equal(
    a: Seq<usize>,
    b: Seq<usize>,
    lt: spec_fn(nat, nat) -> bool,
    n: nat,
)
    requires
        strict_total_on(lt, n),
        a.to_multiset() == b.to_multiset(),
        sorted_under(a, lt),
        sorted_under(b, lt),
        forall|k: int| 0 <= k < a.len() ==> (#[trigger] a[k]) < n,
    ensures
        a == b,
    decreases a.len(),
{
    broadcast use vstd::seq_lib::group_to_multiset_ensures;

    assert(a.len() == b.len()) by {
        assert(a.len() == a.to_multiset().len());
        assert(b.len() == b.to_multiset().len());
    }
    if a.len() > 0 {
        assert(b.to_multiset().count(b[0]) > 0);
        assert(a.contains(b[0]));
        let p = choose|p: int| 0 <= p < a.len() && a[p] == b[0];
        assert(a.to_multiset().count(a[0]) > 0);
        assert(b.contains(a[0]));
        let q = choose|q: int| 0 <= q < b.len() && b[q] == a[0];
        if a[0] != b[0] {
            assert(p > 0 && q > 0);
            assert(lt(a[0] as nat, a[p] as nat));
            assert(lt(b[0] as nat, b[q] as nat));
            assert(false);
        }
        assert(a.remove(0) =~= a.drop_first());
        assert(b.remove(0) =~= b.drop_first());
        vstd::seq_lib::to_multiset_remove(a, 0);
        vstd::seq_lib::to_multiset_remove(b, 0);
        lemma_sorted_lists_equal(a.drop_first(), b.drop_first(), lt, n);
        assert(a =~= b) by {
            assert forall|k: int| 0 <= k < a.len() implies a[k] == b[k] by {
                if k > 0 {
                    assert(a[k] == a.drop_first()[k - 1]);
                    assert(b[k] == b.drop_first()[k - 1]);
                }
            }
        }
    }
}

/// The first index of `s` from `k` on whose element `x` sorts before, or `s.len()`.
spec fn first_above(s: Seq<usize>, x: nat, lt: spec_fn(nat, nat) -> bool, k: nat) -> nat
    decreases s.len() - k,
{
    if k >= s.len() {
        s.len()
    } else if lt(x, s[k as int] as nat) {
        k
    } else {
        first_above(s, x, lt, k + 1)
    }
}

/// Where `first_above` stops: everything before it from `k` on sorts before `x`, and `x` sorts
/// before what is there.
proof fn lemma_first_above(s: Seq<usize>, x: nat, lt: spec_fn(nat, nat) -> bool, k: nat)
    requires
        k <= s.len(),
    ensures
        k <= first_above(s, x, lt, k) <= s.len(),
        forall|j: int| k <= j < first_above(s, x, lt, k) ==> !lt(x, #[trigger] s[j] as nat),
        first_above(s, x, lt, k) < s.len() ==> lt(x, s[first_above(s, x, lt, k) as int] as nat),
    decreases s.len() - k,
{
    if k < s.len() && !lt(x, s[k as int] as nat) {
        lemma_first_above(s, x, lt, k + 1);
    }
}

/// Every strict total order sorts the positions `0..n` some way.
pub proof fn lemma_stable_order_exists(lt: spec_fn(nat, nat) -> bool, n: nat)
    requires
        strict_total_on(lt, n),
        n <= usize::MAX,
    ensures
        is_sorted_order(stable_order(lt, n), lt, n),
    decreases n,
{
    broadcast use vstd::seq_lib::group_to_multiset_ensures;

    if n == 0 {
        let empty = Seq::<usize>::empty();
        assert(all_positions(0) =~= empty);
        assert(is_sorted_order(empty, lt, 0));
    } else {
        let m = (n - 1) as nat;
        assert(strict_total_on(lt, m));
        lemma_stable_order_exists(lt, m);
        let s = stable_order(lt, m);
        assert forall|k: int| 0 <= k < s.len() implies (#[trigger] s[k]) < m by {
            assert(s.to_multiset().count(s[k]) > 0);
            assert(all_positions(m).contains(s[k]));
        }
        lemma_first_above(s, m, lt, 0);
        let p = first_above(s, m, lt, 0);
        let t = s.insert(p as int, m as usize);
        vstd::seq_lib::to_multiset_insert(s, p as int, m as usize);
        assert(all_positions(n) =~= all_positions(m).push(m as usize));
        assert forall|k: int| 0 <= k < s.len() implies (#[trigger] s[k]) != m by {}
        assert forall|a: int, b: int| 0 <= a < b < t.len() implies lt(
            #[trigger] t[a] as nat,
            #[trigger] t[b] as nat,
        ) by {
            if a < p && b < p {
                assert(t[a] == s[a] && t[b] == s[b]);
            } else if a < p && b == p {
                assert(t[a] == s[a]);
                assert(!lt(m, s[a] as nat));
                assert(s[a] != m);
            } else if a < p && b > p {
                assert(t[a] == s[a] && t[b] == s[b - 1]);
            } else if a == p {
                assert(t[b] == s[b - 1]);
                if b - 1 > p {
                    assert(lt(s[p as int] as nat, s[b - 1] as nat));
                }
            } else {
                assert(t[a] == s[a - 1] && t[b] == s[b - 1]);
            }
        }
        assert(is_sorted_order(t, lt, n));
    }
}

/// The stable order lists each position below `n` once, in `lt` order.
pub proof fn lemma_stable_order_facts(lt: spec_fn(nat, nat) -> bool, n: nat)
    requires
        strict_total_on(lt, n),
        n <= usize::MAX,
    ensures
        stable_order(lt, n).len() == n,
        forall|k: int| 0 <= k < n ==> (#[trigger] stable_order(lt, n)[k]) < n,
        sorted_under(stable_order(lt, n), lt),
{
    broadcast use vstd::seq_lib::group_to_multiset_ensures;

    lemma_stable_order_exists(lt, n);
    let order = stable_order(lt, n);
    assert(order.len() == order.to_multiset().len());
    assert(all_positions(n).len() == all_positions(n).to_multiset().len());
    assert forall|k: int| 0 <= k < n implies (#[trigger] order[k]) < n by {
        assert(order.to_multiset().count(order[k]) > 0);
        assert(all_positions(n).contains(order[k]));
    }
}

/// A sorted list of the positions `0..n` is the stable order.
pub proof fn lemma_sorted_order_is_stable_order(
    order: Seq<usize>,
    lt: spec_fn(nat, nat) -> bool,
    n: nat,
)
    requires
        strict_total_on(lt, n),
        is_sorted_order(order, lt, n),
    ensures
        order == stable_order(lt, n),
{
    broadcast use vstd::seq_lib::group_to_multiset_ensures;

    let chosen = stable_order(lt, n);
    assert(is_sorted_order(chosen, lt, n));
    assert forall|k: int| 0 <= k < order.len() implies (#[trigger] order[k]) < n by {
        assert(order.to_multiset().count(order[k]) > 0);
        assert(all_positions(n).contains(order[k]));
    }
    lemma_sorted_lists_equal(order, chosen, lt, n);
}

/// Merges two sorted lists of distinct positions.
fn merge_sorted<F: Fn(usize, usize) -> bool>(
    a: Vec<usize>,
    b: Vec<usize>,
    less: &F,
    Ghost(lt): Ghost<spec_fn(nat, nat) -> bool>,
    Ghost(n): Ghost<nat>,
) -> (out: Vec<usize>)
    requires
        strict_total_on(lt, n),
        computes_order(*less, lt, n),
        forall|k: int| 0 <= k < a@.len() ==> (#[trigger] a@[k]) < n,
        forall|k: int| 0 <= k < b@.len() ==> (#[trigger] b@[k]) < n,
        sorted_under(a@, lt),
        sorted_under(b@, lt),
        forall|p: int, q: int| 0 <= p < a@.len() && 0 <= q < b@.len() ==> a@[p] != b@[q],
    ensures
        out@.to_multiset() == a@.to_multiset().add(b@.to_multiset()),
        sorted_under(out@, lt),
        forall|k: int| 0 <= k < out@.len() ==> (#[trigger] out@[k]) < n,
{
    broadcast use vstd::seq_lib::group_to_multiset_ensures;
    broadcast use vstd::multiset::group_multiset_axioms;

    let mut out: Vec<usize> = Vec::new();
    let mut i: usize = 0;
    let mut j: usize = 0;
    proof {
        assert(a@.subrange(0, 0) =~= Seq::<usize>::empty());
        assert(b@.subrange(0, 0) =~= Seq::<usize>::empty());
        assert(out@.to_multiset() =~= Multiset::empty());
    }
    while i < a.len() || j < b.len()
        invariant
            strict_total_on(lt, n),
            computes_order(*less, lt, n),
            forall|k: int| 0 <= k < a@.len() ==> (#[trigger] a@[k]) < n,
            forall|k: int| 0 <= k < b@.len() ==> (#[trigger] b@[k]) < n,
            sorted_under(a@, lt),
            sorted_under(b@, lt),
            forall|p: int, q: int| 0 <= p < a@.len() && 0 <= q < b@.len() ==> a@[p] != b@[q],
            i <= a@.len(),
            j <= b@.len(),
            out@.len() == i + j,
            out@.to_multiset() == a@.subrange(0, i as int).to_multiset().add(
                b@.subrange(0, j as int).to_multiset(),
            ),
            sorted_under(out@, lt),
            forall|k: int| 0 <= k < out@.len() ==> (#[trigger] out@[k]) < n,
            out@.len() > 0 && i < a@.len() ==> lt(out@.last() as nat, a@[i as int] as nat),
            out@.len() > 0 && j < b@.len() ==> lt(out@.last() as nat, b@[j as int] as nat),
        decreases a@.len() + b@.len() - i - j,
    {
        let take_a = if i < a.len() && j < b.len() {
            less(a[i], b[j])
        } else {
            i < a.len()
        };
        let ghost before = out@;
        let next = if take_a {
            a[i]
        } else {
            b[j]
        };
        out.push(next);
        proof {
            assert forall|p: int, q: int| 0 <= p < q < out@.len() implies lt(
                #[trigger] out@[p] as nat,
                #[trigger] out@[q] as nat,
            ) by {
                if q == out@.len() - 1 && p < q {
                    if p < before.len() - 1 {
                        assert(lt(before[p] as nat, before.last() as nat));
                    }
                }
            }
            assert(out@ =~= before.push(next));
            to_multiset_build(before, next);
            if take_a {
                assert(a@.subrange(0, i + 1) =~= a@.subrange(0, i as int).push(a@[i as int]));
                to_multiset_build(a@.subrange(0, i as int), a@[i as int]);
                assert(out@.to_multiset() =~= a@.subrange(0, i + 1).to_multiset().add(
                    b@.subrange(0, j as int).to_multiset(),
                ));
                if i + 1 < a@.len() {
                    assert(lt(a@[i as int] as nat, a@[i + 1] as nat));
                }
                if j < b@.len() {
                    assert(lt(a@[i as int] as nat, b@[j as int] as nat));
                }
            } else {
                assert(b@.subrange(0, j + 1) =~= b@.subrange(0, j as int).push(b@[j as int]));
                to_multiset_build(b@.subrange(0, j as int), b@[j as int]);
                assert(out@.to_multiset() =~= a@.subrange(0, i as int).to_multiset().add(
                    b@.subrange(0, j + 1).to_multiset(),
                ));
                if j + 1 < b@.len() {
                    assert(lt(b@[j as int] as nat, b@[j + 1] as nat));
                }
                if i < a@.len() {
                    assert(a@[i as int] != b@[j as int]);
                    assert(lt(b@[j as int] as nat, a@[i as int] as nat));
                }
            }
        }
        if take_a {
            i = i + 1;
        } else {
            j = j + 1;
        }
    }
    proof {
        assert(a@.subrange(0, a@.len() as int) =~= a@);
        assert(b@.subrange(0, b@.len() as int) =~= b@);
    }
    out
}

/// Sorts a list of distinct positions under `lt`.
fn merge_sort_positions<F: Fn(usize, usize) -> bool>(
    items: Vec<usize>,
    less: &F,
    Ghost(lt): Ghost<spec_fn(nat, nat) -> bool>,
    Ghost(n): Ghost<nat>,
) -> (out: Vec<usize>)
    requires
        strict_total_on(lt, n),
        computes_order(*less, lt, n),
        forall|k: int| 0 <= k < items@.len() ==> (#[trigger] items@[k]) < n,
        items@.no_duplicates(),
    ensures
        out@.to_multiset() == items@.to_multiset(),
        sorted_under(out@, lt),
        forall|k: int| 0 <= k < out@.len() ==> (#[trigger] out@[k]) < n,
    decreases items@.len(),
{
    broadcast use vstd::seq_lib::group_to_multiset_ensures;

    if items.len() <= 1 {
        return items;
    }
    let mut left = items;
    let mid = left.len() / 2;
    let ghost whole = left@;
    let right = left.split_off(mid);
    proof {
        assert(whole =~= left@ + right@);
        lemma_multiset_commutative(left@, right@);
        assert forall|p: int, q: int| 0 <= p < q < left@.len() implies left@[p] != left@[q] by {
            assert(whole[p] == left@[p] && whole[q] == left@[q]);
        }
        assert forall|p: int, q: int| 0 <= p < q < right@.len() implies right@[p] != right@[q] by {
            assert(whole[mid + p] == right@[p] && whole[mid + q] == right@[q]);
        }
        assert forall|k: int| 0 <= k < left@.len() implies (#[trigger] left@[k]) < n by {
            assert(whole[k] == left@[k]);
        }
        assert forall|k: int| 0 <= k < right@.len() implies (#[trigger] right@[k]) < n by {
            assert(whole[mid + k] == right@[k]);
        }
    }
    let ghost left_items = left@;
    let ghost right_items = right@;
    let sorted_left = merge_sort_positions(left, less, Ghost(lt), Ghost(n));
    let sorted_right = merge_sort_positions(right, less, Ghost(lt), Ghost(n));
    proof {
        assert forall|p: int, q: int|
            0 <= p < sorted_left@.len() && 0 <= q < sorted_right@.len() implies sorted_left@[p]
            != sorted_right@[q] by {
            let x = sorted_left@[p];
            assert(sorted_left@.contains(x));
            assert(sorted_left@.to_multiset().count(x) > 0);
            assert(left_items.contains(x));
            if sorted_right@[q] == x {
                assert(sorted_right@.contains(x));
                assert(sorted_right@.to_multiset().count(x) > 0);
                assert(right_items.contains(x));
                let pl = choose|pl: int| 0 <= pl < left_items.len() && left_items[pl] == x;
                let pr = choose|pr: int| 0 <= pr < right_items.len() && right_items[pr] == x;
                assert(whole[pl] == x && whole[mid + pr] == x);
            }
        }
    }
    merge_sorted(sorted_left, sorted_right, less, Ghost(lt), Ghost(n))
}

/// The positions `0..n` in the order `lt` sorts them; `less` computes `lt`.
pub fn sorted_positions<F: Fn(usize, usize) -> bool>(
    n: usize,
    less: &F,
    Ghost(lt): Ghost<spec_fn(nat, nat) -> bool>,
) -> (order: Vec<usize>)
    requires
        strict_total_on(lt, n as nat),
        computes_order(*less, lt, n as nat),
    ensures
        order@ == stable_order(lt, n as nat),
        is_sorted_order(order@, lt, n as nat),
        order@.len() == n,
{
    broadcast use vstd::seq_lib::group_to_multiset_ensures;

    let mut items: Vec<usize> = Vec::new();
    let mut k: usize = 0;
    while k < n
        invariant
            k <= n,
            items@ == all_positions(k as nat),
        decreases n - k,
    {
        items.push(k);
        proof {
            assert(items@ =~= all_positions((k + 1) as nat));
        }
        k = k + 1;
    }
    let sorted = merge_sort_positions(items, less, Ghost(lt), Ghost(n as nat));
    proof {
        assert(sorted@.len() == sorted@.to_multiset().len());
        lemma_sorted_order_is_stable_order(sorted@, lt, n as nat);
    }
    sorted
}

/// Orders positions by their byte-string keys, and equal keys by position: the order a stable
/// ascending sort by key leaves.
pub open spec fn key_order(keys: Seq<Seq<u8>>) -> spec_fn(nat, nat) -> bool {
    |a: nat, b: nat|
        bytes_less(keys[a as int], keys[b as int]) || (keys[a as int] == keys[b as int] && a < b)
}

/// Orders positions by their byte-string keys, largest first, and equal keys by position: the
/// order a stable descending sort by key leaves.
pub open spec fn key_order_desc(keys: Seq<Seq<u8>>) -> spec_fn(nat, nat) -> bool {
    |a: nat, b: nat|
        bytes_less(keys[b as int], keys[a as int]) || (keys[a as int] == keys[b as int] && a < b)
}

/// Ordering by key, then by position, is a strict total order.
pub proof fn lemma_key_order_total(keys: Seq<Seq<u8>>)
    ensures
        strict_total_on(key_order(keys), keys.len()),
        strict_total_on(key_order_desc(keys), keys.len()),
{
    let lt = key_order(keys);
    let gt = key_order_desc(keys);
    assert forall|i: nat| i < keys.len() implies !#[trigger] lt(i, i) by {
        lemma_bytes_less_irreflexive(keys[i as int]);
    }
    assert forall|i: nat| i < keys.len() implies !#[trigger] gt(i, i) by {
        lemma_bytes_less_irreflexive(keys[i as int]);
    }
    assert forall|i: nat, j: nat, k: nat|
        i < keys.len() && j < keys.len() && k < keys.len() && #[trigger] lt(i, j) && #[trigger] lt(
            j,
            k,
        ) implies lt(i, k) by {
        if bytes_less(keys[i as int], keys[j as int]) && bytes_less(keys[j as int], keys[k as int]) {
            lemma_bytes_less_transitive(keys[i as int], keys[j as int], keys[k as int]);
        }
    }
    assert forall|i: nat, j: nat, k: nat|
        i < keys.len() && j < keys.len() && k < keys.len() && #[trigger] gt(i, j) && #[trigger] gt(
            j,
            k,
        ) implies gt(i, k) by {
        if bytes_less(keys[j as int], keys[i as int]) && bytes_less(keys[k as int], keys[j as int]) {
            lemma_bytes_less_transitive(keys[k as int], keys[j as int], keys[i as int]);
        }
    }
    assert forall|i: nat, j: nat| i < keys.len() && j < keys.len() && i != j implies #[trigger] lt(
        i,
        j,
    ) || #[trigger] lt(j, i) by {
        if keys[i as int] != keys[j as int] {
            lemma_bytes_less_total(keys[i as int], keys[j as int]);
        }
    }
    assert forall|i: nat, j: nat| i < keys.len() && j < keys.len() && i != j implies #[trigger] gt(
        i,
        j,
    ) || #[trigger] gt(j, i) by {
        if keys[i as int] != keys[j as int] {
            lemma_bytes_less_total(keys[i as int], keys[j as int]);
        }
    }
}

/// The UTF-8 encodings of a list of texts.
pub open spec fn encoded_keys(keys: Seq<&str>) -> Seq<Seq<u8>> {
    Seq::new(keys.len(), |k: int| encode_utf8(keys[k]@))
}

/// The positions of `keys` in stable ascending order of the texts (as `str` orders them), or
/// in stable descending order when `descending` holds.
pub fn sorted_by_text_key(keys: &Vec<&str>, descending: bool) -> (order: Vec<usize>)
    ensures
        order@ == stable_order(
            if descending {
                key_order_desc(encoded_keys(keys@))
            } else {
                key_order(encoded_keys(keys@))
            },
            keys@.len(),
        ),
        is_sorted_order(
            order@,
            if descending {
                key_order_desc(encoded_keys(keys@))
            } else {
                key_order(encoded_keys(keys@))
            },
            keys@.len(),
        ),
        order@.len() == keys@.len(),
        forall|j: int| 0 <= j < order@.len() ==> (#[trigger] order@[j]) < keys@.len(),
{
    broadcast use vstd::seq_lib::group_to_multiset_ensures;

    let ghost enc = encoded_keys(keys@);
    let ghost lt = if descending {
        key_order_desc(enc)
    } else {
        key_order(enc)
    };
    proof {
        lemma_key_order_total(enc);
    }
    let n = keys.len();
    let less = |a: usize, b: usize| -> (r: bool)
        requires
            a < keys@.len(),
            b < keys@.len(),
        ensures
            r == (if descending {
                key_order_desc(encoded_keys(keys@))
            } else {
                key_order(encoded_keys(keys@))
            })(a as nat, b as nat),
        {
            let x = keys[a];
            let y = keys[b];
            let same = str_equal(x, y);
            proof {
                if encode_utf8(x@) == encode_utf8(y@) {
                    lemma_encode_utf8_injective(x@, y@);
                }
            }
            if descending {
                str_less(y, x) || (same && a < b)
            } else {
                str_less(x, y) || (same && a < b)
            }
        };
    let order = sorted_positions(n, &less, Ghost(lt));
    proof {
        assert forall|j: int| 0 <= j < order@.len() implies (#[trigger] order@[j]) < keys@.len() by {
            assert(order@.to_multiset().count(order@[j]) > 0);
            assert(all_positions(n as nat).contains(order@[j]));
        }
    }
    order
}

/// Lexicographic order on instants given as whole seconds and a sub-second part.
pub open spec fn instant_less(a: (i64, u32), b: (i64, u32)) -> bool {
    a.0 < b.0 || (a.0 == b.0 && a.1 < b.1)
}

/// Orders positions by their instant keys, and equal keys by position: the order a stable
/// ascending sort by key leaves.
pub open spec fn instant_order(keys: Seq<(i64, u32)>) -> spec_fn(nat, nat) -> bool {
    |a: nat, b: nat|
        instant_less(keys[a as int], keys[b as int]) || (keys[a as int] == keys[b as int] && a < b)
}

/// Orders positions by their instant keys, latest first, and equal keys by position: the
/// order a stable descending sort by key leaves.
pub open spec fn instant_order_desc(keys: Seq<(i64, u32)>) -> spec_fn(nat, nat) -> bool {
    |a: nat, b: nat|
        instant_less(keys[b as int], keys[a as int]) || (keys[a as int] == keys[b as int] && a < b)
}

/// Ordering by instant, then by position, either way, is a strict total order.
pub proof fn lemma_instant_order_total(keys: Seq<(i64, u32)>)
    ensures
        strict_total_on(instant_order(keys), keys.len()),
        strict_total_on(instant_order_desc(keys), keys.len()),
{
}

/// The positions of `keys` in stable ascending order of the instants, or in stable descending
/// order when `descending` holds.
pub fn sorted_by_instant_key(keys: &Vec<(i64, u32)>, descending: bool) -> (order: Vec<usize>)
    ensures
        order@ == stable_order(
            if descending {
                instant_order_desc(keys@)
            } else {
                instant_order(keys@)
            },
            keys@.len(),
        ),
        is_sorted_order(
            order@,
            if descending {
                instant_order_desc(keys@)
            } else {
                instant_order(keys@)
            },
            keys@.len(),
        ),
        order@.len() == keys@.len(),
        forall|j: int| 0 <= j < order@.len() ==> (#[trigger] order@[j]) < keys@.len(),
{
    broadcast use vstd::seq_lib::group_to_multiset_ensures;

    let ghost lt = if descending {
        instant_order_desc(keys@)
    } else {
        instant_order(keys@)
    };
    let n = keys.len();
    let less = |a: usize, b: usize| -> (r: bool)
        requires
            a < keys@.len(),
            b < keys@.len(),
        ensures
            r == (if descending {
                instant_order_desc(keys@)
            } else {
                instant_order(keys@)
            })(a as nat, b as nat),
        {
            let x = keys[a];
            let y = keys[b];
            let same = x.0 == y.0 && x.1 == y.1;
            if descending {
                y.0 < x.0 || (y.0 == x.0 && y.1 < x.1) || (same && a < b)
            } else {
                x.0 < y.0 || (x.0 == y.0 && x.1 < y.1) || (same && a < b)
            }
        };
    let order = sorted_positions(n, &less, Ghost(lt));
    proof {
        assert forall|j: int| 0 <= j < order@.len() implies (#[trigger] order@[j]) < keys@.len() by {
            assert(order@.to_multiset().count(order@[j]) > 0);
            assert(all_positions(n as nat).contains(order@[j]));
        }
    }
    order
}

/// Orders positions by their counts, largest first, and equal counts by position: the order a
/// stable sort by descending count leaves.
pub open spec fn count_order_desc(counts: Seq<u32>) -> spec_fn(nat, nat) -> bool {
    |a: nat, b: nat| counts[b as int] < counts[a as int] || (counts[a as int] == counts[b as int] && a < b)
}

/// Ordering by descending count, then by position, is a strict total order.
pub proof fn lemma_count_order_total(counts: Seq<u32>)
    ensures
        strict_total_on(count_order_desc(counts), counts.len()),
{
}

/// The positions of `counts` in stable descending order of the counts.
pub fn sorted_by_count_desc(counts: &Vec<u32>) -> (order: Vec<usize>)
    ensures
        order@ == stable_order(count_order_desc(counts@), counts@.len()),
        is_sorted_order(order@, count_order_desc(counts@), counts@.len()),
        order@.len() == counts@.len(),
        forall|j: int| 0 <= j < order@.len() ==> (#[trigger] order@[j]) < counts@.len(),
{
    broadcast use vstd::seq_lib::group_to_multiset_ensures;

    let ghost lt = count_order_desc(counts@);
    let n = counts.len();
    let less = |a: usize, b: usize| -> (r: bool)
        requires
            a < counts@.len(),
            b < counts@.len(),
        ensures
            r == count_order_desc(counts@)(a as nat, b as nat),
        {
            counts[b] < counts[a] || (counts[a] == counts[b] && a < b)
        };
    let order = sorted_positions(n, &less, Ghost(lt));
    proof {
        assert forall|j: int| 0 <= j < order@.len() implies (#[trigger] order@[j]) < counts@.len() by {
            assert(order@.to_multiset().count(order@[j]) > 0);
            assert(all_positions(n as nat).contains(order@[j]));
        }
    }
    order
}

} // verus!
