//! Sorting of texts, and of positions by the keys that stand at them.
use vstd::prelude::*;
use vstd::relations::*;
use vstd::seq_lib::*;

use crate::text;

verus! {

/// The contents of a list of character rows.
pub open spec fn rows(list: Seq<Vec<char>>) -> Seq<Seq<char>> {
    Seq::new(list.len(), |i: int| list[i]@)
}

/// The texts of `list` in text order.
pub open spec fn sorted_texts(list: Seq<Seq<char>>) -> Seq<Seq<char>> {
    list.sort_by(|a: Seq<char>, b: Seq<char>| text::text_le(a, b))
}

/// Whether position `i` comes no later than position `j`: by the list at it, then by the name at
/// it, then by the position itself.
pub open spec fn position_le(keys: Seq<(Seq<Seq<char>>, Seq<char>)>, i: int, j: int) -> bool {
    let (a, b) = (keys[i], keys[j]);
    ||| text::list_lt(a.0, b.0)
    ||| a.0 == b.0 && text::text_lt(a.1, b.1)
    ||| a.0 == b.0 && a.1 == b.1 && i <= j
}

/// The positions of `keys`, ordered by the keys at them; of two equal keys the earlier comes first.
pub open spec fn sorted_positions(keys: Seq<(Seq<Seq<char>>, Seq<char>)>) -> Seq<int> {
    Seq::new(keys.len(), |i: int| i).sort_by(|i: int, j: int| position_le(keys, i, j))
}

pub proof fn text_le_is_total_ordering()
    ensures
        total_ordering(|a: Seq<char>, b: Seq<char>| text::text_le(a, b)),
{
    let leq = |a: Seq<char>, b: Seq<char>| text::text_le(a, b);
    assert forall|a: Seq<char>, b: Seq<char>| #[trigger] leq(a, b) && #[trigger] leq(b, a) implies a
        == b by {
        text::text_order_is_total(a, b);
    }
    assert forall|a: Seq<char>, b: Seq<char>, c: Seq<char>| #[trigger]
        leq(a, b) && #[trigger] leq(b, c) implies leq(a, c) by {
        if a != b && b != c {
            text::text_order_is_transitive(a, b, c);
        }
    }
    assert forall|a: Seq<char>, b: Seq<char>| #[trigger] leq(a, b) || #[trigger] leq(b, a) by {
        text::text_order_is_total(a, b);
    }
}

pub proof fn position_le_is_total_ordering(keys: Seq<(Seq<Seq<char>>, Seq<char>)>)
    ensures
        total_ordering(|i: int, j: int| position_le(keys, i, j)),
{
    let leq = |i: int, j: int| position_le(keys, i, j);
    assert forall|i: int, j: int| #[trigger] leq(i, j) && #[trigger] leq(j, i) implies i == j by {
        text::list_order_is_total(keys[i].0, keys[j].0);
        text::text_order_is_total(keys[i].1, keys[j].1);
    }
    assert forall|i: int, j: int, k: int| #[trigger] leq(i, j) && #[trigger] leq(j, k) implies leq(
        i,
        k,
    ) by {
        if text::list_lt(keys[i].0, keys[j].0) && text::list_lt(keys[j].0, keys[k].0) {
            text::list_order_is_transitive(keys[i].0, keys[j].0, keys[k].0);
        }
        if text::text_lt(keys[i].1, keys[j].1) && text::text_lt(keys[j].1, keys[k].1) {
            text::text_order_is_transitive(keys[i].1, keys[j].1, keys[k].1);
        }
    }
    assert forall|i: int, j: int| #[trigger] leq(i, j) || #[trigger] leq(j, i) by {
        text::list_order_is_total(keys[i].0, keys[j].0);
        text::text_order_is_total(keys[i].1, keys[j].1);
    }
}

/// The sorted positions are all the positions, each once, and each comes no later than the next.
pub proof fn sorted_positions_are_a_permutation(keys: Seq<(Seq<Seq<char>>, Seq<char>)>)
    ensures
        sorted_positions(keys).len() == keys.len(),
        sorted_positions(keys).no_duplicates(),
        forall|p: int|
            0 <= p < keys.len() ==> 0 <= #[trigger] sorted_positions(keys)[p] < keys.len(),
        forall|i: int| 0 <= i < keys.len() ==> #[trigger] sorted_positions(keys).contains(i),
        forall|p: int, q: int|
            0 <= p <= q < keys.len() ==> position_le(
                keys,
                #[trigger] sorted_positions(keys)[p],
                #[trigger] sorted_positions(keys)[q],
            ),
{
    broadcast use group_to_multiset_ensures;

    let all = Seq::new(keys.len(), |i: int| i);
    let leq = |i: int, j: int| position_le(keys, i, j);
    position_le_is_total_ordering(keys);
    all.lemma_sort_by_ensures(leq);
    let order = sorted_positions(keys);
    assert(order.to_multiset() == all.to_multiset());
    assert(order.len() == order.to_multiset().len());
    assert(all.no_duplicates());
    all.lemma_multiset_has_no_duplicates();
    order.lemma_multiset_has_no_duplicates_conv();
    assert forall|p: int| 0 <= p < keys.len() implies 0 <= #[trigger] order[p] < keys.len() by {
        assert(order.contains(order[p]));
        assert(all.contains(order[p]));
    }
    assert forall|i: int| 0 <= i < keys.len() implies #[trigger] order.contains(i) by {
        assert(all[i] == i);
        assert(all.contains(i));
        assert(all.to_multiset().count(i) > 0);
        assert(order.to_multiset().count(i) > 0);
    }
    assert forall|p: int, q: int| 0 <= p <= q < keys.len() implies position_le(
        keys,
        #[trigger] order[p],
        #[trigger] order[q],
    ) by {
        if p < q {
            assert(leq(order[p], order[q]));
        }
    }
}

/// A row of the positions of `keys`, each once and each no later than the next, is the sorted one.
pub proof fn sorted_positions_are_unique(keys: Seq<(Seq<Seq<char>>, Seq<char>)>, order: Seq<int>)
    requires
        order.to_multiset() == Seq::new(keys.len(), |i: int| i).to_multiset(),
        forall|p: int, q: int|
            0 <= p < q < order.len() ==> position_le(
                keys,
                #[trigger] order[p],
                #[trigger] order[q],
            ),
    ensures
        order == sorted_positions(keys),
{
    let all = Seq::new(keys.len(), |i: int| i);
    let leq = |i: int, j: int| position_le(keys, i, j);
    position_le_is_total_ordering(keys);
    all.lemma_sort_by_ensures(leq);
    assert(sorted_by(order, leq));
    lemma_sorted_unique(order, all.sort_by(leq), leq);
}

/// Sorting forgets the order: the same texts, each as often, are sorted to the same list.
pub proof fn sorted_texts_forget_the_order(a: Seq<Seq<char>>, b: Seq<Seq<char>>)
    requires
        a.to_multiset() == b.to_multiset(),
    ensures
        sorted_texts(a) == sorted_texts(b),
{
    let leq = |a: Seq<char>, b: Seq<char>| text::text_le(a, b);
    text_le_is_total_ordering();
    a.lemma_sort_by_ensures(leq);
    b.lemma_sort_by_ensures(leq);
    lemma_sorted_unique(a.sort_by(leq), b.sort_by(leq), leq);
}

/// The sorted texts are the texts, each as often as before, none of them before a lesser one.
pub proof fn sorted_texts_are_a_permutation(list: Seq<Seq<char>>)
    ensures
        sorted_texts(list).to_multiset() == list.to_multiset(),
        sorted_texts(list).len() == list.len(),
        forall|t: Seq<char>| sorted_texts(list).contains(t) <==> list.contains(t),
        forall|p: int, q: int|
            0 <= p <= q < list.len() ==> text::text_le(
                #[trigger] sorted_texts(list)[p],
                #[trigger] sorted_texts(list)[q],
            ),
{
    broadcast use group_to_multiset_ensures;

    let leq = |a: Seq<char>, b: Seq<char>| text::text_le(a, b);
    text_le_is_total_ordering();
    list.lemma_sort_by_ensures(leq);
    let order = sorted_texts(list);
    assert(order.len() == order.to_multiset().len());
    assert forall|t: Seq<char>| order.contains(t) <==> list.contains(t) by {
        assert(order.to_multiset().count(t) == list.to_multiset().count(t));
    }
    assert forall|p: int, q: int| 0 <= p <= q < list.len() implies text::text_le(
        #[trigger] order[p],
        #[trigger] order[q],
    ) by {
        if p < q {
            assert(leq(order[p], order[q]));
        }
    }
}

/// The texts of `list` in text order.
pub fn sort_texts(list: &Vec<String>) -> (r: Vec<Vec<char>>)
    ensures
        rows(r@) == sorted_texts(text::texts(list@)),
{
    let mut out: Vec<Vec<char>> = Vec::new();
    let mut i: usize = 0;
    let ghost given = text::texts(list@);
    let ghost leq = |a: Seq<char>, b: Seq<char>| text::text_le(a, b);
    proof {
        text_le_is_total_ordering();
        assert(rows(out@) =~= given.take(0));
    }
    while i < list.len()
        invariant
            i <= list@.len(),
            given == text::texts(list@),
            leq == (|a: Seq<char>, b: Seq<char>| text::text_le(a, b)),
            total_ordering(leq),
            out@.len() == i,
            rows(out@).to_multiset() == given.take(i as int).to_multiset(),
            sorted_by(rows(out@), leq),
        decreases list@.len() - i,
    {
        let row = text::chars_of(list[i].as_str());
        let ghost before = rows(out@);
        let mut k: usize = out.len();
        while k > 0 && text::text_before(&row, &out[k - 1])
            invariant
                k <= out@.len(),
                before == rows(out@),
                forall|m: int| k <= m < out@.len() ==> text::text_lt(row@, #[trigger] before[m]),
            decreases k,
        {
            k = k - 1;
        }
        proof {
            assert forall|m: int| 0 <= m < k implies #[trigger] leq(before[m], row@) by {
                text::text_order_is_total(before[k - 1], row@);
                assert(leq(before[k - 1], row@));
                if m < k - 1 {
                    assert(leq(before[m], before[k - 1]));
                }
            }
        }
        let ghost whole = row@;
        out.insert(k, row);
        i = i + 1;
        proof {
            let after = rows(out@);
            assert(after =~= before.insert(k as int, whole));
            assert forall|p: int, q: int| 0 <= p < q < after.len() implies #[trigger] leq(
                after[p],
                after[q],
            ) by {
                if p < k && q == k {
                    assert(leq(before[p], whole));
                } else if p < k && q < k {
                    assert(leq(before[p], before[q]));
                } else if p < k {
                    assert(leq(before[p], before[q - 1]));
                } else if p == k {
                    assert(text::text_lt(whole, before[q - 1]));
                } else {
                    assert(leq(before[p - 1], before[q - 1]));
                }
            }
            assert(given.take(i as int) =~= given.take(i - 1).push(given[i - 1]));
            to_multiset_insert(before, k as int, whole);
            to_multiset_build(given.take(i - 1), given[i - 1]);
        }
    }
    proof {
        assert(given.take(given.len() as int) =~= given);
        given.lemma_sort_by_ensures(leq);
        lemma_sorted_unique(rows(out@), given.sort_by(leq), leq);
    }
    out
}

/// What positions are sorted by: a list of texts, then a name.
pub struct SortKey {
    pub tags: Vec<Vec<char>>,
    pub name: Vec<char>,
}

/// The keys as pairs of a list of texts and a name.
pub open spec fn key_pairs(keys: Seq<SortKey>) -> Seq<(Seq<Seq<char>>, Seq<char>)> {
    Seq::new(keys.len(), |i: int| (rows(keys[i].tags@), keys[i].name@))
}

/// Whether list `a` comes before list `b`.
pub fn list_before(a: &Vec<Vec<char>>, b: &Vec<Vec<char>>) -> (r: bool)
    ensures
        r == text::list_lt(rows(a@), rows(b@)),
{
    let mut i: usize = 0;
    let ghost x = rows(a@);
    let ghost y = rows(b@);
    assert(x.skip(0) == x);
    assert(y.skip(0) == y);
    while i < a.len() && i < b.len()
        invariant
            i <= a@.len(),
            i <= b@.len(),
            x == rows(a@),
            y == rows(b@),
            text::list_lt(x, y) == text::list_lt(x.skip(i as int), y.skip(i as int)),
        decreases a@.len() - i,
    {
        proof {
            text::text_order_is_total(x[i as int], y[i as int]);
        }
        if text::text_before(&a[i], &b[i]) {
            return true;
        }
        if text::text_before(&b[i], &a[i]) {
            return false;
        }
        assert(x.skip(i as int).drop_first() == x.skip(i + 1));
        assert(y.skip(i as int).drop_first() == y.skip(i + 1));
        i = i + 1;
    }
    i < b.len()
}

/// Whether two lists are the same.
pub fn same_list(a: &Vec<Vec<char>>, b: &Vec<Vec<char>>) -> (r: bool)
    ensures
        r == (rows(a@) == rows(b@)),
{
    proof {
        text::list_order_is_total(rows(a@), rows(b@));
    }
    !list_before(a, b) && !list_before(b, a)
}

/// Whether key `a` comes strictly before key `b`.
fn key_before(a: &SortKey, b: &SortKey) -> (r: bool)
    ensures
        r == (text::list_lt(rows(a.tags@), rows(b.tags@)) || (rows(a.tags@) == rows(b.tags@)
            && text::text_lt(a.name@, b.name@))),
{
    list_before(&a.tags, &b.tags) || (same_list(&a.tags, &b.tags) && text::text_before(
        &a.name,
        &b.name,
    ))
}

/// Machine positions as mathematical ones.
pub open spec fn positions(list: Seq<usize>) -> Seq<int> {
    Seq::new(list.len(), |i: int| list[i] as int)
}

/// The positions of `keys`, ordered by the keys at them; of two equal keys the earlier comes first.
pub fn sort_positions(keys: &Vec<SortKey>) -> (r: Vec<usize>)
    ensures
        positions(r@) == sorted_positions(key_pairs(keys@)),
{
    let mut out: Vec<usize> = Vec::new();
    let mut i: usize = 0;
    let ghost pairs = key_pairs(keys@);
    let ghost all = Seq::new(pairs.len(), |i: int| i);
    proof {
        assert(positions(out@) =~= all.take(0));
    }
    while i < keys.len()
        invariant
            i <= keys@.len(),
            pairs == key_pairs(keys@),
            all == Seq::new(pairs.len(), |i: int| i),
            out@.len() == i,
            positions(out@).to_multiset() == all.take(i as int).to_multiset(),
            forall|m: int| 0 <= m < out@.len() ==> #[trigger] out@[m] < i,
            forall|p: int, q: int|
                0 <= p < q < out@.len() ==> position_le(
                    pairs,
                    #[trigger] positions(out@)[p],
                    #[trigger] positions(out@)[q],
                ),
        decreases keys@.len() - i,
    {
        let ghost before = positions(out@);
        let mut k: usize = out.len();
        while k > 0 && key_before(&keys[i], &keys[out[k - 1]])
            invariant
                k <= out@.len(),
                i < keys@.len(),
                pairs == key_pairs(keys@),
                before == positions(out@),
                forall|m: int| 0 <= m < out@.len() ==> #[trigger] out@[m] < i,
                forall|m: int|
                    k <= m < out@.len() ==> position_le(pairs, i as int, #[trigger] before[m]),
            decreases k,
        {
            k = k - 1;
        }
        proof {
            position_le_is_total_ordering(pairs);
            let leq = |i: int, j: int| position_le(pairs, i, j);
            assert forall|m: int| 0 <= m < k implies position_le(
                pairs,
                #[trigger] before[m],
                i as int,
            ) by {
                let last = before[k - 1];
                assert(last == out@[k - 1]);
                assert(last < i);
                text::list_order_is_total(pairs[last].0, pairs[i as int].0);
                text::text_order_is_total(pairs[last].1, pairs[i as int].1);
                assert(leq(last, i as int));
                if m < k - 1 {
                    assert(leq(before[m], last));
                }
            }
        }
        out.insert(k, i);
        proof {
            let after = positions(out@);
            assert(after =~= before.insert(k as int, i as int));
            assert forall|p: int, q: int| 0 <= p < q < after.len() implies position_le(
                pairs,
                #[trigger] after[p],
                #[trigger] after[q],
            ) by {
                if p < k && q < k {
                    assert(position_le(pairs, before[p], before[q]));
                } else if p < k && q == k {
                    assert(position_le(pairs, before[p], i as int));
                } else if p < k {
                    assert(position_le(pairs, before[p], before[q - 1]));
                } else if p == k {
                    assert(position_le(pairs, i as int, before[q - 1]));
                } else {
                    assert(position_le(pairs, before[p - 1], before[q - 1]));
                }
            }
            assert(all.take(i + 1) =~= all.take(i as int).push(all[i as int]));
            to_multiset_insert(before, k as int, i as int);
            to_multiset_build(all.take(i as int), all[i as int]);
        }
        i = i + 1;
    }
    proof {
        assert(all.take(all.len() as int) =~= all);
        sorted_positions_are_unique(pairs, positions(out@));
    }
    out
}

/// What is picked out of an ascending row is ascending.
pub proof fn filtered_rows_keep_their_order(all: Seq<int>, fits: spec_fn(int) -> bool, c: int, d: int)
    requires
        forall|i: int, j: int| 0 <= i < j < all.len() ==> #[trigger] all[i] < #[trigger] all[j],
        0 <= c < d < all.filter(fits).len(),
    ensures
        all.filter(fits)[c] < all.filter(fits)[d],
    decreases all.len(),
{
    reveal(Seq::filter);
    let front = all.drop_last();
    assert forall|i: int, j: int| 0 <= i < j < front.len() implies #[trigger] front[i]
        < #[trigger] front[j] by {
        assert(all[i] < all[j]);
    }
    if fits(all.last()) && d == front.filter(fits).len() {
        let kept = front.filter(fits);
        broadcast use vstd::seq_lib::group_filter_ensures;

        assert(kept.contains(kept[c]));
        front.lemma_filter_contains_rev(fits, kept[c]);
        let i = choose|i: int| 0 <= i < front.len() && front[i] == kept[c];
        assert(all[i] < all[all.len() - 1]);
    } else {
        filtered_rows_keep_their_order(front, fits, c, d);
    }
}

} // verus!
