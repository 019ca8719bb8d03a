//! Ranking by descending key: the one arrangement of the positions of a list
//! of keys in which larger keys stand first and equal keys keep their order.

use vstd::prelude::*;

verus! {

/// Position `a` stands before position `b`: its key is larger, or the keys are
/// equal and it came first.
pub open spec fn precedes(keys: Seq<u128>, a: int, b: int) -> bool {
    keys[a] > keys[b] || (keys[a] == keys[b] && a < b)
}

/// `order` lists every position of `keys` once, each before all those it
/// precedes.
pub open spec fn is_ranking(keys: Seq<u128>, order: Seq<usize>) -> bool {
    &&& order.len() == keys.len()
    &&& forall|i: int| 0 <= i < order.len() ==> (#[trigger] order[i]) < keys.len()
    &&& forall|i: int, j: int|
        0 <= i < j < order.len() ==> precedes(keys, #[trigger] order[i] as int, #[trigger] order[j] as int)
    &&& forall|a: int| 0 <= a < keys.len() ==> occurs(order, a)
}

/// Position `a` is listed in `order`.
pub open spec fn occurs(order: Seq<usize>, a: int) -> bool {
    exists|i: int| 0 <= i < order.len() && #[trigger] order[i] == a
}

/// The ranking of `keys`.
pub open spec fn ranking(keys: Seq<u128>) -> Seq<usize> {
    choose|order: Seq<usize>| is_ranking(keys, order)
}

/// The items in the order that `order` names them.
pub open spec fn arranged<T>(items: Seq<T>, order: Seq<usize>) -> Seq<T> {
    Seq::new(order.len(), |i: int| items[order[i] as int])
}

/// A list of keys has at most one ranking.
pub proof fn lemma_ranking_unique(keys: Seq<u128>, a: Seq<usize>, b: Seq<usize>)
    requires
        is_ranking(keys, a),
        is_ranking(keys, b),
    ensures
        a == b,
{
    assert forall|i: int| 0 <= i < a.len() implies a[i] == b[i] by {
        lemma_agree_up_to(keys, a, b, i);
    }
    assert(a =~= b);
}

/// Two rankings of the same keys agree at position `i`, and at every position
/// before it.
proof fn lemma_agree_up_to(keys: Seq<u128>, a: Seq<usize>, b: Seq<usize>, i: int)
    requires
        is_ranking(keys, a),
        is_ranking(keys, b),
        0 <= i < a.len(),
    ensures
        forall|j: int| 0 <= j <= i ==> a[j] == b[j],
    decreases i,
{
    if i > 0 {
        lemma_agree_up_to(keys, a, b, i - 1);
    }
    if a[i] != b[i] {
        // Each of the two is listed in the other ranking, and only further
        // on, which puts each before the other.
        assert(occurs(b, a[i] as int));
        let j = choose|j: int| 0 <= j < b.len() && b[j] == a[i];
        assert(occurs(a, b[i] as int));
        let k = choose|k: int| 0 <= k < a.len() && a[k] == b[i];
        if j < i {
            assert(a[j] == b[j]);
            assert(precedes(keys, a[j] as int, a[i] as int));
        } else if k < i {
            assert(a[k] == b[k]);
            assert(precedes(keys, b[k] as int, b[i] as int));
        } else {
            assert(precedes(keys, b[i] as int, b[j] as int));
            assert(precedes(keys, a[i] as int, a[k] as int));
        }
        assert(false);
    }
}

/// A ranking of all keys but the last becomes a ranking of all keys when the
/// last position is put in after the positions whose keys are no smaller
/// and before those whose keys are smaller.
pub proof fn lemma_insert_ranked(keys: Seq<u128>, before: Seq<usize>, pos: int)
    requires
        0 < keys.len() <= usize::MAX,
        is_ranking(keys.drop_last(), before),
        0 <= pos <= before.len(),
        forall|i: int| 0 <= i < pos ==> keys[(#[trigger] before[i]) as int] >= keys.last(),
        pos < before.len() ==> keys[before[pos] as int] < keys.last(),
    ensures
        is_ranking(keys, before.insert(pos, (keys.len() - 1) as usize)),
{
    let a = (keys.len() - 1) as usize;
    let seen = keys.drop_last();
    let after = before.insert(pos, a);
    assert forall|i: int, j: int| 0 <= i < j < after.len() implies precedes(
        keys,
        #[trigger] after[i] as int,
        #[trigger] after[j] as int,
    ) by {
        if j < pos {
            assert(precedes(seen, before[i] as int, before[j] as int));
        } else if j == pos {
            assert(after[i] == before[i]);
        } else if i < pos {
            assert(precedes(seen, before[i] as int, before[j - 1] as int));
        } else if i == pos {
            if j - 1 > pos {
                assert(precedes(seen, before[pos] as int, before[j - 1] as int));
            }
        } else {
            assert(precedes(seen, before[i - 1] as int, before[j - 1] as int));
        }
    }
    assert forall|x: int| 0 <= x < keys.len() implies occurs(after, x) by {
        if x == a {
            assert(after[pos] == x);
        } else {
            assert(occurs(before, x));
            let i = choose|i: int| 0 <= i < before.len() && before[i] == x;
            if i < pos {
                assert(after[i] == x);
            } else {
                assert(after[i + 1] == x);
            }
        }
    }
    assert forall|i: int| 0 <= i < after.len() implies (#[trigger] after[i]) < keys.len() by {
        if i < pos {
            assert(after[i] == before[i]);
        } else if i > pos {
            assert(after[i] == before[i - 1]);
        }
    }
}

/// The first place from `from` on in `order` whose key is smaller than
/// `key`; the length of `order` if there is none.
pub open spec fn first_smaller(keys: Seq<u128>, order: Seq<usize>, key: u128, from: nat) -> nat
    decreases order.len() - from,
{
    if from >= order.len() {
        order.len()
    } else if keys[order[from as int] as int] < key {
        from
    } else {
        first_smaller(keys, order, key, from + 1)
    }
}

/// Up to the first smaller key no key is smaller.
pub proof fn lemma_first_smaller(keys: Seq<u128>, order: Seq<usize>, key: u128, from: nat)
    requires
        from <= order.len(),
    ensures
        from <= first_smaller(keys, order, key, from) <= order.len(),
        forall|i: int|
            from <= i < first_smaller(keys, order, key, from) ==> keys[(#[trigger] order[i]) as int]
                >= key,
        first_smaller(keys, order, key, from) < order.len() ==> keys[order[first_smaller(
            keys,
            order,
            key,
            from,
        ) as int] as int] < key,
    decreases order.len() - from,
{
    if from < order.len() && !(keys[order[from as int] as int] < key) {
        lemma_first_smaller(keys, order, key, from + 1);
    }
}

/// Every list of keys has a ranking.
pub proof fn lemma_ranking_exists(keys: Seq<u128>)
    requires
        keys.len() <= usize::MAX,
    ensures
        is_ranking(keys, ranking(keys)),
    decreases keys.len(),
{
    if keys.len() == 0 {
        assert(is_ranking(keys, Seq::<usize>::empty()));
    } else {
        let seen = keys.drop_last();
        lemma_ranking_exists(seen);
        let before = ranking(seen);
        let pos = first_smaller(keys, before, keys.last(), 0);
        lemma_first_smaller(keys, before, keys.last(), 0);
        lemma_insert_ranked(keys, before, pos as int);
    }
}

/// The position that stands before all others is the first of the ranking.
pub proof fn lemma_ranking_first(keys: Seq<u128>, order: Seq<usize>, top: int)
    requires
        is_ranking(keys, order),
        0 <= top < keys.len(),
        forall|other: int| 0 <= other < keys.len() && other != top ==> precedes(keys, top, other),
    ensures
        order[0] == top,
{
    assert(occurs(order, top));
    let i = choose|i: int| 0 <= i < order.len() && order[i] == top;
    if i > 0 {
        assert(precedes(keys, order[0] as int, order[i] as int));
        assert(order[0] < keys.len());
        assert(precedes(keys, top, order[0] as int));
    }
}

/// Ranks the positions of `keys` by descending key, equal keys in the order
/// in which they stand.
pub fn rank_descending(keys: &Vec<u128>) -> (order: Vec<usize>)
    ensures
        is_ranking(keys@, order@),
        order@ == ranking(keys@),
{
    let n: usize = keys.len();
    let mut order: Vec<usize> = Vec::new();
    let mut a: usize = 0;
    while a < n
        invariant
            a <= n,
            n == keys.len(),
            is_ranking(keys@.take(a as int), order@),
        decreases n - a,
    {
        let key: u128 = keys[a];
        let mut pos: usize = 0;
        while pos < order.len() && keys[order[pos]] >= key
            invariant
                pos <= order.len(),
                a < n,
                n == keys.len(),
                key == keys[a as int],
                is_ranking(keys@.take(a as int), order@),
                forall|i: int| 0 <= i < pos ==> keys[(#[trigger] order[i]) as int] >= key,
            decreases order.len() - pos,
        {
            pos += 1;
        }
        proof {
            assert(keys@.take(a + 1).drop_last() =~= keys@.take(a as int));
            lemma_insert_ranked(keys@.take(a + 1), order@, pos as int);
        }
        order.insert(pos, a);
        a += 1;
    }
    proof {
        assert(keys@.take(n as int) =~= keys@);
        lemma_ranking_unique(keys@, order@, ranking(keys@));
    }
    order
}

/// Lists the items in the order that `order` names them.
pub fn arrange<T: Copy>(items: &Vec<T>, order: &Vec<usize>) -> (listed: Vec<T>)
    requires
        forall|i: int| 0 <= i < order.len() ==> (#[trigger] order[i]) < items.len(),
    ensures
        listed@ == arranged(items@, order@),
{
    let mut listed: Vec<T> = Vec::new();
    let mut i: usize = 0;
    while i < order.len()
        invariant
            i <= order.len(),
            listed.len() == i,
            forall|j: int| 0 <= j < order.len() ==> (#[trigger] order[j]) < items.len(),
            forall|j: int| 0 <= j < i ==> listed[j] == items[order[j] as int],
        decreases order.len() - i,
    {
        listed.push(items[order[i]]);
        i += 1;
    }
    proof {
        assert(listed@ =~= arranged(items@, order@));
    }
    listed
}

} // verus!
