//! A stable sort by an integer key.

use vstd::prelude::*;
use vstd::seq_lib::*;

verus! {

/// A sorted sequence with `item` put behind everything whose key is not greater than its own.
pub open spec fn placed<T>(s: Seq<T>, item: T, key: spec_fn(T) -> int) -> Seq<T>
    decreases s.len(),
{
    if s.len() == 0 || key(s.last()) <= key(item) {
        s.push(item)
    } else {
        placed(s.drop_last(), item, key).push(s.last())
    }
}

/// The items by ascending key; those with equal keys keep their order.
pub open spec fn sorted_by<T>(s: Seq<T>, key: spec_fn(T) -> int) -> Seq<T>
    decreases s.len(),
{
    if s.len() == 0 {
        s
    } else {
        placed(sorted_by(s.drop_last(), key), s.last(), key)
    }
}

/// Whether the keys ascend.
pub open spec fn ascending<T>(s: Seq<T>, key: spec_fn(T) -> int) -> bool {
    forall|i: int, j: int| 0 <= i <= j < s.len() ==> key(#[trigger] s[i]) <= key(#[trigger] s[j])
}

/// The first items of a sequence, at most so many.
pub open spec fn at_most<T>(s: Seq<T>, n: int) -> Seq<T> {
    if s.len() <= n {
        s
    } else {
        s.take(n)
    }
}

/// The last items of a sequence, at most so many.
pub open spec fn last_of<T>(s: Seq<T>, n: int) -> Seq<T> {
    if s.len() <= n {
        s
    } else {
        s.skip(s.len() - n)
    }
}

proof fn lemma_placed_is_insert<T>(s: Seq<T>, item: T, key: spec_fn(T) -> int, i: int)
    requires
        0 <= i <= s.len(),
        i == 0 || key(s[i - 1]) <= key(item),
        forall|j: int| i <= j < s.len() ==> key(#[trigger] s[j]) > key(item),
    ensures
        placed(s, item, key) == s.insert(i, item),
    decreases s.len(),
{
    if i == s.len() {
        assert(s.insert(i, item) =~= s.push(item));
    } else {
        assert(key(s[s.len() - 1]) > key(item));
        lemma_placed_is_insert(s.drop_last(), item, key, i);
        assert(s.insert(i, item) =~= s.drop_last().insert(i, item).push(s.last()));
    }
}

proof fn lemma_placed<T>(s: Seq<T>, item: T, key: spec_fn(T) -> int)
    requires
        ascending(s, key),
    ensures
        ascending(placed(s, item, key), key),
        placed(s, item, key).to_multiset() == s.to_multiset().insert(item),
        placed(s, item, key).len() == s.len() + 1,
        placed(s, item, key).last() == item || (s.len() > 0 && placed(s, item, key).last()
            == s.last()),
    decreases s.len(),
{
    broadcast use group_to_multiset_ensures;

    if s.len() == 0 || key(s.last()) <= key(item) {
        let r = s.push(item);
        assert forall|i: int, j: int| 0 <= i <= j < r.len() implies key(#[trigger] r[i]) <= key(
            #[trigger] r[j],
        ) by {
            if j == s.len() && i < j {
                assert(key(s[i]) <= key(s[s.len() - 1]));
            }
        }
    } else {
        let front = s.drop_last();
        lemma_placed(front, item, key);
        let p = placed(front, item, key);
        let r = p.push(s.last());
        assert(key(p.last()) <= key(s.last())) by {
            if front.len() > 0 {
                assert(key(s[front.len() - 1]) <= key(s[s.len() - 1]));
            }
        }
        assert forall|i: int, j: int| 0 <= i <= j < r.len() implies key(#[trigger] r[i]) <= key(
            #[trigger] r[j],
        ) by {
            if j == p.len() && i < j {
                assert(key(p[i]) <= key(p[p.len() - 1]));
            }
        }
        assert(front.push(s.last()) =~= s);
        assert(r.to_multiset() =~= s.to_multiset().insert(item));
    }
}

/// The sort gives ascending keys, and the items that it was given, each as often.
pub proof fn law_sorted<T>(s: Seq<T>, key: spec_fn(T) -> int)
    ensures
        ascending(sorted_by(s, key), key),
        sorted_by(s, key).to_multiset() == s.to_multiset(),
        sorted_by(s, key).len() == s.len(),
        forall|x: T| #[trigger] sorted_by(s, key).contains(x) <==> s.contains(x),
    decreases s.len(),
{
    broadcast use group_to_multiset_ensures;

    if s.len() > 0 {
        law_sorted(s.drop_last(), key);
        lemma_placed(sorted_by(s.drop_last(), key), s.last(), key);
        assert(s.drop_last().push(s.last()) =~= s);
    }
    assert forall|x: T| #[trigger] sorted_by(s, key).contains(x) <==> s.contains(x) by {
        assert(sorted_by(s, key).contains(x) <==> sorted_by(s, key).to_multiset().count(x) > 0);
        assert(s.contains(x) <==> s.to_multiset().count(x) > 0);
    }
}

/// Items whose keys ascend already stay as they are.
pub proof fn law_sorted_fixed<T>(s: Seq<T>, key: spec_fn(T) -> int)
    requires
        ascending(s, key),
    ensures
        sorted_by(s, key) == s,
    decreases s.len(),
{
    if s.len() > 0 {
        law_sorted_fixed(s.drop_last(), key);
        if s.len() > 1 {
            assert(key(s[s.len() - 2]) <= key(s[s.len() - 1]));
        }
        assert(s.drop_last().push(s.last()) =~= s);
    }
}

/// Sorting commutes with a change of items that keeps the keys.
pub proof fn lemma_sorted_map<A, B>(
    s: Seq<A>,
    ka: spec_fn(A) -> int,
    f: spec_fn(A) -> B,
    kb: spec_fn(B) -> int,
)
    requires
        forall|i: int| 0 <= i < s.len() ==> kb(f(#[trigger] s[i])) == ka(s[i]),
    ensures
        sorted_by(s.map_values(f), kb) == sorted_by(s, ka).map_values(f),
    decreases s.len(),
{
    let m = s.map_values(f);
    if s.len() > 0 {
        let front = s.drop_last();
        assert forall|i: int| 0 <= i < front.len() implies kb(f(#[trigger] front[i])) == ka(
            front[i],
        ) by {
            assert(front[i] == s[i]);
        }
        lemma_sorted_map(front, ka, f, kb);
        assert(m.drop_last() =~= front.map_values(f));
        let sorted = sorted_by(front, ka);
        law_sorted(front, ka);
        assert forall|i: int| 0 <= i < sorted.len() implies kb(f(#[trigger] sorted[i])) == ka(
            sorted[i],
        ) by {
            assert(sorted.contains(sorted[i]));
            let j = choose|j: int| 0 <= j < front.len() && front[j] == sorted[i];
            assert(kb(f(s[j])) == ka(s[j]));
        }
        assert(kb(f(s[s.len() - 1])) == ka(s[s.len() - 1]));
        lemma_placed_map(sorted, s.last(), ka, f, kb);
    } else {
        assert(m =~= sorted_by(s, ka).map_values(f));
    }
}

proof fn lemma_placed_map<A, B>(
    s: Seq<A>,
    item: A,
    ka: spec_fn(A) -> int,
    f: spec_fn(A) -> B,
    kb: spec_fn(B) -> int,
)
    requires
        forall|i: int| 0 <= i < s.len() ==> kb(f(#[trigger] s[i])) == ka(s[i]),
        kb(f(item)) == ka(item),
    ensures
        placed(s.map_values(f), f(item), kb) == placed(s, item, ka).map_values(f),
    decreases s.len(),
{
    let m = s.map_values(f);
    if s.len() == 0 || ka(s.last()) <= ka(item) {
        if s.len() > 0 {
            assert(kb(f(s[s.len() - 1])) == ka(s.last()));
            assert(m.last() == f(s.last()));
        }
        assert(s.push(item).map_values(f) =~= m.push(f(item)));
    } else {
        let front = s.drop_last();
        assert(kb(f(s[s.len() - 1])) == ka(s.last()));
        assert(m.last() == f(s.last()));
        assert forall|i: int| 0 <= i < front.len() implies kb(f(#[trigger] front[i])) == ka(
            front[i],
        ) by {
            assert(front[i] == s[i]);
        }
        lemma_placed_map(front, item, ka, f, kb);
        assert(m.drop_last() =~= front.map_values(f));
        let p = placed(front, item, ka);
        assert(p.push(s.last()).map_values(f) =~= p.map_values(f).push(f(s.last())));
    }
}

/// A position in a table, with the key that it is sorted by.
#[derive(Clone, Copy, Debug, PartialEq, Eq, Structural)]
pub struct Keyed {
    pub key: i128,
    pub at: usize,
}

/// The key of a keyed position.
pub open spec fn by_key() -> spec_fn(Keyed) -> int {
    |k: Keyed| k.key as int
}

/// Sorts keyed positions by ascending key; those with equal keys keep their order.
pub fn sort_keyed(items: &Vec<Keyed>) -> (out: Vec<Keyed>)
    ensures
        out@ == sorted_by(items@, by_key()),
{
    let mut out: Vec<Keyed> = Vec::new();
    let mut n: usize = 0;
    assert(items@.take(0) =~= seq![]);
    while n < items.len()
        invariant
            n <= items@.len(),
            out@ == sorted_by(items@.take(n as int), by_key()),
        decreases items@.len() - n,
    {
        let item = items[n];
        let mut i: usize = out.len();
        while i > 0 && out[i - 1].key > item.key
            invariant
                i <= out@.len(),
                forall|j: int| i <= j < out@.len() ==> by_key()(#[trigger] out@[j]) > item.key,
            decreases i,
        {
            i = i - 1;
        }
        proof {
            lemma_placed_is_insert(out@, item, by_key(), i as int);
            assert(items@.take(n + 1).drop_last() =~= items@.take(n as int));
        }
        out.insert(i, item);
        n = n + 1;
    }
    assert(items@.take(n as int) =~= items@);
    out
}

} // verus!
