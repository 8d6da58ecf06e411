//! The order in which candidates are ranked: ascending distance, and among
//! equal distances ascending position in the corpus.

use vstd::prelude::*;
use vstd::multiset::*;

verus! {

/// What a corpus entry is ranked by: its distance from the query and its
/// position in the corpus.
#[derive(Clone, Copy, Debug, PartialEq, Eq, Structural)]
pub struct RankKey {
    pub distance: usize,
    pub index: usize,
}

/// The ranking order: `a` comes strictly before `b`. It is a strict total
/// order on keys, so a set of keys has exactly one ascending arrangement.
pub open spec fn precedes(a: RankKey, b: RankKey) -> bool {
    a.distance < b.distance || (a.distance == b.distance && a.index < b.index)
}

impl RankKey {
    /// Whether this key is ranked strictly before `other`.
    pub fn comes_before(&self, other: &RankKey) -> (r: bool)
        ensures
            r == precedes(*self, *other),
    {
        self.distance < other.distance || (self.distance == other.distance && self.index
            < other.index)
    }
}

/// `x` is in `m` and no key of `m` comes before it.
pub open spec fn is_least(m: Multiset<RankKey>, x: RankKey) -> bool {
    m.count(x) > 0 && forall|y: RankKey| m.count(y) > 0 ==> !precedes(y, x)
}

/// The first key of a non-empty collection in ranking order.
pub open spec fn least(m: Multiset<RankKey>) -> RankKey {
    choose|x: RankKey| is_least(m, x)
}

/// The keys of `m` in ranking order: the least key, then the rest in
/// ranking order.
pub open spec fn ascending(m: Multiset<RankKey>) -> Seq<RankKey>
    decreases m.len(),
    via ascending_terminates
{
    if m.len() == 0 {
        Seq::empty()
    } else {
        seq![least(m)] + ascending(m.remove(least(m)))
    }
}

#[via_fn]
proof fn ascending_terminates(m: Multiset<RankKey>) {
    broadcast use group_multiset_axioms;

    if m.len() != 0 {
        lemma_least_exists(m);
    }
}

/// Every non-empty collection of keys has a least key.
pub proof fn lemma_least_exists(m: Multiset<RankKey>)
    requires
        m.len() > 0,
    ensures
        is_least(m, least(m)),
    decreases m.len(),
{
    broadcast use group_multiset_axioms;

    let a = m.choose();
    let rest = m.remove(a);
    if rest.len() == 0 {
        assert forall|y: RankKey| m.count(y) > 0 implies y == a by {
            if y != a {
                assert(rest.count(y) > 0);
            }
        }
        assert(is_least(m, a));
    } else {
        lemma_least_exists(rest);
        let b = least(rest);
        if precedes(a, b) {
            assert forall|y: RankKey| m.count(y) > 0 implies !precedes(y, a) by {
                if y != a {
                    assert(rest.count(y) > 0);
                    assert(!precedes(y, b));
                }
            }
            assert(is_least(m, a));
        } else {
            assert forall|y: RankKey| m.count(y) > 0 implies !precedes(y, b) by {
                if y != a {
                    assert(rest.count(y) > 0);
                    assert(!precedes(y, b));
                }
            }
            assert(is_least(m, b));
        }
    }
}

/// A collection of keys has at most one least key.
pub proof fn lemma_least_unique(m: Multiset<RankKey>, x: RankKey)
    requires
        is_least(m, x),
    ensures
        x == least(m),
{
    let y = least(m);
    assert(is_least(m, y));
    assert(!precedes(x, y) && !precedes(y, x));
}

/// The ascending arrangement holds every key of the collection, each as
/// often as the collection does.
pub proof fn lemma_ascending_is_permutation(m: Multiset<RankKey>)
    ensures
        ascending(m).len() == m.len(),
        ascending(m).to_multiset() == m,
    decreases m.len(),
{
    broadcast use group_multiset_axioms;

    if m.len() == 0 {
        ascending(m).to_multiset_ensures();
        lemma_multiset_empty_len(m);
        lemma_multiset_empty_len(ascending(m).to_multiset());
    } else {
        lemma_least_exists(m);
        let x = least(m);
        let rest = m.remove(x);
        lemma_ascending_is_permutation(rest);
        let tail = ascending(rest);
        assert(ascending(m) == seq![x] + tail);
        assert((seq![x] + tail) =~= tail.insert(0, x));
        vstd::seq_lib::to_multiset_insert(tail, 0, x);
        assert(ascending(m).to_multiset() =~= m);
    }
}

/// In the ascending arrangement no later key comes before an earlier one,
/// and the first key is the least of the collection.
pub proof fn lemma_ascending_is_sorted(m: Multiset<RankKey>)
    ensures
        forall|a: int, b: int|
            0 <= a <= b < ascending(m).len() ==> !precedes(ascending(m)[b], ascending(m)[a]),
        m.len() > 0 ==> ascending(m)[0] == least(m),
    decreases m.len(),
{
    broadcast use group_multiset_axioms;

    if m.len() > 0 {
        lemma_least_exists(m);
        let x = least(m);
        let rest = m.remove(x);
        lemma_ascending_is_sorted(rest);
        lemma_ascending_is_permutation(rest);
        let tail = ascending(rest);
        let whole = ascending(m);
        assert(whole == seq![x] + tail);
        assert forall|a: int, b: int| 0 <= a <= b < whole.len() implies !precedes(
            whole[b],
            whole[a],
        ) by {
            if a == 0 {
                if b > 0 {
                    assert(whole[b] == tail[b - 1]);
                    assert(tail.contains(tail[b - 1]));
                    tail.to_multiset_ensures();
                    assert(rest.count(tail[b - 1]) > 0);
                    assert(m.count(whole[b]) > 0);
                }
            } else {
                assert(whole[a] == tail[a - 1]);
                assert(whole[b] == tail[b - 1]);
            }
        }
    }
}

/// The ascending arrangement is the only one: a sequence that holds the
/// keys of the collection, in which no later key comes before an earlier
/// one, is that arrangement.
pub proof fn lemma_ascending_is_unique(m: Multiset<RankKey>, r: Seq<RankKey>)
    requires
        r.to_multiset() == m,
        forall|a: int, b: int| 0 <= a <= b < r.len() ==> !precedes(r[b], r[a]),
    ensures
        r == ascending(m),
    decreases r.len(),
{
    broadcast use group_multiset_axioms;

    r.to_multiset_ensures();
    if r.len() == 0 {
        assert(r =~= ascending(m));
    } else {
        assert(r.contains(r[0]));
        assert forall|y: RankKey| m.count(y) > 0 implies !precedes(y, r[0]) by {
            assert(r.contains(y));
            let k = choose|k: int| 0 <= k < r.len() && r[k] == y;
            assert(!precedes(r[k], r[0]));
        }
        lemma_least_unique(m, r[0]);
        let tail = r.drop_first();
        assert(tail =~= r.remove(0));
        vstd::seq_lib::to_multiset_remove(r, 0);
        assert forall|a: int, b: int| 0 <= a <= b < tail.len() implies !precedes(
            tail[b],
            tail[a],
        ) by {
            assert(tail[a] == r[a + 1]);
            assert(tail[b] == r[b + 1]);
        }
        lemma_ascending_is_unique(m.remove(r[0]), tail);
        assert(r =~= seq![r[0]] + tail);
    }
}

} // verus!
