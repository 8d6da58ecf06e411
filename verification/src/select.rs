//! Ranking one query's distances and keeping the best entries: the full
//! ranking of a corpus, its first `limit` keys, and the tally of exact
//! matches over the whole corpus.

use vstd::prelude::*;
use vstd::multiset::*;
use vstd::seq_lib::*;
use crate::rank::{
    RankKey,
    precedes,
    least,
    ascending,
    lemma_ascending_is_permutation,
    lemma_ascending_is_sorted,
    lemma_ascending_is_unique,
};
use crate::heap::CandidateHeap;

verus! {

/// The rank key of corpus entry `i`, given the distance of every entry.
pub open spec fn key_at(dists: Seq<usize>, i: int) -> RankKey {
    RankKey { distance: dists[i], index: i as usize }
}

/// The rank keys of all corpus entries, in corpus order.
pub open spec fn keys_of(dists: Seq<usize>) -> Seq<RankKey> {
    Seq::new(dists.len(), |i: int| key_at(dists, i))
}

/// The ranked list: every corpus entry's key, by ascending distance and,
/// among equal distances, by ascending corpus position.
pub open spec fn ranked(dists: Seq<usize>) -> Seq<RankKey> {
    ascending(keys_of(dists).to_multiset())
}

/// How many entries are kept: the limit, or the whole corpus if it is
/// smaller.
pub open spec fn kept(total: nat, limit: nat) -> nat {
    if limit < total {
        limit
    } else {
        total
    }
}

/// The first `limit` keys of the ranked list, or all of them if there are
/// fewer.
pub open spec fn top_keys(dists: Seq<usize>, limit: nat) -> Seq<RankKey> {
    ranked(dists).take(kept(dists.len(), limit) as int)
}

/// The number of entries whose distance is exactly zero: how often zero
/// occurs among the distances.
pub open spec fn count_zero(dists: Seq<usize>) -> nat {
    dists.to_multiset().count(0usize)
}

/// The positions of the entries whose distance is exactly zero.
pub open spec fn exact_matches(dists: Seq<usize>) -> Set<int> {
    Set::new(|i: int| 0 <= i < dists.len() && dists[i] == 0)
}

/// Builds the heap of a query's rank keys, one per corpus entry.
pub fn rank_candidates(dists: &Vec<usize>) -> (heap: CandidateHeap)
    ensures
        heap.wf(),
        heap@ == keys_of(dists@).to_multiset(),
{
    let mut heap = CandidateHeap::new();
    let ghost keys = keys_of(dists@);
    proof {
        keys.take(0).to_multiset_ensures();
        lemma_multiset_empty_len(keys.take(0).to_multiset());
    }
    let mut i: usize = 0;
    while i < dists.len()
        invariant
            i <= dists.len(),
            keys == keys_of(dists@),
            heap.wf(),
            heap@ == keys.take(i as int).to_multiset(),
        decreases dists.len() - i,
    {
        heap.push(RankKey { distance: dists[i], index: i });
        proof {
            assert(keys.take(i + 1) =~= keys.take(i as int).push(keys[i as int]));
            to_multiset_build(keys.take(i as int), keys[i as int]);
        }
        i += 1;
    }
    proof {
        assert(keys.take(dists.len() as int) =~= keys);
    }
    heap
}

/// Takes the first `limit` keys in ranking order out of the heap, or all
/// of them if it holds fewer. What stays is the rest of the ranking.
pub fn select_top(heap: &mut CandidateHeap, limit: usize) -> (top: Vec<RankKey>)
    requires
        old(heap).wf(),
    ensures
        final(heap).wf(),
        top@ == ascending(old(heap)@).take(kept(old(heap)@.len(), limit as nat) as int),
        ascending(final(heap)@) == ascending(old(heap)@).skip(top.len() as int),
{
    let total: usize = heap.len();
    let want: usize = if limit < total {
        limit
    } else {
        total
    };
    let ghost all = ascending(old(heap)@);
    proof {
        lemma_ascending_is_permutation(old(heap)@);
        assert(all.skip(0) =~= all);
        assert(all.take(0) =~= Seq::<RankKey>::empty());
    }
    let mut top: Vec<RankKey> = Vec::new();
    while top.len() < want
        invariant
            heap.wf(),
            top.len() <= want <= total,
            all.len() == total,
            heap@.len() == total - top.len(),
            top@ == all.take(top.len() as int),
            ascending(heap@) == all.skip(top.len() as int),
        decreases want - top.len(),
    {
        let ghost before = heap@;
        let ghost done = top@.len() as int;
        let next = heap.pop();
        if let Some(key) = next {
            top.push(key);
        }
        proof {
            assert(ascending(before) == seq![least(before)] + ascending(heap@));
            assert(all[done] == all.skip(done)[0]);
            assert(all.take(done + 1) =~= all.take(done).push(all[done]));
            assert(all.skip(done + 1) =~= all.skip(done).skip(1));
            assert(ascending(heap@) =~= ascending(before).skip(1));
            lemma_ascending_is_permutation(heap@);
        }
    }
    top
}

/// The first `limit` keys of the ranked list for the given distances, or
/// all of them if the corpus is smaller.
pub fn top_matches(dists: &Vec<usize>, limit: usize) -> (top: Vec<RankKey>)
    ensures
        top@ == top_keys(dists@, limit as nat),
{
    let mut heap = rank_candidates(dists);
    proof {
        keys_of(dists@).to_multiset_ensures();
    }
    select_top(&mut heap, limit)
}

/// Counts the entries at distance zero, over the whole corpus.
pub fn zero_count(dists: &Vec<usize>) -> (z: usize)
    ensures
        z == count_zero(dists@),
{
    let mut z: usize = 0;
    let mut i: usize = 0;
    proof {
        broadcast use group_multiset_axioms;

        dists@.take(0).to_multiset_ensures();
        lemma_multiset_empty_len(dists@.take(0).to_multiset());
    }
    while i < dists.len()
        invariant
            i <= dists.len(),
            z <= i,
            z == count_zero(dists@.take(i as int)),
        decreases dists.len() - i,
    {
        proof {
            broadcast use group_multiset_axioms;

            assert(dists@.take(i + 1) =~= dists@.take(i as int).push(dists@[i as int]));
            to_multiset_build(dists@.take(i as int), dists@[i as int]);
        }
        if dists[i] == 0 {
            z += 1;
        }
        i += 1;
    }
    proof {
        assert(dists@.take(dists.len() as int) =~= dists@);
    }
    z
}

/// The tally of exact matches is the number of corpus entries at
/// distance zero, wherever in the corpus they stand.
pub proof fn lemma_count_zero_counts_entries(dists: Seq<usize>)
    ensures
        exact_matches(dists).finite(),
        count_zero(dists) == exact_matches(dists).len(),
    decreases dists.len(),
{
    broadcast use {group_multiset_axioms, vstd::set::group_set_axioms};

    if dists.len() == 0 {
        dists.to_multiset_ensures();
        lemma_multiset_empty_len(dists.to_multiset());
        assert(exact_matches(dists) =~= Set::<int>::empty());
    } else {
        let init = dists.drop_last();
        let last_at = dists.len() - 1;
        lemma_count_zero_counts_entries(init);
        assert(dists =~= init.push(dists.last()));
        to_multiset_build(init, dists.last());
        if dists.last() == 0 {
            assert(exact_matches(dists) =~= exact_matches(init).insert(last_at));
            assert(!exact_matches(init).contains(last_at));
        } else {
            assert(exact_matches(dists) =~= exact_matches(init));
        }
    }
}

/// A key is among the keys of a corpus exactly if it is the key of one of
/// its entries; no two entries share a key.
pub proof fn lemma_keys_of_members(dists: Seq<usize>)
    requires
        dists.len() <= usize::MAX,
    ensures
        keys_of(dists).no_duplicates(),
        forall|k: RankKey|
            keys_of(dists).to_multiset().count(k) > 0 <==> (k.index < dists.len() && k == key_at(
                dists,
                k.index as int,
            )),
        forall|k: RankKey| keys_of(dists).to_multiset().count(k) <= 1,
{
    let keys = keys_of(dists);
    keys.to_multiset_ensures();
    assert(keys.no_duplicates());
    keys.lemma_multiset_has_no_duplicates();
    assert forall|k: RankKey| keys.to_multiset().count(k) > 0 <==> (k.index < dists.len() && k
        == key_at(dists, k.index as int)) by {
        if keys.to_multiset().count(k) > 0 {
            assert(keys.contains(k));
        }
        if k.index < dists.len() && k == key_at(dists, k.index as int) {
            assert(keys[k.index as int] == k);
            assert(keys.contains(k));
        }
    }
}

/// The ranked list holds every corpus entry exactly once, each with its
/// own distance.
pub proof fn lemma_ranked_is_permutation(dists: Seq<usize>)
    requires
        dists.len() <= usize::MAX,
    ensures
        ranked(dists).len() == dists.len(),
        ranked(dists).to_multiset() == keys_of(dists).to_multiset(),
        ranked(dists).no_duplicates(),
        forall|k: int|
            0 <= k < dists.len() ==> (#[trigger] ranked(dists)[k]).index < dists.len() && ranked(
                dists,
            )[k].distance == dists[ranked(dists)[k].index as int],
        forall|i: int| 0 <= i < dists.len() ==> ranked(dists).contains(#[trigger] key_at(dists, i)),
{
    let keys = keys_of(dists);
    let m = keys.to_multiset();
    let r = ranked(dists);
    keys.to_multiset_ensures();
    r.to_multiset_ensures();
    lemma_ascending_is_permutation(m);
    lemma_keys_of_members(dists);
    r.lemma_multiset_has_no_duplicates_conv();
    assert forall|k: int| 0 <= k < dists.len() implies (#[trigger] r[k]).index < dists.len()
        && r[k].distance == dists[r[k].index as int] by {
        assert(r.contains(r[k]));
        assert(m.count(r[k]) > 0);
    }
    assert forall|i: int| 0 <= i < dists.len() implies r.contains(#[trigger] key_at(dists, i)) by {
        let key = key_at(dists, i);
        assert(keys[i] == key);
        assert(keys.contains(key));
        assert(m.count(key) > 0);
        assert(r.to_multiset().count(key) > 0);
        assert(r.contains(key));
    }
}

/// Along the ranked list every key comes strictly before the later ones:
/// distances never decrease, and equal distances stand in corpus order.
/// The first key has the least distance of the whole corpus.
pub proof fn lemma_ranked_is_sorted(dists: Seq<usize>)
    requires
        dists.len() <= usize::MAX,
    ensures
        forall|a: int, b: int|
            0 <= a < b < dists.len() ==> precedes(ranked(dists)[a], ranked(dists)[b]),
        forall|a: int, b: int|
            0 <= a <= b < dists.len() ==> ranked(dists)[a].distance <= ranked(dists)[b].distance,
        forall|i: int| 0 <= i < dists.len() ==> ranked(dists)[0].distance <= dists[i],
{
    let m = keys_of(dists).to_multiset();
    let r = ranked(dists);
    lemma_ranked_is_permutation(dists);
    lemma_ascending_is_sorted(m);
    assert forall|a: int, b: int| 0 <= a < b < dists.len() implies precedes(r[a], r[b]) by {
        assert(!precedes(r[b], r[a]));
        assert(r[a] != r[b]);
    }
    assert forall|a: int, b: int| 0 <= a <= b < dists.len() implies r[a].distance
        <= r[b].distance by {
        if a < b {
            assert(precedes(r[a], r[b]));
        }
    }
    assert forall|i: int| 0 <= i < dists.len() implies r[0].distance <= dists[i] by {
        assert(r.contains(key_at(dists, i)));
        let k = choose|k: int| 0 <= k < r.len() && r[k] == key_at(dists, i);
        assert(!precedes(r[k], r[0]));
    }
}

/// The ranking is determined by the distances alone: any arrangement of
/// the corpus keys in which no later key comes before an earlier one is
/// the ranked list.
pub proof fn lemma_ranking_is_unique(dists: Seq<usize>, r: Seq<RankKey>)
    requires
        r.to_multiset() == keys_of(dists).to_multiset(),
        forall|a: int, b: int| 0 <= a <= b < r.len() ==> !precedes(r[b], r[a]),
    ensures
        r == ranked(dists),
{
    lemma_ascending_is_unique(keys_of(dists).to_multiset(), r);
}

/// Exactly as many keys are kept as the limit allows and the corpus
/// holds, and they are the start of the ranked list.
pub proof fn lemma_top_keys_prefix(dists: Seq<usize>, limit: nat)
    requires
        dists.len() <= usize::MAX,
    ensures
        top_keys(dists, limit).len() == kept(dists.len(), limit),
        limit == 0 ==> top_keys(dists, limit).len() == 0,
        limit >= dists.len() ==> top_keys(dists, limit) == ranked(dists),
        forall|k: int|
            0 <= k < top_keys(dists, limit).len() ==> top_keys(dists, limit)[k] == ranked(
                dists,
            )[k],
{
    lemma_ranked_is_permutation(dists);
    if limit >= dists.len() {
        assert(ranked(dists).take(dists.len() as int) =~= ranked(dists));
    }
}

} // verus!
