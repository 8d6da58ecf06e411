//! A binary min-heap of rank keys: the selection structure behind the
//! ranking. Its least key, in ranking order, is always at the root.

use vstd::prelude::*;
use vstd::multiset::*;
use vstd::seq_lib::*;
use crate::rank::{RankKey, precedes, is_least, least, lemma_least_unique};

verus! {

/// The position above `i` in the implicit binary tree.
pub open spec fn parent(i: int) -> int {
    (i - 1) / 2
}

/// No key comes before the key at its parent position.
pub open spec fn heap_ordered(s: Seq<RankKey>) -> bool {
    forall|i: int| 0 < i < s.len() ==> !precedes(#[trigger] s[i], s[parent(i)])
}

/// The heap order holds everywhere but between `pos` and its parent, and
/// the keys below `pos` do not come before the key above it.
spec fn ordered_but_above(s: Seq<RankKey>, pos: int) -> bool {
    &&& forall|i: int| 0 < i < s.len() && i != pos ==> !precedes(#[trigger] s[i], s[parent(i)])
    &&& forall|i: int|
        0 < i < s.len() && parent(i) == pos && pos > 0 ==> !precedes(
            #[trigger] s[i],
            s[parent(pos)],
        )
}

/// The heap order holds everywhere but between `pos` and the keys below
/// it, and those keys do not come before the key above `pos`.
spec fn ordered_but_below(s: Seq<RankKey>, pos: int) -> bool {
    &&& forall|i: int|
        0 < i < s.len() && parent(i) != pos ==> !precedes(#[trigger] s[i], s[parent(i)])
    &&& forall|i: int|
        0 < i < s.len() && parent(i) == pos && pos > 0 ==> !precedes(
            #[trigger] s[i],
            s[parent(pos)],
        )
}

/// In a heap-ordered sequence no key comes before the root.
proof fn lemma_root_is_least(s: Seq<RankKey>, i: int)
    requires
        heap_ordered(s),
        0 <= i < s.len(),
    ensures
        !precedes(s[i], s[0]),
    decreases i,
{
    if i > 0 {
        lemma_root_is_least(s, parent(i));
    }
}

/// Exchanging two positions keeps the keys and how often each occurs.
proof fn lemma_swap_keeps_keys(s: Seq<RankKey>, i: int, j: int)
    requires
        0 <= i < s.len(),
        0 <= j < s.len(),
    ensures
        s.update(i, s[j]).update(j, s[i]).to_multiset() == s.to_multiset(),
{
    broadcast use group_multiset_axioms;

    let t = s.update(i, s[j]);
    to_multiset_update(s, i, s[j]);
    to_multiset_update(t, j, s[i]);
    s.to_multiset_ensures();
    assert(s.contains(s[i]));
    assert(s.contains(s[j]));
    assert(t.update(j, s[i]).to_multiset() =~= s.to_multiset());
}

/// Exchanges the keys at two positions.
fn swap(items: &mut Vec<RankKey>, i: usize, j: usize)
    requires
        i < old(items).len(),
        j < old(items).len(),
    ensures
        final(items)@ == old(items)@.update(i as int, old(items)@[j as int]).update(
            j as int,
            old(items)@[i as int],
        ),
        final(items)@.to_multiset() == old(items)@.to_multiset(),
{
    let a = items[i];
    let b = items[j];
    items.set(i, b);
    items.set(j, a);
    proof {
        lemma_swap_keeps_keys(old(items)@, i as int, j as int);
    }
}

/// Moves the key at `start` up until the heap order holds again.
fn sift_up(items: &mut Vec<RankKey>, start: usize)
    requires
        start < old(items).len(),
        ordered_but_above(old(items)@, start as int),
    ensures
        heap_ordered(final(items)@),
        final(items)@.to_multiset() == old(items)@.to_multiset(),
{
    let mut pos: usize = start;
    while pos > 0 && items[pos].comes_before(&items[(pos - 1) / 2])
        invariant
            pos < items.len(),
            ordered_but_above(items@, pos as int),
            items@.to_multiset() == old(items)@.to_multiset(),
        decreases pos,
    {
        let up: usize = (pos - 1) / 2;
        swap(items, pos, up);
        pos = up;
    }
}

/// Moves the key at `start` down until the heap order holds again.
fn sift_down(items: &mut Vec<RankKey>, start: usize)
    requires
        start < old(items).len(),
        ordered_but_below(old(items)@, start as int),
    ensures
        heap_ordered(final(items)@),
        final(items)@.to_multiset() == old(items)@.to_multiset(),
{
    let n: usize = items.len();
    let mut pos: usize = start;
    loop
        invariant
            n == items.len(),
            pos < n,
            ordered_but_below(items@, pos as int),
            items@.to_multiset() == old(items)@.to_multiset(),
        ensures
            heap_ordered(items@),
        decreases n - pos,
    {
        if pos >= n / 2 {
            break ;
        }
        let left: usize = 2 * pos + 1;
        let right: usize = left + 1;
        let mut child: usize = left;
        if right < n && items[right].comes_before(&items[left]) {
            child = right;
        }
        if !items[child].comes_before(&items[pos]) {
            break ;
        }
        swap(items, pos, child);
        pos = child;
    }
}

/// A min-heap of rank keys. Its view is the collection of keys it holds.
pub struct CandidateHeap {
    items: Vec<RankKey>,
}

impl View for CandidateHeap {
    type V = Multiset<RankKey>;

    closed spec fn view(&self) -> Multiset<RankKey> {
        self.items@.to_multiset()
    }
}

impl CandidateHeap {
    /// The heap order holds of the stored keys.
    pub closed spec fn wf(&self) -> bool {
        heap_ordered(self.items@)
    }

    /// An empty heap.
    pub fn new() -> (heap: CandidateHeap)
        ensures
            heap.wf(),
            heap@ == Multiset::<RankKey>::empty(),
    {
        let heap = CandidateHeap { items: Vec::new() };
        proof {
            heap.items@.to_multiset_ensures();
            lemma_multiset_empty_len(heap.items@.to_multiset());
        }
        heap
    }

    /// The number of keys held.
    pub fn len(&self) -> (n: usize)
        ensures
            n == self@.len(),
    {
        proof {
            self.items@.to_multiset_ensures();
        }
        self.items.len()
    }

    /// Adds one key.
    pub fn push(&mut self, key: RankKey)
        requires
            old(self).wf(),
        ensures
            final(self).wf(),
            final(self)@ == old(self)@.insert(key),
    {
        let n: usize = self.items.len();
        self.items.push(key);
        proof {
            to_multiset_build(old(self).items@, key);
        }
        sift_up(&mut self.items, n);
    }

    /// Takes out the least key in ranking order, if the heap holds any.
    pub fn pop(&mut self) -> (r: Option<RankKey>)
        requires
            old(self).wf(),
        ensures
            final(self).wf(),
            old(self)@.len() == 0 ==> r is None && final(self)@ == old(self)@,
            old(self)@.len() > 0 ==> r == Some(least(old(self)@)) && final(self)@ == old(
                self,
            )@.remove(least(old(self)@)),
    {
        let n: usize = self.items.len();
        proof {
            old(self).items@.to_multiset_ensures();
        }
        if n == 0 {
            return None;
        }
        let top = self.items[0];
        let last = self.items[n - 1];
        let ghost before = self.items@;
        proof {
            assert forall|y: RankKey| before.to_multiset().count(y) > 0 implies !precedes(
                y,
                top,
            ) by {
                assert(before.contains(y));
                let k = choose|k: int| 0 <= k < before.len() && before[k] == y;
                lemma_root_is_least(before, k);
            }
            assert(before.contains(top));
            assert(is_least(before.to_multiset(), top));
            lemma_least_unique(before.to_multiset(), top);
        }
        self.items.pop();
        if n > 1 {
            self.items.set(0, last);
            proof {
                broadcast use group_multiset_axioms;

                let short = before.drop_last();
                assert(short =~= before.remove(n - 1));
                to_multiset_remove(before, n - 1);
                to_multiset_update(short, 0, last);
                short.to_multiset_ensures();
                assert(short.contains(top));
                assert(before.contains(last));
                assert(self.items@.to_multiset() =~= before.to_multiset().remove(top));
            }
            sift_down(&mut self.items, 0);
        } else {
            proof {
                broadcast use group_multiset_axioms;

                assert(self.items@ =~= before.remove(0));
                to_multiset_remove(before, 0);
            }
        }
        Some(top)
    }
}

} // verus!
