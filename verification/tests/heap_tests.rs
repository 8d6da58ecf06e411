use top_matches::heap::CandidateHeap;
use top_matches::rank::RankKey;
use top_matches::select::{rank_candidates, select_top, top_matches, zero_count};

fn key(distance: usize, index: usize) -> RankKey {
    RankKey { distance, index }
}

#[test]
fn key_order_is_distance_then_index() {
    assert!(key(1, 9).comes_before(&key(2, 0)));
    assert!(!key(2, 0).comes_before(&key(1, 9)));
    assert!(key(3, 1).comes_before(&key(3, 2)));
    assert!(!key(3, 2).comes_before(&key(3, 1)));
    assert!(!key(3, 2).comes_before(&key(3, 2)));
}

#[test]
fn empty_heap_pops_nothing() {
    let mut heap = CandidateHeap::new();
    assert_eq!(heap.len(), 0);
    assert_eq!(heap.pop(), None);
    assert_eq!(heap.len(), 0);
}

#[test]
fn heap_pops_in_ranking_order() {
    let mut heap = CandidateHeap::new();
    let keys = [key(5, 0), key(1, 1), key(4, 2), key(1, 3), key(0, 4), key(9, 5), key(4, 6)];
    for k in keys {
        heap.push(k);
    }
    assert_eq!(heap.len(), 7);
    let mut out = Vec::new();
    while let Some(k) = heap.pop() {
        out.push(k);
    }
    assert_eq!(
        out,
        vec![key(0, 4), key(1, 1), key(1, 3), key(4, 2), key(4, 6), key(5, 0), key(9, 5)]
    );
    assert_eq!(heap.len(), 0);
}

#[test]
fn heap_keeps_equal_keys() {
    let mut heap = CandidateHeap::new();
    heap.push(key(2, 2));
    heap.push(key(2, 2));
    heap.push(key(1, 7));
    assert_eq!(heap.pop(), Some(key(1, 7)));
    assert_eq!(heap.pop(), Some(key(2, 2)));
    assert_eq!(heap.pop(), Some(key(2, 2)));
    assert_eq!(heap.pop(), None);
}

#[test]
fn heap_sorts_many_keys() {
    let mut heap = CandidateHeap::new();
    let mut expected = Vec::new();
    let mut x: usize = 12345;
    for i in 0..500usize {
        x = (x * 1103515245 + 12345) % 2147483648;
        let d = x % 17;
        heap.push(key(d, i));
        expected.push((d, i));
    }
    expected.sort();
    for (d, i) in expected {
        assert_eq!(heap.pop(), Some(key(d, i)));
    }
    assert_eq!(heap.pop(), None);
}

#[test]
fn ranking_holds_every_entry() {
    let dists = vec![3, 0, 2, 0, 7];
    let mut heap = rank_candidates(&dists);
    assert_eq!(heap.len(), 5);
    let all = select_top(&mut heap, 5);
    assert_eq!(all, vec![key(0, 1), key(0, 3), key(2, 2), key(3, 0), key(7, 4)]);
    assert_eq!(heap.len(), 0);
}

#[test]
fn select_top_leaves_the_rest() {
    let dists = vec![3, 0, 2, 0, 7];
    let mut heap = rank_candidates(&dists);
    let first = select_top(&mut heap, 2);
    assert_eq!(first, vec![key(0, 1), key(0, 3)]);
    assert_eq!(heap.len(), 3);
    let rest = select_top(&mut heap, 10);
    assert_eq!(rest, vec![key(2, 2), key(3, 0), key(7, 4)]);
}

#[test]
fn top_matches_truncates_to_limit() {
    let dists = vec![5, 0, 3, 0];
    assert_eq!(top_matches(&dists, 2), vec![key(0, 1), key(0, 3)]);
    assert_eq!(top_matches(&dists, 3), vec![key(0, 1), key(0, 3), key(3, 2)]);
}

#[test]
fn top_matches_with_limit_zero_is_empty() {
    assert_eq!(top_matches(&vec![5, 0, 3, 0], 0), vec![]);
}

#[test]
fn top_matches_with_limit_over_corpus_gives_all() {
    let dists = vec![5, 0, 3, 0];
    let expected = vec![key(0, 1), key(0, 3), key(3, 2), key(5, 0)];
    assert_eq!(top_matches(&dists, 4), expected);
    assert_eq!(top_matches(&dists, 5), expected);
    assert_eq!(top_matches(&dists, usize::MAX), expected);
}

#[test]
fn top_matches_of_empty_corpus_is_empty() {
    assert_eq!(top_matches(&vec![], 3), vec![]);
}

#[test]
fn ties_stand_in_corpus_order() {
    let dists = vec![1, 1, 1, 1, 1, 1];
    let top = top_matches(&dists, 6);
    let indices: Vec<usize> = top.iter().map(|k| k.index).collect();
    assert_eq!(indices, vec![0, 1, 2, 3, 4, 5]);
}

#[test]
fn top_distances_never_decrease_and_start_at_minimum() {
    let dists = vec![9, 4, 7, 4, 12, 1, 8, 1, 3];
    let top = top_matches(&dists, 7);
    assert_eq!(top.len(), 7);
    for w in top.windows(2) {
        assert!(w[0].distance <= w[1].distance);
    }
    assert_eq!(top[0].distance, *dists.iter().min().unwrap());
    for k in &top {
        assert_eq!(k.distance, dists[k.index]);
    }
}

#[test]
fn zero_count_covers_the_whole_corpus() {
    assert_eq!(zero_count(&vec![]), 0);
    assert_eq!(zero_count(&vec![1, 2, 3]), 0);
    assert_eq!(zero_count(&vec![0, 2, 0, 0, 5]), 3);
    assert_eq!(zero_count(&vec![0]), 1);
}
