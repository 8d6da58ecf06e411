//! The matching engine: one result line per query, each written to the
//! slot of the result buffer that belongs to its query.

use vstd::prelude::*;
use vstd::string::*;
use crate::config::MatchConfig;
use crate::metric::{Metric, metric_distance};
use crate::rank::RankKey;
use crate::select::{
    top_keys,
    top_matches,
    count_zero,
    zero_count,
    kept,
    ranked,
    exact_matches,
    lemma_count_zero_counts_entries,
    lemma_ranked_is_permutation,
    lemma_ranked_is_sorted,
    lemma_top_keys_prefix,
};
use crate::format::{
    Candidate,
    candidate_views,
    decimal,
    line_head,
    line_text,
    pairs_text,
    zero_note,
    format_result_line,
};

verus! {

/// The strings of a corpus or a query set as characters.
pub open spec fn texts(strings: Seq<String>) -> Seq<Seq<char>> {
    Seq::new(strings.len(), |i: int| strings[i]@)
}

/// The distance from the query to every corpus entry, in corpus order.
pub open spec fn distances(alg: Metric, query: Seq<char>, corpus: Seq<Seq<char>>) -> Seq<usize> {
    Seq::new(corpus.len(), |i: int| metric_distance(alg, query, corpus[i]))
}

/// The candidates that a list of rank keys stands for: each key's
/// distance with the text of the corpus entry it points to.
pub open spec fn candidates_of(keys: Seq<RankKey>, corpus: Seq<Seq<char>>) -> Seq<
    (nat, Seq<char>),
> {
    Seq::new(keys.len(), |k: int| (keys[k].distance as nat, corpus[keys[k].index as int]))
}

/// The candidates retained for a query, given its distance to every
/// corpus entry: the first `limit` of the ranked list.
pub open spec fn retained(dists: Seq<usize>, corpus: Seq<Seq<char>>, limit: nat) -> Seq<
    (nat, Seq<char>),
> {
    candidates_of(top_keys(dists, limit), corpus)
}

/// The result line of a query, given its distance to every corpus entry.
pub open spec fn result_line(
    query: Seq<char>,
    corpus: Seq<Seq<char>>,
    dists: Seq<usize>,
    limit: nat,
    del: Seq<char>,
) -> Seq<char> {
    line_text(query, corpus.len(), retained(dists, corpus, limit), count_zero(dists), del)
}

/// The result line of a query under a metric.
pub open spec fn line_of(
    alg: Metric,
    query: Seq<char>,
    corpus: Seq<Seq<char>>,
    limit: nat,
    del: Seq<char>,
) -> Seq<char> {
    result_line(query, corpus, distances(alg, query, corpus), limit, del)
}

/// Measures the distance from the query to every entry of the corpus.
pub fn measure(alg: Metric, search_str: &str, ref_vec: &Vec<String>) -> (dists: Vec<usize>)
    ensures
        dists@ == distances(alg, search_str@, texts(ref_vec@)),
        forall|i: int|
            0 <= i < ref_vec.len() && ref_vec@[i]@ == search_str@ ==> #[trigger] dists@[i] == 0,
{
    let mut dists: Vec<usize> = Vec::new();
    let mut i: usize = 0;
    while i < ref_vec.len()
        invariant
            i <= ref_vec.len(),
            dists.len() == i,
            forall|j: int|
                0 <= j < i ==> #[trigger] dists@[j] == metric_distance(
                    alg,
                    search_str@,
                    ref_vec@[j]@,
                ),
            forall|j: int| 0 <= j < i && ref_vec@[j]@ == search_str@ ==> #[trigger] dists@[j] == 0,
        decreases ref_vec.len() - i,
    {
        let d = alg.distance(search_str, ref_vec[i].as_str());
        dists.push(d);
        i += 1;
    }
    proof {
        assert(dists@ =~= distances(alg, search_str@, texts(ref_vec@)));
    }
    dists
}

/// Pairs each key's distance with a copy of the corpus text it points to.
fn with_texts(keys: &Vec<RankKey>, ref_vec: &Vec<String>) -> (top: Vec<Candidate>)
    requires
        forall|k: int| 0 <= k < keys.len() ==> (#[trigger] keys@[k]).index < ref_vec.len(),
    ensures
        candidate_views(top@) == candidates_of(keys@, texts(ref_vec@)),
{
    let mut top: Vec<Candidate> = Vec::new();
    let mut k: usize = 0;
    while k < keys.len()
        invariant
            k <= keys.len(),
            top.len() == k,
            forall|j: int| 0 <= j < keys.len() ==> (#[trigger] keys@[j]).index < ref_vec.len(),
            forall|j: int|
                0 <= j < k ==> (#[trigger] top@[j])@ == (
                    keys@[j].distance as nat,
                    ref_vec@[keys@[j].index as int]@,
                ),
        decreases keys.len() - k,
    {
        let key = keys[k];
        let text = ref_vec[key.index].clone();
        top.push(Candidate { distance: key.distance, text });
        k += 1;
    }
    proof {
        assert(candidate_views(top@) =~= candidates_of(keys@, texts(ref_vec@)));
    }
    top
}

/// Writes the result line of a query whose distance to every corpus entry
/// is given: ranks the entries, keeps the first `limit`, counts the exact
/// matches over the whole corpus, and formats the line.
pub fn line_for_distances(
    search_str: &str,
    ref_vec: &Vec<String>,
    dists: &Vec<usize>,
    limit: usize,
    del: &str,
) -> (line: String)
    requires
        dists.len() == ref_vec.len(),
    ensures
        line@ == result_line(search_str@, texts(ref_vec@), dists@, limit as nat, del@),
{
    let keys = top_matches(dists, limit);
    let zeros = zero_count(dists);
    proof {
        lemma_ranked_is_permutation(dists@);
        lemma_top_keys_prefix(dists@, limit as nat);
    }
    let top = with_texts(&keys, ref_vec);
    format_result_line(search_str, ref_vec.len(), &top, zeros, del)
}

/// Computes the result line of one query against the corpus.
pub fn search_line(
    alg: Metric,
    search_str: &str,
    ref_vec: &Vec<String>,
    limit: usize,
    del: &str,
) -> (line: String)
    ensures
        line@ == line_of(alg, search_str@, texts(ref_vec@), limit as nat, del@),
{
    let dists = measure(alg, search_str, ref_vec);
    line_for_distances(search_str, ref_vec, &dists, limit, del)
}

/// Writes a finished line to its slot of the result buffer. No other slot
/// changes.
pub fn write_slot(results: &mut Vec<String>, result_idx: usize, line: String)
    requires
        result_idx < old(results).len(),
    ensures
        final(results).len() == old(results).len(),
        final(results)@[result_idx as int] == line,
        forall|i: int|
            0 <= i < old(results).len() && i != result_idx ==> final(results)@[i] == old(
                results,
            )@[i],
{
    results.set(result_idx, line);
}

/// Runs one query and writes its result line to its slot of the result
/// buffer. No other slot changes.
pub fn search(
    alg: Metric,
    result_idx: usize,
    results: &mut Vec<String>,
    search_str: &str,
    ref_vec: &Vec<String>,
    limit: usize,
    del: &str,
)
    requires
        result_idx < old(results).len(),
    ensures
        final(results).len() == old(results).len(),
        final(results)@[result_idx as int]@ == line_of(
            alg,
            search_str@,
            texts(ref_vec@),
            limit as nat,
            del@,
        ),
        forall|i: int|
            0 <= i < old(results).len() && i != result_idx ==> final(results)@[i] == old(
                results,
            )@[i],
{
    let line = search_line(alg, search_str, ref_vec, limit, del);
    write_slot(results, result_idx, line);
}

/// A result buffer of `n` slots, each still empty.
pub fn empty_results(n: usize) -> (results: Vec<String>)
    ensures
        results.len() == n,
        forall|i: int| 0 <= i < n ==> (#[trigger] results@[i])@ == Seq::<char>::empty(),
{
    let mut results: Vec<String> = Vec::new();
    while results.len() < n
        invariant
            results.len() <= n,
            forall|i: int|
                0 <= i < results.len() ==> (#[trigger] results@[i])@ == Seq::<char>::empty(),
        decreases n - results.len(),
    {
        results.push(String::new());
    }
    results
}

/// Runs every query against the corpus, one after the other. The buffer
/// has one line per query, in the order of the queries.
pub fn match_all(cfg: &MatchConfig, search_vec: &Vec<String>, ref_vec: &Vec<String>) -> (results:
    Vec<String>)
    ensures
        results.len() == search_vec.len(),
        forall|i: int|
            0 <= i < search_vec.len() ==> (#[trigger] results@[i])@ == line_of(
                cfg.alg,
                search_vec@[i]@,
                texts(ref_vec@),
                cfg.limit as nat,
                cfg.delimiter@,
            ),
{
    let mut results = empty_results(search_vec.len());
    let mut i: usize = 0;
    while i < search_vec.len()
        invariant
            i <= search_vec.len(),
            results.len() == search_vec.len(),
            forall|j: int|
                0 <= j < i ==> (#[trigger] results@[j])@ == line_of(
                    cfg.alg,
                    search_vec@[j]@,
                    texts(ref_vec@),
                    cfg.limit as nat,
                    cfg.delimiter@,
                ),
        decreases search_vec.len() - i,
    {
        search(
            cfg.alg,
            i,
            &mut results,
            search_vec[i].as_str(),
            ref_vec,
            cfg.limit,
            cfg.delimiter.as_str(),
        );
        i += 1;
    }
    results
}

/// Every result line opens with the query and the size of the whole
/// corpus, each followed by the delimiter, whatever the limit.
pub proof fn lemma_line_reports_corpus_size(
    query: Seq<char>,
    corpus: Seq<Seq<char>>,
    dists: Seq<usize>,
    limit: nat,
    del: Seq<char>,
)
    ensures
        line_head(query, corpus.len(), del).is_prefix_of(
            result_line(query, corpus, dists, limit, del),
        ),
        line_head(query, corpus.len(), del) == query + del + decimal(corpus.len()) + del,
{
    let head = line_head(query, corpus.len(), del);
    let line = result_line(query, corpus, dists, limit, del);
    assert(line.subrange(0, head.len() as int) =~= head);
}

/// With a limit of zero the line holds the query, the corpus size and the
/// note on exact matches, and no candidate.
pub proof fn lemma_limit_zero_keeps_nothing(
    query: Seq<char>,
    corpus: Seq<Seq<char>>,
    dists: Seq<usize>,
    del: Seq<char>,
)
    ensures
        retained(dists, corpus, 0).len() == 0,
        result_line(query, corpus, dists, 0, del) == line_head(query, corpus.len(), del)
            + zero_note(count_zero(dists), del),
{
    assert(pairs_text(retained(dists, corpus, 0), del) =~= Seq::<char>::empty());
    assert(result_line(query, corpus, dists, 0, del) =~= line_head(query, corpus.len(), del)
        + zero_note(count_zero(dists), del));
}

/// Exactly as many candidates are retained as the limit allows and the
/// corpus holds. A limit of the corpus size or more retains the whole
/// ranked list, once each entry, with nothing added.
pub proof fn lemma_retained_count(dists: Seq<usize>, corpus: Seq<Seq<char>>, limit: nat)
    requires
        dists.len() == corpus.len(),
        dists.len() <= usize::MAX,
    ensures
        retained(dists, corpus, limit).len() == kept(corpus.len(), limit),
        limit >= corpus.len() ==> retained(dists, corpus, limit) == candidates_of(
            ranked(dists),
            corpus,
        ),
        limit >= corpus.len() ==> retained(dists, corpus, limit).len() == corpus.len(),
{
    lemma_top_keys_prefix(dists, limit);
}

/// Each retained candidate is a corpus entry with its own distance, the
/// distances never decrease along the list, and the first one is the
/// least distance of the whole corpus.
pub proof fn lemma_retained_ascends(dists: Seq<usize>, corpus: Seq<Seq<char>>, limit: nat)
    requires
        dists.len() == corpus.len(),
        dists.len() <= usize::MAX,
    ensures
        forall|k: int|
            0 <= k < retained(dists, corpus, limit).len() ==> {
                let i = (#[trigger] top_keys(dists, limit)[k]).index as int;
                &&& 0 <= i < corpus.len()
                &&& retained(dists, corpus, limit)[k] == (dists[i] as nat, corpus[i])
            },
        forall|a: int, b: int|
            0 <= a <= b < retained(dists, corpus, limit).len() ==> retained(
                dists,
                corpus,
                limit,
            )[a].0 <= retained(dists, corpus, limit)[b].0,
        forall|i: int|
            0 <= i < corpus.len() && retained(dists, corpus, limit).len() > 0 ==> retained(
                dists,
                corpus,
                limit,
            )[0].0 <= dists[i],
{
    lemma_top_keys_prefix(dists, limit);
    lemma_ranked_is_permutation(dists);
    lemma_ranked_is_sorted(dists);
    let top = top_keys(dists, limit);
    let kept_list = retained(dists, corpus, limit);
    assert forall|k: int| 0 <= k < kept_list.len() implies {
        let i = (#[trigger] top[k]).index as int;
        &&& 0 <= i < corpus.len()
        &&& kept_list[k] == (dists[i] as nat, corpus[i])
    } by {
        assert(top[k] == ranked(dists)[k]);
    }
    assert forall|a: int, b: int| 0 <= a <= b < kept_list.len() implies kept_list[a].0
        <= kept_list[b].0 by {
        assert(top[a] == ranked(dists)[a]);
        assert(top[b] == ranked(dists)[b]);
    }
    assert forall|i: int| 0 <= i < corpus.len() && kept_list.len() > 0 implies kept_list[0].0
        <= dists[i] by {
        assert(top[0] == ranked(dists)[0]);
    }
}

/// The note at the end of a line reports how many corpus entries are at
/// distance zero from the query. It covers the whole corpus: the limit
/// has no part in it, and it can exceed the number of candidates shown.
pub proof fn lemma_line_counts_all_exact_matches(
    alg: Metric,
    query: Seq<char>,
    corpus: Seq<Seq<char>>,
    limit: nat,
    del: Seq<char>,
)
    ensures
        line_of(alg, query, corpus, limit, del) == line_head(query, corpus.len(), del)
            + pairs_text(retained(distances(alg, query, corpus), corpus, limit), del) + zero_note(
            exact_matches(distances(alg, query, corpus)).len(),
            del,
        ),
        exact_matches(distances(alg, query, corpus)) == Set::new(
            |i: int| 0 <= i < corpus.len() && metric_distance(alg, query, corpus[i]) == 0,
        ),
{
    let dists = distances(alg, query, corpus);
    lemma_count_zero_counts_entries(dists);
    assert(exact_matches(dists) =~= Set::new(
        |i: int| 0 <= i < corpus.len() && metric_distance(alg, query, corpus[i]) == 0,
    ));
}

/// Against an empty corpus the line holds the query and a count of zero,
/// no candidate and no note.
pub proof fn lemma_empty_corpus_line(query: Seq<char>, limit: nat, del: Seq<char>)
    ensures
        result_line(query, Seq::empty(), Seq::empty(), limit, del) == query + del + seq!['0']
            + del,
{
    let corpus = Seq::<Seq<char>>::empty();
    let dists = Seq::<usize>::empty();
    dists.to_multiset_ensures();
    vstd::multiset::lemma_multiset_empty_len(dists.to_multiset());
    assert(count_zero(dists) == 0);
    assert(pairs_text(retained(dists, corpus, limit), del) =~= Seq::<char>::empty());
    assert(decimal(0) =~= seq!['0']);
    assert(result_line(query, corpus, dists, limit, del) =~= query + del + seq!['0'] + del);
}

/// The buffer after the tasks named in `order` have finished one after
/// the other, each writing its own line to its own slot.
pub open spec fn after_writes(
    buffer: Seq<Seq<char>>,
    lines: Seq<Seq<char>>,
    order: Seq<int>,
) -> Seq<Seq<char>>
    decreases order.len(),
{
    if order.len() == 0 {
        buffer
    } else {
        after_writes(buffer, lines, order.drop_last()).update(order.last(), lines[order.last()])
    }
}

/// After the tasks in `order` have finished, a slot holds its line if its
/// task is among them, and what it held before if not.
pub proof fn lemma_writes_touch_own_slot(
    buffer: Seq<Seq<char>>,
    lines: Seq<Seq<char>>,
    order: Seq<int>,
)
    requires
        buffer.len() == lines.len(),
        forall|k: int| 0 <= k < order.len() ==> 0 <= #[trigger] order[k] < lines.len(),
    ensures
        after_writes(buffer, lines, order).len() == buffer.len(),
        forall|i: int|
            0 <= i < buffer.len() ==> #[trigger] after_writes(buffer, lines, order)[i] == if order.contains(
                i,
            ) {
                lines[i]
            } else {
                buffer[i]
            },
    decreases order.len(),
{
    if order.len() > 0 {
        let earlier = order.drop_last();
        lemma_writes_touch_own_slot(buffer, lines, earlier);
        assert forall|i: int| 0 <= i < buffer.len() implies #[trigger] after_writes(
            buffer,
            lines,
            order,
        )[i] == if order.contains(i) {
            lines[i]
        } else {
            buffer[i]
        } by {
            if i == order.last() {
                assert(order[order.len() - 1] == i);
            } else if earlier.contains(i) {
                let k = choose|k: int| 0 <= k < earlier.len() && earlier[k] == i;
                assert(order[k] == i);
            } else if order.contains(i) {
                let k = choose|k: int| 0 <= k < order.len() && order[k] == i;
                assert(earlier[k] == i);
            }
        }
    }
}

/// The order in which the tasks finish does not show in the result: once
/// every query's task has run, in whatever order and however many at a
/// time, the buffer holds exactly the lines, each in its query's slot.
pub proof fn lemma_completion_order_is_irrelevant(
    buffer: Seq<Seq<char>>,
    lines: Seq<Seq<char>>,
    order: Seq<int>,
)
    requires
        buffer.len() == lines.len(),
        forall|k: int| 0 <= k < order.len() ==> 0 <= #[trigger] order[k] < lines.len(),
        forall|i: int| 0 <= i < lines.len() ==> order.contains(i),
    ensures
        after_writes(buffer, lines, order) == lines,
{
    lemma_writes_touch_own_slot(buffer, lines, order);
    assert(after_writes(buffer, lines, order) =~= lines);
}

} // verus!
