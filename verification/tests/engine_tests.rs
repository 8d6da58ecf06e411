use top_matches::engine::{
    empty_results, line_for_distances, match_all, measure, search, search_line, write_slot,
};
use top_matches::config::MatchConfig;
use top_matches::metric::Metric;

fn config(alg: Metric, limit: usize, delimiter: &str) -> MatchConfig {
    MatchConfig { alg, limit, delimiter: delimiter.to_string() }
}

fn strings(items: &[&str]) -> Vec<String> {
    items.iter().map(|s| s.to_string()).collect()
}

#[test]
fn measure_gives_one_distance_per_entry() {
    let corpus = strings(&["kitten", "sitting", "", "kitten"]);
    assert_eq!(measure(Metric::Levenshtein, "kitten", &corpus), vec![0, 3, 6, 0]);
    assert_eq!(measure(Metric::Levenshtein, "kitten", &vec![]), vec![]);
}

#[test]
fn measure_uses_the_chosen_metric() {
    let corpus = strings(&["bca"]);
    assert_eq!(measure(Metric::Levenshtein, "ab", &corpus), vec![3]);
    assert_eq!(measure(Metric::OsaDistance, "ab", &corpus), vec![3]);
    assert_eq!(measure(Metric::DamerauLevenshtein, "ab", &corpus), vec![2]);
}

#[test]
fn line_for_given_distances() {
    let corpus = strings(&["one", "two", "three", "four"]);
    let line = line_for_distances("q", &corpus, &vec![7, 2, 9, 2], 3, ",");
    assert_eq!(line, "q,4,2,two,2,four,7,one,");
}

#[test]
fn exact_matches_are_counted_beyond_the_limit() {
    let corpus = strings(&["abc", "abc", "xyz"]);
    let line = search_line(Metric::DamerauLevenshtein, "abc", &corpus, 1, ",");
    assert_eq!(line, "abc,3,0,abc,,, 2 COUNT OF ZERO results");
}

#[test]
fn limit_zero_gives_query_and_count_only() {
    let corpus = strings(&["abd", "xyz"]);
    assert_eq!(search_line(Metric::Levenshtein, "abc", &corpus, 0, ","), "abc,2,");
    let with_exact = strings(&["abc", "xyz"]);
    assert_eq!(
        search_line(Metric::Levenshtein, "abc", &with_exact, 0, ","),
        "abc,2,,, 1 COUNT OF ZERO results"
    );
}

#[test]
fn limit_over_corpus_size_gives_every_entry_once() {
    let corpus = strings(&["abd", "xyz", "abcd"]);
    let line = search_line(Metric::Levenshtein, "abc", &corpus, 10, ",");
    assert_eq!(line, "abc,3,1,abd,1,abcd,3,xyz,");
}

#[test]
fn empty_corpus_gives_count_zero_and_no_candidates() {
    for m in [Metric::DamerauLevenshtein, Metric::OsaDistance, Metric::Levenshtein] {
        assert_eq!(search_line(m, "abc", &vec![], 3, ","), "abc,0,");
    }
}

#[test]
fn empty_query_set_gives_empty_buffer() {
    let corpus = strings(&["abc"]);
    assert_eq!(match_all(&config(Metric::Levenshtein, 3, ","), &vec![], &corpus), Vec::<String>::new());
    assert_eq!(empty_results(0), Vec::<String>::new());
}

#[test]
fn empty_results_are_placeholders() {
    assert_eq!(empty_results(3), vec![String::new(), String::new(), String::new()]);
}

#[test]
fn buffer_has_one_line_per_query_in_query_order() {
    let corpus = strings(&["apple", "apply", "ample", "maple"]);
    let queries = strings(&["apple", "maple", "zzz"]);
    let results = match_all(&config(Metric::DamerauLevenshtein, 2, ","), &queries, &corpus);
    assert_eq!(
        results,
        vec![
            "apple,4,0,apple,1,apply,,, 1 COUNT OF ZERO results".to_string(),
            "maple,4,0,maple,1,ample,,, 1 COUNT OF ZERO results".to_string(),
            "zzz,4,5,apple,5,apply,".to_string(),
        ]
    );
    for line in &results {
        let fields: Vec<&str> = line.split(',').collect();
        assert_eq!(fields[1], "4");
    }
}

#[test]
fn search_writes_only_its_own_slot() {
    let corpus = strings(&["abc", "abd"]);
    let mut results = strings(&["first", "second", "third"]);
    search(Metric::Levenshtein, 1, &mut results, "abd", &corpus, 1, ",");
    assert_eq!(
        results,
        vec![
            "first".to_string(),
            "abd,2,0,abd,,, 1 COUNT OF ZERO results".to_string(),
            "third".to_string()
        ]
    );
}

#[test]
fn write_slot_replaces_one_entry() {
    let mut results = empty_results(2);
    write_slot(&mut results, 1, "line".to_string());
    assert_eq!(results, vec![String::new(), "line".to_string()]);
}

#[test]
fn order_of_completion_does_not_show() {
    let corpus = strings(&["alpha", "beta", "gamma", "delta", "alpha"]);
    let queries = strings(&["alpha", "betta", "gama", "", "epsilon"]);
    let in_order = match_all(&config(Metric::OsaDistance, 3, ";"), &queries, &corpus);
    let mut reversed = empty_results(queries.len());
    for idx in (0..queries.len()).rev() {
        search(Metric::OsaDistance, idx, &mut reversed, &queries[idx], &corpus, 3, ";");
    }
    assert_eq!(in_order, reversed);
    let mut shuffled = empty_results(queries.len());
    for idx in [2usize, 0, 4, 1, 3, 0, 2] {
        search(Metric::OsaDistance, idx, &mut shuffled, &queries[idx], &corpus, 3, ";");
    }
    assert_eq!(in_order, shuffled);
}

#[test]
fn ties_are_broken_by_corpus_position() {
    let corpus = strings(&["abx", "aby", "abz"]);
    let line = search_line(Metric::Levenshtein, "abc", &corpus, 2, ",");
    assert_eq!(line, "abc,3,1,abx,1,aby,");
}
