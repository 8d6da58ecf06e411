use std::path::PathBuf;
use top_matches::config::{CliCfg, QuerySource};
use top_matches::error::ConfigError;
use top_matches::metric::Metric;
use top_matches::named_fn::{fn1, fn2, fn_to_str, str_to_fn, Afn};
use top_matches::text::{keep_alphanumeric, prepare_strings, same_text};

#[test]
fn new_configuration_has_the_defaults() {
    let cfg = CliCfg::new(PathBuf::from("refs.txt"));
    assert_eq!(cfg.verbose, 0);
    assert!(cfg.search_vec_path.is_none());
    assert!(cfg.search_vec.is_none());
    assert_eq!(cfg.reference_list_path, PathBuf::from("refs.txt"));
    assert_eq!(cfg.delimiter, ",");
    assert_eq!(cfg.top_n_matches, 3);
    assert_eq!(cfg.alg, Metric::DamerauLevenshtein);
    assert!(!cfg.alpha_num_chars_only);
}

#[test]
fn missing_query_source_is_an_error() {
    let cfg = CliCfg::new(PathBuf::from("refs.txt"));
    assert!(matches!(cfg.query_source(), Err(ConfigError::MissingQuerySource)));
}

#[test]
fn both_query_sources_are_an_error() {
    let mut cfg = CliCfg::new(PathBuf::from("refs.txt"));
    cfg.search_vec_path = Some(PathBuf::from("queries.txt"));
    cfg.search_vec = Some(vec!["abc".to_string()]);
    assert!(matches!(cfg.query_source(), Err(ConfigError::ConflictingQuerySources)));
}

#[test]
fn one_query_source_is_accepted() {
    let mut cfg = CliCfg::new(PathBuf::from("refs.txt"));
    cfg.search_vec_path = Some(PathBuf::from("queries.txt"));
    assert_eq!(cfg.query_source().unwrap(), QuerySource::File);
    let mut cfg = CliCfg::new(PathBuf::from("refs.txt"));
    cfg.search_vec = Some(vec![]);
    assert_eq!(cfg.query_source().unwrap(), QuerySource::Inline);
}

#[test]
fn configuration_can_be_cloned() {
    let mut cfg = CliCfg::new(PathBuf::from("refs.txt"));
    cfg.search_vec = Some(vec!["abc".to_string()]);
    cfg.top_n_matches = 9;
    let copy = cfg.clone();
    assert_eq!(copy.reference_list_path, PathBuf::from("refs.txt"));
    assert_eq!(copy.search_vec, Some(vec!["abc".to_string()]));
    assert_eq!(copy.top_n_matches, 9);
}

#[test]
fn match_config_carries_metric_limit_and_delimiter() {
    let mut cfg = CliCfg::new(PathBuf::from("refs.txt"));
    cfg.alg = Metric::OsaDistance;
    cfg.top_n_matches = 7;
    cfg.delimiter = "|".to_string();
    let m = cfg.match_config();
    assert_eq!(m.alg, Metric::OsaDistance);
    assert_eq!(m.limit, 7);
    assert_eq!(m.delimiter, "|");
}

#[test]
fn error_messages() {
    assert_eq!(
        ConfigError::MissingQuerySource.message(),
        "neither search strings or search file list were given"
    );
    assert_eq!(
        ConfigError::ConflictingQuerySources.message(),
        "both search strings and a search file list were given"
    );
    assert_eq!(
        ConfigError::UnknownMetric { name: "x\"y".to_string() }.message(),
        "Error: string similarity algorithm \"x\"y\" unknown.  Must be one of damerau_levenshtein, osa_distance, or levenshtein"
    );
}

#[test]
fn handlers_are_found_by_name() {
    assert_eq!(str_to_fn("fn1"), Afn::Fn1);
    assert_eq!(str_to_fn("fn2"), Afn::Fn2);
}

#[test]
fn handlers_give_their_names() {
    assert_eq!(fn_to_str(Afn::Fn1), "fn1");
    assert_eq!(fn_to_str(Afn::Fn2), "fn2");
    assert_eq!(fn_to_str(str_to_fn("fn2")), "fn2");
    assert_eq!(fn_to_str(str_to_fn("fn1")), "fn1");
}

#[test]
fn handlers_report_when_called() {
    assert_eq!(fn1(), "in fn1");
    assert_eq!(fn2(), "in fn2");
    assert_eq!(str_to_fn("fn2").call(), "in fn2");
    assert_eq!(str_to_fn("fn1").call(), "in fn1");
}

#[test]
fn same_text_compares_characters() {
    assert!(same_text("", ""));
    assert!(same_text("abc", "abc"));
    assert!(!same_text("abc", "abd"));
    assert!(!same_text("abc", "ab"));
}

#[test]
fn keep_alphanumeric_drops_everything_else() {
    assert_eq!(keep_alphanumeric("5G capable RRC-Conn(count)"), "5GcapableRRCConncount");
    assert_eq!(keep_alphanumeric("a-b c1!"), "abc1");
    assert_eq!(keep_alphanumeric(""), "");
    assert_eq!(keep_alphanumeric(" ,;_"), "");
    assert_eq!(keep_alphanumeric("é1 ß_"), "é1ß");
}

#[test]
fn prepare_strings_filters_only_on_request() {
    let raw = vec!["a b".to_string(), "c-d".to_string()];
    assert_eq!(prepare_strings(&raw, false), raw);
    assert_eq!(prepare_strings(&raw, true), vec!["ab".to_string(), "cd".to_string()]);
    assert_eq!(prepare_strings(&vec![], true), Vec::<String>::new());
}
