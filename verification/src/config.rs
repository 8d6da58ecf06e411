//! The configuration of a run and its validation.

use std::path::PathBuf;
use vstd::prelude::*;
use vstd::string::*;
use crate::error::ConfigError;
use crate::metric::Metric;

verus! {

/// `std::path::PathBuf`, carried through unread.
#[verifier::external_type_specification]
#[verifier::external_body]
pub struct ExPathBuf(PathBuf);

/// `PathBuf::clone`. Believed, not proved: the copy is the same path.
pub assume_specification[ <PathBuf as Clone>::clone ](path: &PathBuf) -> (copy: PathBuf)
    ensures
        copy == *path,
;

/// Where the queries come from.
#[derive(Clone, Copy, Debug, PartialEq, Eq, Structural)]
pub enum QuerySource {
    /// A file of query strings, one per line.
    File,
    /// Query strings given inline.
    Inline,
}

/// Search for strings within a reference list for most similar strings.
#[derive(Clone)]
pub struct CliCfg {
    /// Verbosity.
    pub verbose: usize,
    /// File with the strings to search for.
    pub search_vec_path: Option<PathBuf>,
    /// The strings to search for, given inline.
    pub search_vec: Option<Vec<String>>,
    /// File with the reference list that is searched.
    pub reference_list_path: PathBuf,
    /// Delimiter of the fields of a result line.
    pub delimiter: String,
    /// How many of the best matches a result line holds at most.
    pub top_n_matches: usize,
    /// The metric by which strings are compared.
    pub alg: Metric,
    /// Whether only alphanumeric characters of each string are kept.
    pub alpha_num_chars_only: bool,
}

/// What every matching task is given: the metric, the number of matches
/// to keep, and the delimiter of the result line.
#[derive(Debug)]
pub struct MatchConfig {
    pub alg: Metric,
    pub limit: usize,
    pub delimiter: String,
}

/// The query source that a configuration names, or why it names none.
pub open spec fn chosen_source(has_file: bool, has_inline: bool) -> Result<
    QuerySource,
    ConfigError,
> {
    if has_file && has_inline {
        Err(ConfigError::ConflictingQuerySources)
    } else if has_file {
        Ok(QuerySource::File)
    } else if has_inline {
        Ok(QuerySource::Inline)
    } else {
        Err(ConfigError::MissingQuerySource)
    }
}

impl CliCfg {
    /// A configuration for the given reference list with the defaults:
    /// delimiter `,`, the three best matches, the Damerau-Levenshtein
    /// metric, no character filter, and no query source yet.
    pub fn new(reference_list_path: PathBuf) -> (cfg: CliCfg)
        ensures
            cfg.verbose == 0,
            cfg.search_vec_path is None,
            cfg.search_vec is None,
            cfg.reference_list_path == reference_list_path,
            cfg.delimiter@ == seq![','],
            cfg.top_n_matches == 3,
            cfg.alg == Metric::DamerauLevenshtein,
            !cfg.alpha_num_chars_only,
    {
        proof {
            reveal_strlit(",");
        }
        let delimiter = String::from_str(",");
        assert(delimiter@ =~= seq![',']);
        CliCfg {
            verbose: 0,
            search_vec_path: None,
            search_vec: None,
            reference_list_path,
            delimiter,
            top_n_matches: 3,
            alg: Metric::DamerauLevenshtein,
            alpha_num_chars_only: false,
        }
    }

    /// The part of the configuration that the matching tasks share.
    pub fn match_config(&self) -> (m: MatchConfig)
        ensures
            m.alg == self.alg,
            m.limit == self.top_n_matches,
            m.delimiter@ == self.delimiter@,
    {
        MatchConfig {
            alg: self.alg,
            limit: self.top_n_matches,
            delimiter: self.delimiter.clone(),
        }
    }

    /// Which query source the configuration names. Exactly one of the two
    /// must be given: none, or both, is an error.
    pub fn query_source(&self) -> (r: Result<QuerySource, ConfigError>)
        ensures
            r == chosen_source(self.search_vec_path is Some, self.search_vec is Some),
    {
        let has_file = self.search_vec_path.is_some();
        let has_inline = self.search_vec.is_some();
        if has_file && has_inline {
            Err(ConfigError::ConflictingQuerySources)
        } else if has_file {
            Ok(QuerySource::File)
        } else if has_inline {
            Ok(QuerySource::Inline)
        } else {
            Err(ConfigError::MissingQuerySource)
        }
    }
}

} // verus!
