//! The closed set of edit-distance metrics and their names.

use vstd::prelude::*;
use vstd::string::*;
use crate::error::ConfigError;
use crate::text::same_text;

verus! {

/// One of the three supported edit-distance metrics. The variant is the tag:
/// it selects the distance function and gives the metric's name.
#[derive(Clone, Copy, Debug, PartialEq, Eq, Structural)]
pub enum Metric {
    DamerauLevenshtein,
    OsaDistance,
    Levenshtein,
}

/// What `strsim::damerau_levenshtein` returns for two strings, given as
/// their characters.
pub uninterp spec fn damerau_levenshtein_distance(a: Seq<char>, b: Seq<char>) -> usize;

/// What `strsim::osa_distance` returns for two strings, given as their
/// characters.
pub uninterp spec fn osa_distance_value(a: Seq<char>, b: Seq<char>) -> usize;

/// What `strsim::levenshtein` returns for two strings, given as their
/// characters.
pub uninterp spec fn levenshtein_distance(a: Seq<char>, b: Seq<char>) -> usize;

/// Calls `strsim::damerau_levenshtein`, the unrestricted Damerau-Levenshtein
/// edit distance. Believed, not proved: the result is a function of the two
/// strings' characters alone, and two equal strings are zero edits apart.
#[verifier::external_body]
fn damerau_levenshtein(a: &str, b: &str) -> (d: usize)
    ensures
        d == damerau_levenshtein_distance(a@, b@),
        a@ == b@ ==> d == 0,
{
    strsim::damerau_levenshtein(a, b)
}

/// Calls `strsim::osa_distance`, the optimal-string-alignment edit distance.
/// Believed, not proved: the result is a function of the two strings'
/// characters alone, and two equal strings are zero edits apart.
#[verifier::external_body]
fn osa_distance(a: &str, b: &str) -> (d: usize)
    ensures
        d == osa_distance_value(a@, b@),
        a@ == b@ ==> d == 0,
{
    strsim::osa_distance(a, b)
}

/// Calls `strsim::levenshtein`, the minimum number of insertions, deletions
/// and substitutions that turn one string into the other. Believed, not
/// proved: the result is a function of the two strings' characters alone,
/// and two equal strings are zero edits apart.
#[verifier::external_body]
fn levenshtein(a: &str, b: &str) -> (d: usize)
    ensures
        d == levenshtein_distance(a@, b@),
        a@ == b@ ==> d == 0,
{
    strsim::levenshtein(a, b)
}

/// The distance between two strings under a metric.
pub open spec fn metric_distance(m: Metric, a: Seq<char>, b: Seq<char>) -> usize {
    match m {
        Metric::DamerauLevenshtein => damerau_levenshtein_distance(a, b),
        Metric::OsaDistance => osa_distance_value(a, b),
        Metric::Levenshtein => levenshtein_distance(a, b),
    }
}

/// The identifying name of a metric.
pub open spec fn metric_name(m: Metric) -> Seq<char> {
    match m {
        Metric::DamerauLevenshtein => "damerau_levenshtein"@,
        Metric::OsaDistance => "osa_distance"@,
        Metric::Levenshtein => "levenshtein"@,
    }
}

/// The metric that a name identifies, if any.
pub open spec fn metric_named(s: Seq<char>) -> Option<Metric> {
    if s == metric_name(Metric::DamerauLevenshtein) {
        Some(Metric::DamerauLevenshtein)
    } else if s == metric_name(Metric::OsaDistance) {
        Some(Metric::OsaDistance)
    } else if s == metric_name(Metric::Levenshtein) {
        Some(Metric::Levenshtein)
    } else {
        None
    }
}

impl Metric {
    /// The edit distance from `a` to `b` under this metric. A string is at
    /// distance zero from itself, whatever the metric.
    pub fn distance(&self, a: &str, b: &str) -> (d: usize)
        ensures
            d == metric_distance(*self, a@, b@),
            a@ == b@ ==> d == 0,
    {
        match self {
            Metric::DamerauLevenshtein => damerau_levenshtein(a, b),
            Metric::OsaDistance => osa_distance(a, b),
            Metric::Levenshtein => levenshtein(a, b),
        }
    }
}

/// Selects a metric by its name. Any other identifier is a configuration
/// error that carries the rejected name.
pub fn str_to_sim_alg(s: &str) -> (r: Result<Metric, ConfigError>)
    ensures
        match metric_named(s@) {
            Some(m) => r == Ok::<Metric, ConfigError>(m),
            None => r matches Err(ConfigError::UnknownMetric { name }) && name@ == s@,
        },
{
    if same_text(s, "damerau_levenshtein") {
        Ok(Metric::DamerauLevenshtein)
    } else if same_text(s, "osa_distance") {
        Ok(Metric::OsaDistance)
    } else if same_text(s, "levenshtein") {
        Ok(Metric::Levenshtein)
    } else {
        Err(ConfigError::UnknownMetric { name: String::from_str(s) })
    }
}

/// The name of a metric, as `str_to_sim_alg` accepts it.
pub fn alg_to_str(m: Metric) -> (name: &'static str)
    ensures
        name@ == metric_name(m),
{
    match m {
        Metric::DamerauLevenshtein => "damerau_levenshtein",
        Metric::OsaDistance => "osa_distance",
        Metric::Levenshtein => "levenshtein",
    }
}

/// A metric's name selects that metric again, and the three names are
/// pairwise different.
pub proof fn lemma_name_round_trip(m: Metric)
    ensures
        metric_named(metric_name(m)) == Some(m),
{
    reveal_strlit("damerau_levenshtein");
    reveal_strlit("osa_distance");
    reveal_strlit("levenshtein");
    assert("damerau_levenshtein"@.len() == 19);
    assert("osa_distance"@.len() == 12);
    assert("levenshtein"@.len() == 11);
}

} // verus!
