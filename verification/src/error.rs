//! The errors of configuration and their messages.

use vstd::prelude::*;
use vstd::string::*;

verus! {

/// A configuration that cannot be run. Each is found before any query is
/// ranked.
#[derive(Debug)]
pub enum ConfigError {
    /// The metric identifier is none of the three known names.
    UnknownMetric { name: String },
    /// Neither a query file nor inline query strings were given.
    MissingQuerySource,
    /// Both a query file and inline query strings were given.
    ConflictingQuerySources,
}

/// The text of the message for an error.
pub open spec fn error_text(e: ConfigError) -> Seq<char> {
    match e {
        ConfigError::UnknownMetric { name } => "Error: string similarity algorithm \""@ + name@
            + "\" unknown.  Must be one of damerau_levenshtein, osa_distance, or levenshtein"@,
        ConfigError::MissingQuerySource => "neither search strings or search file list were given"@,
        ConfigError::ConflictingQuerySources => "both search strings and a search file list were given"@,
    }
}

impl ConfigError {
    /// The message for the user. For an unknown metric it quotes the
    /// rejected name and lists the names that are accepted.
    pub fn message(&self) -> (text: String)
        ensures
            text@ == error_text(*self),
    {
        match self {
            ConfigError::UnknownMetric { name } => {
                let mut text = String::from_str("Error: string similarity algorithm \"");
                text.append(name.as_str());
                text.append(
                    "\" unknown.  Must be one of damerau_levenshtein, osa_distance, or levenshtein",
                );
                text
            },
            ConfigError::MissingQuerySource => String::from_str(
                "neither search strings or search file list were given",
            ),
            ConfigError::ConflictingQuerySources => String::from_str(
                "both search strings and a search file list were given",
            ),
        }
    }
}

} // verus!
