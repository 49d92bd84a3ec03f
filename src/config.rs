use vstd::prelude::*;
use vstd::utf8::*;

use crate::engine::{bytes_of, folded_matching_lines, matching_lines, search, search_case_insensitive};

verus! {

/// What one search run asks for: the query, the file to read, and whether
/// case is ignored.
pub struct Config {
    /// The text to look for.
    pub query: String,
    /// The path of the file to search.
    pub filename: String,
    /// Whether lines are compared to the query in lower case.
    pub ignore_case: bool,
}

/// Why a configuration could not be built from the arguments.
#[derive(Debug, Clone, Copy, PartialEq, Eq)]
pub enum ConfigError {
    /// No argument followed the program's name.
    MissingQuery,
    /// The query was given, but no file name after it.
    MissingFileName,
}

impl ConfigError {
    /// The message shown for this error.
    pub fn message(&self) -> (r: &'static str)
        ensures
            *self == ConfigError::MissingQuery ==> r@ == "Didn't get a query string"@,
            *self == ConfigError::MissingFileName ==> r@ == "Didn't get a file name"@,
    {
        match self {
            ConfigError::MissingQuery => "Didn't get a query string",
            ConfigError::MissingFileName => "Didn't get a file name",
        }
    }
}

impl Config {
    /// Builds the configuration from the program's arguments, the program's
    /// own name first, then the query, then the file name; arguments after
    /// those are not read. `case_insensitive_set` tells whether the
    /// `CASE_INSENSITIVE` environment variable is set: case is ignored exactly
    /// when it is not.
    pub fn build(args: &Vec<String>, case_insensitive_set: bool) -> (r: Result<Config, ConfigError>)
        ensures
            args@.len() < 2 ==> r == Err::<Config, ConfigError>(ConfigError::MissingQuery),
            args@.len() == 2 ==> r == Err::<Config, ConfigError>(ConfigError::MissingFileName),
            args@.len() >= 3 ==> (match r {
                Ok(c) => c.query@ == args@[1]@ && c.filename@ == args@[2]@ && c.ignore_case
                    == !case_insensitive_set,
                Err(_) => false,
            }),
    {
        if args.len() < 2 {
            return Err(ConfigError::MissingQuery);
        }
        let query = args[1].clone();
        if args.len() < 3 {
            return Err(ConfigError::MissingFileName);
        }
        let filename = args[2].clone();
        Ok(Config { query, filename, ignore_case: !case_insensitive_set })
    }

    /// The lines of `contents` that this configuration asks for: those that
    /// hold the query when both are lowered where case is ignored, else
    /// those that hold it exactly.
    pub fn select_lines<'a>(&self, contents: &'a str) -> (r: Vec<&'a str>)
        ensures
            self.ignore_case ==> bytes_of(r@) == folded_matching_lines(
                encode_utf8(self.query@),
                encode_utf8(contents@),
            ),
            !self.ignore_case ==> bytes_of(r@) == matching_lines(
                encode_utf8(self.query@),
                encode_utf8(contents@),
            ),
    {
        if self.ignore_case {
            search_case_insensitive(self.query.as_str(), contents)
        } else {
            search(self.query.as_str(), contents)
        }
    }
}

} // verus!
