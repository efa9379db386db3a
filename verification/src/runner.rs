//! One run: from a configuration and what reading the file gave, to the
//! lines to print.

use crate::config::{Config, ConfigView, GrepError};
use crate::search::{folded_matching_lines, matching_lines, search, search_case_insensitive};
use vstd::prelude::*;

verus! {

/// The lines that a run with `config` prints for a file that holds
/// `contents`.
pub open spec fn selected_lines(config: ConfigView, contents: Seq<char>) -> Seq<Seq<char>> {
    if config.ignore_case {
        folded_matching_lines(config.query, contents)
    } else {
        matching_lines(config.query, contents)
    }
}

/// Decides a run. `contents` is what reading the file at `config.file_path`
/// as UTF-8 text gave, `None` where that failed. A failed read is an error;
/// otherwise the result holds the lines to print, in order, searched with
/// or without regard to letter case as `config.ignore_case` says.
pub fn run<'a>(config: &Config, contents: Option<&'a str>) -> (outcome: Result<
    Vec<&'a str>,
    GrepError,
>)
    ensures
        match outcome {
            Ok(found) => contents matches Some(text) && found.deep_view() == selected_lines(
                config@,
                text@,
            ),
            Err(error) => contents is None && error == GrepError::FileReadError,
        },
{
    match contents {
        None => Err(GrepError::FileReadError),
        Some(text) => {
            if config.ignore_case {
                Ok(search_case_insensitive(config.query.as_str(), text))
            } else {
                Ok(search(config.query.as_str(), text))
            }
        },
    }
}

} // verus!
