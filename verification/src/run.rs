//! One run of the search: from the configuration and the text that was read
//! to the lines to print.

use vstd::prelude::*;
use crate::config::{Config, ConfigView};
use crate::search::{
    matching_lines,
    matching_lines_ignoring_case,
    search,
    search_case_insensitive,
};

verus! {

/// Why a run gives no lines.
#[derive(Debug, PartialEq, Eq)]
pub enum RunError {
    /// The file could not be opened or read, or does not hold text. The
    /// field says why, in the words of the system.
    IoError(String),
}

impl RunError {
    /// The reason in words, as it is shown to the user.
    pub fn message(&self) -> (text: &str)
        ensures
            text@ == self.reason(),
    {
        match self {
            RunError::IoError(cause) => cause.as_str(),
        }
    }

    /// The words of `message`.
    pub open spec fn reason(&self) -> Seq<char> {
        match self {
            RunError::IoError(cause) => cause@,
        }
    }
}

/// The lines of `contents` that a search with `config` selects.
pub open spec fn selected_lines(config: ConfigView, contents: Seq<char>) -> Seq<Seq<char>> {
    if config.case_insensitive {
        matching_lines_ignoring_case(config.query, contents)
    } else {
        matching_lines(config.query, contents)
    }
}

/// Runs the search that `config` describes on what reading the file gave:
/// its text, or the reason why there is none. The lines come back in the
/// order in which they are to be printed, each as it stands in the text.
pub fn run<'a>(config: Config, read: Result<&'a str, String>) -> (printed: Result<
    Vec<&'a str>,
    RunError,
>)
    ensures
        match read {
            Ok(contents) => printed is Ok && printed->Ok_0.deep_view() == selected_lines(
                config@,
                contents@,
            ),
            Err(cause) => printed == Err::<Vec<&'a str>, RunError>(RunError::IoError(cause)),
        },
{
    match read {
        Ok(contents) => {
            if config.case_insensitive {
                Ok(search_case_insensitive(config.query.as_str(), contents))
            } else {
                Ok(search(config.query.as_str(), contents))
            }
        },
        Err(cause) => Err(RunError::IoError(cause)),
    }
}

} // verus!
