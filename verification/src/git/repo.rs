//! A repository by its working copy.

use crate::errors::FownerError;
use crate::git::history::{history_views, parse_outcome, GitHistory, ParseFailure};
use crate::git::manager::{log_text, CommandOutput, GitManager, LogText};
use vstd::prelude::*;

verus! {

/// A working copy, with the name and the address of its repository.
#[derive(Clone, Debug)]
pub struct GitRepo {
    pub path: String,
    pub name: Option<String>,
    pub url: Option<String>,
}

impl GitRepo {
    /// The commits of the log, oldest first, from what the run of the log
    /// tool in this working copy left behind.
    pub fn parse_history(&self, output: CommandOutput) -> (r: Result<Vec<GitHistory>, FownerError>)
        ensures
            match log_text(output) {
                LogText::Text(t) => match parse_outcome(t) {
                    Ok(records) => r matches Ok(v) && history_views(v@) == records,
                    Err(ParseFailure::Pattern) => r matches Err(FownerError::Regex(_)),
                    Err(ParseFailure::Timestamp(field)) => r matches Err(
                        FownerError::ParseInt(s),
                    ) && s@ == field,
                },
                LogText::Failed(t) => r matches Err(FownerError::Execution(s)) && s@ == t,
                LogText::NotUtf8 => r matches Err(FownerError::Utf8(_)),
            },
    {
        let git_manager = GitManager { path: self.path.clone(), url: None };
        git_manager.parse_history(output)
    }
}

} // verus!
