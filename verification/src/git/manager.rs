//! How the log tool is asked for the history, and what its answer means.

use crate::errors::FownerError;
use crate::git::history::{parse_outcome, GitHistory, ParseFailure, history_views};
use crate::text::{option_text, string_views};
use std::fmt::Write;
use vstd::prelude::*;
use vstd::utf8::{decode_utf8, valid_utf8};

verus! {

/// The layout of one commit in the log: a separator line, then author,
/// commit id, parent ids, date and subject on a line each.
pub const GIT_HISTORY_LOG_FORMAT: &'static str = "---%n%an%n%H%n%P%n%ad%n%s";

/// How the instant after which commits are wanted is written.
pub const AFTER_FORMAT: &'static str = "%Y-%m-%dT%H:%M:%S.0Z";

/// A working copy and the address it was cloned from.
#[derive(Clone, Debug)]
pub struct GitManager {
    pub path: String,
    pub url: Option<String>,
}

/// What a run of the log tool left behind.
#[derive(Clone, Debug)]
pub struct CommandOutput {
    pub success: bool,
    pub stdout: Vec<u8>,
    pub stderr: Vec<u8>,
}

/// The instant `seconds` after the epoch, written in UTC as `chrono`'s
/// `format` writes it under the format string `format`; `None` where `chrono`
/// cannot hold the instant or does not accept the format string.
pub uninterp spec fn formatted_time(seconds: i64, format: Seq<char>) -> Option<Seq<char>>;

/// Builds the instant with `chrono::DateTime::from_timestamp` and writes it
/// with `NaiveDateTime::format`. Claimed: the text is the one that `chrono`
/// writes for these seconds under this format string, and there is none where
/// `chrono` refuses either.
#[verifier::external_body]
fn format_time(seconds: i64, format: &str) -> (r: Option<String>)
    ensures
        option_text(r) == formatted_time(seconds, format@),
{
    let time = chrono::DateTime::from_timestamp(seconds, 0)?.naive_utc();
    let mut out = String::new();
    match write!(out, "{}", time.format(format)) {
        Ok(_) => Some(out),
        Err(_) => None,
    }
}

/// The instant after which commits are asked for, given the time of the
/// latest commit that is known: one second later, so that this commit is not
/// reported again; the time itself where the next second cannot be written.
pub open spec fn after_instant(since: i64) -> Option<Seq<char>> {
    if since < i64::MAX && formatted_time((since + 1) as i64, AFTER_FORMAT@) is Some {
        formatted_time((since + 1) as i64, AFTER_FORMAT@)
    } else {
        formatted_time(since, AFTER_FORMAT@)
    }
}

/// The arguments that select the log and its layout.
pub open spec fn layout_arguments() -> Seq<Seq<char>> {
    seq![
        "--no-pager"@,
        "log"@,
        "--name-only"@,
        "--pretty=format:"@ + GIT_HISTORY_LOG_FORMAT@,
        "--date=unix"@,
    ]
}

/// The arguments with which the log tool is run: layout, then the bound
/// `--after="…"` where commits after a known time are wanted and that time
/// can be written, then `.` for the working copy.
pub open spec fn log_arguments(since: Option<i64>) -> Seq<Seq<char>> {
    match since {
        Some(t) if after_instant(t) is Some => layout_arguments().push(
            "--after=\""@ + after_instant(t).unwrap() + "\""@,
        ).push("."@),
        _ => layout_arguments().push("."@),
    }
}

/// What the output of the log tool means: its text where it reported
/// success, else an error that holds what it wrote to its error stream.
/// Output that is not UTF-8 is an error of its own.
pub enum LogText {
    Text(Seq<char>),
    Failed(Seq<char>),
    NotUtf8,
}

pub open spec fn log_text(output: CommandOutput) -> LogText {
    if !output.success {
        if valid_utf8(output.stderr@) {
            LogText::Failed(decode_utf8(output.stderr@))
        } else {
            LogText::NotUtf8
        }
    } else if valid_utf8(output.stdout@) {
        LogText::Text(decode_utf8(output.stdout@))
    } else {
        LogText::NotUtf8
    }
}

impl GitManager {
    /// The arguments with which the log tool is to be run in the working
    /// copy. With `since`, the time of the latest commit that is known, only
    /// later commits are asked for.
    pub fn history_args(&self, since: Option<i64>) -> (r: Vec<String>)
        ensures
            string_views(r@) == log_arguments(since),
    {
        let mut args: Vec<String> = Vec::new();
        args.push(String::from_str("--no-pager"));
        args.push(String::from_str("log"));
        args.push(String::from_str("--name-only"));
        args.push(String::from_str("--pretty=format:").concat(GIT_HISTORY_LOG_FORMAT));
        args.push(String::from_str("--date=unix"));
        assert(string_views(args@) =~= layout_arguments());
        let written = match since {
            Some(t) => {
                let later = if t < i64::MAX {
                    format_time(t + 1, AFTER_FORMAT)
                } else {
                    None
                };
                match later {
                    Some(text) => Some(text),
                    None => format_time(t, AFTER_FORMAT),
                }
            },
            None => None,
        };
        let ghost before = string_views(args@);
        match written {
            Some(text) => {
                let bound = String::from_str("--after=\"").concat(text.as_str()).concat("\"");
                args.push(bound);
                assert(string_views(args@) =~= before.push(bound@));
                let ghost with_bound = string_views(args@);
                args.push(String::from_str("."));
                assert(string_views(args@) =~= with_bound.push("."@));
            },
            None => {
                args.push(String::from_str("."));
                assert(string_views(args@) =~= before.push("."@));
            },
        }
        args
    }

    /// The text of the log, from what the run of the log tool left behind.
    pub fn history(&self, output: CommandOutput) -> (r: Result<String, FownerError>)
        ensures
            match log_text(output) {
                LogText::Text(t) => r matches Ok(s) && s@ == t,
                LogText::Failed(t) => r matches Err(FownerError::Execution(s)) && s@ == t,
                LogText::NotUtf8 => r matches Err(FownerError::Utf8(_)),
            },
    {
        if !output.success {
            return match String::from_utf8(output.stderr) {
                Ok(text) => Err(FownerError::Execution(text)),
                Err(e) => Err(FownerError::Utf8(e)),
            };
        }
        match String::from_utf8(output.stdout) {
            Ok(text) => Ok(text),
            Err(e) => Err(FownerError::Utf8(e)),
        }
    }

    /// The commits of the log, oldest first, from what the run of the log
    /// tool left behind.
    pub fn parse_history(&self, output: CommandOutput) -> (r: Result<Vec<GitHistory>, FownerError>)
        ensures
            match log_text(output) {
                LogText::Text(t) => match parse_outcome(t) {
                    Ok(records) => r matches Ok(v) && history_views(v@) == records,
                    Err(ParseFailure::Pattern) => r matches Err(FownerError::Regex(_)),
                    Err(ParseFailure::Timestamp(field)) => r matches Err(
                        FownerError::ParseInt(s),
                    ) && s@ == field,
                },
                LogText::Failed(t) => r matches Err(FownerError::Execution(s)) && s@ == t,
                LogText::NotUtf8 => r matches Err(FownerError::Utf8(_)),
            },
    {
        match self.history(output) {
            Ok(text) => GitHistory::parse(text),
            Err(e) => Err(e),
        }
    }
}

} // verus!
