//! The label source: pull requests of a commit, and the labels on them that
//! name features.

use crate::db::models::project::{api_url, git_suffix, github_host, path_segments, Project};
use crate::errors::FownerError;
use crate::pattern::{is_match, regex_compiles, regex_matches, regex_replaced, replaced};
use crate::text::{
    chars_of, contains_text, copy_option_text, option_text, string_of, string_views, trim, trimmed,
    without,
};
use vstd::prelude::*;

verus! {

/// Finds the mark of a feature label: `f:` or `F:` at its start, with the
/// white space behind it.
pub const LABEL_REGEX: &'static str = "^[fF]:\\s*";

/// Where the labels of a project are asked for.
pub struct Github {
    pub api_url: String,
    pub api_token: Option<String>,
}

/// A label on a pull request.
#[derive(Clone, Debug)]
pub struct Label {
    pub name: Option<String>,
}

/// A pull request, as far as its labels go.
#[derive(Clone, Debug)]
pub struct Pr {
    pub labels: Vec<Label>,
}

pub open spec fn label_views(labels: Seq<Label>) -> Seq<Option<Seq<char>>> {
    Seq::new(labels.len(), |i: int| option_text(labels[i].name))
}

pub open spec fn pull_views(pulls: Seq<Pr>) -> Seq<Seq<Option<Seq<char>>>> {
    Seq::new(pulls.len(), |i: int| label_views(pulls[i].labels@))
}

/// The name of a label as it is judged: without the white space at its ends,
/// and empty where the label has no name.
pub open spec fn label_name(name: Option<Seq<char>>) -> Seq<char> {
    match name {
        Some(n) => trim(n),
        None => Seq::empty(),
    }
}

/// The feature that a label names, given whether its name carries the mark
/// and what is left of the name without it: nothing without the mark, and
/// nothing where only the mark is there.
pub open spec fn qualifying(marked: bool, stripped: Seq<char>) -> Option<Seq<char>> {
    if marked && stripped.len() > 0 {
        Some(stripped)
    } else {
        None
    }
}

/// The feature that a label names, if it names one.
pub open spec fn feature_of_label(name: Option<Seq<char>>) -> Option<Seq<char>> {
    qualifying(
        regex_matches(LABEL_REGEX@, label_name(name)),
        regex_replaced(LABEL_REGEX@, label_name(name), Seq::empty()),
    )
}

/// The features that the labels of one pull request name, in order.
pub open spec fn features_among(labels: Seq<Option<Seq<char>>>) -> Seq<Seq<char>>
    decreases labels.len(),
{
    if labels.len() == 0 {
        Seq::empty()
    } else {
        match feature_of_label(labels.last()) {
            Some(f) => features_among(labels.drop_last()).push(f),
            None => features_among(labels.drop_last()),
        }
    }
}

/// The features that the labels of the pull requests name, in order.
pub open spec fn features_in(pulls: Seq<Seq<Option<Seq<char>>>>) -> Seq<Seq<char>>
    decreases pulls.len(),
{
    if pulls.len() == 0 {
        Seq::empty()
    } else {
        features_in(pulls.drop_last()) + features_among(pulls.last())
    }
}

impl Github {
    pub fn new(api_url: String, api_token: Option<String>) -> (r: Github)
        ensures
            r.api_url == api_url,
            r.api_token == api_token,
    {
        Github { api_url, api_token }
    }

    /// The label source of a project: its API address comes from the address
    /// of the project's repository, the token from the project.
    pub fn try_from(project: &Project) -> (r: Result<Github, FownerError>)
        ensures
            match option_text(project.repo_url) {
                Some(url) if contains_text(url, github_host()) && path_segments(url).len() >= 2 => {
                    r matches Ok(g) && g.api_url@ == api_url(
                        path_segments(url)[path_segments(url).len() - 2],
                        without(path_segments(url).last(), git_suffix()),
                    ) && option_text(g.api_token) == option_text(project.github_api_token)
                },
                Some(_) => r matches Err(FownerError::GitError(_)),
                None => r matches Err(FownerError::NotFound(_)),
            },
    {
        match project.get_github_api_url() {
            Ok(api_url) => Ok(Github::new(api_url, copy_option_text(&project.github_api_token))),
            Err(e) => Err(e),
        }
    }

    /// The address at which the pull requests of a commit are listed.
    pub fn pulls_url(&self, commit_sha: &str) -> (r: String)
        ensures
            r@ == self.api_url@ + "/commits/"@ + commit_sha@ + "/pulls"@,
    {
        self.api_url.clone().concat("/commits/").concat(commit_sha).concat("/pulls")
    }

    /// The value of the `Authorization` header of a request, where requests
    /// are signed.
    pub fn authorization(&self) -> (r: Option<String>)
        ensures
            match option_text(self.api_token) {
                Some(t) => r matches Some(h) && h@ == "token "@ + t,
                None => r is None,
            },
    {
        match &self.api_token {
            Some(t) => Some(String::from_str("token ").concat(t.as_str())),
            None => None,
        }
    }

    /// The feature that a label names, from whether its name carries the
    /// mark and what is left of the name without it.
    pub fn qualifying_label(marked: bool, stripped: String) -> (r: Option<String>)
        ensures
            option_text(r) == qualifying(marked, stripped@),
    {
        if marked && stripped.as_str().unicode_len() > 0 {
            Some(stripped)
        } else {
            None
        }
    }

    /// The feature that a label names, if it names one. Fails where the regex
    /// engine rejects the pattern of the mark.
    pub fn feature_label(name: &Option<String>) -> (r: Result<Option<String>, FownerError>)
        ensures
            match r {
                Ok(f) => regex_compiles(LABEL_REGEX@) && option_text(f) == feature_of_label(
                    option_text(*name),
                ),
                Err(e) => !regex_compiles(LABEL_REGEX@) && e is Regex,
            },
    {
        let judged = match name {
            Some(n) => string_of(&trimmed(&chars_of(n.as_str()))),
            None => String::new(),
        };
        let marked = match is_match(LABEL_REGEX, judged.as_str()) {
            Ok(m) => m,
            Err(e) => {
                return Err(FownerError::Regex(e));
            },
        };
        let empty = String::new();
        match replaced(LABEL_REGEX, judged.as_str(), empty.as_str()) {
            Ok(stripped) => Ok(Self::qualifying_label(marked, stripped)),
            Err(e) => Err(FownerError::Regex(e)),
        }
    }

    /// The features that the labels on the pull requests of a commit name,
    /// in the order of the pull requests and their labels. Fails where the
    /// regex engine rejects the pattern of the mark.
    pub fn feature_labels(pulls: &Vec<Pr>) -> (r: Result<Vec<String>, FownerError>)
        ensures
            match r {
                Ok(v) => regex_compiles(LABEL_REGEX@) && string_views(v@) == features_in(
                    pull_views(pulls@),
                ),
                Err(e) => !regex_compiles(LABEL_REGEX@) && e is Regex,
            },
    {
        let empty = String::new();
        match is_match(LABEL_REGEX, empty.as_str()) {
            Ok(_) => {},
            Err(e) => {
                return Err(FownerError::Regex(e));
            },
        }
        let ghost all = pull_views(pulls@);
        let mut out: Vec<String> = Vec::new();
        let mut i: usize = 0;
        assert(all.take(0) =~= Seq::empty());
        assert(string_views(out@) =~= Seq::empty());
        while i < pulls.len()
            invariant
                i <= pulls.len(),
                all == pull_views(pulls@),
                regex_compiles(LABEL_REGEX@),
                string_views(out@) == features_in(all.take(i as int)),
            decreases pulls.len() - i,
        {
            let ghost done = string_views(out@);
            let ghost labels = label_views(pulls@[i as int].labels@);
            assert(all.take(i as int + 1).drop_last() =~= all.take(i as int));
            assert(all.take(i as int + 1).last() == labels);
            let pr = &pulls[i];
            let mut k: usize = 0;
            assert(labels.take(0) =~= Seq::empty());
            assert(done + Seq::<Seq<char>>::empty() =~= done);
            while k < pr.labels.len()
                invariant
                    k <= pr.labels.len(),
                    labels == label_views(pr.labels@),
                    regex_compiles(LABEL_REGEX@),
                    string_views(out@) == done + features_among(labels.take(k as int)),
                decreases pr.labels.len() - k,
            {
                let ghost have = string_views(out@);
                assert(labels.take(k as int + 1).drop_last() =~= labels.take(k as int));
                assert(labels.take(k as int + 1).last() == option_text(pr.labels@[k as int].name));
                match Self::feature_label(&pr.labels[k].name) {
                    Ok(Some(f)) => {
                        out.push(f);
                        assert(string_views(out@) =~= have.push(f@));
                        assert(have.push(f@) =~= done + features_among(
                            labels.take(k as int),
                        ).push(f@));
                    },
                    Ok(None) => {},
                    Err(e) => {
                        return Err(e);
                    },
                }
                k += 1;
            }
            assert(labels.take(k as int) =~= labels);
            i += 1;
        }
        assert(all.take(i as int) =~= all);
        Ok(out)
    }
}

} // verus!
