//! The projects whose histories are kept.

use crate::errors::FownerError;
use crate::git::manager::GitManager;
use crate::text::{
    begins_ignoring_case, begins_with_ignoring_case, chars_of, contains_text, copy_option_text,
    has_text, lemma_split_some, option_text, piece_views, split, split_on, string_of, taken_out, without,
};
use vstd::prelude::*;

verus! {

/// A repository under observation. With `github_labels_only` set, the
/// features of its commits come from the label source alone.
#[derive(Clone, Debug, PartialEq, Eq)]
pub struct Project {
    pub id: u32,
    pub name: Option<String>,
    pub repo_url: Option<String>,
    pub github_api_token: Option<String>,
    pub github_labels_only: bool,
    pub path: String,
    pub created_at: i64,
    pub updated_at: i64,
}

pub struct ProjectView {
    pub id: u32,
    pub name: Option<Seq<char>>,
    pub repo_url: Option<Seq<char>>,
    pub github_api_token: Option<Seq<char>>,
    pub github_labels_only: bool,
    pub path: Seq<char>,
    pub created_at: i64,
    pub updated_at: i64,
}

impl View for Project {
    type V = ProjectView;

    open spec fn view(&self) -> ProjectView {
        ProjectView {
            id: self.id,
            name: option_text(self.name),
            repo_url: option_text(self.repo_url),
            github_api_token: option_text(self.github_api_token),
            github_labels_only: self.github_labels_only,
            path: self.path@,
            created_at: self.created_at,
            updated_at: self.updated_at,
        }
    }
}

/// A project that is to be registered.
#[derive(Clone, Debug, PartialEq, Eq)]
pub struct NewProject {
    pub name: Option<String>,
    pub repo_url: Option<String>,
    pub github_api_token: Option<String>,
    pub github_labels_only: bool,
    pub path: String,
}

impl Project {
    /// A second copy of the project.
    pub fn duplicate(&self) -> (r: Project)
        ensures
            r@ == self@,
    {
        Project {
            id: self.id,
            name: copy_option_text(&self.name),
            repo_url: copy_option_text(&self.repo_url),
            github_api_token: copy_option_text(&self.github_api_token),
            github_labels_only: self.github_labels_only,
            path: self.path.clone(),
            created_at: self.created_at,
            updated_at: self.updated_at,
        }
    }
}

/// The host that a repository address must name.
pub open spec fn github_host() -> Seq<char> {
    seq!['g', 'i', 't', 'h', 'u', 'b', '.', 'c', 'o', 'm']
}

pub open spec fn https_prefix() -> Seq<char> {
    seq!['h', 't', 't', 'p', 's', ':', '/', '/']
}

pub open spec fn git_suffix() -> Seq<char> {
    seq!['.', 'g', 'i', 't']
}

/// The segments of the path in a repository address: of an `https://`
/// address all that stands between its slashes, of any other address what
/// stands between the slashes after its last colon.
pub open spec fn path_segments(url: Seq<char>) -> Seq<Seq<char>> {
    if begins_with_ignoring_case(url, https_prefix()) {
        split(url, '/')
    } else {
        split(split(url, ':').last(), '/')
    }
}

/// The address of the API for the repository of an owner.
pub open spec fn api_url(owner: Seq<char>, repo: Seq<char>) -> Seq<char> {
    "https://api.github.com/repos/"@ + owner + "/"@ + repo
}

impl Project {
    /// The address of the label source's API for this project, from the
    /// address of its repository: the last two segments of the path name
    /// owner and repository, the latter without `.git`.
    pub fn get_github_api_url(&self) -> (r: Result<String, FownerError>)
        ensures
            match option_text(self.repo_url) {
                None => r matches Err(FownerError::NotFound(m)) && m@
                    == "repo_url is missing for this project"@,
                Some(url) => if !contains_text(url, github_host()) {
                    r matches Err(FownerError::GitError(m)) && m@
                        == "Github API url cannot be generated from "@ + url
                } else if path_segments(url).len() < 2 {
                    r matches Err(FownerError::GitError(m)) && m@ == "Missing owner in repo_url"@
                } else {
                    r matches Ok(u) && u@ == api_url(
                        path_segments(url)[path_segments(url).len() - 2],
                        without(path_segments(url).last(), git_suffix()),
                    )
                },
            },
    {
        let repo_url = match &self.repo_url {
            Some(url) => url,
            None => {
                return Err(
                    FownerError::NotFound(String::from_str("repo_url is missing for this project")),
                );
            },
        };
        let url = chars_of(repo_url.as_str());
        let host: Vec<char> = vec!['g', 'i', 't', 'h', 'u', 'b', '.', 'c', 'o', 'm'];
        assert(host@ =~= github_host());
        if !has_text(&url, &host) {
            return Err(
                FownerError::GitError(
                    String::from_str("Github API url cannot be generated from ").concat(
                        repo_url.as_str(),
                    ),
                ),
            );
        }
        let https: Vec<char> = vec!['h', 't', 't', 'p', 's', ':', '/', '/'];
        assert(https@ =~= https_prefix());
        let segments = if begins_ignoring_case(&url, &https) {
            split_on(&url, '/')
        } else {
            let parts = split_on(&url, ':');
            proof {
                lemma_split_some(url@, ':');
            }
            assert(piece_views(parts@).last() == parts@[parts.len() - 1]@);
            split_on(&parts[parts.len() - 1], '/')
        };
        assert(piece_views(segments@) == path_segments(url@));
        proof {
            lemma_split_some(url@, '/');
            lemma_split_some(split(url@, ':').last(), '/');
        }
        if segments.len() < 2 {
            return Err(FownerError::GitError(String::from_str("Missing owner in repo_url")));
        }
        let suffix: Vec<char> = vec!['.', 'g', 'i', 't'];
        assert(suffix@ =~= git_suffix());
        assert(piece_views(segments@).last() == segments@[segments.len() - 1]@);
        assert(piece_views(segments@)[segments.len() - 2] == segments@[segments.len() - 2]@);
        let repo = string_of(&taken_out(&segments[segments.len() - 1], &suffix));
        let owner = string_of(&segments[segments.len() - 2]);
        Ok(
            String::from_str("https://api.github.com/repos/").concat(owner.as_str()).concat(
                "/",
            ).concat(repo.as_str()),
        )
    }
}

impl NewProject {
    /// The project of a working copy: its path and the address it was cloned
    /// from, and nothing else.
    pub fn from(repo: &GitManager) -> (r: NewProject)
        ensures
            r.name is None,
            option_text(r.repo_url) == option_text(repo.url),
            r.path@ == repo.path@,
            r.github_api_token is None,
            !r.github_labels_only,
    {
        NewProject {
            name: None,
            repo_url: copy_option_text(&repo.url),
            path: repo.path.clone(),
            github_api_token: None,
            github_labels_only: false,
        }
    }
}

/// The name that a project gets from the address of its repository: what
/// follows the last slash, without `.git`.
pub open spec fn name_from_url(url: Seq<char>) -> Seq<char> {
    without(split(url, '/').last(), git_suffix())
}

impl NewProject {
    /// The project with a name: its own where it has one, else the one that
    /// the address of its repository gives, if it has such an address.
    pub fn named(self) -> (r: NewProject)
        ensures
            option_text(r.name) == match (option_text(self.name), option_text(self.repo_url)) {
                (Some(name), _) => Some(name),
                (None, Some(url)) => Some(name_from_url(url)),
                (None, None) => None,
            },
            r.repo_url == self.repo_url,
            r.github_api_token == self.github_api_token,
            r.github_labels_only == self.github_labels_only,
            r.path == self.path,
    {
        let name = match self.name {
            Some(name) => Some(name),
            None => match &self.repo_url {
                Some(url) => {
                    let chars = chars_of(url.as_str());
                    let parts = split_on(&chars, '/');
                    proof {
                        lemma_split_some(chars@, '/');
                    }
                    assert(piece_views(parts@).last() == parts@[parts.len() - 1]@);
                    let suffix: Vec<char> = vec!['.', 'g', 'i', 't'];
                    assert(suffix@ =~= git_suffix());
                    Some(string_of(&taken_out(&parts[parts.len() - 1], &suffix)))
                },
                None => None,
            },
        };
        NewProject {
            name,
            repo_url: self.repo_url,
            github_api_token: self.github_api_token,
            github_labels_only: self.github_labels_only,
            path: self.path,
        }
    }
}

} // verus!
