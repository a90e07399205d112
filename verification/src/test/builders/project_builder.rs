//! Builds a project.

use crate::db::models::project::NewProject;
use vstd::prelude::*;

verus! {

/// A project that is to be registered.
pub struct ProjectBuilder {
    pub name: Option<String>,
    pub repo_url: Option<String>,
    pub path: String,
    pub github_api_token: Option<String>,
}

impl Default for ProjectBuilder {
    fn default() -> (r: ProjectBuilder)
        ensures
            r.name is None,
            r.repo_url is None,
            r.github_api_token is None,
            r.path@ == Seq::<char>::empty(),
    {
        ProjectBuilder { name: None, repo_url: None, github_api_token: None, path: String::new() }
    }
}

impl ProjectBuilder {
    /// A builder for the project whose working copy is at `path`.
    pub fn with_path(path: &str) -> (r: ProjectBuilder)
        ensures
            r.path@ == path@,
            r.name is None,
            r.repo_url is None,
            r.github_api_token is None,
    {
        ProjectBuilder {
            name: None,
            repo_url: None,
            github_api_token: None,
            path: String::from_str(path),
        }
    }

    /// The project as it is to be registered.
    pub fn build(self) -> (r: NewProject)
        ensures
            r == (NewProject {
                name: self.name,
                repo_url: self.repo_url,
                github_api_token: self.github_api_token,
                github_labels_only: false,
                path: self.path,
            }),
    {
        NewProject {
            name: self.name,
            repo_url: self.repo_url,
            github_api_token: self.github_api_token,
            github_labels_only: false,
            path: self.path,
        }
    }
}

} // verus!
