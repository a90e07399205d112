//! The commits of a project.

use crate::db::{
    commit_views, first_index, lemma_first_index, lemma_first_index_is, lemma_first_index_none,
    lemma_first_index_push, EntityStore, StoreView,
};
use crate::errors::FownerError;
use crate::text::{
    begins_ignoring_case, begins_with_ignoring_case, chars_of, copy_option_texts, option_texts,
    same_text,
};
use vstd::prelude::*;

verus! {

/// A commit of a project. There is one per project and sha.
#[derive(Clone, Debug, PartialEq, Eq)]
pub struct Commit {
    pub id: u32,
    pub project_id: u32,
    pub owner_id: u32,
    pub sha: String,
    pub parent_sha: Option<Vec<String>>,
    pub description: String,
    pub commit_time: i64,
    pub created_at: i64,
    pub updated_at: i64,
}

pub struct CommitView {
    pub id: u32,
    pub project_id: u32,
    pub owner_id: u32,
    pub sha: Seq<char>,
    pub parent_sha: Option<Seq<Seq<char>>>,
    pub description: Seq<char>,
    pub commit_time: i64,
    pub created_at: i64,
    pub updated_at: i64,
}

impl View for Commit {
    type V = CommitView;

    open spec fn view(&self) -> CommitView {
        CommitView {
            id: self.id,
            project_id: self.project_id,
            owner_id: self.owner_id,
            sha: self.sha@,
            parent_sha: option_texts(self.parent_sha),
            description: self.description@,
            commit_time: self.commit_time,
            created_at: self.created_at,
            updated_at: self.updated_at,
        }
    }
}

/// A commit that is to be stored.
#[derive(Clone, Debug)]
pub struct NewCommit {
    pub owner_id: u32,
    pub project_id: u32,
    pub sha: String,
    pub parent_sha: Option<Vec<String>>,
    pub description: String,
    pub commit_time: i64,
}

/// Holds of the commit of project `project_id` with the sha `sha`.
pub open spec fn commit_keyed(project_id: u32, sha: Seq<char>) -> spec_fn(CommitView) -> bool {
    |c: CommitView| c.project_id == project_id && c.sha == sha
}

/// Holds of the commit with the id `id`.
pub open spec fn commit_numbered(id: i64) -> spec_fn(CommitView) -> bool {
    |c: CommitView| c.id as i64 == id
}

/// Where the latest commit of project `project_id` stands: the one with the
/// greatest commit time, and of several the one that was stored first.
pub open spec fn latest_index(commits: Seq<CommitView>, project_id: u32) -> Option<int>
    decreases commits.len(),
{
    if commits.len() == 0 {
        None
    } else {
        let earlier = latest_index(commits.drop_last(), project_id);
        if commits.last().project_id != project_id {
            earlier
        } else {
            match earlier {
                Some(i) => if commits.last().commit_time > commits[i].commit_time {
                    Some(commits.len() - 1)
                } else {
                    Some(i)
                },
                None => Some(commits.len() - 1),
            }
        }
    }
}

/// The latest commit of a project is one of its commits, and none of its
/// commits is later; a project without commits has no latest commit.
pub proof fn latest_commit_is_latest(commits: Seq<CommitView>, project_id: u32)
    ensures
        match latest_index(commits, project_id) {
            Some(i) => {
                &&& 0 <= i < commits.len()
                &&& commits[i].project_id == project_id
                &&& forall|j: int|
                    0 <= j < commits.len() && commits[j].project_id == project_id
                        ==> commits[j].commit_time <= commits[i].commit_time
                &&& forall|j: int|
                    0 <= j < i && commits[j].project_id == project_id ==> commits[j].commit_time
                        < commits[i].commit_time
            },
            None => forall|j: int| 0 <= j < commits.len() ==> commits[j].project_id != project_id,
        },
    decreases commits.len(),
{
    if commits.len() > 0 {
        latest_commit_is_latest(commits.drop_last(), project_id);
        assert(forall|j: int| 0 <= j < commits.len() - 1 ==> commits.drop_last()[j] == commits[j]);
    }
}

impl StoreView {
    /// Where the commit of project `project_id` with the sha `sha` stands.
    pub open spec fn commit_at(self, project_id: u32, sha: Seq<char>) -> Option<int> {
        first_index(self.commits, commit_keyed(project_id, sha))
    }

    /// Whether an id is left for one more commit.
    pub open spec fn can_add_commit(self) -> bool {
        self.next_commit < u32::MAX
    }

    /// The store with one more commit, stamped with the clock.
    pub open spec fn with_commit(
        self,
        owner_id: u32,
        project_id: u32,
        sha: Seq<char>,
        parent_sha: Option<Seq<Seq<char>>>,
        description: Seq<char>,
        commit_time: i64,
    ) -> StoreView {
        StoreView {
            commits: self.commits.push(
                CommitView {
                    id: self.next_commit,
                    project_id,
                    owner_id,
                    sha,
                    parent_sha,
                    description,
                    commit_time,
                    created_at: self.clock,
                    updated_at: self.clock,
                },
            ),
            next_commit: (self.next_commit + 1) as u32,
            ..self
        }
    }

    /// The store with owner, parents, description and time of the commit at
    /// `at` replaced, and its time of change set to the clock.
    pub open spec fn with_commit_details(
        self,
        at: int,
        owner_id: u32,
        parent_sha: Option<Seq<Seq<char>>>,
        description: Seq<char>,
        commit_time: i64,
    ) -> StoreView {
        StoreView {
            commits: self.commits.update(
                at,
                CommitView {
                    owner_id,
                    parent_sha,
                    description,
                    commit_time,
                    updated_at: self.clock,
                    ..self.commits[at]
                },
            ),
            ..self
        }
    }

    /// The store after the commit was written: replaced in its changeable
    /// fields where the project has a commit of that sha, else added.
    pub open spec fn upsert_commit(
        self,
        owner_id: u32,
        project_id: u32,
        sha: Seq<char>,
        parent_sha: Option<Seq<Seq<char>>>,
        description: Seq<char>,
        commit_time: i64,
    ) -> StoreView {
        match self.commit_at(project_id, sha) {
            Some(i) => self.with_commit_details(i, owner_id, parent_sha, description, commit_time),
            None => self.with_commit(
                owner_id,
                project_id,
                sha,
                parent_sha,
                description,
                commit_time,
            ),
        }
    }

    /// The time of the latest commit of a project.
    pub open spec fn latest_commit_time(self, project_id: u32) -> Option<i64> {
        match latest_index(self.commits, project_id) {
            Some(i) => Some(self.commits[i].commit_time),
            None => None,
        }
    }
}

/// Writing a commit keeps the store well formed, keeps every other commit as
/// it was, and leaves the commit where a look-up by project and sha finds it.
pub proof fn lemma_upsert_commit_wf(
    s: StoreView,
    owner_id: u32,
    project_id: u32,
    sha: Seq<char>,
    parent_sha: Option<Seq<Seq<char>>>,
    description: Seq<char>,
    commit_time: i64,
)
    requires
        s.wf(),
        s.commit_at(project_id, sha) is Some || s.can_add_commit(),
    ensures
        ({
            let t = s.upsert_commit(
                owner_id,
                project_id,
                sha,
                parent_sha,
                description,
                commit_time,
            );
            &&& t.wf()
            &&& t.commit_at(project_id, sha) == Some(
                match s.commit_at(project_id, sha) {
                    Some(i) => i,
                    None => s.commits.len() as int,
                },
            )
        }),
{
    let t = s.upsert_commit(owner_id, project_id, sha, parent_sha, description, commit_time);
    let p = commit_keyed(project_id, sha);
    lemma_first_index(s.commits, p);
    match s.commit_at(project_id, sha) {
        Some(at) => {
            assert forall|i: int| 0 <= i < t.commits.len() implies {
                &&& (#[trigger] t.commits[i]).id == s.commits[i].id
                &&& t.commits[i].project_id == s.commits[i].project_id
                &&& t.commits[i].sha == s.commits[i].sha
            } by {}
            assert forall|i: int, j: int| 0 <= i < j < t.commits.len() implies (
            #[trigger] t.commits[i]).id != (#[trigger] t.commits[j]).id && !(t.commits[i].project_id
                == t.commits[j].project_id && t.commits[i].sha == t.commits[j].sha) by {
                assert(s.commits[i].id != s.commits[j].id);
            }
            assert forall|i: int| 0 <= i < t.commits.len() implies (#[trigger] t.commits[i]).id
                < t.next_commit by {
                assert(s.commits[i].id < s.next_commit);
            }
            assert(p(t.commits[at]));
            assert forall|j: int| 0 <= j < at implies !p(t.commits[j]) by {
                assert(!p(s.commits[j]));
            }
            lemma_first_index_is(t.commits, p, at);
        },
        None => {
            assert forall|i: int, j: int| 0 <= i < j < t.commits.len() implies (
            #[trigger] t.commits[i]).id != (#[trigger] t.commits[j]).id && !(t.commits[i].project_id
                == t.commits[j].project_id && t.commits[i].sha == t.commits[j].sha) by {
                if j < s.commits.len() {
                    assert(t.commits[i] == s.commits[i] && t.commits[j] == s.commits[j]);
                } else {
                    assert(t.commits[i] == s.commits[i]);
                    assert(!p(s.commits[i]));
                }
            }
            assert forall|i: int| 0 <= i < t.commits.len() implies (#[trigger] t.commits[i]).id
                < t.next_commit by {
                if i < s.commits.len() {
                    assert(t.commits[i] == s.commits[i]);
                }
            }
            lemma_first_index_push(s.commits, p, t.commits.last());
            assert(p(t.commits.last()));
        },
    }
}

/// Where the commit of a project with a sha stands.
pub(crate) fn commit_position(commits: &Vec<Commit>, project_id: u32, sha: &str) -> (r: Option<
    usize,
>)
    ensures
        match r {
            Some(i) => first_index(commit_views(commits@), commit_keyed(project_id, sha@)) == Some(
                i as int,
            ),
            None => first_index(commit_views(commits@), commit_keyed(project_id, sha@)) is None,
        },
{
    let ghost p = commit_keyed(project_id, sha@);
    let ghost rows = commit_views(commits@);
    let mut i: usize = 0;
    while i < commits.len()
        invariant
            i <= commits.len(),
            rows == commit_views(commits@),
            p == commit_keyed(project_id, sha@),
            forall|j: int| 0 <= j < i ==> !p(rows[j]),
        decreases commits.len() - i,
    {
        assert(rows[i as int] == commits@[i as int]@);
        if commits[i].project_id == project_id && same_text(commits[i].sha.as_str(), sha) {
            proof {
                lemma_first_index_is(rows, p, i as int);
            }
            return Some(i);
        }
        i += 1;
    }
    proof {
        lemma_first_index_none(rows, p);
    }
    None
}

impl Commit {
    /// A second copy of the commit.
    pub fn duplicate(&self) -> (r: Commit)
        ensures
            r@ == self@,
    {
        Commit {
            id: self.id,
            project_id: self.project_id,
            owner_id: self.owner_id,
            sha: self.sha.clone(),
            parent_sha: copy_option_texts(&self.parent_sha),
            description: self.description.clone(),
            commit_time: self.commit_time,
            created_at: self.created_at,
            updated_at: self.updated_at,
        }
    }

    /// The commit with the id `id`.
    pub fn load(id: i64, store: &EntityStore) -> (r: Result<Commit, FownerError>)
        ensures
            match first_index(store@.commits, commit_numbered(id)) {
                Some(i) => r matches Ok(c) && c@ == store@.commits[i],
                None => r matches Err(FownerError::NotFound(_)),
            },
    {
        let ghost p = commit_numbered(id);
        let mut i: usize = 0;
        while i < store.commits.len()
            invariant
                i <= store.commits.len(),
                p == commit_numbered(id),
                forall|j: int| 0 <= j < i ==> !p(store@.commits[j]),
            decreases store.commits.len() - i,
        {
            if store.commits[i].id as i64 == id {
                proof {
                    lemma_first_index_is(store@.commits, p, i as int);
                }
                return Ok(store.commits[i].duplicate());
            }
            i += 1;
        }
        proof {
            lemma_first_index_none(store@.commits, p);
        }
        Err(FownerError::NotFound(String::from_str("Commit not found")))
    }

    /// The time of the latest commit of a project, if it has a commit.
    pub fn latest_commit_time(project_id: u32, store: &EntityStore) -> (r: Option<i64>)
        ensures
            r == store@.latest_commit_time(project_id),
    {
        match Self::fetch_latest_for_project(project_id, store) {
            Ok(commit) => Some(commit.commit_time),
            Err(_) => None,
        }
    }

    /// The latest commit of a project: the one with the greatest commit time.
    pub fn fetch_latest_for_project(project_id: u32, store: &EntityStore) -> (r: Result<
        Commit,
        FownerError,
    >)
        ensures
            match latest_index(store@.commits, project_id) {
                Some(i) => r matches Ok(c) && c@ == store@.commits[i],
                None => r matches Err(FownerError::NotFound(_)),
            },
    {
        let mut best: Option<usize> = None;
        let mut i: usize = 0;
        assert(store@.commits.take(0) =~= Seq::empty());
        while i < store.commits.len()
            invariant
                i <= store.commits.len(),
                match best {
                    Some(b) => b < i && latest_index(store@.commits.take(i as int), project_id)
                        == Some(b as int),
                    None => latest_index(store@.commits.take(i as int), project_id) is None,
                },
            decreases store.commits.len() - i,
        {
            let ghost next = store@.commits.take(i as int + 1);
            assert(next.drop_last() =~= store@.commits.take(i as int));
            assert(next.last() == store.commits@[i as int]@);
            if store.commits[i].project_id == project_id {
                match best {
                    Some(b) => {
                        assert(next[b as int] == store.commits@[b as int]@);
                        if store.commits[i].commit_time > store.commits[b].commit_time {
                            best = Some(i);
                        }
                    },
                    None => {
                        best = Some(i);
                    },
                }
            }
            i += 1;
        }
        assert(store@.commits.take(i as int) =~= store@.commits);
        match best {
            Some(b) => Ok(store.commits[b].duplicate()),
            None => Err(FownerError::NotFound(String::from_str("Commit not found"))),
        }
    }
}

impl NewCommit {
    /// Writes the commit. Where the project has a commit of that sha, its
    /// owner, parents, description and time are replaced; else the commit is
    /// added under a new id. The write is refused only where a commit would
    /// have to be added and no id is left.
    pub fn save(&self, store: &mut EntityStore) -> (r: Result<Commit, FownerError>)
        requires
            old(store)@.wf(),
        ensures
            match r {
                Ok(c) => {
                    &&& old(store)@.commit_at(self.project_id, self.sha@) is Some || old(store)@.can_add_commit()
                    &&& final(store)@ == old(store)@.upsert_commit(
                        self.owner_id,
                        self.project_id,
                        self.sha@,
                        option_texts(self.parent_sha),
                        self.description@,
                        self.commit_time,
                    )
                    &&& final(store)@.commit_at(self.project_id, self.sha@) matches Some(i) && c@
                        == final(store)@.commits[i]
                    &&& c@ == (CommitView {
                        id: match old(store)@.commit_at(self.project_id, self.sha@) {
                            Some(i) => old(store)@.commits[i].id,
                            None => old(store)@.next_commit,
                        },
                        project_id: self.project_id,
                        owner_id: self.owner_id,
                        sha: self.sha@,
                        parent_sha: option_texts(self.parent_sha),
                        description: self.description@,
                        commit_time: self.commit_time,
                        created_at: match old(store)@.commit_at(self.project_id, self.sha@) {
                            Some(i) => old(store)@.commits[i].created_at,
                            None => old(store)@.clock,
                        },
                        updated_at: old(store)@.clock,
                    })
                },
                Err(e) => {
                    &&& old(store)@.commit_at(self.project_id, self.sha@) is None
                    &&& !old(store)@.can_add_commit()
                    &&& final(store)@ == old(store)@
                    &&& e is Store
                },
            },
            final(store)@.wf(),
    {
        let ghost before = store@;
        let ghost after = before.upsert_commit(
            self.owner_id,
            self.project_id,
            self.sha@,
            option_texts(self.parent_sha),
            self.description@,
            self.commit_time,
        );
        match commit_position(&store.commits, self.project_id, self.sha.as_str()) {
            Some(i) => {
                proof {
                    lemma_upsert_commit_wf(
                        before,
                        self.owner_id,
                        self.project_id,
                        self.sha@,
                        option_texts(self.parent_sha),
                        self.description@,
                        self.commit_time,
                    );
                    lemma_first_index(before.commits, commit_keyed(self.project_id, self.sha@));
                }
                assert(before.commits[i as int] == store.commits@[i as int]@);
                let row = Commit {
                    id: store.commits[i].id,
                    project_id: store.commits[i].project_id,
                    owner_id: self.owner_id,
                    sha: store.commits[i].sha.clone(),
                    parent_sha: copy_option_texts(&self.parent_sha),
                    description: self.description.clone(),
                    commit_time: self.commit_time,
                    created_at: store.commits[i].created_at,
                    updated_at: store.clock,
                };
                let out = row.duplicate();
                store.commits.set(i, row);
                assert(store@.commits =~= after.commits);
                assert(store@ == after);
                assert(out@ == after.commits[i as int]);
                Ok(out)
            },
            None => {
                if store.next_commit == u32::MAX {
                    return Err(FownerError::Store(String::from_str("no commit id is left")));
                }
                proof {
                    lemma_upsert_commit_wf(
                        before,
                        self.owner_id,
                        self.project_id,
                        self.sha@,
                        option_texts(self.parent_sha),
                        self.description@,
                        self.commit_time,
                    );
                }
                let row = Commit {
                    id: store.next_commit,
                    project_id: self.project_id,
                    owner_id: self.owner_id,
                    sha: self.sha.clone(),
                    parent_sha: copy_option_texts(&self.parent_sha),
                    description: self.description.clone(),
                    commit_time: self.commit_time,
                    created_at: store.clock,
                    updated_at: store.clock,
                };
                let out = row.duplicate();
                store.next_commit = store.next_commit + 1;
                store.commits.push(row);
                assert(store@.commits =~= after.commits);
                assert(store@ == after);
                assert(out@ == after.commits[before.commits.len() as int]);
                Ok(out)
            },
        }
    }
}

/// Holds of the commits whose sha begins with `prefix`, up to the case of
/// ASCII letters.
pub open spec fn sha_begins(prefix: Seq<char>) -> spec_fn(CommitView) -> bool {
    |c: CommitView| begins_with_ignoring_case(c.sha, prefix)
}

/// Where the earliest of the commits stands that `p` holds of: the one with
/// the least commit time, and of several the one that was stored first.
pub open spec fn earliest_index(commits: Seq<CommitView>, p: spec_fn(CommitView) -> bool) -> Option<
    int,
>
    decreases commits.len(),
{
    if commits.len() == 0 {
        None
    } else {
        let earlier = earliest_index(commits.drop_last(), p);
        if !p(commits.last()) {
            earlier
        } else {
            match earlier {
                Some(i) => if commits.last().commit_time < commits[i].commit_time {
                    Some(commits.len() - 1)
                } else {
                    Some(i)
                },
                None => Some(commits.len() - 1),
            }
        }
    }
}

/// The earliest of the commits that `p` holds of is one of them, and none of
/// them is earlier; there is none where `p` holds of no commit.
pub proof fn earliest_commit_is_earliest(commits: Seq<CommitView>, p: spec_fn(CommitView) -> bool)
    ensures
        match earliest_index(commits, p) {
            Some(i) => {
                &&& 0 <= i < commits.len()
                &&& p(commits[i])
                &&& forall|j: int|
                    0 <= j < commits.len() && p(commits[j]) ==> commits[i].commit_time
                        <= commits[j].commit_time
            },
            None => forall|j: int| 0 <= j < commits.len() ==> !p(commits[j]),
        },
    decreases commits.len(),
{
    if commits.len() > 0 {
        earliest_commit_is_earliest(commits.drop_last(), p);
        assert(forall|j: int| 0 <= j < commits.len() - 1 ==> commits.drop_last()[j] == commits[j]);
    }
}

impl Commit {
    /// The earliest commit whose sha begins with `sha`, whatever the case of
    /// its letters.
    pub fn load_by_sha(sha: String, store: &EntityStore) -> (r: Result<Commit, FownerError>)
        ensures
            match earliest_index(store@.commits, sha_begins(sha@)) {
                Some(i) => r matches Ok(c) && c@ == store@.commits[i],
                None => r matches Err(FownerError::NotFound(_)),
            },
    {
        let ghost p = sha_begins(sha@);
        let prefix = chars_of(sha.as_str());
        let mut best: Option<usize> = None;
        let mut i: usize = 0;
        assert(store@.commits.take(0) =~= Seq::empty());
        while i < store.commits.len()
            invariant
                i <= store.commits.len(),
                p == sha_begins(sha@),
                prefix@ == sha@,
                match best {
                    Some(b) => b < i && earliest_index(store@.commits.take(i as int), p) == Some(
                        b as int,
                    ),
                    None => earliest_index(store@.commits.take(i as int), p) is None,
                },
            decreases store.commits.len() - i,
        {
            let ghost next = store@.commits.take(i as int + 1);
            assert(next.drop_last() =~= store@.commits.take(i as int));
            assert(next.last() == store.commits@[i as int]@);
            let whole = chars_of(store.commits[i].sha.as_str());
            if begins_ignoring_case(&whole, &prefix) {
                match best {
                    Some(b) => {
                        assert(next[b as int] == store.commits@[b as int]@);
                        if store.commits[i].commit_time < store.commits[b].commit_time {
                            best = Some(i);
                        }
                    },
                    None => {
                        best = Some(i);
                    },
                }
            }
            i += 1;
        }
        assert(store@.commits.take(i as int) =~= store@.commits);
        match best {
            Some(b) => Ok(store.commits[b].duplicate()),
            None => Err(FownerError::NotFound(String::from_str("Commit not found"))),
        }
    }
}

/// The field by which commits are sorted where `field` is asked for: the
/// field itself where it is `description` or `commit_time`, else
/// `commit_time`.
pub open spec fn sort_field(field: Option<Seq<char>>) -> Seq<char> {
    match field {
        Some(f) if f == "description"@ || f == "commit_time"@ => f,
        _ => "commit_time"@,
    }
}

impl Commit {
    /// The field by which commits are sorted where `field` is asked for.
    pub fn sort_by_field(field: Option<String>) -> (r: String)
        ensures
            r@ == sort_field(crate::text::option_text(field)),
    {
        match field {
            Some(f) => {
                if same_text(f.as_str(), "description") || same_text(f.as_str(), "commit_time") {
                    return f;
                }
            },
            None => {},
        }
        String::from_str("commit_time")
    }
}

impl Commit {
    /// The two commits as the ends of a span of time: the earlier first.
    /// Commits of two projects span nothing.
    pub fn span(from_commit: Commit, to_commit: Commit) -> (r: Result<(Commit, Commit), FownerError>)
        ensures
            match r {
                Ok(ends) => {
                    &&& from_commit.project_id == to_commit.project_id
                    &&& ends == if from_commit.commit_time > to_commit.commit_time {
                        (to_commit, from_commit)
                    } else {
                        (from_commit, to_commit)
                    }
                    &&& ends.0.commit_time <= ends.1.commit_time
                },
                Err(e) => {
                    &&& from_commit.project_id != to_commit.project_id
                    &&& e matches FownerError::GitError(m) && m@
                        == "Commits are from different projects"@
                },
            },
    {
        if from_commit.project_id != to_commit.project_id {
            return Err(FownerError::GitError(String::from_str("Commits are from different projects")));
        }
        if from_commit.commit_time > to_commit.commit_time {
            Ok((to_commit, from_commit))
        } else {
            Ok((from_commit, to_commit))
        }
    }
}

} // verus!
