//! The link between a file and a commit that changed it.

use crate::db::models::commit::Commit;
use crate::db::models::file::{File, FileView};
use crate::db::{
    file_views, first_index, lemma_first_index, lemma_first_index_is, lemma_first_index_none,
    lemma_first_index_push, EntityStore, StoreView,
};
use crate::errors::FownerError;
use vstd::prelude::*;

verus! {

/// File `file_id` was changed in commit `commit_id`.
#[derive(Clone, Copy, Debug, PartialEq, Eq, Structural)]
pub struct FileCommit {
    pub file_id: u32,
    pub commit_id: u32,
}

/// Holds of the link between file `file_id` and commit `commit_id`.
pub open spec fn commit_link(file_id: u32, commit_id: u32) -> spec_fn(FileCommit) -> bool {
    |l: FileCommit| l.file_id == file_id && l.commit_id == commit_id
}

impl StoreView {
    /// Where the link between a file and a commit stands.
    pub open spec fn commit_link_at(self, file_id: u32, commit_id: u32) -> Option<int> {
        first_index(self.file_commits, commit_link(file_id, commit_id))
    }

    /// The store in which the file is linked to the commit: the store itself
    /// where it is, else the store with the link added.
    pub open spec fn link_commit(self, file_id: u32, commit_id: u32) -> StoreView {
        if self.commit_link_at(file_id, commit_id) is Some {
            self
        } else {
            StoreView {
                file_commits: self.file_commits.push(FileCommit { file_id, commit_id }),
                ..self
            }
        }
    }
}

/// Linking a file to a commit keeps the store well formed, and the link is
/// there afterwards.
pub proof fn lemma_link_commit_wf(s: StoreView, file_id: u32, commit_id: u32)
    requires
        s.wf(),
    ensures
        s.link_commit(file_id, commit_id).wf(),
        s.link_commit(file_id, commit_id).commit_link_at(file_id, commit_id) is Some,
{
    let t = s.link_commit(file_id, commit_id);
    let p = commit_link(file_id, commit_id);
    lemma_first_index(s.file_commits, p);
    if s.commit_link_at(file_id, commit_id) is None {
        assert forall|i: int, j: int| 0 <= i < j < t.file_commits.len() implies (
        #[trigger] t.file_commits[i]) != (#[trigger] t.file_commits[j]) by {
            if j < s.file_commits.len() {
                assert(t.file_commits[i] == s.file_commits[i] && t.file_commits[j]
                    == s.file_commits[j]);
            } else {
                assert(t.file_commits[i] == s.file_commits[i]);
                assert(!p(s.file_commits[i]));
            }
        }
        lemma_first_index_push(s.file_commits, p, t.file_commits.last());
        assert(p(t.file_commits.last()));
    }
}

impl FileCommit {
    /// Links the file to the commit. A link that is there already is left as
    /// it is.
    pub fn save(&self, store: &mut EntityStore) -> (r: Result<FileCommit, FownerError>)
        requires
            old(store)@.wf(),
        ensures
            final(store)@ == old(store)@.link_commit(self.file_id, self.commit_id),
            r == Ok::<FileCommit, FownerError>(*self),
            final(store)@.wf(),
    {
        let ghost before = store@;
        let ghost p = commit_link(self.file_id, self.commit_id);
        proof {
            lemma_link_commit_wf(before, self.file_id, self.commit_id);
        }
        let mut i: usize = 0;
        while i < store.file_commits.len()
            invariant
                i <= store.file_commits.len(),
                store@ == before,
                before == old(store)@,
                before.wf(),
                p == commit_link(self.file_id, self.commit_id),
                forall|j: int| 0 <= j < i ==> !p(before.file_commits[j]),
            decreases store.file_commits.len() - i,
        {
            if store.file_commits[i].file_id == self.file_id && store.file_commits[i].commit_id
                == self.commit_id {
                proof {
                    lemma_first_index_is(before.file_commits, p, i as int);
                }
                return Ok(*self);
            }
            i += 1;
        }
        proof {
            lemma_first_index_none(before.file_commits, p);
        }
        store.file_commits.push(FileCommit { file_id: self.file_id, commit_id: self.commit_id });
        assert(store@ == before.link_commit(self.file_id, self.commit_id));
        Ok(*self)
    }
}

/// Whether the link at `l` and the commit at `c` show that the file was
/// changed in a commit of the project with a time from `from` to `to`.
pub open spec fn shows_change(
    s: StoreView,
    l: int,
    c: int,
    file_id: u32,
    project_id: u32,
    from: i64,
    to: i64,
) -> bool {
    &&& 0 <= l < s.file_commits.len()
    &&& 0 <= c < s.commits.len()
    &&& s.file_commits[l].file_id == file_id
    &&& s.commits[c].id == s.file_commits[l].commit_id
    &&& s.commits[c].project_id == project_id
    &&& from <= s.commits[c].commit_time <= to
}

/// Whether the file was changed in a commit of the project with a time from
/// `from` to `to`.
pub open spec fn changed_between(s: StoreView, file_id: u32, project_id: u32, from: i64, to: i64)
    -> bool {
    exists|l: int, c: int| #[trigger] shows_change(s, l, c, file_id, project_id, from, to)
}

/// Holds of the files of project `project_id` that were changed in a commit
/// of project `commits_of` with a time from `from` to `to`.
pub open spec fn file_changed(s: StoreView, project_id: u32, commits_of: u32, from: i64, to: i64)
    -> spec_fn(FileView) -> bool {
    |f: FileView| f.project_id == project_id && changed_between(s, f.id, commits_of, from, to)
}

/// Whether the file was changed in a commit of the project with a time from
/// `from` to `to`.
pub fn was_changed_between(store: &EntityStore, file_id: u32, project_id: u32, from: i64, to: i64)
    -> (r: bool)
    ensures
        r == changed_between(store@, file_id, project_id, from, to),
{
    let mut l: usize = 0;
    while l < store.file_commits.len()
        invariant
            l <= store.file_commits.len(),
            forall|a: int, c: int|
                0 <= a < l ==> !#[trigger] shows_change(
                    store@,
                    a,
                    c,
                    file_id,
                    project_id,
                    from,
                    to,
                ),
        decreases store.file_commits.len() - l,
    {
        if store.file_commits[l].file_id == file_id {
            let mut c: usize = 0;
            while c < store.commits.len()
                invariant
                    c <= store.commits.len(),
                    l < store.file_commits.len(),
                    store.file_commits[l as int].file_id == file_id,
                    forall|b: int|
                        0 <= b < c ==> !#[trigger] shows_change(
                            store@,
                            l as int,
                            b,
                            file_id,
                            project_id,
                            from,
                            to,
                        ),
                decreases store.commits.len() - c,
            {
                assert(store@.commits[c as int] == store.commits@[c as int]@);
                if store.commits[c].id == store.file_commits[l].commit_id
                    && store.commits[c].project_id == project_id && from
                    <= store.commits[c].commit_time && store.commits[c].commit_time <= to {
                    assert(shows_change(store@, l as int, c as int, file_id, project_id, from, to));
                    return true;
                }
                c += 1;
            }
        }
        l += 1;
    }
    false
}

impl FileCommit {
    /// The files of project `project_id` that were changed in a commit of the
    /// project of `from_commit` whose time is not before that of
    /// `from_commit` and not after that of `to_commit`, in the order in which
    /// the files were stored.
    pub fn fetch_between(
        project_id: u32,
        from_commit: Commit,
        to_commit: Commit,
        store: &EntityStore,
    ) -> (r: Result<Vec<File>, FownerError>)
        ensures
            r matches Ok(v) && file_views(v@) == store@.files.filter(
                file_changed(
                    store@,
                    project_id,
                    from_commit.project_id,
                    from_commit.commit_time,
                    to_commit.commit_time,
                ),
            ),
    {
        let ghost p = file_changed(
            store@,
            project_id,
            from_commit.project_id,
            from_commit.commit_time,
            to_commit.commit_time,
        );
        let mut out: Vec<File> = Vec::new();
        let mut i: usize = 0;
        assert(store@.files.take(0) =~= Seq::empty());
        assert(file_views(out@) =~= Seq::empty());
        proof {
            reveal(Seq::filter);
        }
        while i < store.files.len()
            invariant
                i <= store.files.len(),
                p == file_changed(
                    store@,
                    project_id,
                    from_commit.project_id,
                    from_commit.commit_time,
                    to_commit.commit_time,
                ),
                file_views(out@) == store@.files.take(i as int).filter(p),
            decreases store.files.len() - i,
        {
            let ghost before = file_views(out@);
            let ghost next = store@.files.take(i as int + 1);
            assert(next.drop_last() =~= store@.files.take(i as int));
            assert(next.last() == store.files@[i as int]@);
            proof {
                reveal(Seq::filter);
            }
            if store.files[i].project_id == project_id && was_changed_between(
                store,
                store.files[i].id,
                from_commit.project_id,
                from_commit.commit_time,
                to_commit.commit_time,
            ) {
                out.push(store.files[i].duplicate());
                assert(file_views(out@) =~= before.push(next.last()));
            }
            i += 1;
        }
        assert(store@.files.take(i as int) =~= store@.files);
        Ok(out)
    }
}

} // verus!
