//! The store as plain lists of rows: how it is handed to the code that keeps
//! it on disk, and how it is taken back from there.

use crate::db::models::commit::Commit;
use crate::db::models::feature::Feature;
use crate::db::models::file::File;
use crate::db::models::file_commit::FileCommit;
use crate::db::models::file_feature::FileFeature;
use crate::db::models::file_owner::FileOwner;
use crate::db::models::owner::Owner;
use crate::db::{
    commit_links_rule, commit_views, commits_rule, feature_links_rule, feature_views,
    features_rule, file_owner_views, file_views, files_rule, owner_views, owners_rule,
    EntityStore, StoreView,
};
use crate::errors::FownerError;
use crate::text::same_text;
use vstd::prelude::*;

verus! {

/// All that a store holds. Any lists can be put together here; `restore`
/// takes only those that keep the rules of the store.
pub struct Snapshot {
    pub clock: i64,
    pub owners: Vec<Owner>,
    pub commits: Vec<Commit>,
    pub features: Vec<Feature>,
    pub files: Vec<File>,
    pub file_owners: Vec<FileOwner>,
    pub file_commits: Vec<FileCommit>,
    pub file_features: Vec<FileFeature>,
    pub next_owner: u32,
    pub next_commit: u32,
    pub next_feature: u32,
    pub next_file: u32,
}

impl View for Snapshot {
    type V = StoreView;

    open spec fn view(&self) -> StoreView {
        StoreView {
            clock: self.clock,
            owners: owner_views(self.owners@),
            commits: commit_views(self.commits@),
            features: feature_views(self.features@),
            files: file_views(self.files@),
            file_owners: file_owner_views(self.file_owners@),
            file_commits: self.file_commits@,
            file_features: self.file_features@,
            next_owner: self.next_owner,
            next_commit: self.next_commit,
            next_feature: self.next_feature,
            next_file: self.next_file,
        }
    }
}

/// Whether no two owners share an id or a handle, and every id is below `next`.
fn owners_ok(rows: &Vec<Owner>, next: u32) -> (r: bool)
    ensures
        r == owners_rule(owner_views(rows@), next),
{
    let ghost v = owner_views(rows@);
    let mut i: usize = 0;
    while i < rows.len()
        invariant
            i <= rows.len(),
            v == owner_views(rows@),
            forall|a: int| 0 <= a < i ==> (#[trigger] v[a]).id < next,
            forall|a: int, b: int|
                0 <= a < b < i ==> (#[trigger] v[a]).id != (#[trigger] v[b]).id && !(v[a].handle == v[b].handle),
        decreases rows.len() - i,
    {
        assert(v[i as int] == rows@[i as int]@);
        if rows[i].id >= next {
            return false;
        }
        let mut j: usize = 0;
        while j < i
            invariant
                j <= i < rows.len(),
                v == owner_views(rows@),
                forall|a: int, b: int|
                    0 <= a < j && b == i ==> (#[trigger] v[a]).id != (#[trigger] v[b]).id && !(v[a].handle == v[b].handle),
            decreases i - j,
        {
            assert(v[i as int] == rows@[i as int]@);
            assert(v[j as int] == rows@[j as int]@);
            if rows[j].id == rows[i].id || (same_text(rows[j].handle.as_str(), rows[i].handle.as_str())) {
                return false;
            }
            j += 1;
        }
        i += 1;
    }
    true
}

/// Whether no two commits share an id, or a project and a sha, and every id is below `next`.
fn commits_ok(rows: &Vec<Commit>, next: u32) -> (r: bool)
    ensures
        r == commits_rule(commit_views(rows@), next),
{
    let ghost v = commit_views(rows@);
    let mut i: usize = 0;
    while i < rows.len()
        invariant
            i <= rows.len(),
            v == commit_views(rows@),
            forall|a: int| 0 <= a < i ==> (#[trigger] v[a]).id < next,
            forall|a: int, b: int|
                0 <= a < b < i ==> (#[trigger] v[a]).id != (#[trigger] v[b]).id && !(v[a].project_id == v[b].project_id && v[a].sha == v[b].sha),
        decreases rows.len() - i,
    {
        assert(v[i as int] == rows@[i as int]@);
        if rows[i].id >= next {
            return false;
        }
        let mut j: usize = 0;
        while j < i
            invariant
                j <= i < rows.len(),
                v == commit_views(rows@),
                forall|a: int, b: int|
                    0 <= a < j && b == i ==> (#[trigger] v[a]).id != (#[trigger] v[b]).id && !(v[a].project_id == v[b].project_id && v[a].sha == v[b].sha),
            decreases i - j,
        {
            assert(v[i as int] == rows@[i as int]@);
            assert(v[j as int] == rows@[j as int]@);
            if rows[j].id == rows[i].id || (rows[j].project_id == rows[i].project_id && same_text(rows[j].sha.as_str(), rows[i].sha.as_str())) {
                return false;
            }
            j += 1;
        }
        i += 1;
    }
    true
}

/// Whether no two features share an id, or a project and a name, and every id is below `next`.
fn features_ok(rows: &Vec<Feature>, next: u32) -> (r: bool)
    ensures
        r == features_rule(feature_views(rows@), next),
{
    let ghost v = feature_views(rows@);
    let mut i: usize = 0;
    while i < rows.len()
        invariant
            i <= rows.len(),
            v == feature_views(rows@),
            forall|a: int| 0 <= a < i ==> (#[trigger] v[a]).id < next,
            forall|a: int, b: int|
                0 <= a < b < i ==> (#[trigger] v[a]).id != (#[trigger] v[b]).id && !(v[a].project_id == v[b].project_id && v[a].name == v[b].name),
        decreases rows.len() - i,
    {
        assert(v[i as int] == rows@[i as int]@);
        if rows[i].id >= next {
            return false;
        }
        let mut j: usize = 0;
        while j < i
            invariant
                j <= i < rows.len(),
                v == feature_views(rows@),
                forall|a: int, b: int|
                    0 <= a < j && b == i ==> (#[trigger] v[a]).id != (#[trigger] v[b]).id && !(v[a].project_id == v[b].project_id && v[a].name == v[b].name),
            decreases i - j,
        {
            assert(v[i as int] == rows@[i as int]@);
            assert(v[j as int] == rows@[j as int]@);
            if rows[j].id == rows[i].id || (rows[j].project_id == rows[i].project_id && same_text(rows[j].name.as_str(), rows[i].name.as_str())) {
                return false;
            }
            j += 1;
        }
        i += 1;
    }
    true
}

/// Whether no two files share an id, or a project and a path, and every id is below `next`.
fn files_ok(rows: &Vec<File>, next: u32) -> (r: bool)
    ensures
        r == files_rule(file_views(rows@), next),
{
    let ghost v = file_views(rows@);
    let mut i: usize = 0;
    while i < rows.len()
        invariant
            i <= rows.len(),
            v == file_views(rows@),
            forall|a: int| 0 <= a < i ==> (#[trigger] v[a]).id < next,
            forall|a: int, b: int|
                0 <= a < b < i ==> (#[trigger] v[a]).id != (#[trigger] v[b]).id && !(v[a].project_id == v[b].project_id && v[a].path == v[b].path),
        decreases rows.len() - i,
    {
        assert(v[i as int] == rows@[i as int]@);
        if rows[i].id >= next {
            return false;
        }
        let mut j: usize = 0;
        while j < i
            invariant
                j <= i < rows.len(),
                v == file_views(rows@),
                forall|a: int, b: int|
                    0 <= a < j && b == i ==> (#[trigger] v[a]).id != (#[trigger] v[b]).id && !(v[a].project_id == v[b].project_id && v[a].path == v[b].path),
            decreases i - j,
        {
            assert(v[i as int] == rows@[i as int]@);
            assert(v[j as int] == rows@[j as int]@);
            if rows[j].id == rows[i].id || (rows[j].project_id == rows[i].project_id && same_text(rows[j].path.as_str(), rows[i].path.as_str())) {
                return false;
            }
            j += 1;
        }
        i += 1;
    }
    true
}

/// Whether no file is linked twice to one commit, nor twice to one feature.
fn links_ok(commits: &Vec<FileCommit>, features: &Vec<FileFeature>) -> (r: bool)
    ensures
        r == (commit_links_rule(commits@) && feature_links_rule(features@)),
{
    let mut i: usize = 0;
    while i < commits.len()
        invariant
            i <= commits.len(),
            forall|a: int, b: int|
                0 <= a < b < i ==> (#[trigger] commits@[a]) != (#[trigger] commits@[b]),
        decreases commits.len() - i,
    {
        let mut j: usize = 0;
        while j < i
            invariant
                j <= i < commits.len(),
                forall|a: int, b: int|
                    0 <= a < j && b == i ==> (#[trigger] commits@[a]) != (
                    #[trigger] commits@[b]),
            decreases i - j,
        {
            if commits[j].file_id == commits[i].file_id && commits[j].commit_id
                == commits[i].commit_id {
                assert(commits@[j as int] == commits@[i as int]);
                return false;
            }
            j += 1;
        }
        i += 1;
    }
    let mut i: usize = 0;
    while i < features.len()
        invariant
            i <= features.len(),
            forall|a: int, b: int|
                0 <= a < b < commits.len() ==> (#[trigger] commits@[a]) != (
                #[trigger] commits@[b]),
            forall|a: int, b: int|
                0 <= a < b < i ==> !((#[trigger] features@[a]).file_id == (
                #[trigger] features@[b]).file_id && features@[a].feature_id
                    == features@[b].feature_id),
        decreases features.len() - i,
    {
        let mut j: usize = 0;
        while j < i
            invariant
                j <= i < features.len(),
                forall|a: int, b: int|
                    0 <= a < j && b == i ==> !((#[trigger] features@[a]).file_id == (
                    #[trigger] features@[b]).file_id && features@[a].feature_id
                        == features@[b].feature_id),
            decreases i - j,
        {
            if features[j].file_id == features[i].file_id && features[j].feature_id
                == features[i].feature_id {
                assert(features@[j as int].file_id == features@[i as int].file_id);
                return false;
            }
            j += 1;
        }
        i += 1;
    }
    true
}

fn copy_owners(rows: &Vec<Owner>) -> (r: Vec<Owner>)
    ensures
        owner_views(r@) == owner_views(rows@),
{
    let mut out: Vec<Owner> = Vec::new();
    let mut i: usize = 0;
    while i < rows.len()
        invariant
            i <= rows.len(),
            owner_views(out@) == owner_views(rows@).take(i as int),
        decreases rows.len() - i,
    {
        let ghost before = owner_views(out@);
        out.push(rows[i].duplicate());
        assert(owner_views(out@) =~= before.push(rows@[i as int]@));
        assert(owner_views(rows@).take(i as int + 1) =~= before.push(rows@[i as int]@));
        i += 1;
    }
    assert(owner_views(rows@).take(i as int) =~= owner_views(rows@));
    out
}

fn copy_commits(rows: &Vec<Commit>) -> (r: Vec<Commit>)
    ensures
        commit_views(r@) == commit_views(rows@),
{
    let mut out: Vec<Commit> = Vec::new();
    let mut i: usize = 0;
    while i < rows.len()
        invariant
            i <= rows.len(),
            commit_views(out@) == commit_views(rows@).take(i as int),
        decreases rows.len() - i,
    {
        let ghost before = commit_views(out@);
        out.push(rows[i].duplicate());
        assert(commit_views(out@) =~= before.push(rows@[i as int]@));
        assert(commit_views(rows@).take(i as int + 1) =~= before.push(rows@[i as int]@));
        i += 1;
    }
    assert(commit_views(rows@).take(i as int) =~= commit_views(rows@));
    out
}

fn copy_features(rows: &Vec<Feature>) -> (r: Vec<Feature>)
    ensures
        feature_views(r@) == feature_views(rows@),
{
    let mut out: Vec<Feature> = Vec::new();
    let mut i: usize = 0;
    while i < rows.len()
        invariant
            i <= rows.len(),
            feature_views(out@) == feature_views(rows@).take(i as int),
        decreases rows.len() - i,
    {
        let ghost before = feature_views(out@);
        out.push(rows[i].duplicate());
        assert(feature_views(out@) =~= before.push(rows@[i as int]@));
        assert(feature_views(rows@).take(i as int + 1) =~= before.push(rows@[i as int]@));
        i += 1;
    }
    assert(feature_views(rows@).take(i as int) =~= feature_views(rows@));
    out
}

fn copy_files(rows: &Vec<File>) -> (r: Vec<File>)
    ensures
        file_views(r@) == file_views(rows@),
{
    let mut out: Vec<File> = Vec::new();
    let mut i: usize = 0;
    while i < rows.len()
        invariant
            i <= rows.len(),
            file_views(out@) == file_views(rows@).take(i as int),
        decreases rows.len() - i,
    {
        let ghost before = file_views(out@);
        out.push(rows[i].duplicate());
        assert(file_views(out@) =~= before.push(rows@[i as int]@));
        assert(file_views(rows@).take(i as int + 1) =~= before.push(rows@[i as int]@));
        i += 1;
    }
    assert(file_views(rows@).take(i as int) =~= file_views(rows@));
    out
}

fn copy_file_owners(rows: &Vec<FileOwner>) -> (r: Vec<FileOwner>)
    ensures
        file_owner_views(r@) == file_owner_views(rows@),
{
    let mut out: Vec<FileOwner> = Vec::new();
    let mut i: usize = 0;
    while i < rows.len()
        invariant
            i <= rows.len(),
            file_owner_views(out@) == file_owner_views(rows@).take(i as int),
        decreases rows.len() - i,
    {
        let ghost before = file_owner_views(out@);
        out.push(rows[i].duplicate());
        assert(file_owner_views(out@) =~= before.push(rows@[i as int]@));
        assert(file_owner_views(rows@).take(i as int + 1) =~= before.push(rows@[i as int]@));
        i += 1;
    }
    assert(file_owner_views(rows@).take(i as int) =~= file_owner_views(rows@));
    out
}

fn copy_links<T: Copy>(rows: &Vec<T>) -> (r: Vec<T>)
    ensures
        r@ == rows@,
{
    let mut out: Vec<T> = Vec::new();
    let mut i: usize = 0;
    while i < rows.len()
        invariant
            i <= rows.len(),
            out@ == rows@.take(i as int),
        decreases rows.len() - i,
    {
        out.push(rows[i]);
        assert(rows@.take(i as int + 1) =~= rows@.take(i as int).push(rows@[i as int]));
        i += 1;
    }
    assert(rows@.take(i as int) =~= rows@);
    out
}

impl EntityStore {
    /// All that the store holds, in copies.
    pub fn snapshot(&self) -> (r: Snapshot)
        ensures
            r@ == self@,
    {
        Snapshot {
            clock: self.clock,
            owners: copy_owners(&self.owners),
            commits: copy_commits(&self.commits),
            features: copy_features(&self.features),
            files: copy_files(&self.files),
            file_owners: copy_file_owners(&self.file_owners),
            file_commits: copy_links(&self.file_commits),
            file_features: copy_links(&self.file_features),
            next_owner: self.next_owner,
            next_commit: self.next_commit,
            next_feature: self.next_feature,
            next_file: self.next_file,
        }
    }

    /// The store that holds the rows of the snapshot. The snapshot is refused
    /// where it breaks a rule of the store: two rows under one id or key, or
    /// an id that is still to be handed out.
    pub fn restore(snapshot: Snapshot) -> (r: Result<EntityStore, FownerError>)
        ensures
            match r {
                Ok(store) => snapshot@.wf() && store@ == snapshot@,
                Err(e) => !snapshot@.wf() && e is Store,
            },
    {
        if !owners_ok(&snapshot.owners, snapshot.next_owner) {
            return Err(FownerError::Store(String::from_str("the owners break a rule")));
        }
        if !commits_ok(&snapshot.commits, snapshot.next_commit) {
            return Err(FownerError::Store(String::from_str("the commits break a rule")));
        }
        if !features_ok(&snapshot.features, snapshot.next_feature) {
            return Err(FownerError::Store(String::from_str("the features break a rule")));
        }
        if !files_ok(&snapshot.files, snapshot.next_file) {
            return Err(FownerError::Store(String::from_str("the files break a rule")));
        }
        if !links_ok(&snapshot.file_commits, &snapshot.file_features) {
            return Err(FownerError::Store(String::from_str("the links break a rule")));
        }
        Ok(
            EntityStore {
                clock: snapshot.clock,
                owners: snapshot.owners,
                commits: snapshot.commits,
                features: snapshot.features,
                files: snapshot.files,
                file_owners: snapshot.file_owners,
                file_commits: snapshot.file_commits,
                file_features: snapshot.file_features,
                next_owner: snapshot.next_owner,
                next_commit: snapshot.next_commit,
                next_feature: snapshot.next_feature,
                next_file: snapshot.next_file,
            },
        )
    }
}

} // verus!
