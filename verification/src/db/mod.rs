//! The entity store: owners, commits, features and files of the projects, and
//! the three relations between them.

pub mod dotfile;
pub mod laws;
pub mod migrations;
pub mod models;
pub mod processor;
pub mod snapshot;
pub mod stats;

use crate::db::models::commit::{Commit, CommitView};
use crate::db::models::feature::{Feature, FeatureView};
use crate::db::models::file::{File, FileView};
use crate::db::models::file_commit::FileCommit;
use crate::db::models::file_feature::FileFeature;
use crate::db::models::file_owner::{FileOwner, FileOwnerView};
use crate::db::models::owner::{Owner, OwnerView};
use vstd::prelude::*;

verus! {

/// The index of the first element of `s` that meets `p`.
pub open spec fn first_index<T>(s: Seq<T>, p: spec_fn(T) -> bool) -> Option<int>
    decreases s.len(),
{
    if s.len() == 0 {
        None
    } else {
        match first_index(s.drop_last(), p) {
            Some(i) => Some(i),
            None => if p(s.last()) {
                Some(s.len() - 1)
            } else {
                None
            },
        }
    }
}

pub proof fn lemma_first_index<T>(s: Seq<T>, p: spec_fn(T) -> bool)
    ensures
        match first_index(s, p) {
            Some(i) => 0 <= i < s.len() && p(s[i]) && forall|j: int| 0 <= j < i ==> !p(s[j]),
            None => forall|j: int| 0 <= j < s.len() ==> !p(s[j]),
        },
    decreases s.len(),
{
    if s.len() > 0 {
        lemma_first_index(s.drop_last(), p);
        assert(forall|j: int| 0 <= j < s.len() - 1 ==> s.drop_last()[j] == s[j]);
    }
}

pub proof fn lemma_first_index_is<T>(s: Seq<T>, p: spec_fn(T) -> bool, i: int)
    requires
        0 <= i < s.len(),
        p(s[i]),
        forall|j: int| 0 <= j < i ==> !p(s[j]),
    ensures
        first_index(s, p) == Some(i),
{
    lemma_first_index(s, p);
}

pub proof fn lemma_first_index_none<T>(s: Seq<T>, p: spec_fn(T) -> bool)
    requires
        forall|j: int| 0 <= j < s.len() ==> !p(s[j]),
    ensures
        first_index(s, p) is None,
{
    lemma_first_index(s, p);
}

pub proof fn lemma_first_index_push<T>(s: Seq<T>, p: spec_fn(T) -> bool, x: T)
    ensures
        first_index(s.push(x), p) == match first_index(s, p) {
            Some(i) => Some(i),
            None => if p(x) {
                Some(s.len() as int)
            } else {
                None
            },
        },
{
    assert(s.push(x).drop_last() =~= s);
}

/// No two owners share an id or a handle, and every id is below `next`.
pub open spec fn owners_rule(owners: Seq<OwnerView>, next: u32) -> bool {
    &&& forall|i: int| 0 <= i < owners.len() ==> (#[trigger] owners[i]).id < next
    &&& forall|i: int, j: int|
        0 <= i < j < owners.len() ==> (#[trigger] owners[i]).id != (#[trigger] owners[j]).id
    &&& forall|i: int, j: int|
        0 <= i < j < owners.len() ==> (#[trigger] owners[i]).handle != (
        #[trigger] owners[j]).handle
}

/// No two commits share an id, or a project and a sha, and every id is below `next`.
pub open spec fn commits_rule(commits: Seq<CommitView>, next: u32) -> bool {
    &&& forall|i: int| 0 <= i < commits.len() ==> (#[trigger] commits[i]).id < next
    &&& forall|i: int, j: int|
        0 <= i < j < commits.len() ==> (#[trigger] commits[i]).id != (#[trigger] commits[j]).id
    &&& forall|i: int, j: int|
        0 <= i < j < commits.len() ==> !((#[trigger] commits[i]).project_id == (
        #[trigger] commits[j]).project_id && commits[i].sha == commits[j].sha)
}

/// No two features share an id, or a project and a name, and every id is below `next`.
pub open spec fn features_rule(features: Seq<FeatureView>, next: u32) -> bool {
    &&& forall|i: int| 0 <= i < features.len() ==> (#[trigger] features[i]).id < next
    &&& forall|i: int, j: int|
        0 <= i < j < features.len() ==> (#[trigger] features[i]).id != (
        #[trigger] features[j]).id
    &&& forall|i: int, j: int|
        0 <= i < j < features.len() ==> !((#[trigger] features[i]).project_id == (
        #[trigger] features[j]).project_id && features[i].name == features[j].name)
}

/// No two files share an id, or a project and a path, and every id is below `next`.
pub open spec fn files_rule(files: Seq<FileView>, next: u32) -> bool {
    &&& forall|i: int| 0 <= i < files.len() ==> (#[trigger] files[i]).id < next
    &&& forall|i: int, j: int|
        0 <= i < j < files.len() ==> (#[trigger] files[i]).id != (#[trigger] files[j]).id
    &&& forall|i: int, j: int|
        0 <= i < j < files.len() ==> !((#[trigger] files[i]).project_id == (
        #[trigger] files[j]).project_id && files[i].path == files[j].path)
}

/// No file is linked twice to one commit.
pub open spec fn commit_links_rule(links: Seq<FileCommit>) -> bool {
    forall|i: int, j: int| 0 <= i < j < links.len() ==> (#[trigger] links[i]) != (#[trigger] links[j])
}

/// No file is linked twice to one feature.
pub open spec fn feature_links_rule(links: Seq<FileFeature>) -> bool {
    forall|i: int, j: int|
        0 <= i < j < links.len() ==> !((#[trigger] links[i]).file_id == (
        #[trigger] links[j]).file_id && links[i].feature_id == links[j].feature_id)
}

/// What the store holds, as plain values.
pub struct StoreView {
    /// The time that the next write is stamped with, in seconds since the epoch.
    pub clock: i64,
    pub owners: Seq<OwnerView>,
    pub commits: Seq<CommitView>,
    pub features: Seq<FeatureView>,
    pub files: Seq<FileView>,
    pub file_owners: Seq<FileOwnerView>,
    pub file_commits: Seq<FileCommit>,
    pub file_features: Seq<FileFeature>,
    /// The id that the next new owner gets; likewise below.
    pub next_owner: u32,
    pub next_commit: u32,
    pub next_feature: u32,
    pub next_file: u32,
}

impl StoreView {
    pub open spec fn empty(clock: i64) -> StoreView {
        StoreView {
            clock,
            owners: Seq::empty(),
            commits: Seq::empty(),
            features: Seq::empty(),
            files: Seq::empty(),
            file_owners: Seq::empty(),
            file_commits: Seq::empty(),
            file_features: Seq::empty(),
            next_owner: 1,
            next_commit: 1,
            next_feature: 1,
            next_file: 1,
        }
    }

    /// No two owners share an id or a handle, and every id was handed out.
    pub open spec fn owners_wf(self) -> bool {
        owners_rule(self.owners, self.next_owner)
    }

    /// No two commits share an id, or a project and a sha.
    pub open spec fn commits_wf(self) -> bool {
        commits_rule(self.commits, self.next_commit)
    }

    /// No two features share an id, or a project and a name.
    pub open spec fn features_wf(self) -> bool {
        features_rule(self.features, self.next_feature)
    }

    /// No two files share an id, or a project and a path.
    pub open spec fn files_wf(self) -> bool {
        files_rule(self.files, self.next_file)
    }

    /// No file is linked twice to one commit, nor twice to one feature.
    pub open spec fn links_wf(self) -> bool {
        commit_links_rule(self.file_commits) && feature_links_rule(self.file_features)
    }

    /// The uniqueness rules of the data model hold.
    pub open spec fn wf(self) -> bool {
        &&& self.owners_wf()
        &&& self.commits_wf()
        &&& self.features_wf()
        &&& self.files_wf()
        &&& self.links_wf()
    }
}

/// The store. It keeps the rows of each kind in the order in which they were
/// first written. Its fields cannot be reached from outside, and every store
/// that this library hands out is well formed: `wf` holds of its view.
pub struct EntityStore {
    pub(crate) clock: i64,
    pub(crate) owners: Vec<Owner>,
    pub(crate) commits: Vec<Commit>,
    pub(crate) features: Vec<Feature>,
    pub(crate) files: Vec<File>,
    pub(crate) file_owners: Vec<FileOwner>,
    pub(crate) file_commits: Vec<FileCommit>,
    pub(crate) file_features: Vec<FileFeature>,
    pub(crate) next_owner: u32,
    pub(crate) next_commit: u32,
    pub(crate) next_feature: u32,
    pub(crate) next_file: u32,
}

pub open spec fn owner_views(v: Seq<Owner>) -> Seq<OwnerView> {
    Seq::new(v.len(), |i: int| v[i]@)
}

pub open spec fn commit_views(v: Seq<Commit>) -> Seq<CommitView> {
    Seq::new(v.len(), |i: int| v[i]@)
}

pub open spec fn feature_views(v: Seq<Feature>) -> Seq<FeatureView> {
    Seq::new(v.len(), |i: int| v[i]@)
}

pub open spec fn file_views(v: Seq<File>) -> Seq<FileView> {
    Seq::new(v.len(), |i: int| v[i]@)
}

pub open spec fn file_owner_views(v: Seq<FileOwner>) -> Seq<FileOwnerView> {
    Seq::new(v.len(), |i: int| v[i]@)
}

impl View for EntityStore {
    type V = StoreView;

    open(crate) spec fn view(&self) -> StoreView {
        StoreView {
            clock: self.clock,
            owners: owner_views(self.owners@),
            commits: commit_views(self.commits@),
            features: feature_views(self.features@),
            files: file_views(self.files@),
            file_owners: file_owner_views(self.file_owners@),
            file_commits: self.file_commits@,
            file_features: self.file_features@,
            next_owner: self.next_owner,
            next_commit: self.next_commit,
            next_feature: self.next_feature,
            next_file: self.next_file,
        }
    }
}

impl EntityStore {
    /// An empty store whose clock shows `clock`.
    pub fn new(clock: i64) -> (r: EntityStore)
        ensures
            r@ == StoreView::empty(clock),
            r@.wf(),
    {
        let r = EntityStore {
            clock,
            owners: Vec::new(),
            commits: Vec::new(),
            features: Vec::new(),
            files: Vec::new(),
            file_owners: Vec::new(),
            file_commits: Vec::new(),
            file_features: Vec::new(),
            next_owner: 1,
            next_commit: 1,
            next_feature: 1,
            next_file: 1,
        };
        assert(r@.owners =~= Seq::empty());
        assert(r@.commits =~= Seq::empty());
        assert(r@.features =~= Seq::empty());
        assert(r@.files =~= Seq::empty());
        assert(r@.file_owners =~= Seq::empty());
        r
    }

    /// The time that writes are stamped with.
    pub fn clock(&self) -> (r: i64)
        ensures
            r == self@.clock,
    {
        self.clock
    }

    /// Sets the time that writes are stamped with from now on.
    pub fn set_clock(&mut self, clock: i64)
        requires
            old(self)@.wf(),
        ensures
            final(self)@ == (StoreView { clock, ..old(self)@ }),
            final(self)@.wf(),
    {
        self.clock = clock;
    }
}

} // verus!
