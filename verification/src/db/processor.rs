//! The ingestion of parsed commits into the store.
//!
//! Commits are taken oldest first. For each, the owner is resolved, the commit
//! written, the features resolved, and each changed file resolved and linked to
//! owner, commit and features.

use crate::db::models::commit::{commit_position, NewCommit};
use crate::db::models::feature::{feature_position, NewFeature};
use crate::db::models::file::{file_position, NewFile};
use crate::db::models::file_commit::FileCommit;
use crate::db::models::file_owner::NewFileOwner;
use crate::db::models::owner::{NewOwner, Owner};
use crate::db::models::project::{github_host, path_segments, Project, ProjectView};
use crate::db::{
    first_index, lemma_first_index, lemma_first_index_is, lemma_first_index_none, EntityStore,
    StoreView,
};
use crate::errors::FownerError;
use crate::git::history::{history_views, GitHistory, GitHistoryView};
use crate::git::github::Github;
use crate::text::{
    contains_text, copy_option_texts, copy_texts, option_text, option_texts, same_text,
    string_views,
};
use vstd::prelude::*;

verus! {

/// The feature names of a commit. The labels that the label source gave are
/// taken where it gave any; else the names in the commit's own summary, unless
/// the project takes its features from the label source alone.
pub open spec fn feature_names_for(
    lookup: Option<Seq<Seq<char>>>,
    inline: Seq<Seq<char>>,
    labels_only: bool,
) -> Seq<Seq<char>> {
    match lookup {
        Some(labels) if labels.len() > 0 => labels,
        _ => if labels_only {
            Seq::empty()
        } else {
            inline
        },
    }
}

/// The time of a commit as the store keeps it.
pub open spec fn commit_time_of(record: GitHistoryView) -> i64 {
    record.timestamp as i64
}

/// The project has a feature of each of the names.
pub open spec fn names_known(s: StoreView, project_id: u32, names: Seq<Seq<char>>) -> bool {
    forall|i: int| 0 <= i < names.len() ==> (#[trigger] s.feature_at(project_id, names[i])) is Some
}

/// The project has a file of each of the paths.
pub open spec fn paths_known(s: StoreView, project_id: u32, paths: Seq<Seq<char>>) -> bool {
    forall|i: int| 0 <= i < paths.len() ==> (#[trigger] s.file_at(project_id, paths[i])) is Some
}

impl StoreView {
    /// The store in which the project has a feature of each of the names.
    pub open spec fn resolve_features(self, project_id: u32, names: Seq<Seq<char>>) -> StoreView
        decreases names.len(),
    {
        if names.len() == 0 {
            self
        } else {
            self.resolve_features(project_id, names.drop_last()).resolve_feature(
                project_id,
                names.last(),
                None,
            )
        }
    }

    /// The ids of the features that `resolve_features` finds or adds, name by name.
    pub open spec fn resolved_feature_ids(self, project_id: u32, names: Seq<Seq<char>>) -> Seq<u32>
        decreases names.len(),
    {
        if names.len() == 0 {
            Seq::empty()
        } else {
            let s = self.resolve_features(project_id, names);
            self.resolved_feature_ids(project_id, names.drop_last()).push(
                s.features[s.feature_at(project_id, names.last()).unwrap()].id,
            )
        }
    }

    /// The store in which the file carries each of the features.
    pub open spec fn attach_features(self, file_id: u32, feature_ids: Seq<u32>) -> StoreView
        decreases feature_ids.len(),
    {
        if feature_ids.len() == 0 {
            self
        } else {
            self.attach_features(file_id, feature_ids.drop_last()).attach_feature(
                file_id,
                feature_ids.last(),
            )
        }
    }

    /// The store after one changed path of a commit was taken: the file is
    /// resolved, the owner's touch recorded, the file linked to the commit
    /// and, unless the file is excluded from tagging, to each feature.
    pub open spec fn touch_file(
        self,
        project_id: u32,
        path: Seq<char>,
        owner_id: u32,
        commit_id: u32,
        sha: Seq<char>,
        time: i64,
        feature_ids: Seq<u32>,
    ) -> StoreView {
        let resolved = self.resolve_file(project_id, path, false);
        let file = resolved.files[resolved.file_at(project_id, path).unwrap()];
        let linked = resolved.with_file_owner(file.id, owner_id, time, sha).link_commit(
            file.id,
            commit_id,
        );
        if file.no_features {
            linked
        } else {
            linked.attach_features(file.id, feature_ids)
        }
    }

    /// The store after the changed paths of a commit were taken, in order.
    pub open spec fn touch_files(
        self,
        project_id: u32,
        paths: Seq<Seq<char>>,
        owner_id: u32,
        commit_id: u32,
        sha: Seq<char>,
        time: i64,
        feature_ids: Seq<u32>,
    ) -> StoreView
        decreases paths.len(),
    {
        if paths.len() == 0 {
            self
        } else {
            self.touch_files(
                project_id,
                paths.drop_last(),
                owner_id,
                commit_id,
                sha,
                time,
                feature_ids,
            ).touch_file(project_id, paths.last(), owner_id, commit_id, sha, time, feature_ids)
        }
    }

    /// Whether the store can take the commit: the commit time fits, and ids
    /// are left for what the commit may add. An id is asked for an owner and
    /// for a commit where the store does not have them yet, and for as many
    /// features as the commit names where the store does not have them all;
    /// likewise for its files.
    pub open spec fn can_ingest(
        self,
        project_id: u32,
        record: GitHistoryView,
        names: Seq<Seq<char>>,
    ) -> bool {
        &&& record.timestamp <= i64::MAX
        &&& self.owner_named(record.handle) is Some || self.next_owner < u32::MAX
        &&& self.commit_at(project_id, record.sha) is Some || self.next_commit < u32::MAX
        &&& names_known(self, project_id, names) || self.next_feature + names.len() <= u32::MAX
        &&& paths_known(self, project_id, record.files) || self.next_file + record.files.len()
            <= u32::MAX
    }

    /// The store after one commit was ingested under the given feature names.
    pub open spec fn ingest_commit(
        self,
        project_id: u32,
        record: GitHistoryView,
        names: Seq<Seq<char>>,
    ) -> StoreView {
        let with_owner = self.resolve_owner(record.handle, None, None);
        let owner = with_owner.owners[with_owner.owner_named(record.handle).unwrap()];
        let with_commit = with_owner.upsert_commit(
            owner.id,
            project_id,
            record.sha,
            record.parent_sha,
            record.summary,
            commit_time_of(record),
        );
        let commit = with_commit.commits[with_commit.commit_at(project_id, record.sha).unwrap()];
        with_commit.resolve_features(project_id, names).touch_files(
            project_id,
            record.files,
            owner.id,
            commit.id,
            record.sha,
            commit_time_of(record),
            with_commit.resolved_feature_ids(project_id, names),
        )
    }
}

/// Two stores with the same features know the same names.
pub proof fn lemma_names_alike(s: StoreView, t: StoreView, project_id: u32, names: Seq<Seq<char>>)
    requires
        t.features == s.features,
    ensures
        names_known(s, project_id, names) == names_known(t, project_id, names),
{
    assert forall|i: int| 0 <= i < names.len() implies (#[trigger] s.feature_at(
        project_id,
        names[i],
    )) == t.feature_at(project_id, names[i]) by {}
    if names_known(s, project_id, names) {
        assert forall|i: int| 0 <= i < names.len() implies (#[trigger] t.feature_at(
            project_id,
            names[i],
        )) is Some by {
            assert(s.feature_at(project_id, names[i]) is Some);
        }
    }
    if names_known(t, project_id, names) {
        assert forall|i: int| 0 <= i < names.len() implies (#[trigger] s.feature_at(
            project_id,
            names[i],
        )) is Some by {
            assert(t.feature_at(project_id, names[i]) is Some);
        }
    }
}

/// Two stores with the same files know the same paths.
pub proof fn lemma_paths_alike(s: StoreView, t: StoreView, project_id: u32, paths: Seq<Seq<char>>)
    requires
        t.files == s.files,
    ensures
        paths_known(s, project_id, paths) == paths_known(t, project_id, paths),
{
    assert forall|i: int| 0 <= i < paths.len() implies (#[trigger] s.file_at(
        project_id,
        paths[i],
    )) == t.file_at(project_id, paths[i]) by {}
    if paths_known(s, project_id, paths) {
        assert forall|i: int| 0 <= i < paths.len() implies (#[trigger] t.file_at(
            project_id,
            paths[i],
        )) is Some by {
            assert(s.file_at(project_id, paths[i]) is Some);
        }
    }
    if paths_known(t, project_id, paths) {
        assert forall|i: int| 0 <= i < paths.len() implies (#[trigger] s.file_at(
            project_id,
            paths[i],
        )) is Some by {
            assert(t.file_at(project_id, paths[i]) is Some);
        }
    }
}

/// Holds of the records with the commit id `sha`.
pub open spec fn record_with_sha(sha: Seq<char>) -> spec_fn(GitHistoryView) -> bool {
    |r: GitHistoryView| r.sha == sha
}

/// How many records stand before the one at which the ingestion halts: the
/// first whose commit id is `stop_at_sha`. Without such a record, or without
/// a `stop_at_sha`, that is all of them.
pub open spec fn stop_index(records: Seq<GitHistoryView>, stop_at_sha: Option<Seq<char>>) -> int {
    match stop_at_sha {
        Some(sha) => match first_index(records, record_with_sha(sha)) {
            Some(i) => i,
            None => records.len() as int,
        },
        None => records.len() as int,
    }
}

pub open spec fn lookup_views(lookups: Seq<Option<Vec<String>>>) -> Seq<Option<Seq<Seq<char>>>> {
    Seq::new(lookups.len(), |i: int| option_texts(lookups[i]))
}

/// What the label source gave for the record at `i`; nothing where the list
/// of results does not reach that far.
pub open spec fn lookup_for(lookups: Seq<Option<Seq<Seq<char>>>>, i: int) -> Option<
    Seq<Seq<char>>,
> {
    if 0 <= i < lookups.len() {
        lookups[i]
    } else {
        None
    }
}

/// A store, and how many records of a batch it has taken.
pub struct Progress {
    pub store: StoreView,
    pub taken: nat,
}

impl StoreView {
    /// The store after the first `n` records of a batch were offered in
    /// order, and how many of them it took: it takes records until one does
    /// not fit, and none after that.
    pub open spec fn progress(
        self,
        project_id: u32,
        labels_only: bool,
        records: Seq<GitHistoryView>,
        lookups: Seq<Option<Seq<Seq<char>>>>,
        n: nat,
    ) -> Progress
        decreases n,
    {
        if n == 0 {
            Progress { store: self, taken: 0 }
        } else {
            let before = self.progress(project_id, labels_only, records, lookups, (n - 1) as nat);
            let names = feature_names_for(
                lookup_for(lookups, n - 1),
                records[n - 1].features,
                labels_only,
            );
            if before.taken == n - 1 && before.store.can_ingest(project_id, records[n - 1], names) {
                Progress {
                    store: before.store.ingest_commit(project_id, records[n - 1], names),
                    taken: n,
                }
            } else {
                before
            }
        }
    }
}

/// An ingestion under way: the batch, where it halts, whether the label source
/// is to be asked, and how many commits were ingested so far.
pub struct Ingestion {
    pub history: Vec<GitHistory>,
    pub stop_at_sha: Option<String>,
    pub fetch_labels: bool,
    pub position: usize,
}

/// What is to be done next for an ingestion under way.
pub enum Pending {
    /// Ask the label source for the commit with this id, then hand the answer
    /// to `advance`.
    Labels(String),
    /// Hand `None` to `advance`: the label source is not asked for this commit.
    Commit,
    /// Nothing: the batch is through, or the commit at which it halts is reached.
    Finished,
}

impl Ingestion {
    /// Whether nothing is left to do: the batch is through, or the next
    /// commit is the one at which the ingestion halts.
    pub open spec fn finished(&self) -> bool {
        self.position >= self.history.len() || option_text(self.stop_at_sha) == Some(
            self.history@[self.position as int]@.sha,
        )
    }

    /// The number of commits ingested so far, and the number in the batch.
    pub fn counts(&self) -> (r: (usize, usize))
        ensures
            r == (self.position, self.history.len()),
    {
        (self.position, self.history.len())
    }
}

/// Whether a label source can be derived from the project: it has the address
/// of a repository on the host of the label source, with owner and repository
/// in its path.
pub open spec fn has_label_source(project: ProjectView) -> bool {
    match project.repo_url {
        Some(url) => contains_text(url, github_host()) && path_segments(url).len() >= 2,
        None => false,
    }
}

/// Runs the ingestion of one project.
pub struct Processor {
    pub project: Project,
}

impl Processor {
    pub fn new(project: Project) -> (r: Processor)
        ensures
            r.project == project,
    {
        Processor { project }
    }

    /// The feature names under which a commit is ingested, from the features
    /// that the labels of the label source name (`None` where it was not
    /// asked or failed) and the names in the commit's own summary.
    pub fn source_feature_names(
        lookup: Option<Vec<String>>,
        inline: &Vec<String>,
        labels_only: bool,
    ) -> (r: Vec<String>)
        ensures
            string_views(r@) == feature_names_for(
                option_texts(lookup),
                string_views(inline@),
                labels_only,
            ),
    {
        match lookup {
            Some(labels) => {
                if labels.len() > 0 {
                    return labels;
                }
            },
            None => {},
        }
        if labels_only {
            let r: Vec<String> = Vec::new();
            assert(string_views(r@) =~= Seq::empty());
            r
        } else {
            copy_texts(inline)
        }
    }

    fn resolve_features(&self, store: &mut EntityStore, names: &Vec<String>) -> (r: Vec<u32>)
        requires
            old(store)@.wf(),
            names_known(old(store)@, self.project.id, string_views(names@)) || old(store)@.next_feature + names.len() <= u32::MAX,
        ensures
            final(store)@ == old(store)@.resolve_features(self.project.id, string_views(names@)),
            r@ == old(store)@.resolved_feature_ids(self.project.id, string_views(names@)),
            final(store)@.wf(),
            final(store)@.next_file == old(store)@.next_file,
            final(store)@.files == old(store)@.files,
    {
        let ghost before = store@;
        let ghost all = string_views(names@);
        let mut ids: Vec<u32> = Vec::new();
        let mut i: usize = 0;
        assert(all.take(0) =~= Seq::empty());
        while i < names.len()
            invariant
                i <= names.len(),
                all == string_views(names@),
                before == old(store)@,
                store@.wf(),
                store@ == before.resolve_features(self.project.id, all.take(i as int)),
                ids@ == before.resolved_feature_ids(self.project.id, all.take(i as int)),
                names_known(store@, self.project.id, all) || store@.next_feature + (names.len()
                    - i) <= u32::MAX,
                store@.next_file == before.next_file,
                store@.files == before.files,
            decreases names.len() - i,
        {
            let ghost taken = all.take(i as int + 1);
            assert(taken.drop_last() =~= all.take(i as int));
            assert(taken.last() == names@[i as int]@);
            assert(all[i as int] == names@[i as int]@);
            let new_feature = NewFeature {
                project_id: self.project.id,
                name: names[i].clone(),
                description: None,
            };
            match new_feature.save(store) {
                Ok(feature) => {
                    ids.push(feature.id);
                },
                Err(_) => {
                    assert(false);
                },
            }
            i += 1;
        }
        assert(all.take(i as int) =~= all);
        ids
    }

    fn attach_features(&self, store: &mut EntityStore, file: &crate::db::models::file::File, ids: &Vec<u32>)
        requires
            old(store)@.wf(),
        ensures
            final(store)@ == if file.no_features {
                old(store)@
            } else {
                old(store)@.attach_features(file.id, ids@)
            },
            final(store)@.wf(),
            final(store)@.next_file == old(store)@.next_file,
            final(store)@.files == old(store)@.files,
    {
        let ghost before = store@;
        let mut i: usize = 0;
        assert(ids@.take(0) =~= Seq::empty());
        while i < ids.len()
            invariant
                i <= ids.len(),
                before == old(store)@,
                store@.wf(),
                store@ == if file.no_features {
                    before
                } else {
                    before.attach_features(file.id, ids@.take(i as int))
                },
                store@.next_file == before.next_file,
                store@.files == before.files,
            decreases ids.len() - i,
        {
            assert(ids@.take(i as int + 1).drop_last() =~= ids@.take(i as int));
            let _ = file.add_feature(ids[i], store);
            i += 1;
        }
        assert(ids@.take(i as int) =~= ids@);
    }

    fn touch_files(
        &self,
        store: &mut EntityStore,
        record: &GitHistory,
        owner_id: u32,
        commit_id: u32,
        time: i64,
        ids: &Vec<u32>,
    )
        requires
            old(store)@.wf(),
            paths_known(old(store)@, self.project.id, record@.files) || old(store)@.next_file
                + record.files.len() <= u32::MAX,
        ensures
            final(store)@ == old(store)@.touch_files(
                self.project.id,
                record@.files,
                owner_id,
                commit_id,
                record@.sha,
                time,
                ids@,
            ),
            final(store)@.wf(),
    {
        let ghost before = store@;
        let ghost all = record@.files;
        let mut i: usize = 0;
        assert(all.take(0) =~= Seq::empty());
        while i < record.files.len()
            invariant
                i <= record.files.len(),
                all == record@.files,
                before == old(store)@,
                store@.wf(),
                store@ == before.touch_files(
                    self.project.id,
                    all.take(i as int),
                    owner_id,
                    commit_id,
                    record@.sha,
                    time,
                    ids@,
                ),
                paths_known(store@, self.project.id, all) || store@.next_file + (
                record.files.len() - i) <= u32::MAX,
            decreases record.files.len() - i,
        {
            let ghost taken = all.take(i as int + 1);
            assert(taken.drop_last() =~= all.take(i as int));
            assert(taken.last() == record.files@[i as int]@);
            assert(all[i as int] == record.files@[i as int]@);
            let ghost had = store@;
            let new_file = NewFile {
                project_id: self.project.id,
                path: record.files[i].clone(),
                no_features: false,
            };
            match new_file.save(store) {
                Ok(file) => {
                    let touched = NewFileOwner {
                        sha: record.sha.clone(),
                        file_id: file.id,
                        owner_id,
                        action_date: time,
                    };
                    let _ = touched.save(store);
                    let _ = FileCommit { file_id: file.id, commit_id }.save(store);
                    self.attach_features(store, &file, ids);
                    proof {
                        if paths_known(had, self.project.id, all) {
                            assert(had.file_at(self.project.id, all[i as int]) is Some);
                            assert(store@.files == had.files);
                            lemma_paths_alike(had, store@, self.project.id, all);
                        } else {
                            assert(store@.next_file <= had.next_file + 1);
                        }
                    }
                },
                Err(_) => {
                    assert(false);
                },
            }
            i += 1;
        }
        assert(all.take(i as int) =~= all);
    }

    /// Whether the store can take the commit under the given feature names.
    pub fn fits(&self, store: &EntityStore, record: &GitHistory, names: &Vec<String>) -> (r: bool)
        ensures
            r == store@.can_ingest(self.project.id, record@, string_views(names@)),
    {
        if record.timestamp as u64 > i64::MAX as u64 {
            return false;
        }
        if store.next_owner == u32::MAX && Owner::load_by_handle(
            record.handle.clone(),
            store,
        ).is_err() {
            return false;
        }
        if store.next_commit == u32::MAX && commit_position(
            &store.commits,
            self.project.id,
            record.sha.as_str(),
        ).is_none() {
            return false;
        }
        if names.len() as u64 > (u32::MAX - store.next_feature) as u64 {
            let ghost all = string_views(names@);
            let mut i: usize = 0;
            while i < names.len()
                invariant
                    i <= names.len(),
                    all == string_views(names@),
                    store@.next_feature + names.len() > u32::MAX,
                    forall|j: int|
                        0 <= j < i ==> (#[trigger] store@.feature_at(self.project.id, all[j]))
                            is Some,
                decreases names.len() - i,
            {
                assert(all[i as int] == names@[i as int]@);
                if feature_position(&store.features, self.project.id, names[i].as_str()).is_none() {
                    assert(!(store@.feature_at(self.project.id, all[i as int]) is Some));
                    assert(!names_known(store@, self.project.id, all));
                    return false;
                }
                i += 1;
            }
        }
        if record.files.len() as u64 > (u32::MAX - store.next_file) as u64 {
            let ghost all = record@.files;
            let mut i: usize = 0;
            while i < record.files.len()
                invariant
                    i <= record.files.len(),
                    all == record@.files,
                    store@.next_file + record.files.len() > u32::MAX,
                    forall|j: int|
                        0 <= j < i ==> (#[trigger] store@.file_at(self.project.id, all[j])) is Some,
                decreases record.files.len() - i,
            {
                assert(all[i as int] == record.files@[i as int]@);
                if file_position(&store.files, self.project.id, record.files[i].as_str()).is_none() {
                    assert(!(store@.file_at(self.project.id, all[i as int]) is Some));
                    assert(!paths_known(store@, self.project.id, all));
                    return false;
                }
                i += 1;
            }
        }
        true
    }

    /// Ingests one commit. `lookup` holds the features that the labels of the
    /// label source name for it; it is `None` where the label source was not
    /// asked or failed.
    ///
    /// The commit is refused as a whole, and the store left as it is, where
    /// its time does not fit the store's, or ids may run out. A commit that
    /// adds no owner, commit, feature or file is never refused for want of ids.
    pub fn store_commit(
        &self,
        store: &mut EntityStore,
        record: &GitHistory,
        lookup: Option<Vec<String>>,
    ) -> (r: Result<(), FownerError>)
        requires
            old(store)@.wf(),
        ensures
            ({
                let names = feature_names_for(
                    option_texts(lookup),
                    record@.features,
                    self.project.github_labels_only,
                );
                match r {
                    Ok(_) => {
                        &&& old(store)@.can_ingest(self.project.id, record@, names)
                        &&& final(store)@ == old(store)@.ingest_commit(
                            self.project.id,
                            record@,
                            names,
                        )
                    },
                    Err(e) => {
                        &&& !old(store)@.can_ingest(self.project.id, record@, names)
                        &&& final(store)@ == old(store)@
                        &&& e is Store
                    },
                }
            }),
            final(store)@.wf(),
    {
        let names = Self::source_feature_names(
            lookup,
            &record.features,
            self.project.github_labels_only,
        );
        if !self.fits(store, record, &names) {
            return Err(FownerError::Store(String::from_str("the commit does not fit")));
        }
        let time: i64 = record.timestamp as i64;
        let new_owner = NewOwner {
            handle: record.handle.clone(),
            name: None,
            primary_owner_id: None,
        };
        let owner = match new_owner.save_or_load(store) {
            Ok(owner) => owner,
            Err(e) => {
                assert(false);
                return Err(e);
            },
        };
        assert(store@.next_commit == old(store)@.next_commit);
        assert(store@.commits == old(store)@.commits);
        assert(store@.features == old(store)@.features);
        assert(store@.files == old(store)@.files);
        let new_commit = NewCommit {
            owner_id: owner.id,
            project_id: self.project.id,
            sha: record.sha.clone(),
            parent_sha: copy_option_texts(&record.parent_sha),
            description: record.summary.clone(),
            commit_time: time,
        };
        let commit = match new_commit.save(store) {
            Ok(commit) => commit,
            Err(e) => {
                assert(false);
                return Err(e);
            },
        };
        assert(store@.features == old(store)@.features);
        assert(store@.files == old(store)@.files);
        assert(store@.next_feature == old(store)@.next_feature);
        assert(store@.next_file == old(store)@.next_file);
        proof {
            lemma_names_alike(old(store)@, store@, self.project.id, string_views(names@));
            lemma_paths_alike(old(store)@, store@, self.project.id, record@.files);
        }
        let ghost listed = store@;
        let ids = self.resolve_features(store, &names);
        proof {
            lemma_paths_alike(listed, store@, self.project.id, record@.files);
        }
        self.touch_files(store, record, owner.id, commit.id, time, &ids);
        Ok(())
    }

    /// Starts the ingestion of a batch of commits, oldest first. It will halt
    /// before the commit with the id `stop_at_sha`; with `fetch_labels`, the
    /// label source is to be asked for each commit.
    pub fn begin(&self, history: Vec<GitHistory>, stop_at_sha: Option<String>, fetch_labels: bool)
        -> (r: Ingestion)
        ensures
            r.history == history,
            r.stop_at_sha == stop_at_sha,
            r.fetch_labels == fetch_labels,
            r.position == 0,
    {
        Ingestion { history, stop_at_sha, fetch_labels, position: 0 }
    }

    /// What is to be done next. The label source is asked only where the
    /// ingestion was started with `fetch_labels` and the project has one.
    pub fn pending(&self, run: &Ingestion) -> (r: Pending)
        ensures
            match r {
                Pending::Finished => run.finished(),
                Pending::Labels(sha) => {
                    &&& !run.finished()
                    &&& run.fetch_labels
                    &&& has_label_source(self.project@)
                    &&& sha@ == run.history@[run.position as int]@.sha
                },
                Pending::Commit => {
                    &&& !run.finished()
                    &&& !(run.fetch_labels && has_label_source(self.project@))
                },
            },
    {
        if run.position >= run.history.len() {
            return Pending::Finished;
        }
        let record = &run.history[run.position];
        if Self::halts_at(record, &run.stop_at_sha) {
            return Pending::Finished;
        }
        if run.fetch_labels {
            match Github::try_from(&self.project) {
                Ok(_) => {
                    return Pending::Labels(record.sha.clone());
                },
                Err(_) => {},
            }
        }
        Pending::Commit
    }

    /// Ingests the next commit of the batch under what the label source gave
    /// for it (`None` where it was not asked or failed), and moves on to the
    /// one after it. Nothing happens where the ingestion is finished. Where
    /// the store cannot take the commit, store and ingestion stay as they are.
    pub fn advance(&self, store: &mut EntityStore, run: &mut Ingestion, lookup: Option<Vec<String>>)
        -> (r: Result<(), FownerError>)
        requires
            old(store)@.wf(),
        ensures
            final(run).history == old(run).history,
            final(run).stop_at_sha == old(run).stop_at_sha,
            final(run).fetch_labels == old(run).fetch_labels,
            final(store)@.wf(),
            old(run).finished() ==> r is Ok && final(store)@ == old(store)@ && final(run).position
                == old(run).position,
            !old(run).finished() ==> ({
                let record = old(run).history@[old(run).position as int]@;
                let names = feature_names_for(
                    option_texts(lookup),
                    record.features,
                    self.project.github_labels_only,
                );
                match r {
                    Ok(_) => {
                        &&& old(store)@.can_ingest(self.project.id, record, names)
                        &&& final(store)@ == old(store)@.ingest_commit(
                            self.project.id,
                            record,
                            names,
                        )
                        &&& final(run).position == old(run).position + 1
                    },
                    Err(e) => {
                        &&& !old(store)@.can_ingest(self.project.id, record, names)
                        &&& final(store)@ == old(store)@
                        &&& final(run).position == old(run).position
                        &&& e is Store
                    },
                }
            }),
    {
        if run.position >= run.history.len() {
            return Ok(());
        }
        if Self::halts_at(&run.history[run.position], &run.stop_at_sha) {
            return Ok(());
        }
        match self.store_commit(store, &run.history[run.position], lookup) {
            Ok(_) => {
                run.position = run.position + 1;
                Ok(())
            },
            Err(e) => Err(e),
        }
    }

    /// Whether the ingestion halts before this record: its commit id is `stop_at_sha`.
    pub fn halts_at(record: &GitHistory, stop_at_sha: &Option<String>) -> (r: bool)
        ensures
            r == (option_text(*stop_at_sha) == Some(record@.sha)),
    {
        match stop_at_sha {
            Some(sha) => same_text(record.sha.as_str(), sha.as_str()),
            None => false,
        }
    }

    /// Ingests the commits of `history`, oldest first, up to the one whose id
    /// is `stop_at_sha`, which is not ingested, nor any after it.
    /// `lookups[i]` is what the label source gave for `history[i]`: `None`
    /// where it was not asked or failed, and for a record that the list does
    /// not reach.
    ///
    /// Handed back are the number of commits ingested and the number of
    /// commits in `history`. The run ends with an error at the first commit
    /// that the store cannot take; the commits before it stay ingested.
    pub fn fetch_history_and_store_data(
        &self,
        store: &mut EntityStore,
        history: &Vec<GitHistory>,
        stop_at_sha: Option<String>,
        lookups: &Vec<Option<Vec<String>>>,
    ) -> (r: Result<(usize, usize), FownerError>)
        requires
            old(store)@.wf(),
        ensures
            ({
                let records = history_views(history@);
                let limit = stop_index(records, option_text(stop_at_sha));
                let end = old(store)@.progress(
                    self.project.id,
                    self.project.github_labels_only,
                    records,
                    lookup_views(lookups@),
                    limit as nat,
                );
                &&& final(store)@ == end.store
                &&& 0 <= limit <= history.len()
                &&& match r {
                    Ok(counts) => end.taken == limit && counts.0 == limit && counts.1
                        == history.len(),
                    Err(e) => end.taken < limit && e is Store,
                }
            }),
            final(store)@.wf(),
    {
        let ghost before = store@;
        let ghost records = history_views(history@);
        let ghost given = lookup_views(lookups@);
        let ghost stop = option_text(stop_at_sha);
        let mut i: usize = 0;
        while i < history.len()
            invariant
                i <= history.len(),
                before == old(store)@,
                records == history_views(history@),
                given == lookup_views(lookups@),
                stop == option_text(stop_at_sha),
                store@.wf(),
                forall|j: int| 0 <= j < i ==> Some(records[j].sha) != stop,
                before.progress(
                    self.project.id,
                    self.project.github_labels_only,
                    records,
                    given,
                    i as nat,
                ) == (Progress { store: store@, taken: i as nat }),
            decreases history.len() - i,
        {
            assert(records[i as int] == history@[i as int]@);
            if Self::halts_at(&history[i], &stop_at_sha) {
                proof {
                    assert(record_with_sha(stop->0)(records[i as int]));
                    assert forall|j: int| 0 <= j < i implies !record_with_sha(stop->0)(
                        records[j],
                    ) by {
                        assert(Some(records[j].sha) != stop);
                    }
                    lemma_first_index_is(records, record_with_sha(stop->0), i as int);
                }
                return Ok((i, history.len()));
            }
            let lookup = if i < lookups.len() {
                assert(given[i as int] == option_texts(lookups@[i as int]));
                copy_option_texts(&lookups[i])
            } else {
                None
            };
            assert(option_texts(lookup) == lookup_for(given, i as int));
            match self.store_commit(store, &history[i], lookup) {
                Ok(_) => {},
                Err(e) => {
                    proof {
                        lemma_stop_index_bounds(records, stop);
                        match stop {
                            Some(sha) => {
                                lemma_first_index(records, record_with_sha(sha));
                                match first_index(records, record_with_sha(sha)) {
                                    Some(x) => {
                                        assert(record_with_sha(sha)(records[x]));
                                        assert(Some(records[x].sha) == stop);
                                    },
                                    None => {},
                                }
                            },
                            None => {},
                        }
                        assert(stop_index(records, stop) > i);
                        lemma_stalled(
                            before,
                            self.project.id,
                            self.project.github_labels_only,
                            records,
                            given,
                            i as nat,
                            stop_index(records, stop) as nat,
                        );
                    }
                    return Err(e);
                },
            }
            i += 1;
        }
        proof {
            match stop {
                Some(sha) => {
                    assert forall|j: int| 0 <= j < records.len() implies !record_with_sha(sha)(
                        records[j],
                    ) by {
                        assert(Some(records[j].sha) != stop);
                    }
                    lemma_first_index_none(records, record_with_sha(sha));
                },
                None => {},
            }
        }
        Ok((i, history.len()))
    }
}

/// The halting point lies within the batch.
pub proof fn lemma_stop_index_bounds(records: Seq<GitHistoryView>, stop_at_sha: Option<Seq<char>>)
    ensures
        0 <= stop_index(records, stop_at_sha) <= records.len(),
{
    match stop_at_sha {
        Some(sha) => {
            lemma_first_index(records, record_with_sha(sha));
        },
        None => {},
    }
}

/// A batch that did not get past its first `k` records after `k + 1` were
/// offered gets no further, however many are offered.
pub proof fn lemma_stalled(
    s: StoreView,
    project_id: u32,
    labels_only: bool,
    records: Seq<GitHistoryView>,
    lookups: Seq<Option<Seq<Seq<char>>>>,
    k: nat,
    n: nat,
)
    requires
        k < n,
        s.progress(project_id, labels_only, records, lookups, k + 1) == s.progress(
            project_id,
            labels_only,
            records,
            lookups,
            k,
        ),
        s.progress(project_id, labels_only, records, lookups, k).taken == k,
    ensures
        s.progress(project_id, labels_only, records, lookups, n) == s.progress(
            project_id,
            labels_only,
            records,
            lookups,
            k,
        ),
    decreases n,
{
    if n > k + 1 {
        lemma_stalled(s, project_id, labels_only, records, lookups, k, (n - 1) as nat);
    }
}

} // verus!
