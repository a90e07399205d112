//! Builds a file with features and commits.

use crate::db::models::commit::NewCommit;
use crate::db::models::feature::NewFeature;
use crate::db::models::file::{File, NewFile};
use crate::db::models::file_commit::FileCommit;
use crate::db::{EntityStore, StoreView};
use crate::errors::FownerError;
use crate::text::string_views;
use vstd::prelude::*;

verus! {

/// A file that is to be stored together with features attached to it and
/// commits that changed it.
pub struct FileBuilder {
    pub project_id: u32,
    pub path: String,
    pub no_features: bool,
    pub features: Vec<String>,
    pub commits: Vec<String>,
}

impl Default for FileBuilder {
    fn default() -> (r: FileBuilder)
        ensures
            r.project_id == 0,
            r.path@ == Seq::<char>::empty(),
            !r.no_features,
            r.features@.len() == 0,
            r.commits@.len() == 0,
    {
        FileBuilder {
            project_id: 0,
            path: String::new(),
            no_features: false,
            features: Vec::new(),
            commits: Vec::new(),
        }
    }
}

impl FileBuilder {
    /// The builder with these names of features in place of its own.
    pub fn with_features(self, features: Vec<String>) -> (r: FileBuilder)
        ensures
            r == (FileBuilder { features, ..self }),
    {
        FileBuilder { features, ..self }
    }

    /// The builder with these ids of commits in place of its own.
    pub fn with_commits(self, commits: Vec<String>) -> (r: FileBuilder)
        ensures
            r == (FileBuilder { commits, ..self }),
    {
        FileBuilder { commits, ..self }
    }
}

impl StoreView {
    /// The store in which the project has a feature of each of the names and
    /// the file carries each of them.
    pub open spec fn tag_file(self, project_id: u32, file_id: u32, names: Seq<Seq<char>>)
        -> StoreView
        decreases names.len(),
    {
        if names.len() == 0 {
            self
        } else {
            let s = self.tag_file(project_id, file_id, names.drop_last()).resolve_feature(
                project_id,
                names.last(),
                None,
            );
            s.attach_feature(
                file_id,
                s.features[s.feature_at(project_id, names.last()).unwrap()].id,
            )
        }
    }

    /// The store in which the project has a commit of each of the shas, each
    /// with the one before it as its parent, and the file is linked to each
    /// of them. The commits have no owner, their sha as description, and the
    /// clock as their time.
    pub open spec fn chain_commits(self, project_id: u32, file_id: u32, shas: Seq<Seq<char>>)
        -> StoreView
        decreases shas.len(),
    {
        if shas.len() == 0 {
            self
        } else {
            let s = self.chain_commits(project_id, file_id, shas.drop_last()).upsert_commit(
                0,
                project_id,
                shas.last(),
                if shas.len() == 1 {
                    None
                } else {
                    Some(seq![shas[shas.len() - 2]])
                },
                shas.last(),
                self.clock,
            );
            s.link_commit(file_id, s.commits[s.commit_at(project_id, shas.last()).unwrap()].id)
        }
    }
}

impl FileBuilder {
    /// Whether the file that the builder resolves is excluded from tagging:
    /// the flag of the stored file where the project has one of that path,
    /// else the builder's own.
    pub open spec fn excluded(&self, s: StoreView) -> bool {
        match s.file_at(self.project_id, self.path@) {
            Some(i) => s.files[i].no_features,
            None => self.no_features,
        }
    }

    /// Whether ids are left for all that the builder may add.
    pub open spec fn has_room(&self, s: StoreView) -> bool {
        &&& s.next_file < u32::MAX
        &&& s.next_feature + self.features.len() <= u32::MAX
        &&& s.next_commit + self.commits.len() <= u32::MAX
    }

    /// Resolves the file, attaches the features to it, and stores the
    /// commits, each as the child of the one before it, linked to the file.
    ///
    /// Nothing is stored where features are to be attached to a file that is
    /// excluded from tagging, or ids may run out.
    pub fn build(self, store: &mut EntityStore) -> (r: Result<File, FownerError>)
        requires
            old(store)@.wf(),
        ensures
            match r {
                Ok(file) => {
                    &&& !(self.excluded(old(store)@) && self.features.len() > 0)
                    &&& self.has_room(old(store)@)
                    &&& ({
                        let resolved = old(store)@.resolve_file(
                            self.project_id,
                            self.path@,
                            self.no_features,
                        );
                        &&& resolved.file_at(self.project_id, self.path@) matches Some(i) && file@
                            == resolved.files[i]
                        &&& final(store)@ == resolved.tag_file(
                            self.project_id,
                            file.id,
                            string_views(self.features@),
                        ).chain_commits(self.project_id, file.id, string_views(self.commits@))
                    })
                },
                Err(FownerError::FileCannotHaveFeatures(path)) => {
                    &&& self.excluded(old(store)@) && self.features.len() > 0
                    &&& path@ == self.path@
                    &&& final(store)@ == old(store)@
                },
                Err(e) => {
                    &&& !(self.excluded(old(store)@) && self.features.len() > 0)
                    &&& !self.has_room(old(store)@)
                    &&& e is Store
                    &&& final(store)@ == old(store)@
                },
            },
            final(store)@.wf(),
    {
        let ghost before = store@;
        let excluded = match File::load_by_path(self.project_id, self.path.clone(), store) {
            Ok(stored) => stored.no_features,
            Err(_) => self.no_features,
        };
        if excluded && self.features.len() > 0 {
            return Err(FownerError::FileCannotHaveFeatures(self.path.clone()));
        }
        if store.next_file == u32::MAX || self.features.len() as u64 > (u32::MAX
            - store.next_feature) as u64 || self.commits.len() as u64 > (u32::MAX
            - store.next_commit) as u64 {
            return Err(FownerError::Store(String::from_str("no id is left")));
        }
        let new_file = NewFile {
            project_id: self.project_id,
            path: self.path.clone(),
            no_features: self.no_features,
        };
        let file = match new_file.save(store) {
            Ok(file) => file,
            Err(e) => {
                assert(false);
                return Err(e);
            },
        };
        let ghost resolved = store@;
        proof {
            crate::db::lemma_first_index(
                before.files,
                crate::db::models::file::file_keyed(self.project_id, self.path@),
            );
            crate::db::models::file::lemma_resolve_file_wf(
                before,
                self.project_id,
                self.path@,
                self.no_features,
            );
        }
        assert(file.no_features == excluded);
        let ghost names = string_views(self.features@);
        let mut i: usize = 0;
        assert(names.take(0) =~= Seq::empty());
        while i < self.features.len()
            invariant
                i <= self.features.len(),
                names == string_views(self.features@),
                store@.wf(),
                self.features.len() > 0 ==> !file.no_features,
                store@ == resolved.tag_file(self.project_id, file.id, names.take(i as int)),
                store@.next_feature + (self.features.len() - i) <= u32::MAX,
                store@.next_commit == resolved.next_commit,
                store@.clock == resolved.clock,
            decreases self.features.len() - i,
        {
            let ghost taken = names.take(i as int + 1);
            assert(taken.drop_last() =~= names.take(i as int));
            assert(taken.last() == self.features@[i as int]@);
            let new_feature = NewFeature {
                project_id: self.project_id,
                name: self.features[i].clone(),
                description: None,
            };
            match new_feature.save(store) {
                Ok(feature) => {
                    match file.add_feature(feature.id, store) {
                        Ok(_) => {},
                        Err(_) => {
                            assert(false);
                        },
                    }
                },
                Err(_) => {
                    assert(false);
                },
            }
            i += 1;
        }
        assert(names.take(i as int) =~= names);
        let ghost tagged = store@;
        let ghost shas = string_views(self.commits@);
        let mut k: usize = 0;
        assert(shas.take(0) =~= Seq::empty());
        while k < self.commits.len()
            invariant
                k <= self.commits.len(),
                shas == string_views(self.commits@),
                store@.wf(),
                store@ == tagged.chain_commits(self.project_id, file.id, shas.take(k as int)),
                store@.next_commit + (self.commits.len() - k) <= u32::MAX,
                store@.clock == tagged.clock,
            decreases self.commits.len() - k,
        {
            let ghost taken = shas.take(k as int + 1);
            assert(taken.drop_last() =~= shas.take(k as int));
            assert(taken.last() == self.commits@[k as int]@);
            let parent = if k == 0 {
                None
            } else {
                let mut one: Vec<String> = Vec::new();
                one.push(self.commits[k - 1].clone());
                assert(string_views(one@) =~= seq![shas[k as int - 1]]);
                assert(taken[taken.len() - 2] == shas[k as int - 1]);
                Some(one)
            };
            let new_commit = NewCommit {
                owner_id: 0,
                project_id: self.project_id,
                sha: self.commits[k].clone(),
                parent_sha: parent,
                description: self.commits[k].clone(),
                commit_time: store.clock(),
            };
            match new_commit.save(store) {
                Ok(commit) => {
                    let _ = FileCommit { file_id: file.id, commit_id: commit.id }.save(store);
                },
                Err(_) => {
                    assert(false);
                },
            }
            k += 1;
        }
        assert(shas.take(k as int) =~= shas);
        Ok(file)
    }
}

} // verus!
