//! The link between a file and a feature it belongs to.

use crate::db::models::commit::Commit;
use crate::db::models::feature::{Feature, FeatureView};
use crate::db::models::file_commit::{changed_between, was_changed_between};
use crate::db::{
    feature_views, first_index, lemma_first_index, lemma_first_index_is, lemma_first_index_none,
    lemma_first_index_push, EntityStore, StoreView,
};
use crate::errors::FownerError;
use vstd::prelude::*;

verus! {

/// File `file_id` carries feature `feature_id`.
#[derive(Clone, Copy, Debug, PartialEq, Eq, Structural)]
pub struct FileFeature {
    pub file_id: u32,
    pub feature_id: u32,
    pub created_at: i64,
    pub updated_at: i64,
}

/// A link that is to be stored.
#[derive(Clone, Copy, Debug)]
pub struct NewFileFeature {
    pub file_id: u32,
    pub feature_id: u32,
}

/// Holds of the link between file `file_id` and feature `feature_id`.
pub open spec fn feature_link(file_id: u32, feature_id: u32) -> spec_fn(FileFeature) -> bool {
    |l: FileFeature| l.file_id == file_id && l.feature_id == feature_id
}

impl StoreView {
    /// Where the link between a file and a feature stands.
    pub open spec fn feature_link_at(self, file_id: u32, feature_id: u32) -> Option<int> {
        first_index(self.file_features, feature_link(file_id, feature_id))
    }

    /// The store in which the file carries the feature: the store itself
    /// where it does, else the store with the link added, stamped with the
    /// clock.
    pub open spec fn attach_feature(self, file_id: u32, feature_id: u32) -> StoreView {
        if self.feature_link_at(file_id, feature_id) is Some {
            self
        } else {
            StoreView {
                file_features: self.file_features.push(
                    FileFeature {
                        file_id,
                        feature_id,
                        created_at: self.clock,
                        updated_at: self.clock,
                    },
                ),
                ..self
            }
        }
    }
}

/// Attaching a feature to a file keeps the store well formed and leaves the
/// link where a look-up finds it.
pub proof fn lemma_attach_feature_wf(s: StoreView, file_id: u32, feature_id: u32)
    requires
        s.wf(),
    ensures
        s.attach_feature(file_id, feature_id).wf(),
        s.attach_feature(file_id, feature_id).feature_link_at(file_id, feature_id) == Some(
            match s.feature_link_at(file_id, feature_id) {
                Some(i) => i,
                None => s.file_features.len() as int,
            },
        ),
{
    let t = s.attach_feature(file_id, feature_id);
    let p = feature_link(file_id, feature_id);
    lemma_first_index(s.file_features, p);
    if s.feature_link_at(file_id, feature_id) is None {
        assert forall|i: int, j: int| 0 <= i < j < t.file_features.len() implies !((
        #[trigger] t.file_features[i]).file_id == (#[trigger] t.file_features[j]).file_id
            && t.file_features[i].feature_id == t.file_features[j].feature_id) by {
            if j < s.file_features.len() {
                assert(t.file_features[i] == s.file_features[i] && t.file_features[j]
                    == s.file_features[j]);
            } else {
                assert(t.file_features[i] == s.file_features[i]);
                assert(!p(s.file_features[i]));
            }
        }
        lemma_first_index_push(s.file_features, p, t.file_features.last());
        assert(p(t.file_features.last()));
    }
}

/// Where the link between a file and a feature stands.
pub(crate) fn feature_link_position(links: &Vec<FileFeature>, file_id: u32, feature_id: u32) -> (r:
    Option<usize>)
    ensures
        match r {
            Some(i) => first_index(links@, feature_link(file_id, feature_id)) == Some(i as int),
            None => first_index(links@, feature_link(file_id, feature_id)) is None,
        },
{
    let ghost p = feature_link(file_id, feature_id);
    let mut i: usize = 0;
    while i < links.len()
        invariant
            i <= links.len(),
            p == feature_link(file_id, feature_id),
            forall|j: int| 0 <= j < i ==> !p(links@[j]),
        decreases links.len() - i,
    {
        if links[i].file_id == file_id && links[i].feature_id == feature_id {
            proof {
                lemma_first_index_is(links@, p, i as int);
            }
            return Some(i);
        }
        i += 1;
    }
    proof {
        lemma_first_index_none(links@, p);
    }
    None
}

impl FileFeature {
    /// The link between a file and a feature.
    pub fn load(file_id: u32, feature_id: u32, store: &EntityStore) -> (r: Result<
        FileFeature,
        FownerError,
    >)
        ensures
            match store@.feature_link_at(file_id, feature_id) {
                Some(i) => r matches Ok(l) && l == store@.file_features[i],
                None => r matches Err(FownerError::NotFound(_)),
            },
    {
        match feature_link_position(&store.file_features, file_id, feature_id) {
            Some(i) => {
                proof {
                    lemma_first_index(store@.file_features, feature_link(file_id, feature_id));
                }
                Ok(store.file_features[i])
            },
            None => Err(FownerError::NotFound(String::from_str("File feature not found"))),
        }
    }
}

impl NewFileFeature {
    /// Attaches the feature to the file and hands back the stored link. A
    /// link that is there already is left as it is.
    pub fn save(&self, store: &mut EntityStore) -> (r: Result<FileFeature, FownerError>)
        requires
            old(store)@.wf(),
        ensures
            final(store)@ == old(store)@.attach_feature(self.file_id, self.feature_id),
            final(store)@.feature_link_at(self.file_id, self.feature_id) matches Some(i) && r
                == Ok::<FileFeature, FownerError>(final(store)@.file_features[i]),
            final(store)@.wf(),
    {
        let ghost before = store@;
        proof {
            lemma_attach_feature_wf(before, self.file_id, self.feature_id);
        }
        match feature_link_position(&store.file_features, self.file_id, self.feature_id) {
            Some(i) => {
                proof {
                    lemma_first_index(
                        before.file_features,
                        feature_link(self.file_id, self.feature_id),
                    );
                }
                Ok(store.file_features[i])
            },
            None => {
                let row = FileFeature {
                    file_id: self.file_id,
                    feature_id: self.feature_id,
                    created_at: store.clock,
                    updated_at: store.clock,
                };
                store.file_features.push(row);
                assert(store@ == before.attach_feature(self.file_id, self.feature_id));
                Ok(row)
            },
        }
    }
}

/// Whether the link at `k` shows that the feature is carried by a file that
/// was changed in a commit of the project with a time from `from` to `to`.
pub open spec fn shows_feature(
    s: StoreView,
    k: int,
    feature_id: u32,
    project_id: u32,
    from: i64,
    to: i64,
) -> bool {
    &&& 0 <= k < s.file_features.len()
    &&& s.file_features[k].feature_id == feature_id
    &&& changed_between(s, s.file_features[k].file_id, project_id, from, to)
}

/// Whether the feature is carried by a file that was changed in a commit of
/// the project with a time from `from` to `to`.
pub open spec fn touched_between(s: StoreView, feature_id: u32, project_id: u32, from: i64, to: i64)
    -> bool {
    exists|k: int| #[trigger] shows_feature(s, k, feature_id, project_id, from, to)
}

/// Holds of the features that are carried by a file that was changed in a
/// commit of the project with a time from `from` to `to`.
pub open spec fn feature_touched(s: StoreView, project_id: u32, from: i64, to: i64) -> spec_fn(
    FeatureView,
) -> bool {
    |f: FeatureView| touched_between(s, f.id, project_id, from, to)
}

fn was_touched_between(store: &EntityStore, feature_id: u32, project_id: u32, from: i64, to: i64)
    -> (r: bool)
    ensures
        r == touched_between(store@, feature_id, project_id, from, to),
{
    let mut k: usize = 0;
    while k < store.file_features.len()
        invariant
            k <= store.file_features.len(),
            forall|a: int|
                0 <= a < k ==> !#[trigger] shows_feature(
                    store@,
                    a,
                    feature_id,
                    project_id,
                    from,
                    to,
                ),
        decreases store.file_features.len() - k,
    {
        if store.file_features[k].feature_id == feature_id && was_changed_between(
            store,
            store.file_features[k].file_id,
            project_id,
            from,
            to,
        ) {
            assert(shows_feature(store@, k as int, feature_id, project_id, from, to));
            return true;
        }
        k += 1;
    }
    false
}

impl FileFeature {
    /// The features that are carried by a file that was changed in a commit
    /// of the project of `from_commit` whose time is not before that of
    /// `from_commit` and not after that of `to_commit`, in the order in which
    /// the features were stored.
    pub fn fetch_between(from_commit: Commit, to_commit: Commit, store: &EntityStore) -> (r: Result<
        Vec<Feature>,
        FownerError,
    >)
        ensures
            r matches Ok(v) && feature_views(v@) == store@.features.filter(
                feature_touched(
                    store@,
                    from_commit.project_id,
                    from_commit.commit_time,
                    to_commit.commit_time,
                ),
            ),
    {
        let ghost p = feature_touched(
            store@,
            from_commit.project_id,
            from_commit.commit_time,
            to_commit.commit_time,
        );
        let mut out: Vec<Feature> = Vec::new();
        let mut i: usize = 0;
        assert(store@.features.take(0) =~= Seq::empty());
        assert(feature_views(out@) =~= Seq::empty());
        proof {
            reveal(Seq::filter);
        }
        while i < store.features.len()
            invariant
                i <= store.features.len(),
                p == feature_touched(
                    store@,
                    from_commit.project_id,
                    from_commit.commit_time,
                    to_commit.commit_time,
                ),
                feature_views(out@) == store@.features.take(i as int).filter(p),
            decreases store.features.len() - i,
        {
            let ghost before = feature_views(out@);
            let ghost next = store@.features.take(i as int + 1);
            assert(next.drop_last() =~= store@.features.take(i as int));
            assert(next.last() == store.features@[i as int]@);
            proof {
                reveal(Seq::filter);
            }
            if was_touched_between(
                store,
                store.features[i].id,
                from_commit.project_id,
                from_commit.commit_time,
                to_commit.commit_time,
            ) {
                out.push(store.features[i].duplicate());
                assert(feature_views(out@) =~= before.push(next.last()));
            }
            i += 1;
        }
        assert(store@.features.take(i as int) =~= store@.features);
        Ok(out)
    }
}

} // verus!
