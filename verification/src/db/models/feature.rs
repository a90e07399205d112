//! The features of a project.

use crate::db::{
    feature_views, first_index, lemma_first_index, lemma_first_index_is, lemma_first_index_none,
    lemma_first_index_push, EntityStore, StoreView,
};
use crate::errors::FownerError;
use crate::text::{copy_option_text, option_text, same_text};
use vstd::prelude::*;

verus! {

/// A feature of a project. There is one per project and name.
#[derive(Clone, Debug, PartialEq, Eq)]
pub struct Feature {
    pub id: u32,
    pub project_id: u32,
    pub name: String,
    pub description: Option<String>,
    pub created_at: i64,
    pub updated_at: i64,
}

pub struct FeatureView {
    pub id: u32,
    pub project_id: u32,
    pub name: Seq<char>,
    pub description: Option<Seq<char>>,
    pub created_at: i64,
    pub updated_at: i64,
}

impl View for Feature {
    type V = FeatureView;

    open spec fn view(&self) -> FeatureView {
        FeatureView {
            id: self.id,
            project_id: self.project_id,
            name: self.name@,
            description: option_text(self.description),
            created_at: self.created_at,
            updated_at: self.updated_at,
        }
    }
}

/// A feature that is to be stored.
#[derive(Clone, Debug)]
pub struct NewFeature {
    pub project_id: u32,
    pub name: String,
    pub description: Option<String>,
}

/// Holds of the feature of project `project_id` with the name `name`.
pub open spec fn feature_keyed(project_id: u32, name: Seq<char>) -> spec_fn(FeatureView) -> bool {
    |f: FeatureView| f.project_id == project_id && f.name == name
}

/// Holds of the feature with the id `id`.
pub open spec fn feature_numbered(id: u32) -> spec_fn(FeatureView) -> bool {
    |f: FeatureView| f.id == id
}

/// Holds of the features of project `project_id`.
pub open spec fn feature_of_project(project_id: u32) -> spec_fn(FeatureView) -> bool {
    |f: FeatureView| f.project_id == project_id
}

impl StoreView {
    /// Where the feature of project `project_id` with the name `name` stands.
    pub open spec fn feature_at(self, project_id: u32, name: Seq<char>) -> Option<int> {
        first_index(self.features, feature_keyed(project_id, name))
    }

    /// Whether an id is left for one more feature.
    pub open spec fn can_add_feature(self) -> bool {
        self.next_feature < u32::MAX
    }

    /// The store with one more feature, stamped with the clock.
    pub open spec fn with_feature(
        self,
        project_id: u32,
        name: Seq<char>,
        description: Option<Seq<char>>,
    ) -> StoreView {
        StoreView {
            features: self.features.push(
                FeatureView {
                    id: self.next_feature,
                    project_id,
                    name,
                    description,
                    created_at: self.clock,
                    updated_at: self.clock,
                },
            ),
            next_feature: (self.next_feature + 1) as u32,
            ..self
        }
    }

    /// The store in which the project has a feature of that name: the store
    /// itself where it has one, else the store with the feature added.
    pub open spec fn resolve_feature(
        self,
        project_id: u32,
        name: Seq<char>,
        description: Option<Seq<char>>,
    ) -> StoreView {
        if self.feature_at(project_id, name) is Some {
            self
        } else {
            self.with_feature(project_id, name, description)
        }
    }
}

/// Resolving a feature keeps the store well formed and leaves the feature
/// where a look-up by project and name finds it.
pub proof fn lemma_resolve_feature_wf(
    s: StoreView,
    project_id: u32,
    name: Seq<char>,
    description: Option<Seq<char>>,
)
    requires
        s.wf(),
        s.feature_at(project_id, name) is Some || s.can_add_feature(),
    ensures
        s.resolve_feature(project_id, name, description).wf(),
        s.resolve_feature(project_id, name, description).feature_at(project_id, name) == Some(
            match s.feature_at(project_id, name) {
                Some(i) => i,
                None => s.features.len() as int,
            },
        ),
{
    let t = s.resolve_feature(project_id, name, description);
    let p = feature_keyed(project_id, name);
    lemma_first_index(s.features, p);
    if s.feature_at(project_id, name) is None {
        assert forall|i: int, j: int| 0 <= i < j < t.features.len() implies (
        #[trigger] t.features[i]).id != (#[trigger] t.features[j]).id && !(t.features[i].project_id
            == t.features[j].project_id && t.features[i].name == t.features[j].name) by {
            if j < s.features.len() {
                assert(t.features[i] == s.features[i] && t.features[j] == s.features[j]);
            } else {
                assert(t.features[i] == s.features[i]);
                assert(!p(s.features[i]));
            }
        }
        assert forall|i: int| 0 <= i < t.features.len() implies (#[trigger] t.features[i]).id
            < t.next_feature by {
            if i < s.features.len() {
                assert(t.features[i] == s.features[i]);
            }
        }
        lemma_first_index_push(s.features, p, t.features.last());
        assert(p(t.features.last()));
    }
}

/// Where the feature of a project with a name stands.
pub(crate) fn feature_position(features: &Vec<Feature>, project_id: u32, name: &str) -> (r:
    Option<usize>)
    ensures
        match r {
            Some(i) => first_index(feature_views(features@), feature_keyed(project_id, name@))
                == Some(i as int),
            None => first_index(feature_views(features@), feature_keyed(project_id, name@))
                is None,
        },
{
    let ghost p = feature_keyed(project_id, name@);
    let ghost rows = feature_views(features@);
    let mut i: usize = 0;
    while i < features.len()
        invariant
            i <= features.len(),
            rows == feature_views(features@),
            p == feature_keyed(project_id, name@),
            forall|j: int| 0 <= j < i ==> !p(rows[j]),
        decreases features.len() - i,
    {
        assert(rows[i as int] == features@[i as int]@);
        if features[i].project_id == project_id && same_text(features[i].name.as_str(), name) {
            proof {
                lemma_first_index_is(rows, p, i as int);
            }
            return Some(i);
        }
        i += 1;
    }
    proof {
        lemma_first_index_none(rows, p);
    }
    None
}

impl Feature {
    /// A second copy of the feature.
    pub fn duplicate(&self) -> (r: Feature)
        ensures
            r@ == self@,
    {
        Feature {
            id: self.id,
            project_id: self.project_id,
            name: self.name.clone(),
            description: copy_option_text(&self.description),
            created_at: self.created_at,
            updated_at: self.updated_at,
        }
    }

    /// The feature with the id `id`.
    pub fn load(id: u32, store: &EntityStore) -> (r: Result<Feature, FownerError>)
        ensures
            match first_index(store@.features, feature_numbered(id)) {
                Some(i) => r matches Ok(f) && f@ == store@.features[i],
                None => r matches Err(FownerError::NotFound(_)),
            },
    {
        let ghost p = feature_numbered(id);
        let mut i: usize = 0;
        while i < store.features.len()
            invariant
                i <= store.features.len(),
                p == feature_numbered(id),
                forall|j: int| 0 <= j < i ==> !p(store@.features[j]),
            decreases store.features.len() - i,
        {
            if store.features[i].id == id {
                proof {
                    lemma_first_index_is(store@.features, p, i as int);
                }
                return Ok(store.features[i].duplicate());
            }
            i += 1;
        }
        proof {
            lemma_first_index_none(store@.features, p);
        }
        Err(FownerError::NotFound(String::from_str("Feature not found")))
    }

    /// The feature of a project with the name `name`.
    pub fn load_by_name(project_id: u32, name: String, store: &EntityStore) -> (r: Result<
        Feature,
        FownerError,
    >)
        ensures
            match store@.feature_at(project_id, name@) {
                Some(i) => r matches Ok(f) && f@ == store@.features[i],
                None => r matches Err(FownerError::NotFound(_)),
            },
    {
        match feature_position(&store.features, project_id, name.as_str()) {
            Some(i) => {
                proof {
                    lemma_first_index(store@.features, feature_keyed(project_id, name@));
                }
                Ok(store.features[i].duplicate())
            },
            None => Err(FownerError::NotFound(String::from_str("Feature not found"))),
        }
    }

    /// The features of a project, in the order in which they were stored.
    pub fn load_by_project(project_id: u32, store: &EntityStore) -> (r: Result<
        Vec<Feature>,
        FownerError,
    >)
        ensures
            r matches Ok(v) && feature_views(v@) == store@.features.filter(
                feature_of_project(project_id),
            ),
    {
        let ghost p = feature_of_project(project_id);
        let mut out: Vec<Feature> = Vec::new();
        let mut i: usize = 0;
        assert(store@.features.take(0) =~= Seq::empty());
        assert(feature_views(out@) =~= Seq::empty());
        proof {
            reveal(Seq::filter);
        }
        while i < store.features.len()
            invariant
                i <= store.features.len(),
                p == feature_of_project(project_id),
                feature_views(out@) == store@.features.take(i as int).filter(p),
            decreases store.features.len() - i,
        {
            let ghost before = feature_views(out@);
            let ghost next = store@.features.take(i as int + 1);
            assert(next.drop_last() =~= store@.features.take(i as int));
            assert(next.last() == store.features@[i as int]@);
            proof {
                reveal(Seq::filter);
            }
            if store.features[i].project_id == project_id {
                out.push(store.features[i].duplicate());
                assert(feature_views(out@) =~= before.push(next.last()));
            }
            i += 1;
        }
        assert(store@.features.take(i as int) =~= store@.features);
        Ok(out)
    }
}

impl NewFeature {
    /// The feature of the project with this name; where there is none, the
    /// feature is stored under a new id and handed back. The write is refused
    /// only where the feature would have to be added and no id is left.
    pub fn save(&self, store: &mut EntityStore) -> (r: Result<Feature, FownerError>)
        requires
            old(store)@.wf(),
        ensures
            match r {
                Ok(f) => {
                    &&& old(store)@.feature_at(self.project_id, self.name@) is Some || old(store)@.can_add_feature()
                    &&& final(store)@ == old(store)@.resolve_feature(
                        self.project_id,
                        self.name@,
                        option_text(self.description),
                    )
                    &&& final(store)@.feature_at(self.project_id, self.name@) matches Some(i) && f@
                        == final(store)@.features[i]
                    &&& f@ == match old(store)@.feature_at(self.project_id, self.name@) {
                        Some(i) => old(store)@.features[i],
                        None => FeatureView {
                            id: old(store)@.next_feature,
                            project_id: self.project_id,
                            name: self.name@,
                            description: option_text(self.description),
                            created_at: old(store)@.clock,
                            updated_at: old(store)@.clock,
                        },
                    }
                },
                Err(e) => {
                    &&& old(store)@.feature_at(self.project_id, self.name@) is None
                    &&& !old(store)@.can_add_feature()
                    &&& final(store)@ == old(store)@
                    &&& e is Store
                },
            },
            final(store)@.wf(),
    {
        let ghost before = store@;
        let ghost after = before.resolve_feature(
            self.project_id,
            self.name@,
            option_text(self.description),
        );
        match feature_position(&store.features, self.project_id, self.name.as_str()) {
            Some(i) => {
                proof {
                    lemma_first_index(before.features, feature_keyed(self.project_id, self.name@));
                }
                Ok(store.features[i].duplicate())
            },
            None => {
                if store.next_feature == u32::MAX {
                    return Err(FownerError::Store(String::from_str("no feature id is left")));
                }
                proof {
                    lemma_resolve_feature_wf(
                        before,
                        self.project_id,
                        self.name@,
                        option_text(self.description),
                    );
                }
                let row = Feature {
                    id: store.next_feature,
                    project_id: self.project_id,
                    name: self.name.clone(),
                    description: copy_option_text(&self.description),
                    created_at: store.clock,
                    updated_at: store.clock,
                };
                let out = row.duplicate();
                store.next_feature = store.next_feature + 1;
                store.features.push(row);
                assert(store@.features =~= after.features);
                assert(store@ == after);
                assert(out@ == after.features[before.features.len() as int]);
                Ok(out)
            },
        }
    }
}

} // verus!
