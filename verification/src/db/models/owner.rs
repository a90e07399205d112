//! The people who commit, each known by a handle.

use crate::db::{
    first_index, lemma_first_index, lemma_first_index_is, lemma_first_index_none,
    lemma_first_index_push, owner_views, EntityStore, StoreView,
};
use crate::errors::FownerError;
use crate::text::{copy_option_text, eq_ignore_case, option_text, same_ignoring_case, same_text};
use vstd::prelude::*;

verus! {

/// A contributor. `primary_owner_id` names the owner under which this handle
/// is to be reported, where it is an alias.
#[derive(Clone, Debug, PartialEq, Eq)]
pub struct Owner {
    pub id: u32,
    pub handle: String,
    pub name: Option<String>,
    pub primary_owner_id: Option<u32>,
    pub created_at: i64,
    pub updated_at: i64,
}

pub struct OwnerView {
    pub id: u32,
    pub handle: Seq<char>,
    pub name: Option<Seq<char>>,
    pub primary_owner_id: Option<u32>,
    pub created_at: i64,
    pub updated_at: i64,
}

impl View for Owner {
    type V = OwnerView;

    open spec fn view(&self) -> OwnerView {
        OwnerView {
            id: self.id,
            handle: self.handle@,
            name: option_text(self.name),
            primary_owner_id: self.primary_owner_id,
            created_at: self.created_at,
            updated_at: self.updated_at,
        }
    }
}

/// An owner that is to be stored.
#[derive(Clone, Debug, Default)]
pub struct NewOwner {
    pub handle: String,
    pub name: Option<String>,
    pub primary_owner_id: Option<u32>,
}

/// The fields of an owner that can be changed.
#[derive(Clone, Debug, Default)]
pub struct UpdateOwner {
    pub name: Option<String>,
    pub primary_owner_id: Option<u32>,
}

/// Holds of the owners whose handle is `handle` up to the case of ASCII letters.
pub open spec fn answers_to(handle: Seq<char>) -> spec_fn(OwnerView) -> bool {
    |o: OwnerView| eq_ignore_case(o.handle, handle)
}

/// Holds of the owners whose handle is `handle`, letter for letter.
pub open spec fn spelled(handle: Seq<char>) -> spec_fn(OwnerView) -> bool {
    |o: OwnerView| o.handle == handle
}

/// Holds of the owner with the id `id`.
pub open spec fn owner_numbered(id: u32) -> spec_fn(OwnerView) -> bool {
    |o: OwnerView| o.id == id
}

impl StoreView {
    /// Where the first owner stands that answers to `handle`.
    pub open spec fn owner_named(self, handle: Seq<char>) -> Option<int> {
        first_index(self.owners, answers_to(handle))
    }

    /// Whether an owner with this handle can be added: the handle is not
    /// taken letter for letter, and an id is left.
    pub open spec fn can_add_owner(self, handle: Seq<char>) -> bool {
        first_index(self.owners, spelled(handle)) is None && self.next_owner < u32::MAX
    }

    /// The store with one more owner, stamped with the clock.
    pub open spec fn with_owner(
        self,
        handle: Seq<char>,
        name: Option<Seq<char>>,
        primary_owner_id: Option<u32>,
    ) -> StoreView {
        StoreView {
            owners: self.owners.push(
                OwnerView {
                    id: self.next_owner,
                    handle,
                    name,
                    primary_owner_id,
                    created_at: self.clock,
                    updated_at: self.clock,
                },
            ),
            next_owner: (self.next_owner + 1) as u32,
            ..self
        }
    }

    /// The store in which a first owner answers to `handle`: the store itself
    /// where one does, else the store with a new owner of that handle.
    pub open spec fn resolve_owner(
        self,
        handle: Seq<char>,
        name: Option<Seq<char>>,
        primary_owner_id: Option<u32>,
    ) -> StoreView {
        if self.owner_named(handle) is Some {
            self
        } else {
            self.with_owner(handle, name, primary_owner_id)
        }
    }

    /// The store with the changeable fields of the owner at `at` replaced.
    pub open spec fn with_owner_details(
        self,
        at: int,
        name: Option<Seq<char>>,
        primary_owner_id: Option<u32>,
    ) -> StoreView {
        StoreView {
            owners: self.owners.update(
                at,
                OwnerView { name, primary_owner_id, updated_at: self.clock, ..self.owners[at] },
            ),
            ..self
        }
    }
}

/// Adding an owner whose handle is free keeps the store well formed.
pub proof fn lemma_with_owner_wf(
    s: StoreView,
    handle: Seq<char>,
    name: Option<Seq<char>>,
    primary_owner_id: Option<u32>,
)
    requires
        s.wf(),
        s.can_add_owner(handle),
    ensures
        s.with_owner(handle, name, primary_owner_id).wf(),
        s.with_owner(handle, name, primary_owner_id).owner_named(handle) is Some,
        s.owner_named(handle) is None ==> s.with_owner(
            handle,
            name,
            primary_owner_id,
        ).owner_named(handle) == Some(s.owners.len() as int),
{
    let t = s.with_owner(handle, name, primary_owner_id);
    lemma_first_index(s.owners, spelled(handle));
    assert forall|i: int, j: int| 0 <= i < j < t.owners.len() implies (#[trigger] t.owners[i]).id
        != (#[trigger] t.owners[j]).id && t.owners[i].handle != t.owners[j].handle by {
        if j < s.owners.len() {
            assert(t.owners[i] == s.owners[i] && t.owners[j] == s.owners[j]);
        } else {
            assert(t.owners[i] == s.owners[i]);
            assert(!spelled(handle)(s.owners[i]));
        }
    }
    assert forall|i: int| 0 <= i < t.owners.len() implies (#[trigger] t.owners[i]).id
        < t.next_owner by {
        if i < s.owners.len() {
            assert(t.owners[i] == s.owners[i]);
        }
    }
    lemma_first_index_push(s.owners, answers_to(handle), t.owners.last());
    assert(answers_to(handle)(t.owners.last()));
}

/// A handle that no owner answers to is taken by none.
pub proof fn lemma_unanswered_is_free(s: StoreView, handle: Seq<char>)
    requires
        s.owner_named(handle) is None,
    ensures
        first_index(s.owners, spelled(handle)) is None,
{
    lemma_first_index(s.owners, answers_to(handle));
    lemma_first_index(s.owners, spelled(handle));
    match first_index(s.owners, spelled(handle)) {
        Some(i) => {
            assert(answers_to(handle)(s.owners[i]));
        },
        None => {},
    }
}

/// Where the first owner stands whose handle is `handle`: letter for letter
/// where `exact` is set, else up to the case of ASCII letters.
fn owner_position(owners: &Vec<Owner>, handle: &str, exact: bool) -> (r: Option<usize>)
    ensures
        match r {
            Some(i) => first_index(
                owner_views(owners@),
                if exact {
                    spelled(handle@)
                } else {
                    answers_to(handle@)
                },
            ) == Some(i as int),
            None => first_index(
                owner_views(owners@),
                if exact {
                    spelled(handle@)
                } else {
                    answers_to(handle@)
                },
            ) is None,
        },
{
    let ghost p = if exact {
        spelled(handle@)
    } else {
        answers_to(handle@)
    };
    let ghost rows = owner_views(owners@);
    let mut i: usize = 0;
    while i < owners.len()
        invariant
            i <= owners.len(),
            rows == owner_views(owners@),
            p == if exact {
                spelled(handle@)
            } else {
                answers_to(handle@)
            },
            forall|j: int| 0 <= j < i ==> !p(rows[j]),
        decreases owners.len() - i,
    {
        let hit = if exact {
            same_text(owners[i].handle.as_str(), handle)
        } else {
            same_ignoring_case(owners[i].handle.as_str(), handle)
        };
        assert(rows[i as int] == owners@[i as int]@);
        assert(hit == p(rows[i as int]));
        if hit {
            proof {
                lemma_first_index_is(rows, p, i as int);
            }
            return Some(i);
        }
        i += 1;
    }
    proof {
        lemma_first_index_none(rows, p);
    }
    None
}

impl Owner {
    /// A second copy of the owner.
    pub fn duplicate(&self) -> (r: Owner)
        ensures
            r@ == self@,
    {
        Owner {
            id: self.id,
            handle: self.handle.clone(),
            name: copy_option_text(&self.name),
            primary_owner_id: self.primary_owner_id,
            created_at: self.created_at,
            updated_at: self.updated_at,
        }
    }

    /// All owners, in the order in which they were stored.
    pub fn all(store: &EntityStore) -> (r: Result<Vec<Owner>, FownerError>)
        ensures
            r matches Ok(v) && owner_views(v@) == store@.owners,
    {
        let mut out: Vec<Owner> = Vec::new();
        let mut i: usize = 0;
        while i < store.owners.len()
            invariant
                i <= store.owners.len(),
                owner_views(out@) == store@.owners.take(i as int),
            decreases store.owners.len() - i,
        {
            let ghost before = owner_views(out@);
            out.push(store.owners[i].duplicate());
            assert(owner_views(out@) =~= before.push(store@.owners[i as int]));
            assert(store@.owners.take(i as int + 1) =~= before.push(store@.owners[i as int]));
            i += 1;
        }
        assert(store@.owners.take(i as int) =~= store@.owners);
        Ok(out)
    }

    /// The owner with the id `id`.
    pub fn load(id: u32, store: &EntityStore) -> (r: Result<Owner, FownerError>)
        ensures
            match first_index(store@.owners, owner_numbered(id)) {
                Some(i) => r matches Ok(o) && o@ == store@.owners[i],
                None => r matches Err(FownerError::NotFound(_)),
            },
    {
        let ghost p = owner_numbered(id);
        let mut i: usize = 0;
        while i < store.owners.len()
            invariant
                i <= store.owners.len(),
                p == owner_numbered(id),
                forall|j: int| 0 <= j < i ==> !p(store@.owners[j]),
            decreases store.owners.len() - i,
        {
            if store.owners[i].id == id {
                proof {
                    lemma_first_index_is(store@.owners, p, i as int);
                }
                return Ok(store.owners[i].duplicate());
            }
            i += 1;
        }
        proof {
            lemma_first_index_none(store@.owners, p);
        }
        Err(FownerError::NotFound(String::from_str("Owner not found")))
    }

    /// The first owner that answers to `handle`, whatever the case of its letters.
    pub fn load_by_handle(handle: String, store: &EntityStore) -> (r: Result<Owner, FownerError>)
        ensures
            match store@.owner_named(handle@) {
                Some(i) => r matches Ok(o) && o@ == store@.owners[i],
                None => r matches Err(FownerError::NotFound(_)),
            },
    {
        match owner_position(&store.owners, handle.as_str(), false) {
            Some(i) => {
                proof {
                    lemma_first_index(store@.owners, answers_to(handle@));
                }
                Ok(store.owners[i].duplicate())
            },
            None => Err(FownerError::NotFound(String::from_str("Owner not found"))),
        }
    }

    /// Replaces the name and the primary owner of the stored owner that has
    /// this owner's id, and hands back what is stored then.
    pub fn update(self, update_details: UpdateOwner, store: &mut EntityStore) -> (r: Result<
        Owner,
        FownerError,
    >)
        requires
            old(store)@.wf(),
        ensures
            match first_index(old(store)@.owners, owner_numbered(self.id)) {
                Some(i) => {
                    &&& final(store)@ == old(store)@.with_owner_details(
                        i,
                        option_text(update_details.name),
                        update_details.primary_owner_id,
                    )
                    &&& r matches Ok(o) && o@ == final(store)@.owners[i]
                },
                None => {
                    &&& final(store)@ == old(store)@
                    &&& r matches Err(FownerError::NotFound(_))
                },
            },
            final(store)@.wf(),
    {
        let ghost p = owner_numbered(self.id);
        let ghost before = store@;
        let mut i: usize = 0;
        while i < store.owners.len()
            invariant
                i <= store.owners.len(),
                store@ == before,
                before == old(store)@,
                before.wf(),
                p == owner_numbered(self.id),
                forall|j: int| 0 <= j < i ==> !p(store@.owners[j]),
            decreases store.owners.len() - i,
        {
            if store.owners[i].id == self.id {
                proof {
                    lemma_first_index_is(store@.owners, p, i as int);
                }
                let row = Owner {
                    id: store.owners[i].id,
                    handle: store.owners[i].handle.clone(),
                    name: update_details.name,
                    primary_owner_id: update_details.primary_owner_id,
                    created_at: store.owners[i].created_at,
                    updated_at: store.clock,
                };
                let out = row.duplicate();
                assert(before.owners[i as int] == store.owners@[i as int]@);
                let ghost after = before.with_owner_details(
                    i as int,
                    option_text(update_details.name),
                    update_details.primary_owner_id,
                );
                proof {
                    assert forall|a: int, b: int| 0 <= a < b < after.owners.len() implies (
                    #[trigger] after.owners[a]).id != (#[trigger] after.owners[b]).id
                        && after.owners[a].handle != after.owners[b].handle by {
                        assert(after.owners[a].id == before.owners[a].id);
                        assert(after.owners[b].id == before.owners[b].id);
                        assert(after.owners[a].handle == before.owners[a].handle);
                        assert(after.owners[b].handle == before.owners[b].handle);
                    }
                    assert forall|a: int| 0 <= a < after.owners.len() implies (
                    #[trigger] after.owners[a]).id < after.next_owner by {
                        assert(after.owners[a].id == before.owners[a].id);
                    }
                    assert(after.wf());
                }
                store.owners.set(i, row);
                assert(store@.owners =~= after.owners);
                assert(store@ == after);
                assert(out@ == after.owners[i as int]);
                return Ok(out);
            }
            i += 1;
        }
        proof {
            lemma_first_index_none(store@.owners, p);
        }
        Err(FownerError::NotFound(String::from_str("Owner not found")))
    }
}

impl NewOwner {
    /// Stores the owner under a new id. The write is refused where the handle
    /// is taken, letter for letter, or no id is left. Handed back is the first
    /// stored owner that answers to the handle.
    pub fn save(&self, store: &mut EntityStore) -> (r: Result<Owner, FownerError>)
        requires
            old(store)@.wf(),
        ensures
            match r {
                Ok(o) => {
                    &&& old(store)@.can_add_owner(self.handle@)
                    &&& final(store)@ == old(store)@.with_owner(
                        self.handle@,
                        option_text(self.name),
                        self.primary_owner_id,
                    )
                    &&& final(store)@.owner_named(self.handle@) matches Some(i) && o@ == final(store)@.owners[i]
                    &&& o@ == match old(store)@.owner_named(self.handle@) {
                        Some(i) => old(store)@.owners[i],
                        None => OwnerView {
                            id: old(store)@.next_owner,
                            handle: self.handle@,
                            name: option_text(self.name),
                            primary_owner_id: self.primary_owner_id,
                            created_at: old(store)@.clock,
                            updated_at: old(store)@.clock,
                        },
                    }
                },
                Err(e) => {
                    &&& !old(store)@.can_add_owner(self.handle@)
                    &&& final(store)@ == old(store)@
                    &&& e is Store
                },
            },
            final(store)@.wf(),
    {
        let ghost before = store@;
        if store.next_owner == u32::MAX {
            return Err(FownerError::Store(String::from_str("no owner id is left")));
        }
        if owner_position(&store.owners, self.handle.as_str(), true).is_some() {
            return Err(FownerError::Store(String::from_str("the handle is taken")));
        }
        let ghost after = before.with_owner(
            self.handle@,
            option_text(self.name),
            self.primary_owner_id,
        );
        proof {
            lemma_with_owner_wf(
                before,
                self.handle@,
                option_text(self.name),
                self.primary_owner_id,
            );
        }
        let row = Owner {
            id: store.next_owner,
            handle: self.handle.clone(),
            name: copy_option_text(&self.name),
            primary_owner_id: self.primary_owner_id,
            created_at: store.clock,
            updated_at: store.clock,
        };
        store.next_owner = store.next_owner + 1;
        store.owners.push(row);
        assert(store@.owners =~= after.owners);
        proof {
            lemma_first_index(before.owners, answers_to(self.handle@));
            lemma_first_index_push(before.owners, answers_to(self.handle@), after.owners.last());
        }
        match owner_position(&store.owners, self.handle.as_str(), false) {
            Some(i) => {
                proof {
                    lemma_first_index(store@.owners, answers_to(self.handle@));
                }
                Ok(store.owners[i].duplicate())
            },
            None => Err(FownerError::Store(String::new())),
        }
    }

    /// The first stored owner that answers to the handle; where there is
    /// none, the owner is stored and handed back.
    pub fn save_or_load(&self, store: &mut EntityStore) -> (r: Result<Owner, FownerError>)
        requires
            old(store)@.wf(),
        ensures
            match r {
                Ok(o) => {
                    &&& old(store)@.owner_named(self.handle@) is Some || old(store)@.next_owner
                        < u32::MAX
                    &&& final(store)@ == old(store)@.resolve_owner(
                        self.handle@,
                        option_text(self.name),
                        self.primary_owner_id,
                    )
                    &&& final(store)@.owner_named(self.handle@) matches Some(i) && o@ == final(store)@.owners[i]
                    &&& o@ == match old(store)@.owner_named(self.handle@) {
                        Some(i) => old(store)@.owners[i],
                        None => OwnerView {
                            id: old(store)@.next_owner,
                            handle: self.handle@,
                            name: option_text(self.name),
                            primary_owner_id: self.primary_owner_id,
                            created_at: old(store)@.clock,
                            updated_at: old(store)@.clock,
                        },
                    }
                },
                Err(e) => {
                    &&& old(store)@.owner_named(self.handle@) is None
                    &&& old(store)@.next_owner == u32::MAX
                    &&& final(store)@ == old(store)@
                    &&& e is Store
                },
            },
            final(store)@.wf(),
    {
        match owner_position(&store.owners, self.handle.as_str(), false) {
            Some(i) => {
                proof {
                    lemma_first_index(store@.owners, answers_to(self.handle@));
                }
                Ok(store.owners[i].duplicate())
            },
            None => {
                proof {
                    lemma_unanswered_is_free(store@, self.handle@);
                }
                self.save(store)
            },
        }
    }
}

} // verus!
