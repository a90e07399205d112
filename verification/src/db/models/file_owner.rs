//! The record that an owner touched a file in a commit.

use crate::db::{EntityStore, StoreView};
use crate::errors::FownerError;
use vstd::prelude::*;

verus! {

/// Owner `owner_id` touched file `file_id` in commit `sha` at `action_date`.
#[derive(Clone, Debug, PartialEq, Eq)]
pub struct FileOwner {
    pub file_id: u32,
    pub owner_id: u32,
    pub action_date: i64,
    pub sha: String,
    pub created_at: i64,
    pub updated_at: i64,
}

pub struct FileOwnerView {
    pub file_id: u32,
    pub owner_id: u32,
    pub action_date: i64,
    pub sha: Seq<char>,
    pub created_at: i64,
    pub updated_at: i64,
}

impl View for FileOwner {
    type V = FileOwnerView;

    open spec fn view(&self) -> FileOwnerView {
        FileOwnerView {
            file_id: self.file_id,
            owner_id: self.owner_id,
            action_date: self.action_date,
            sha: self.sha@,
            created_at: self.created_at,
            updated_at: self.updated_at,
        }
    }
}

/// A record that is to be stored.
#[derive(Clone, Debug)]
pub struct NewFileOwner {
    pub file_id: u32,
    pub owner_id: u32,
    pub action_date: i64,
    pub sha: String,
}

impl StoreView {
    /// The store with one more record of an owner touching a file, stamped
    /// with the clock.
    pub open spec fn with_file_owner(
        self,
        file_id: u32,
        owner_id: u32,
        action_date: i64,
        sha: Seq<char>,
    ) -> StoreView {
        StoreView {
            file_owners: self.file_owners.push(
                FileOwnerView {
                    file_id,
                    owner_id,
                    action_date,
                    sha,
                    created_at: self.clock,
                    updated_at: self.clock,
                },
            ),
            ..self
        }
    }
}

impl FileOwner {
    /// A second copy of the record.
    pub fn duplicate(&self) -> (r: FileOwner)
        ensures
            r@ == self@,
    {
        FileOwner {
            file_id: self.file_id,
            owner_id: self.owner_id,
            action_date: self.action_date,
            sha: self.sha.clone(),
            created_at: self.created_at,
            updated_at: self.updated_at,
        }
    }
}

impl NewFileOwner {
    /// Adds the record to the history of the file. Records are never merged:
    /// each call adds one.
    pub fn save(&self, store: &mut EntityStore) -> (r: Result<FileOwner, FownerError>)
        requires
            old(store)@.wf(),
        ensures
            final(store)@ == old(store)@.with_file_owner(
                self.file_id,
                self.owner_id,
                self.action_date,
                self.sha@,
            ),
            r matches Ok(row) && row@ == final(store)@.file_owners.last(),
            final(store)@.wf(),
    {
        let ghost before = store@;
        let ghost after = before.with_file_owner(
            self.file_id,
            self.owner_id,
            self.action_date,
            self.sha@,
        );
        let row = FileOwner {
            file_id: self.file_id,
            owner_id: self.owner_id,
            action_date: self.action_date,
            sha: self.sha.clone(),
            created_at: store.clock,
            updated_at: store.clock,
        };
        let out = row.duplicate();
        store.file_owners.push(row);
        assert(store@.file_owners =~= after.file_owners);
        assert(store@ == after);
        Ok(out)
    }
}

} // verus!
