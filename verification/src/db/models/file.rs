//! The files of a project.

use crate::db::models::commit::commit_numbered;
use crate::db::models::feature::feature_numbered;
use crate::db::models::file_commit::FileCommit;
use crate::db::models::file_feature::{FileFeature, NewFileFeature};
use crate::db::models::file_owner::FileOwnerView;
use crate::db::models::owner::owner_numbered;
use crate::db::{
    file_views, first_index, lemma_first_index, lemma_first_index_is, lemma_first_index_none,
    lemma_first_index_push, EntityStore, StoreView,
};
use crate::errors::FownerError;
use crate::text::{option_text, same_text, string_views};
use vstd::prelude::*;

verus! {

/// A file of a project. There is one per project and path. A file with
/// `no_features` set is excluded from feature tagging.
#[derive(Clone, Debug, PartialEq, Eq)]
pub struct File {
    pub id: u32,
    pub project_id: u32,
    pub path: String,
    pub no_features: bool,
    pub created_at: i64,
    pub updated_at: i64,
}

pub struct FileView {
    pub id: u32,
    pub project_id: u32,
    pub path: Seq<char>,
    pub no_features: bool,
    pub created_at: i64,
    pub updated_at: i64,
}

impl View for File {
    type V = FileView;

    open spec fn view(&self) -> FileView {
        FileView {
            id: self.id,
            project_id: self.project_id,
            path: self.path@,
            no_features: self.no_features,
            created_at: self.created_at,
            updated_at: self.updated_at,
        }
    }
}

/// A file that is to be stored.
#[derive(Clone, Debug)]
pub struct NewFile {
    pub project_id: u32,
    pub path: String,
    pub no_features: bool,
}

/// Holds of the file of project `project_id` with the path `path`.
pub open spec fn file_keyed(project_id: u32, path: Seq<char>) -> spec_fn(FileView) -> bool {
    |f: FileView| f.project_id == project_id && f.path == path
}

/// Holds of the file of project `project_id` with the id `id`.
pub open spec fn file_numbered(project_id: u32, id: u32) -> spec_fn(FileView) -> bool {
    |f: FileView| f.project_id == project_id && f.id == id
}

/// Holds of the files of project `project_id`.
pub open spec fn file_of_project(project_id: u32) -> spec_fn(FileView) -> bool {
    |f: FileView| f.project_id == project_id
}

impl StoreView {
    /// Where the file of project `project_id` with the path `path` stands.
    pub open spec fn file_at(self, project_id: u32, path: Seq<char>) -> Option<int> {
        first_index(self.files, file_keyed(project_id, path))
    }

    /// Whether an id is left for one more file.
    pub open spec fn can_add_file(self) -> bool {
        self.next_file < u32::MAX
    }

    /// The store with one more file, stamped with the clock.
    pub open spec fn with_file(self, project_id: u32, path: Seq<char>, no_features: bool)
        -> StoreView {
        StoreView {
            files: self.files.push(
                FileView {
                    id: self.next_file,
                    project_id,
                    path,
                    no_features,
                    created_at: self.clock,
                    updated_at: self.clock,
                },
            ),
            next_file: (self.next_file + 1) as u32,
            ..self
        }
    }

    /// The store in which the project has a file of that path: the store
    /// itself where it has one, whatever that file's flag says, else the
    /// store with the file added.
    pub open spec fn resolve_file(self, project_id: u32, path: Seq<char>, no_features: bool)
        -> StoreView {
        if self.file_at(project_id, path) is Some {
            self
        } else {
            self.with_file(project_id, path, no_features)
        }
    }
}

/// Resolving a file keeps the store well formed and leaves the file where a
/// look-up by project and path finds it.
pub proof fn lemma_resolve_file_wf(
    s: StoreView,
    project_id: u32,
    path: Seq<char>,
    no_features: bool,
)
    requires
        s.wf(),
        s.file_at(project_id, path) is Some || s.can_add_file(),
    ensures
        s.resolve_file(project_id, path, no_features).wf(),
        s.resolve_file(project_id, path, no_features).file_at(project_id, path) == Some(
            match s.file_at(project_id, path) {
                Some(i) => i,
                None => s.files.len() as int,
            },
        ),
{
    let t = s.resolve_file(project_id, path, no_features);
    let p = file_keyed(project_id, path);
    lemma_first_index(s.files, p);
    if s.file_at(project_id, path) is None {
        assert forall|i: int, j: int| 0 <= i < j < t.files.len() implies (#[trigger] t.files[i]).id
            != (#[trigger] t.files[j]).id && !(t.files[i].project_id == t.files[j].project_id
            && t.files[i].path == t.files[j].path) by {
            if j < s.files.len() {
                assert(t.files[i] == s.files[i] && t.files[j] == s.files[j]);
            } else {
                assert(t.files[i] == s.files[i]);
                assert(!p(s.files[i]));
            }
        }
        assert forall|i: int| 0 <= i < t.files.len() implies (#[trigger] t.files[i]).id
            < t.next_file by {
            if i < s.files.len() {
                assert(t.files[i] == s.files[i]);
            }
        }
        lemma_first_index_push(s.files, p, t.files.last());
        assert(p(t.files.last()));
    }
}

/// Where the file of a project with a path stands.
pub(crate) fn file_position(files: &Vec<File>, project_id: u32, path: &str) -> (r: Option<usize>)
    ensures
        match r {
            Some(i) => first_index(file_views(files@), file_keyed(project_id, path@)) == Some(
                i as int,
            ),
            None => first_index(file_views(files@), file_keyed(project_id, path@)) is None,
        },
{
    let ghost p = file_keyed(project_id, path@);
    let ghost rows = file_views(files@);
    let mut i: usize = 0;
    while i < files.len()
        invariant
            i <= files.len(),
            rows == file_views(files@),
            p == file_keyed(project_id, path@),
            forall|j: int| 0 <= j < i ==> !p(rows[j]),
        decreases files.len() - i,
    {
        assert(rows[i as int] == files@[i as int]@);
        if files[i].project_id == project_id && same_text(files[i].path.as_str(), path) {
            proof {
                lemma_first_index_is(rows, p, i as int);
            }
            return Some(i);
        }
        i += 1;
    }
    proof {
        lemma_first_index_none(rows, p);
    }
    None
}

impl File {
    /// A second copy of the file.
    pub fn duplicate(&self) -> (r: File)
        ensures
            r@ == self@,
    {
        File {
            id: self.id,
            project_id: self.project_id,
            path: self.path.clone(),
            no_features: self.no_features,
            created_at: self.created_at,
            updated_at: self.updated_at,
        }
    }

    /// The files of a project, in the order in which they were stored.
    pub fn all(project_id: u32, store: &EntityStore) -> (r: Result<Vec<File>, FownerError>)
        ensures
            r matches Ok(v) && file_views(v@) == store@.files.filter(file_of_project(project_id)),
    {
        let ghost p = file_of_project(project_id);
        let mut out: Vec<File> = Vec::new();
        let mut i: usize = 0;
        assert(store@.files.take(0) =~= Seq::empty());
        assert(file_views(out@) =~= Seq::empty());
        proof {
            reveal(Seq::filter);
        }
        while i < store.files.len()
            invariant
                i <= store.files.len(),
                p == file_of_project(project_id),
                file_views(out@) == store@.files.take(i as int).filter(p),
            decreases store.files.len() - i,
        {
            let ghost before = file_views(out@);
            let ghost next = store@.files.take(i as int + 1);
            assert(next.drop_last() =~= store@.files.take(i as int));
            assert(next.last() == store.files@[i as int]@);
            proof {
                reveal(Seq::filter);
            }
            if store.files[i].project_id == project_id {
                out.push(store.files[i].duplicate());
                assert(file_views(out@) =~= before.push(next.last()));
            }
            i += 1;
        }
        assert(store@.files.take(i as int) =~= store@.files);
        Ok(out)
    }

    /// The file of a project with the id `file_id`.
    pub fn load(project_id: u32, file_id: u32, store: &EntityStore) -> (r: Result<
        File,
        FownerError,
    >)
        ensures
            match first_index(store@.files, file_numbered(project_id, file_id)) {
                Some(i) => r matches Ok(f) && f@ == store@.files[i],
                None => r matches Err(FownerError::NotFound(_)),
            },
    {
        let ghost p = file_numbered(project_id, file_id);
        let mut i: usize = 0;
        while i < store.files.len()
            invariant
                i <= store.files.len(),
                p == file_numbered(project_id, file_id),
                forall|j: int| 0 <= j < i ==> !p(store@.files[j]),
            decreases store.files.len() - i,
        {
            if store.files[i].project_id == project_id && store.files[i].id == file_id {
                proof {
                    lemma_first_index_is(store@.files, p, i as int);
                }
                return Ok(store.files[i].duplicate());
            }
            i += 1;
        }
        proof {
            lemma_first_index_none(store@.files, p);
        }
        Err(FownerError::NotFound(String::from_str("File not found")))
    }

    /// The file of a project with the path `path`.
    pub fn load_by_path(project_id: u32, path: String, store: &EntityStore) -> (r: Result<
        File,
        FownerError,
    >)
        ensures
            match store@.file_at(project_id, path@) {
                Some(i) => r matches Ok(f) && f@ == store@.files[i],
                None => r matches Err(FownerError::NotFound(_)),
            },
    {
        match file_position(&store.files, project_id, path.as_str()) {
            Some(i) => {
                proof {
                    lemma_first_index(store@.files, file_keyed(project_id, path@));
                }
                Ok(store.files[i].duplicate())
            },
            None => Err(FownerError::NotFound(String::from_str("File not found"))),
        }
    }

    /// Attaches a feature to this file. A file that is excluded from tagging
    /// takes none: the call fails with the file's path and the store stays as
    /// it is. Attaching a feature that the file carries already changes
    /// nothing.
    pub fn add_feature(&self, feature_id: u32, store: &mut EntityStore) -> (r: Result<
        FileFeature,
        FownerError,
    >)
        requires
            old(store)@.wf(),
        ensures
            match r {
                Ok(link) => {
                    &&& !self.no_features
                    &&& final(store)@ == old(store)@.attach_feature(self.id, feature_id)
                    &&& final(store)@.feature_link_at(self.id, feature_id) matches Some(i) && link
                        == final(store)@.file_features[i]
                },
                Err(e) => {
                    &&& self.no_features
                    &&& final(store)@ == old(store)@
                    &&& e matches FownerError::FileCannotHaveFeatures(p) && p@ == self.path@
                },
            },
            final(store)@.wf(),
    {
        if self.no_features {
            return Err(FownerError::FileCannotHaveFeatures(self.path.clone()));
        }
        NewFileFeature { file_id: self.id, feature_id }.save(store)
    }
}

impl NewFile {
    /// The file of the project with this path, as it is stored; where there
    /// is none, the file is stored under a new id and handed back. The write
    /// is refused only where the file would have to be added and no id is
    /// left.
    pub fn save(&self, store: &mut EntityStore) -> (r: Result<File, FownerError>)
        requires
            old(store)@.wf(),
        ensures
            match r {
                Ok(f) => {
                    &&& old(store)@.file_at(self.project_id, self.path@) is Some || old(store)@.can_add_file()
                    &&& final(store)@ == old(store)@.resolve_file(
                        self.project_id,
                        self.path@,
                        self.no_features,
                    )
                    &&& final(store)@.file_at(self.project_id, self.path@) matches Some(i) && f@
                        == final(store)@.files[i]
                    &&& f@ == match old(store)@.file_at(self.project_id, self.path@) {
                        Some(i) => old(store)@.files[i],
                        None => FileView {
                            id: old(store)@.next_file,
                            project_id: self.project_id,
                            path: self.path@,
                            no_features: self.no_features,
                            created_at: old(store)@.clock,
                            updated_at: old(store)@.clock,
                        },
                    }
                },
                Err(e) => {
                    &&& old(store)@.file_at(self.project_id, self.path@) is None
                    &&& !old(store)@.can_add_file()
                    &&& final(store)@ == old(store)@
                    &&& e is Store
                },
            },
            final(store)@.wf(),
    {
        let ghost before = store@;
        let ghost after = before.resolve_file(self.project_id, self.path@, self.no_features);
        match file_position(&store.files, self.project_id, self.path.as_str()) {
            Some(i) => {
                proof {
                    lemma_first_index(before.files, file_keyed(self.project_id, self.path@));
                }
                Ok(store.files[i].duplicate())
            },
            None => {
                if store.next_file == u32::MAX {
                    return Err(FownerError::Store(String::from_str("no file id is left")));
                }
                proof {
                    lemma_resolve_file_wf(before, self.project_id, self.path@, self.no_features);
                }
                let row = File {
                    id: store.next_file,
                    project_id: self.project_id,
                    path: self.path.clone(),
                    no_features: self.no_features,
                    created_at: store.clock,
                    updated_at: store.clock,
                };
                let out = row.duplicate();
                store.next_file = store.next_file + 1;
                store.files.push(row);
                assert(store@.files =~= after.files);
                assert(store@ == after);
                assert(out@ == after.files[before.files.len() as int]);
                Ok(out)
            },
        }
    }
}

/// The name of the feature with the id `id`, if there is one.
pub open spec fn feature_named(s: StoreView, id: u32) -> Option<Seq<char>> {
    match first_index(s.features, feature_numbered(id)) {
        Some(i) => Some(s.features[i].name),
        None => None,
    }
}

/// The sha of the commit with the id `id`, if there is one.
pub open spec fn commit_sha(s: StoreView, id: u32) -> Option<Seq<char>> {
    match first_index(s.commits, commit_numbered(id as i64)) {
        Some(i) => Some(s.commits[i].sha),
        None => None,
    }
}

/// The handle under which the owner with the id `id` is reported, if there is
/// such an owner: the handle of its primary owner where it names one that is
/// stored, else its own.
pub open spec fn reported_handle(s: StoreView, id: u32) -> Option<Seq<char>> {
    match first_index(s.owners, owner_numbered(id)) {
        Some(i) => match s.owners[i].primary_owner_id {
            Some(primary) => match first_index(s.owners, owner_numbered(primary)) {
                Some(k) => Some(s.owners[k].handle),
                None => Some(s.owners[i].handle),
            },
            None => Some(s.owners[i].handle),
        },
        None => None,
    }
}

/// The names of the features that the links give to the file, link by link.
pub open spec fn names_through(s: StoreView, links: Seq<FileFeature>, file_id: u32) -> Seq<
    Seq<char>,
>
    decreases links.len(),
{
    if links.len() == 0 {
        Seq::empty()
    } else {
        let before = names_through(s, links.drop_last(), file_id);
        if links.last().file_id == file_id {
            match feature_named(s, links.last().feature_id) {
                Some(name) => before.push(name),
                None => before,
            }
        } else {
            before
        }
    }
}

/// The shas of the commits that the links give to the file, link by link.
pub open spec fn shas_through(s: StoreView, links: Seq<FileCommit>, file_id: u32) -> Seq<Seq<char>>
    decreases links.len(),
{
    if links.len() == 0 {
        Seq::empty()
    } else {
        let before = shas_through(s, links.drop_last(), file_id);
        if links.last().file_id == file_id {
            match commit_sha(s, links.last().commit_id) {
                Some(sha) => before.push(sha),
                None => before,
            }
        } else {
            before
        }
    }
}

/// The handles under which the owners are reported that the touches give to
/// the file, each once, in the order in which they first touched it.
pub open spec fn handles_through(s: StoreView, touches: Seq<FileOwnerView>, file_id: u32) -> Seq<
    Seq<char>,
>
    decreases touches.len(),
{
    if touches.len() == 0 {
        Seq::empty()
    } else {
        let before = handles_through(s, touches.drop_last(), file_id);
        if touches.last().file_id == file_id {
            match reported_handle(s, touches.last().owner_id) {
                Some(handle) => if before.contains(handle) {
                    before
                } else {
                    before.push(handle)
                },
                None => before,
            }
        } else {
            before
        }
    }
}

fn name_of_feature(store: &EntityStore, id: u32) -> (r: Option<String>)
    ensures
        option_text(r) == feature_named(store@, id),
{
    let ghost p = feature_numbered(id);
    let mut i: usize = 0;
    while i < store.features.len()
        invariant
            i <= store.features.len(),
            p == feature_numbered(id),
            forall|j: int| 0 <= j < i ==> !p(store@.features[j]),
        decreases store.features.len() - i,
    {
        if store.features[i].id == id {
            proof {
                lemma_first_index_is(store@.features, p, i as int);
            }
            return Some(store.features[i].name.clone());
        }
        i += 1;
    }
    proof {
        lemma_first_index_none(store@.features, p);
    }
    None
}

fn sha_of_commit(store: &EntityStore, id: u32) -> (r: Option<String>)
    ensures
        option_text(r) == commit_sha(store@, id),
{
    let ghost p = commit_numbered(id as i64);
    let mut i: usize = 0;
    while i < store.commits.len()
        invariant
            i <= store.commits.len(),
            p == commit_numbered(id as i64),
            forall|j: int| 0 <= j < i ==> !p(store@.commits[j]),
        decreases store.commits.len() - i,
    {
        if store.commits[i].id == id {
            proof {
                lemma_first_index_is(store@.commits, p, i as int);
            }
            return Some(store.commits[i].sha.clone());
        }
        i += 1;
    }
    proof {
        lemma_first_index_none(store@.commits, p);
    }
    None
}

fn owner_place(store: &EntityStore, id: u32) -> (r: Option<usize>)
    ensures
        match r {
            Some(i) => first_index(store@.owners, owner_numbered(id)) == Some(i as int) && i
                < store.owners.len(),
            None => first_index(store@.owners, owner_numbered(id)) is None,
        },
{
    let ghost p = owner_numbered(id);
    let mut i: usize = 0;
    while i < store.owners.len()
        invariant
            i <= store.owners.len(),
            p == owner_numbered(id),
            forall|j: int| 0 <= j < i ==> !p(store@.owners[j]),
        decreases store.owners.len() - i,
    {
        if store.owners[i].id == id {
            proof {
                lemma_first_index_is(store@.owners, p, i as int);
            }
            return Some(i);
        }
        i += 1;
    }
    proof {
        lemma_first_index_none(store@.owners, p);
    }
    None
}

fn handle_reported(store: &EntityStore, id: u32) -> (r: Option<String>)
    ensures
        option_text(r) == reported_handle(store@, id),
{
    match owner_place(store, id) {
        Some(i) => {
            assert(store@.owners[i as int] == store.owners@[i as int]@);
            match store.owners[i].primary_owner_id {
                Some(primary) => match owner_place(store, primary) {
                    Some(k) => {
                        assert(store@.owners[k as int] == store.owners@[k as int]@);
                        Some(store.owners[k].handle.clone())
                    },
                    None => Some(store.owners[i].handle.clone()),
                },
                None => Some(store.owners[i].handle.clone()),
            }
        },
        None => None,
    }
}

fn holds_text(list: &Vec<String>, text: &str) -> (r: bool)
    ensures
        r == string_views(list@).contains(text@),
{
    let mut i: usize = 0;
    while i < list.len()
        invariant
            i <= list.len(),
            forall|j: int| 0 <= j < i ==> string_views(list@)[j] != text@,
        decreases list.len() - i,
    {
        assert(string_views(list@)[i as int] == list@[i as int]@);
        if same_text(list[i].as_str(), text) {
            return true;
        }
        i += 1;
    }
    false
}

impl StoreView {
    /// The names of the features that a file carries, in the order in which
    /// they were attached.
    pub open spec fn feature_names_of(self, file_id: u32) -> Seq<Seq<char>> {
        names_through(self, self.file_features, file_id)
    }

    /// The shas of the commits that changed a file, in the order in which
    /// they were linked.
    pub open spec fn commit_shas_of(self, file_id: u32) -> Seq<Seq<char>> {
        shas_through(self, self.file_commits, file_id)
    }

    /// The handles under which the owners of a file are reported, each once,
    /// in the order in which they first touched the file.
    pub open spec fn owners_of(self, file_id: u32) -> Seq<Seq<char>> {
        handles_through(self, self.file_owners, file_id)
    }
}

impl File {
    /// The names of the features that this file carries.
    pub fn feature_names(&self, store: &EntityStore) -> (r: Vec<String>)
        ensures
            string_views(r@) == store@.feature_names_of(self.id),
    {
        let mut out: Vec<String> = Vec::new();
        let mut i: usize = 0;
        assert(store@.file_features.take(0) =~= Seq::empty());
        assert(string_views(out@) =~= Seq::empty());
        while i < store.file_features.len()
            invariant
                i <= store.file_features.len(),
                string_views(out@) == names_through(
                    store@,
                    store@.file_features.take(i as int),
                    self.id,
                ),
            decreases store.file_features.len() - i,
        {
            let ghost before = string_views(out@);
            let ghost next = store@.file_features.take(i as int + 1);
            assert(next.drop_last() =~= store@.file_features.take(i as int));
            if store.file_features[i].file_id == self.id {
                match name_of_feature(store, store.file_features[i].feature_id) {
                    Some(name) => {
                        out.push(name);
                        assert(string_views(out@) =~= before.push(name@));
                    },
                    None => {},
                }
            }
            i += 1;
        }
        assert(store@.file_features.take(i as int) =~= store@.file_features);
        out
    }

    /// The shas of the commits that changed this file.
    pub fn commit_shas(&self, store: &EntityStore) -> (r: Vec<String>)
        ensures
            string_views(r@) == store@.commit_shas_of(self.id),
    {
        let mut out: Vec<String> = Vec::new();
        let mut i: usize = 0;
        assert(store@.file_commits.take(0) =~= Seq::empty());
        assert(string_views(out@) =~= Seq::empty());
        while i < store.file_commits.len()
            invariant
                i <= store.file_commits.len(),
                string_views(out@) == shas_through(
                    store@,
                    store@.file_commits.take(i as int),
                    self.id,
                ),
            decreases store.file_commits.len() - i,
        {
            let ghost before = string_views(out@);
            let ghost next = store@.file_commits.take(i as int + 1);
            assert(next.drop_last() =~= store@.file_commits.take(i as int));
            if store.file_commits[i].file_id == self.id {
                match sha_of_commit(store, store.file_commits[i].commit_id) {
                    Some(sha) => {
                        out.push(sha);
                        assert(string_views(out@) =~= before.push(sha@));
                    },
                    None => {},
                }
            }
            i += 1;
        }
        assert(store@.file_commits.take(i as int) =~= store@.file_commits);
        out
    }

    /// The handles under which the owners of this file are reported.
    pub fn owners(&self, store: &EntityStore) -> (r: Vec<String>)
        ensures
            string_views(r@) == store@.owners_of(self.id),
    {
        let mut out: Vec<String> = Vec::new();
        let mut i: usize = 0;
        assert(store@.file_owners.take(0) =~= Seq::empty());
        assert(string_views(out@) =~= Seq::empty());
        while i < store.file_owners.len()
            invariant
                i <= store.file_owners.len(),
                string_views(out@) == handles_through(
                    store@,
                    store@.file_owners.take(i as int),
                    self.id,
                ),
            decreases store.file_owners.len() - i,
        {
            let ghost before = string_views(out@);
            let ghost next = store@.file_owners.take(i as int + 1);
            assert(next.drop_last() =~= store@.file_owners.take(i as int));
            assert(next.last() == store.file_owners@[i as int]@);
            if store.file_owners[i].file_id == self.id {
                match handle_reported(store, store.file_owners[i].owner_id) {
                    Some(handle) => {
                        if !holds_text(&out, handle.as_str()) {
                            out.push(handle);
                            assert(string_views(out@) =~= before.push(handle@));
                        }
                    },
                    None => {},
                }
            }
            i += 1;
        }
        assert(store@.file_owners.take(i as int) =~= store@.file_owners);
        out
    }
}

/// Holds of the file with the id `id`.
pub open spec fn file_with_id(id: u32) -> spec_fn(FileView) -> bool {
    |f: FileView| f.id == id
}

/// Holds of the links of all files but the one with the id `file_id`.
pub open spec fn of_other_file(file_id: u32) -> spec_fn(FileFeature) -> bool {
    |l: FileFeature| l.file_id != file_id
}

impl StoreView {
    /// The store in which the file with the id `file_id` is excluded from
    /// tagging and carries no feature.
    pub open spec fn without_features(self, file_id: u32) -> StoreView {
        StoreView {
            files: match first_index(self.files, file_with_id(file_id)) {
                Some(i) => self.files.update(i, FileView { no_features: true, ..self.files[i] }),
                None => self.files,
            },
            file_features: self.file_features.filter(of_other_file(file_id)),
            ..self
        }
    }
}

/// Taking links out leaves no file linked twice to one feature.
pub proof fn lemma_fewer_links(links: Seq<FileFeature>, p: spec_fn(FileFeature) -> bool)
    requires
        crate::db::feature_links_rule(links),
    ensures
        crate::db::feature_links_rule(links.filter(p)),
        forall|k: int|
            0 <= k < links.filter(p).len() ==> links.contains(#[trigger] links.filter(p)[k]),
    decreases links.len(),
{
    reveal(Seq::filter);
    if links.len() > 0 {
        let earlier = links.drop_last();
        assert forall|i: int, j: int| 0 <= i < j < earlier.len() implies !((
        #[trigger] earlier[i]).file_id == (#[trigger] earlier[j]).file_id && earlier[i].feature_id
            == earlier[j].feature_id) by {
            assert(earlier[i] == links[i] && earlier[j] == links[j]);
        }
        lemma_fewer_links(earlier, p);
        let kept = earlier.filter(p);
        let all = links.filter(p);
        assert forall|k: int| 0 <= k < all.len() implies links.contains(#[trigger] all[k]) by {
            if k < kept.len() {
                assert(all[k] == kept[k]);
                assert(earlier.contains(kept[k]));
                let a = choose|a: int| 0 <= a < earlier.len() && earlier[a] == kept[k];
                assert(links[a] == all[k]);
            } else {
                assert(all[k] == links[links.len() - 1]);
            }
        }
        assert forall|i: int, j: int| 0 <= i < j < all.len() implies !((#[trigger] all[i]).file_id
            == (#[trigger] all[j]).file_id && all[i].feature_id == all[j].feature_id) by {
            if j < kept.len() {
                assert(all[i] == kept[i] && all[j] == kept[j]);
            } else {
                assert(all[i] == kept[i]);
                assert(earlier.contains(kept[i]));
                let a = choose|a: int| 0 <= a < earlier.len() && earlier[a] == kept[i];
                assert(links[a] == all[i]);
                assert(all[j] == links[links.len() - 1]);
            }
        }
    }
}

fn file_place(store: &EntityStore, id: u32) -> (r: Option<usize>)
    ensures
        match r {
            Some(i) => first_index(store@.files, file_with_id(id)) == Some(i as int) && i
                < store.files.len(),
            None => first_index(store@.files, file_with_id(id)) is None,
        },
{
    let ghost p = file_with_id(id);
    let mut i: usize = 0;
    while i < store.files.len()
        invariant
            i <= store.files.len(),
            p == file_with_id(id),
            forall|j: int| 0 <= j < i ==> !p(store@.files[j]),
        decreases store.files.len() - i,
    {
        if store.files[i].id == id {
            proof {
                lemma_first_index_is(store@.files, p, i as int);
            }
            return Some(i);
        }
        i += 1;
    }
    proof {
        lemma_first_index_none(store@.files, p);
    }
    None
}

impl File {
    /// Excludes the file with this file's id from tagging and takes the
    /// features it carries from it. Handed back is the number of files that
    /// were excluded by the call: one, or none where no file has the id.
    pub fn remove_features(&self, store: &mut EntityStore) -> (r: Result<usize, FownerError>)
        requires
            old(store)@.wf(),
        ensures
            final(store)@ == old(store)@.without_features(self.id),
            r matches Ok(n) && n == (if first_index(old(store)@.files, file_with_id(self.id))
                is Some {
                1usize
            } else {
                0usize
            }),
            final(store)@.wf(),
    {
        let ghost before = store@;
        let ghost after = before.without_features(self.id);
        let ghost p = file_with_id(self.id);
        let ghost q = of_other_file(self.id);
        proof {
            lemma_fewer_links(before.file_features, q);
            lemma_first_index(before.files, p);
            assert(crate::db::files_rule(after.files, after.next_file)) by {
                assert forall|i: int| 0 <= i < after.files.len() implies (
                #[trigger] after.files[i]).id == before.files[i].id && after.files[i].project_id
                    == before.files[i].project_id && after.files[i].path
                    == before.files[i].path by {}
                assert forall|i: int, j: int| 0 <= i < j < after.files.len() implies (
                #[trigger] after.files[i]).id != (#[trigger] after.files[j]).id && !(
                after.files[i].project_id == after.files[j].project_id && after.files[i].path
                    == after.files[j].path) by {
                    assert(before.files[i].id != before.files[j].id);
                }
                assert forall|i: int| 0 <= i < after.files.len() implies (
                #[trigger] after.files[i]).id < after.next_file by {
                    assert(before.files[i].id < before.next_file);
                }
            }
            assert(after.wf());
        }
        let changed: usize = match file_place(store, self.id) {
            Some(i) => {
                assert(before.files[i as int] == store.files@[i as int]@);
                let row = File {
                    id: store.files[i].id,
                    project_id: store.files[i].project_id,
                    path: store.files[i].path.clone(),
                    no_features: true,
                    created_at: store.files[i].created_at,
                    updated_at: store.files[i].updated_at,
                };
                store.files.set(i, row);
                assert(store@.files =~= after.files);
                1
            },
            None => 0,
        };
        assert(store@.files == after.files);
        let mut kept: Vec<FileFeature> = Vec::new();
        let mut k: usize = 0;
        assert(before.file_features.take(0) =~= Seq::empty());
        proof {
            reveal(Seq::filter);
        }
        while k < store.file_features.len()
            invariant
                k <= store.file_features.len(),
                store@.file_features == before.file_features,
                q == of_other_file(self.id),
                kept@ == before.file_features.take(k as int).filter(q),
            decreases store.file_features.len() - k,
        {
            let ghost next = before.file_features.take(k as int + 1);
            assert(next.drop_last() =~= before.file_features.take(k as int));
            proof {
                reveal(Seq::filter);
            }
            if store.file_features[k].file_id != self.id {
                kept.push(store.file_features[k]);
            }
            k += 1;
        }
        assert(before.file_features.take(k as int) =~= before.file_features);
        store.file_features = kept;
        assert(store@ == after);
        Ok(changed)
    }
}

} // verus!
