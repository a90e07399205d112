//! What holds of the ingestion as a whole: it only ever adds rows, it leaves
//! behind all that a commit needs, and it adds nothing when run again.

use crate::db::models::commit::{commit_keyed, CommitView};
use crate::db::models::feature::feature_keyed;
use crate::db::models::file::file_keyed;
use crate::db::models::file_commit::commit_link;
use crate::db::models::file_feature::feature_link;
use crate::db::models::owner::answers_to;
use crate::db::processor::{
    commit_time_of, feature_names_for, lookup_for, names_known, record_with_sha, stop_index,
};
use crate::db::{
    first_index, lemma_first_index, lemma_first_index_is, lemma_first_index_push, StoreView,
};
use crate::git::history::GitHistoryView;
use vstd::prelude::*;

verus! {

/// `a` is the beginning of `b`.
pub open spec fn prefix_of<T>(a: Seq<T>, b: Seq<T>) -> bool {
    a.len() <= b.len() && forall|i: int| 0 <= i < a.len() ==> a[i] == b[i]
}

/// `t` keeps what `s` holds: every owner, feature, file and link of `s`
/// stands in `t` at its place, unchanged, and so does every commit of `s` as
/// far as id, project and sha go.
pub open spec fn keeps(s: StoreView, t: StoreView) -> bool {
    &&& prefix_of(s.owners, t.owners)
    &&& prefix_of(s.features, t.features)
    &&& prefix_of(s.files, t.files)
    &&& prefix_of(s.file_commits, t.file_commits)
    &&& prefix_of(s.file_features, t.file_features)
    &&& s.commits.len() <= t.commits.len()
    &&& forall|k: int|
        0 <= k < s.commits.len() ==> (#[trigger] t.commits[k]).id == s.commits[k].id
            && t.commits[k].project_id == s.commits[k].project_id && t.commits[k].sha
            == s.commits[k].sha
}

/// What is found in a list is found at the same place in a longer list that
/// agrees with it, as far as the search can tell, on the places they share.
pub proof fn lemma_found_stays<T>(a: Seq<T>, b: Seq<T>, p: spec_fn(T) -> bool)
    requires
        a.len() <= b.len(),
        forall|k: int| 0 <= k < a.len() ==> p(a[k]) == p(b[k]),
        first_index(a, p) is Some,
    ensures
        first_index(b, p) == first_index(a, p),
{
    lemma_first_index(a, p);
    let i = first_index(a, p).unwrap();
    assert(p(b[i]));
    assert forall|j: int| 0 <= j < i implies !p(b[j]) by {
        assert(p(a[j]) == p(b[j]));
    }
    lemma_first_index_is(b, p, i);
}

pub proof fn lemma_keeps_itself(s: StoreView)
    ensures
        keeps(s, s),
{
}

pub proof fn lemma_keeps_on(s: StoreView, t: StoreView, u: StoreView)
    requires
        keeps(s, t),
        keeps(t, u),
    ensures
        keeps(s, u),
{
    assert forall|k: int| 0 <= k < s.commits.len() implies (#[trigger] u.commits[k]).id
        == s.commits[k].id && u.commits[k].project_id == s.commits[k].project_id
        && u.commits[k].sha == s.commits[k].sha by {
        assert(t.commits[k].id == s.commits[k].id);
    }
}

/// Each single write keeps what the store holds.
pub proof fn lemma_writes_keep(s: StoreView)
    ensures
        forall|h: Seq<char>, n: Option<Seq<char>>, o: Option<u32>| #[trigger]
            keeps(s, s.resolve_owner(h, n, o)),
        forall|
            owner_id: u32,
            project_id: u32,
            sha: Seq<char>,
            parents: Option<Seq<Seq<char>>>,
            description: Seq<char>,
            time: i64,
        | #[trigger]
            keeps(s, s.upsert_commit(owner_id, project_id, sha, parents, description, time)),
        forall|project_id: u32, name: Seq<char>, d: Option<Seq<char>>| #[trigger]
            keeps(s, s.resolve_feature(project_id, name, d)),
        forall|project_id: u32, path: Seq<char>, flag: bool| #[trigger]
            keeps(s, s.resolve_file(project_id, path, flag)),
        forall|file_id: u32, owner_id: u32, time: i64, sha: Seq<char>| #[trigger]
            keeps(s, s.with_file_owner(file_id, owner_id, time, sha)),
        forall|file_id: u32, commit_id: u32| #[trigger] keeps(s, s.link_commit(file_id, commit_id)),
        forall|file_id: u32, feature_id: u32| #[trigger]
            keeps(s, s.attach_feature(file_id, feature_id)),
{
    assert forall|
        owner_id: u32,
        project_id: u32,
        sha: Seq<char>,
        parents: Option<Seq<Seq<char>>>,
        description: Seq<char>,
        time: i64,
    | #[trigger]
        keeps(s, s.upsert_commit(owner_id, project_id, sha, parents, description, time)) by {
        lemma_first_index(s.commits, commit_keyed(project_id, sha));
    }
}

/// The ids of the features of the given names, as the store holds them.
pub open spec fn feature_ids(s: StoreView, project_id: u32, names: Seq<Seq<char>>) -> Seq<u32> {
    Seq::new(names.len(), |i: int| s.features[s.feature_at(project_id, names[i]).unwrap()].id)
}

/// The file carries each of the features.
pub open spec fn features_attached(s: StoreView, file_id: u32, ids: Seq<u32>) -> bool {
    forall|i: int| 0 <= i < ids.len() ==> (#[trigger] s.feature_link_at(file_id, ids[i])) is Some
}

/// The store holds all that taking the path of a commit leaves behind but
/// the record of the touch: the file, its link to the commit and, unless the
/// file is excluded from tagging, its links to the features.
pub open spec fn path_covered(
    s: StoreView,
    project_id: u32,
    path: Seq<char>,
    commit_id: u32,
    ids: Seq<u32>,
) -> bool {
    match s.file_at(project_id, path) {
        Some(f) => {
            &&& s.commit_link_at(s.files[f].id, commit_id) is Some
            &&& !s.files[f].no_features ==> features_attached(s, s.files[f].id, ids)
        },
        None => false,
    }
}

/// The store holds all that ingesting the commit leaves behind but the
/// records of the touches: its owner, the commit, its features, and what each
/// of its paths needs.
pub open spec fn covers(
    s: StoreView,
    project_id: u32,
    record: GitHistoryView,
    names: Seq<Seq<char>>,
) -> bool {
    &&& s.owner_named(record.handle) is Some
    &&& names_known(s, project_id, names)
    &&& match s.commit_at(project_id, record.sha) {
        Some(c) => forall|j: int|
            0 <= j < record.files.len() ==> #[trigger] path_covered(
                s,
                project_id,
                record.files[j],
                s.commits[c].id,
                feature_ids(s, project_id, names),
            ),
        None => false,
    }
}

pub proof fn lemma_names_stay(s: StoreView, t: StoreView, project_id: u32, names: Seq<Seq<char>>)
    requires
        keeps(s, t),
        names_known(s, project_id, names),
    ensures
        names_known(t, project_id, names),
        feature_ids(t, project_id, names) == feature_ids(s, project_id, names),
        forall|i: int|
            0 <= i < names.len() ==> t.feature_at(project_id, names[i]) == s.feature_at(
                project_id,
                names[i],
            ),
{
    assert forall|i: int| 0 <= i < names.len() implies (#[trigger] t.feature_at(
        project_id,
        names[i],
    )) == s.feature_at(project_id, names[i]) by {
        assert(s.feature_at(project_id, names[i]) is Some);
        lemma_found_stays(s.features, t.features, feature_keyed(project_id, names[i]));
    }
    assert forall|i: int| 0 <= i < names.len() implies feature_ids(t, project_id, names)[i]
        == feature_ids(s, project_id, names)[i] by {
        assert(s.feature_at(project_id, names[i]) is Some);
        assert(t.feature_at(project_id, names[i]) == s.feature_at(project_id, names[i]));
        lemma_first_index(s.features, feature_keyed(project_id, names[i]));
    }
    assert(feature_ids(t, project_id, names) =~= feature_ids(s, project_id, names));
}

pub proof fn lemma_path_stays(
    s: StoreView,
    t: StoreView,
    project_id: u32,
    path: Seq<char>,
    commit_id: u32,
    ids: Seq<u32>,
)
    requires
        keeps(s, t),
        path_covered(s, project_id, path, commit_id, ids),
    ensures
        path_covered(t, project_id, path, commit_id, ids),
        t.file_at(project_id, path) == s.file_at(project_id, path),
{
    lemma_found_stays(s.files, t.files, file_keyed(project_id, path));
    lemma_first_index(s.files, file_keyed(project_id, path));
    let f = s.file_at(project_id, path).unwrap();
    let file = s.files[f];
    assert(t.files[f] == file);
    lemma_found_stays(s.file_commits, t.file_commits, commit_link(file.id, commit_id));
    if !file.no_features {
        assert forall|i: int| 0 <= i < ids.len() implies (#[trigger] t.feature_link_at(
            file.id,
            ids[i],
        )) is Some by {
            assert(s.feature_link_at(file.id, ids[i]) is Some);
            lemma_found_stays(s.file_features, t.file_features, feature_link(file.id, ids[i]));
        }
    }
}

/// What a store holds for a commit, every store holds that keeps what it holds.
pub proof fn lemma_cover_stays(
    s: StoreView,
    t: StoreView,
    project_id: u32,
    record: GitHistoryView,
    names: Seq<Seq<char>>,
)
    requires
        keeps(s, t),
        covers(s, project_id, record, names),
    ensures
        covers(t, project_id, record, names),
{
    lemma_found_stays(s.owners, t.owners, answers_to(record.handle));
    lemma_names_stay(s, t, project_id, names);
    let p = commit_keyed(project_id, record.sha);
    assert forall|k: int| 0 <= k < s.commits.len() implies p(s.commits[k]) == p(t.commits[k]) by {
        assert(t.commits[k].id == s.commits[k].id);
    }
    lemma_found_stays(s.commits, t.commits, p);
    lemma_first_index(s.commits, p);
    let c = s.commit_at(project_id, record.sha).unwrap();
    assert(t.commits[c].id == s.commits[c].id);
    assert forall|j: int| 0 <= j < record.files.len() implies #[trigger] path_covered(
        t,
        project_id,
        record.files[j],
        t.commits[c].id,
        feature_ids(t, project_id, names),
    ) by {
        assert(path_covered(
            s,
            project_id,
            record.files[j],
            s.commits[c].id,
            feature_ids(s, project_id, names),
        ));
        lemma_path_stays(
            s,
            t,
            project_id,
            record.files[j],
            s.commits[c].id,
            feature_ids(s, project_id, names),
        );
    }
}

/// Resolving features keeps what the store holds, touches nothing but the
/// features, and leaves a feature of each name, with the id it was resolved to.
pub proof fn lemma_features_resolved(s: StoreView, project_id: u32, names: Seq<Seq<char>>)
    ensures
        ({
            let t = s.resolve_features(project_id, names);
            &&& keeps(s, t)
            &&& t == (StoreView { features: t.features, next_feature: t.next_feature, ..s })
            &&& names_known(t, project_id, names)
            &&& s.resolved_feature_ids(project_id, names) == feature_ids(t, project_id, names)
            &&& names_known(s, project_id, names) ==> t == s
        }),
    decreases names.len(),
{
    let t = s.resolve_features(project_id, names);
    let ids = s.resolved_feature_ids(project_id, names);
    if names.len() == 0 {
        assert(ids =~= feature_ids(t, project_id, names));
    } else {
        let earlier = names.drop_last();
        let u = s.resolve_features(project_id, earlier);
        lemma_features_resolved(s, project_id, earlier);
        lemma_writes_keep(u);
        assert(keeps(u, u.resolve_feature(project_id, names.last(), None)));
        lemma_keeps_on(s, u, t);
        lemma_names_stay(u, t, project_id, earlier);
        let p = feature_keyed(project_id, names.last());
        if u.feature_at(project_id, names.last()) is None {
            lemma_first_index_push(u.features, p, t.features.last());
            assert(p(t.features.last()));
        }
        assert(t.feature_at(project_id, names.last()) is Some);
        assert forall|i: int| 0 <= i < names.len() implies (#[trigger] t.feature_at(
            project_id,
            names[i],
        )) is Some by {
            if i < names.len() - 1 {
                assert(earlier[i] == names[i]);
                assert(u.feature_at(project_id, earlier[i]) is Some);
            }
        }
        assert forall|i: int| 0 <= i < names.len() implies ids[i] == feature_ids(
            t,
            project_id,
            names,
        )[i] by {
            if i < names.len() - 1 {
                assert(earlier[i] == names[i]);
                assert(feature_ids(t, project_id, earlier)[i] == feature_ids(
                    u,
                    project_id,
                    earlier,
                )[i]);
            }
        }
        assert(ids =~= feature_ids(t, project_id, names));
        if names_known(s, project_id, names) {
            assert forall|i: int| 0 <= i < earlier.len() implies (#[trigger] s.feature_at(
                project_id,
                earlier[i],
            )) is Some by {
                assert(earlier[i] == names[i]);
            }
            assert(u == s);
            assert(names.last() == names[names.len() - 1]);
            assert(s.feature_at(project_id, names[names.len() - 1]) is Some);
        }
    }
}

/// Attaching features keeps what the store holds, touches nothing but the
/// links between files and features, and leaves the file with each of them.
pub proof fn lemma_features_attached(s: StoreView, file_id: u32, ids: Seq<u32>)
    ensures
        ({
            let t = s.attach_features(file_id, ids);
            &&& keeps(s, t)
            &&& t == (StoreView { file_features: t.file_features, ..s })
            &&& features_attached(t, file_id, ids)
            &&& features_attached(s, file_id, ids) ==> t == s
        }),
    decreases ids.len(),
{
    let t = s.attach_features(file_id, ids);
    if ids.len() > 0 {
        let earlier = ids.drop_last();
        let u = s.attach_features(file_id, earlier);
        lemma_features_attached(s, file_id, earlier);
        lemma_writes_keep(u);
        assert(keeps(u, u.attach_feature(file_id, ids.last())));
        lemma_keeps_on(s, u, t);
        let p = feature_link(file_id, ids.last());
        if u.feature_link_at(file_id, ids.last()) is None {
            lemma_first_index_push(u.file_features, p, t.file_features.last());
            assert(p(t.file_features.last()));
        }
        assert forall|i: int| 0 <= i < ids.len() implies (#[trigger] t.feature_link_at(
            file_id,
            ids[i],
        )) is Some by {
            if i < ids.len() - 1 {
                assert(earlier[i] == ids[i]);
                assert(u.feature_link_at(file_id, earlier[i]) is Some);
                lemma_found_stays(u.file_features, t.file_features, feature_link(file_id, ids[i]));
            }
        }
        if features_attached(s, file_id, ids) {
            assert forall|i: int| 0 <= i < earlier.len() implies (#[trigger] s.feature_link_at(
                file_id,
                earlier[i],
            )) is Some by {
                assert(earlier[i] == ids[i]);
            }
            assert(u == s);
            assert(ids.last() == ids[ids.len() - 1]);
            assert(s.feature_link_at(file_id, ids[ids.len() - 1]) is Some);
        }
    }
}

/// Taking a path keeps what the store holds, touches neither owners nor
/// commits nor features, and leaves behind all that the path needs. Where the
/// store held that already, only the record of the touch is new.
pub proof fn lemma_file_touched(
    s: StoreView,
    project_id: u32,
    path: Seq<char>,
    owner_id: u32,
    commit_id: u32,
    sha: Seq<char>,
    time: i64,
    ids: Seq<u32>,
)
    ensures
        ({
            let t = s.touch_file(project_id, path, owner_id, commit_id, sha, time, ids);
            &&& keeps(s, t)
            &&& t == (StoreView {
                files: t.files,
                next_file: t.next_file,
                file_owners: t.file_owners,
                file_commits: t.file_commits,
                file_features: t.file_features,
                ..s
            })
            &&& path_covered(t, project_id, path, commit_id, ids)
            &&& path_covered(s, project_id, path, commit_id, ids) ==> t == (StoreView {
                file_owners: t.file_owners,
                ..s
            })
        }),
{
    let t = s.touch_file(project_id, path, owner_id, commit_id, sha, time, ids);
    let resolved = s.resolve_file(project_id, path, false);
    let p = file_keyed(project_id, path);
    if s.file_at(project_id, path) is None {
        lemma_first_index_push(s.files, p, resolved.files.last());
        assert(p(resolved.files.last()));
    }
    let f = resolved.file_at(project_id, path).unwrap();
    let file = resolved.files[f];
    let owned = resolved.with_file_owner(file.id, owner_id, time, sha);
    let linked = owned.link_commit(file.id, commit_id);
    let q = commit_link(file.id, commit_id);
    if owned.commit_link_at(file.id, commit_id) is None {
        lemma_first_index_push(owned.file_commits, q, linked.file_commits.last());
        assert(q(linked.file_commits.last()));
    }
    assert(linked.commit_link_at(file.id, commit_id) is Some);
    lemma_features_attached(linked, file.id, ids);
    lemma_writes_keep(s);
    lemma_writes_keep(resolved);
    lemma_writes_keep(owned);
    assert(keeps(s, resolved));
    assert(keeps(resolved, owned));
    assert(keeps(owned, linked));
    lemma_keeps_on(s, resolved, owned);
    lemma_keeps_on(s, owned, linked);
    lemma_keeps_on(s, linked, t);
    assert(t.files == resolved.files);
    assert(t.file_at(project_id, path) == Some(f));
    assert(t.file_commits == linked.file_commits);
    if path_covered(s, project_id, path, commit_id, ids) {
        assert(resolved == s);
        assert(owned.file_commits == s.file_commits);
        assert(linked == owned);
        if !file.no_features {
            assert forall|i: int| 0 <= i < ids.len() implies (#[trigger] linked.feature_link_at(
                file.id,
                ids[i],
            )) is Some by {
                assert(s.feature_link_at(file.id, ids[i]) is Some);
                assert(linked.file_features == s.file_features);
            }
        }
    }
}

/// The same of taking the paths of a commit, one after the other.
pub proof fn lemma_files_touched(
    s: StoreView,
    project_id: u32,
    paths: Seq<Seq<char>>,
    owner_id: u32,
    commit_id: u32,
    sha: Seq<char>,
    time: i64,
    ids: Seq<u32>,
)
    ensures
        ({
            let t = s.touch_files(project_id, paths, owner_id, commit_id, sha, time, ids);
            &&& keeps(s, t)
            &&& t == (StoreView {
                files: t.files,
                next_file: t.next_file,
                file_owners: t.file_owners,
                file_commits: t.file_commits,
                file_features: t.file_features,
                ..s
            })
            &&& forall|j: int|
                0 <= j < paths.len() ==> #[trigger] path_covered(
                    t,
                    project_id,
                    paths[j],
                    commit_id,
                    ids,
                )
            &&& (forall|j: int|
                0 <= j < paths.len() ==> #[trigger] path_covered(
                    s,
                    project_id,
                    paths[j],
                    commit_id,
                    ids,
                )) ==> t == (StoreView { file_owners: t.file_owners, ..s })
        }),
    decreases paths.len(),
{
    let t = s.touch_files(project_id, paths, owner_id, commit_id, sha, time, ids);
    if paths.len() > 0 {
        let earlier = paths.drop_last();
        let u = s.touch_files(project_id, earlier, owner_id, commit_id, sha, time, ids);
        lemma_files_touched(s, project_id, earlier, owner_id, commit_id, sha, time, ids);
        lemma_file_touched(u, project_id, paths.last(), owner_id, commit_id, sha, time, ids);
        lemma_keeps_on(s, u, t);
        assert forall|j: int| 0 <= j < paths.len() implies #[trigger] path_covered(
            t,
            project_id,
            paths[j],
            commit_id,
            ids,
        ) by {
            if j < paths.len() - 1 {
                assert(earlier[j] == paths[j]);
                assert(path_covered(u, project_id, earlier[j], commit_id, ids));
                lemma_path_stays(u, t, project_id, paths[j], commit_id, ids);
            }
        }
        if forall|j: int|
            0 <= j < paths.len() ==> #[trigger] path_covered(
                s,
                project_id,
                paths[j],
                commit_id,
                ids,
            ) {
            assert forall|j: int| 0 <= j < earlier.len() implies #[trigger] path_covered(
                s,
                project_id,
                earlier[j],
                commit_id,
                ids,
            ) by {
                assert(earlier[j] == paths[j]);
            }
            assert(u == (StoreView { file_owners: u.file_owners, ..s }));
            assert(paths.last() == paths[paths.len() - 1]);
            assert(path_covered(s, project_id, paths[paths.len() - 1], commit_id, ids));
            lemma_keeps_itself(s);
            assert(keeps(s, u));
            lemma_path_stays(s, u, project_id, paths.last(), commit_id, ids);
        }
    }
}

/// The commits as they stand after a commit was ingested into a store that
/// held it already: the one with its sha carries the new values.
pub open spec fn commits_rewritten(
    s: StoreView,
    project_id: u32,
    record: GitHistoryView,
) -> Seq<CommitView> {
    let c = s.commit_at(project_id, record.sha).unwrap();
    s.commits.update(
        c,
        CommitView {
            owner_id: s.owners[s.owner_named(record.handle).unwrap()].id,
            parent_sha: record.parent_sha,
            description: record.summary,
            commit_time: commit_time_of(record),
            updated_at: s.clock,
            ..s.commits[c]
        },
    )
}

/// The store has the commit with the values of the record: its owner is the
/// first that answers to the record's handle, and parents, description and
/// time are the record's.
pub open spec fn carries(s: StoreView, project_id: u32, record: GitHistoryView) -> bool {
    match (s.commit_at(project_id, record.sha), s.owner_named(record.handle)) {
        (Some(c), Some(o)) => {
            &&& s.commits[c].owner_id == s.owners[o].id
            &&& s.commits[c].parent_sha == record.parent_sha
            &&& s.commits[c].description == record.summary
            &&& s.commits[c].commit_time == commit_time_of(record)
        },
        _ => false,
    }
}

/// Ingesting a commit keeps what the store holds and leaves behind all that
/// the commit needs. Where the store held that already, nothing is new but
/// the values of the commit and the records of the touches.
pub proof fn lemma_commit_ingested(
    s: StoreView,
    project_id: u32,
    record: GitHistoryView,
    names: Seq<Seq<char>>,
)
    ensures
        ({
            let t = s.ingest_commit(project_id, record, names);
            &&& keeps(s, t)
            &&& covers(t, project_id, record, names)
            &&& covers(s, project_id, record, names) ==> t == (StoreView {
                commits: commits_rewritten(s, project_id, record),
                file_owners: t.file_owners,
                ..s
            })
            &&& carries(t, project_id, record)
            &&& forall|k: int|
                0 <= k < s.commits.len() && !(s.commits[k].project_id == project_id
                    && s.commits[k].sha == record.sha) ==> #[trigger] t.commits[k] == s.commits[k]
        }),
{
    let t = s.ingest_commit(project_id, record, names);
    let a = s.resolve_owner(record.handle, None, None);
    let po = answers_to(record.handle);
    if s.owner_named(record.handle) is None {
        lemma_first_index_push(s.owners, po, a.owners.last());
        assert(po(a.owners.last()));
    }
    let owner = a.owners[a.owner_named(record.handle).unwrap()];
    let time = commit_time_of(record);
    let b = a.upsert_commit(
        owner.id,
        project_id,
        record.sha,
        record.parent_sha,
        record.summary,
        time,
    );
    let pc = commit_keyed(project_id, record.sha);
    lemma_writes_keep(s);
    lemma_writes_keep(a);
    assert(keeps(s, a));
    assert(keeps(a, b));
    lemma_first_index(a.commits, pc);
    match a.commit_at(project_id, record.sha) {
        Some(c) => {
            assert forall|k: int| 0 <= k < a.commits.len() implies pc(a.commits[k]) == pc(
                b.commits[k],
            ) by {}
            lemma_found_stays(a.commits, b.commits, pc);
        },
        None => {
            lemma_first_index_push(a.commits, pc, b.commits.last());
            assert(pc(b.commits.last()));
        },
    }
    let cb = b.commit_at(project_id, record.sha).unwrap();
    let commit = b.commits[cb];
    let c3 = b.resolve_features(project_id, names);
    let ids = b.resolved_feature_ids(project_id, names);
    lemma_features_resolved(b, project_id, names);
    lemma_files_touched(
        c3,
        project_id,
        record.files,
        owner.id,
        commit.id,
        record.sha,
        time,
        ids,
    );
    lemma_keeps_on(s, a, b);
    lemma_keeps_on(s, b, c3);
    lemma_keeps_on(s, c3, t);
    assert(t.features == c3.features);
    assert(t.commits == b.commits);
    assert(t.owners == a.owners);
    assert(feature_ids(t, project_id, names) =~= feature_ids(c3, project_id, names));
    assert(names_known(t, project_id, names)) by {
        assert forall|i: int| 0 <= i < names.len() implies (#[trigger] t.feature_at(
            project_id,
            names[i],
        )) is Some by {
            assert(c3.feature_at(project_id, names[i]) is Some);
        }
    }
    assert(t.commit_at(project_id, record.sha) == Some(cb));
    assert(covers(t, project_id, record, names));
    if covers(s, project_id, record, names) {
        assert(a == s);
        let c = s.commit_at(project_id, record.sha).unwrap();
        assert(cb == c);
        assert(commit.id == s.commits[c].id);
        assert(b.commits == commits_rewritten(s, project_id, record));
        assert(b.features == s.features);
        assert(names_known(b, project_id, names)) by {
            assert forall|i: int| 0 <= i < names.len() implies (#[trigger] b.feature_at(
                project_id,
                names[i],
            )) is Some by {
                assert(s.feature_at(project_id, names[i]) is Some);
            }
        }
        assert(c3 == b);
        assert(feature_ids(b, project_id, names) =~= feature_ids(s, project_id, names));
        assert forall|j: int| 0 <= j < record.files.len() implies #[trigger] path_covered(
            c3,
            project_id,
            record.files[j],
            commit.id,
            ids,
        ) by {
            assert(path_covered(
                s,
                project_id,
                record.files[j],
                s.commits[c].id,
                feature_ids(s, project_id, names),
            ));
            lemma_path_stays(
                s,
                b,
                project_id,
                record.files[j],
                s.commits[c].id,
                feature_ids(s, project_id, names),
            );
        }
    }
}

/// The feature names under which the record at `i` of a batch is ingested.
pub open spec fn names_at(
    labels_only: bool,
    records: Seq<GitHistoryView>,
    lookups: Seq<Option<Seq<Seq<char>>>>,
    i: int,
) -> Seq<Seq<char>> {
    feature_names_for(lookup_for(lookups, i), records[i].features, labels_only)
}

/// The two stores have the same owners, features, files and links, hand out
/// the same ids next, and have the same commits as far as id, project, sha
/// and time of creation go.
pub open spec fn same_rows(s: StoreView, t: StoreView) -> bool {
    &&& t.owners == s.owners
    &&& t.features == s.features
    &&& t.files == s.files
    &&& t.file_commits == s.file_commits
    &&& t.file_features == s.file_features
    &&& t.next_owner == s.next_owner
    &&& t.next_commit == s.next_commit
    &&& t.next_feature == s.next_feature
    &&& t.next_file == s.next_file
    &&& t.commits.len() == s.commits.len()
    &&& forall|k: int|
        0 <= k < s.commits.len() ==> (#[trigger] t.commits[k]).id == s.commits[k].id
            && t.commits[k].project_id == s.commits[k].project_id && t.commits[k].sha
            == s.commits[k].sha && t.commits[k].created_at == s.commits[k].created_at
}

/// A batch takes no more records than it was offered, and one that took all
/// of its first `n` records took all of its first `m` for each `m` below `n`.
pub proof fn lemma_taken(
    s: StoreView,
    project_id: u32,
    labels_only: bool,
    records: Seq<GitHistoryView>,
    lookups: Seq<Option<Seq<Seq<char>>>>,
    n: nat,
    m: nat,
)
    requires
        m <= n,
    ensures
        s.progress(project_id, labels_only, records, lookups, n).taken <= n,
        s.progress(project_id, labels_only, records, lookups, n).taken == n ==> s.progress(
            project_id,
            labels_only,
            records,
            lookups,
            m,
        ).taken == m,
    decreases n,
{
    if n > 0 {
        lemma_taken(s, project_id, labels_only, records, lookups, (n - 1) as nat, 0);
        if m < n {
            lemma_taken(s, project_id, labels_only, records, lookups, (n - 1) as nat, m);
        }
    }
}

/// After a batch was taken, the store keeps what it held before and holds
/// all that each commit of the batch needs.
pub proof fn lemma_batch_covered(
    s: StoreView,
    project_id: u32,
    labels_only: bool,
    records: Seq<GitHistoryView>,
    lookups: Seq<Option<Seq<Seq<char>>>>,
    n: nat,
)
    requires
        s.progress(project_id, labels_only, records, lookups, n).taken == n,
    ensures
        ({
            let r = s.progress(project_id, labels_only, records, lookups, n).store;
            &&& keeps(s, r)
            &&& forall|i: int|
                0 <= i < n ==> #[trigger] covers(
                    r,
                    project_id,
                    records[i],
                    names_at(labels_only, records, lookups, i),
                )
            &&& forall|i: int| 0 <= i < n ==> (#[trigger] records[i]).timestamp <= i64::MAX
        }),
    decreases n,
{
    if n > 0 {
        let before = s.progress(project_id, labels_only, records, lookups, (n - 1) as nat);
        lemma_taken(s, project_id, labels_only, records, lookups, n, (n - 1) as nat);
        lemma_batch_covered(s, project_id, labels_only, records, lookups, (n - 1) as nat);
        let names = names_at(labels_only, records, lookups, n - 1);
        let r = before.store.ingest_commit(project_id, records[n - 1], names);
        lemma_commit_ingested(before.store, project_id, records[n - 1], names);
        lemma_keeps_on(s, before.store, r);
        assert forall|i: int| 0 <= i < n implies #[trigger] covers(
            r,
            project_id,
            records[i],
            names_at(labels_only, records, lookups, i),
        ) by {
            if i < n - 1 {
                lemma_cover_stays(
                    before.store,
                    r,
                    project_id,
                    records[i],
                    names_at(labels_only, records, lookups, i),
                );
            }
        }
    }
}

/// A store that holds all that a commit needs can take the commit, however
/// few ids are left.
pub proof fn lemma_covered_fits(
    s: StoreView,
    project_id: u32,
    record: GitHistoryView,
    names: Seq<Seq<char>>,
)
    requires
        covers(s, project_id, record, names),
        record.timestamp <= i64::MAX,
    ensures
        s.can_ingest(project_id, record, names),
{
    let c = s.commit_at(project_id, record.sha).unwrap();
    assert forall|j: int| 0 <= j < record.files.len() implies (#[trigger] s.file_at(
        project_id,
        record.files[j],
    )) is Some by {
        assert(path_covered(
            s,
            project_id,
            record.files[j],
            s.commits[c].id,
            feature_ids(s, project_id, names),
        ));
    }
}

/// A batch offered to a store that holds all that its commits need is taken
/// whole, and leaves the rows of the store as they are, but for the values
/// of the commits and the records of the touches.
pub proof fn lemma_batch_absorbed(
    r: StoreView,
    project_id: u32,
    labels_only: bool,
    records: Seq<GitHistoryView>,
    lookups: Seq<Option<Seq<Seq<char>>>>,
    n: nat,
    m: nat,
)
    requires
        m <= n,
        forall|i: int|
            0 <= i < n ==> #[trigger] covers(
                r,
                project_id,
                records[i],
                names_at(labels_only, records, lookups, i),
            ),
        forall|i: int| 0 <= i < n ==> (#[trigger] records[i]).timestamp <= i64::MAX,
    ensures
        r.progress(project_id, labels_only, records, lookups, m).taken == m,
        keeps(r, r.progress(project_id, labels_only, records, lookups, m).store),
        same_rows(r, r.progress(project_id, labels_only, records, lookups, m).store),
    decreases m,
{
    if m > 0 {
        let before = r.progress(project_id, labels_only, records, lookups, (m - 1) as nat);
        lemma_batch_absorbed(r, project_id, labels_only, records, lookups, n, (m - 1) as nat);
        let names = names_at(labels_only, records, lookups, m - 1);
        let t = before.store.ingest_commit(project_id, records[m - 1], names);
        assert(covers(r, project_id, records[m - 1], names));
        lemma_cover_stays(r, before.store, project_id, records[m - 1], names);
        assert(records[m - 1].timestamp <= i64::MAX);
        lemma_covered_fits(before.store, project_id, records[m - 1], names);
        lemma_commit_ingested(before.store, project_id, records[m - 1], names);
        lemma_keeps_on(r, before.store, t);
        lemma_first_index(before.store.commits, commit_keyed(project_id, records[m - 1].sha));
        assert forall|k: int| 0 <= k < r.commits.len() implies (#[trigger] t.commits[k]).id
            == r.commits[k].id && t.commits[k].project_id == r.commits[k].project_id
            && t.commits[k].sha == r.commits[k].sha && t.commits[k].created_at
            == r.commits[k].created_at by {
            assert(before.store.commits[k].id == r.commits[k].id);
        }
    }
}

/// Ingesting a batch a second time adds no owner, commit, feature, file or
/// link: after the second run the store has the rows it had after the first,
/// each commit under the id it had. Only the records of the touches are
/// added again, and the commits are written again.
///
/// The batch is the first `n` of `records`, and the first run is taken to
/// go through; the second then goes through as well.
pub proof fn reingestion_adds_no_rows(
    s: StoreView,
    project_id: u32,
    labels_only: bool,
    records: Seq<GitHistoryView>,
    lookups: Seq<Option<Seq<Seq<char>>>>,
    n: nat,
)
    requires
        s.wf(),
        s.progress(project_id, labels_only, records, lookups, n).taken == n,
    ensures
        ({
            let once = s.progress(project_id, labels_only, records, lookups, n).store;
            let twice = once.progress(project_id, labels_only, records, lookups, n).store;
            &&& once.progress(project_id, labels_only, records, lookups, n).taken == n
            &&& same_rows(once, twice)
            &&& twice.owners.len() == once.owners.len()
            &&& twice.commits.len() == once.commits.len()
            &&& twice.features.len() == once.features.len()
            &&& twice.files.len() == once.files.len()
            &&& twice.file_commits.len() == once.file_commits.len()
            &&& twice.file_features.len() == once.file_features.len()
        }),
{
    let once = s.progress(project_id, labels_only, records, lookups, n).store;
    lemma_batch_covered(s, project_id, labels_only, records, lookups, n);
    lemma_batch_absorbed(once, project_id, labels_only, records, lookups, n, n);
}

/// After a batch was taken, each of its commits stands in the store with the
/// values of the last record of the batch that has its sha.
///
/// The batch is the first `n` of `records`, and the record at `i` is the
/// last of them with its sha.
pub proof fn ingestion_keeps_last_values(
    s: StoreView,
    project_id: u32,
    labels_only: bool,
    records: Seq<GitHistoryView>,
    lookups: Seq<Option<Seq<Seq<char>>>>,
    n: nat,
    i: int,
)
    requires
        0 <= i < n,
        s.progress(project_id, labels_only, records, lookups, n).taken == n,
        forall|j: int| i < j < n ==> records[j].sha != records[i].sha,
    ensures
        carries(
            s.progress(project_id, labels_only, records, lookups, n).store,
            project_id,
            records[i],
        ),
    decreases n,
{
    let before = s.progress(project_id, labels_only, records, lookups, (n - 1) as nat);
    lemma_taken(s, project_id, labels_only, records, lookups, n, (n - 1) as nat);
    let names = names_at(labels_only, records, lookups, n - 1);
    let r = before.store.ingest_commit(project_id, records[n - 1], names);
    lemma_commit_ingested(before.store, project_id, records[n - 1], names);
    if i < n - 1 {
        ingestion_keeps_last_values(
            s,
            project_id,
            labels_only,
            records,
            lookups,
            (n - 1) as nat,
            i,
        );
        let u = before.store;
        let pc = commit_keyed(project_id, records[i].sha);
        assert forall|k: int| 0 <= k < u.commits.len() implies pc(u.commits[k]) == pc(
            r.commits[k],
        ) by {
            assert(r.commits[k].id == u.commits[k].id);
        }
        lemma_found_stays(u.commits, r.commits, pc);
        lemma_found_stays(u.owners, r.owners, answers_to(records[i].handle));
        lemma_first_index(u.commits, pc);
        lemma_first_index(u.owners, answers_to(records[i].handle));
        let c = u.commit_at(project_id, records[i].sha).unwrap();
        assert(records[n - 1].sha != records[i].sha);
        assert(r.commits[c] == u.commits[c]);
    }
}

/// The ingestion halts at the first commit with the id it was told to stop
/// at: the commits before it are the ones that are ingested. Told no id, it
/// ingests the whole batch.
pub proof fn ingestion_halts_at_first_match(records: Seq<GitHistoryView>, sha: Seq<char>, k: int)
    requires
        0 <= k < records.len(),
        records[k].sha == sha,
        forall|j: int| 0 <= j < k ==> records[j].sha != sha,
    ensures
        stop_index(records, Some(sha)) == k,
        stop_index(records, None) == records.len(),
{
    assert(record_with_sha(sha)(records[k]));
    assert forall|j: int| 0 <= j < k implies !record_with_sha(sha)(records[j]) by {
        assert(records[j].sha != sha);
    }
    lemma_first_index_is(records, record_with_sha(sha), k);
}

/// Taking a path whose file is excluded from tagging attaches no feature to
/// any file, and still records the touch and links the file to the commit.
pub proof fn excluded_file_takes_no_feature(
    s: StoreView,
    project_id: u32,
    path: Seq<char>,
    owner_id: u32,
    commit_id: u32,
    sha: Seq<char>,
    time: i64,
    ids: Seq<u32>,
)
    requires
        s.file_at(project_id, path) is Some,
        s.files[s.file_at(project_id, path).unwrap()].no_features,
    ensures
        ({
            let file = s.files[s.file_at(project_id, path).unwrap()];
            let t = s.touch_file(project_id, path, owner_id, commit_id, sha, time, ids);
            &&& t.file_features == s.file_features
            &&& t.files == s.files
            &&& t.file_owners == s.with_file_owner(file.id, owner_id, time, sha).file_owners
            &&& t.file_owners.len() == s.file_owners.len() + 1
            &&& t.commit_link_at(file.id, commit_id) is Some
        }),
{
    lemma_file_touched(s, project_id, path, owner_id, commit_id, sha, time, ids);
}

/// Where the label source gave no label for a commit, because it was not
/// asked, failed, or had none that names a feature, the commit is ingested
/// under the feature names of its own summary, unless the project takes its
/// features from the label source alone. Where the label source gave labels,
/// they are the feature names.
pub proof fn labels_fall_back_to_summary(labels: Seq<Seq<char>>, inline: Seq<Seq<char>>)
    ensures
        feature_names_for(None, inline, false) == inline,
        feature_names_for(Some(Seq::empty()), inline, false) == inline,
        feature_names_for(None, inline, true) == Seq::<Seq<char>>::empty(),
        feature_names_for(Some(Seq::empty()), inline, true) == Seq::<Seq<char>>::empty(),
        labels.len() > 0 ==> feature_names_for(Some(labels), inline, false) == labels
            && feature_names_for(Some(labels), inline, true) == labels,
{
}

} // verus!
