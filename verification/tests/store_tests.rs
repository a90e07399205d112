use fowner::db::models::commit::{Commit, NewCommit};
use fowner::db::models::feature::{Feature, NewFeature};
use fowner::db::models::file::{File, NewFile};
use fowner::db::models::file_commit::FileCommit;
use fowner::db::models::file_feature::{FileFeature, NewFileFeature};
use fowner::db::models::file_owner::NewFileOwner;
use fowner::db::models::owner::{NewOwner, Owner, UpdateOwner};
use fowner::db::snapshot::Snapshot;
use fowner::db::EntityStore;
use fowner::errors::FownerError;

fn now() -> i64 {
    chrono::Utc::now().timestamp()
}

fn krakaw(store: &mut EntityStore) -> Owner {
    NewOwner {
        handle: "Krakaw".to_string(),
        name: Some("Kra-kaw!".to_string()),
        primary_owner_id: None,
    }
    .save(store)
    .unwrap()
}

#[test]
fn owner_load() {
    let mut store = EntityStore::new(now());
    let owner = krakaw(&mut store);

    let db_owner = Owner::load(owner.id, &store).unwrap();
    assert_eq!(owner, db_owner);
    assert!(matches!(Owner::load(99, &store), Err(FownerError::NotFound(_))));
}

#[test]
fn load_by_handle() {
    let mut store = EntityStore::new(now());
    let owner = krakaw(&mut store);

    let db_owner = Owner::load_by_handle("KraKaw".to_string(), &store).unwrap();
    assert_eq!(owner, db_owner);

    let db_owner = Owner::load_by_handle("unknown".to_string(), &store);
    assert!(db_owner.is_err());
}

#[test]
fn owner_all() {
    let mut store = EntityStore::new(now());
    let owner_1 = krakaw(&mut store);
    let owner_2 = NewOwner {
        handle: "Krakaw2".to_string(),
        name: Some("Kra-kaw! 2".to_string()),
        primary_owner_id: Some(1),
    }
    .save(&mut store)
    .unwrap();

    let all = Owner::all(&store).unwrap();
    assert_eq!(all, vec![owner_1, owner_2]);
}

#[test]
fn update() {
    let mut store = EntityStore::new(now());
    let owner = krakaw(&mut store);

    let db_owner = Owner::load(owner.id, &store).unwrap();
    assert_eq!(owner, db_owner);

    store.set_clock(store.clock() + 5);
    let new_owner = owner
        .update(
            UpdateOwner {
                name: Some("krakaw".to_string()),
                primary_owner_id: None,
            },
            &mut store,
        )
        .unwrap();
    assert_eq!(new_owner.id, db_owner.id);
    assert_eq!(new_owner.name, Some("krakaw".to_string()));
    assert_eq!(new_owner.created_at, db_owner.created_at);
    assert_eq!(new_owner.updated_at, db_owner.updated_at + 5);
    assert_eq!(Owner::load(new_owner.id, &store).unwrap(), new_owner);
}

#[test]
fn owner_ids_count_up_from_one() {
    let mut store = EntityStore::new(7);
    let first = krakaw(&mut store);
    assert_eq!(first.id, 1);
    assert_eq!(first.created_at, 7);
    assert_eq!(first.updated_at, 7);
    let second = NewOwner { handle: "other".to_string(), name: None, primary_owner_id: None }
        .save(&mut store)
        .unwrap();
    assert_eq!(second.id, 2);
}

#[test]
fn a_handle_is_stored_once() {
    let mut store = EntityStore::new(now());
    let owner = krakaw(&mut store);
    let again = NewOwner { handle: "Krakaw".to_string(), name: None, primary_owner_id: None };
    assert!(matches!(again.save(&mut store), Err(FownerError::Store(_))));
    assert_eq!(Owner::all(&store).unwrap().len(), 1);

    let resolved = again.save_or_load(&mut store).unwrap();
    assert_eq!(resolved, owner);
    let other_case = NewOwner { handle: "KRAKAW".to_string(), name: None, primary_owner_id: None };
    assert_eq!(other_case.save_or_load(&mut store).unwrap(), owner);
    assert_eq!(Owner::all(&store).unwrap().len(), 1);

    let new = NewOwner { handle: "someone".to_string(), name: None, primary_owner_id: None };
    assert_eq!(new.save_or_load(&mut store).unwrap().id, 2);
    assert_eq!(Owner::all(&store).unwrap().len(), 2);
}

#[test]
fn update_of_an_unknown_owner_is_not_found() {
    let mut store = EntityStore::new(now());
    let ghost = Owner {
        id: 5,
        handle: "x".to_string(),
        name: None,
        primary_owner_id: None,
        created_at: 0,
        updated_at: 0,
    };
    let details = UpdateOwner { name: None, primary_owner_id: Some(1) };
    assert!(matches!(ghost.update(details, &mut store), Err(FownerError::NotFound(_))));
}

#[test]
fn commit_save() {
    let mut store = EntityStore::new(now());
    let project_id = 1;
    let owner = NewOwner { handle: "Krakaw".to_string(), name: None, primary_owner_id: None }
        .save(&mut store)
        .unwrap();
    let c1_commit_time = now();
    let commit_1 = NewCommit {
        owner_id: owner.id,
        project_id,
        sha: "deadbeef".to_string(),
        parent_sha: None,
        description: "Initial Commit".to_string(),
        commit_time: c1_commit_time,
    }
    .save(&mut store)
    .unwrap();
    assert_eq!(commit_1.id, 1);
    assert_eq!(commit_1.project_id, project_id);
    assert_eq!(commit_1.sha, "deadbeef".to_string());
    assert_eq!(commit_1.parent_sha, None);
    assert_eq!(commit_1.description, "Initial Commit".to_string());
    assert_eq!(commit_1.commit_time, c1_commit_time);

    let commit_2 = NewCommit {
        owner_id: owner.id,
        project_id,
        sha: "deadbeef2".to_string(),
        parent_sha: Some(vec!["deadbeef".to_string()]),
        description: "Feature Commit".to_string(),
        commit_time: now(),
    }
    .save(&mut store)
    .unwrap();
    assert_eq!(commit_2.sha, "deadbeef2".to_string());
    assert_eq!(commit_2.parent_sha, Some(vec!["deadbeef".to_string()]));

    // If a commit with the same sha is re-added update the details
    let commit_override = NewCommit {
        owner_id: owner.id,
        project_id,
        sha: "deadbeef2".to_string(),
        parent_sha: Some(vec!["deadbeefa".to_string()]),
        description: "Feature Commit 2".to_string(),
        commit_time: now(),
    }
    .save(&mut store)
    .unwrap();
    assert_eq!(commit_override.sha, "deadbeef2".to_string());
    assert_eq!(
        commit_override.parent_sha,
        Some(vec!["deadbeefa".to_string()])
    );
    assert_eq!(commit_override.id, commit_2.id);
    assert_eq!(commit_override.description, "Feature Commit 2");
    assert_eq!(store.snapshot().commits.len(), 2);
}

#[test]
fn commit_load() {
    let mut store = EntityStore::new(now());
    let project_id = 1;
    let owner = NewOwner { handle: "Krakaw".to_string(), name: None, primary_owner_id: None }
        .save(&mut store)
        .unwrap();
    let owner_id = owner.id;
    let commit_1 = NewCommit {
        owner_id,
        project_id,
        sha: "deadbeef".to_string(),
        parent_sha: None,
        description: "Initial Commit".to_string(),
        commit_time: now(),
    }
    .save(&mut store)
    .unwrap();
    let commit_2 = NewCommit {
        owner_id,
        project_id,
        sha: "deadbeef2".to_string(),
        parent_sha: Some(vec!["deadbeef".to_string()]),
        description: "Feature Commit".to_string(),
        commit_time: now(),
    }
    .save(&mut store)
    .unwrap();
    let commit_3 = NewCommit {
        owner_id,
        project_id,
        sha: "deadbeef3".to_string(),
        parent_sha: Some(vec!["deadbeef2".to_string()]),
        description: "Bug Commit".to_string(),
        commit_time: now() + 10,
    }
    .save(&mut store)
    .unwrap();

    let c1 = Commit::load(commit_1.id as i64, &store).unwrap();
    assert_eq!(c1.sha, commit_1.sha);

    let c1 = Commit::load_by_sha("deadbee".to_string(), &store).unwrap();
    assert_eq!(c1.sha, commit_1.sha);

    let c2 = Commit::load_by_sha("deadbeef2".to_string(), &store).unwrap();
    assert_eq!(c2.sha, commit_2.sha);
    assert_eq!(c2.parent_sha, Some(vec![commit_1.sha]));

    let c3 = Commit::fetch_latest_for_project(project_id, &store).unwrap();
    assert_eq!(c3.sha, commit_3.sha);
}

#[test]
fn latest_commit_is_per_project() {
    let mut store = EntityStore::new(0);
    assert!(matches!(
        Commit::fetch_latest_for_project(1, &store),
        Err(FownerError::NotFound(_))
    ));
    let mut add = |project_id: u32, sha: &str, time: i64| {
        NewCommit {
            owner_id: 1,
            project_id,
            sha: sha.to_string(),
            parent_sha: None,
            description: String::new(),
            commit_time: time,
        }
        .save(&mut store)
        .unwrap()
    };
    add(1, "a", 10);
    add(2, "b", 50);
    add(1, "c", 30);
    add(1, "d", 30);
    add(1, "a", 20);
    assert_eq!(Commit::fetch_latest_for_project(1, &store).unwrap().sha, "c");
    assert_eq!(Commit::fetch_latest_for_project(2, &store).unwrap().sha, "b");
    assert!(Commit::fetch_latest_for_project(3, &store).is_err());
    assert!(matches!(Commit::load(77, &store), Err(FownerError::NotFound(_))));
}

#[test]
fn one_sha_in_two_projects_is_two_commits() {
    let mut store = EntityStore::new(0);
    let new = |project_id: u32| NewCommit {
        owner_id: 1,
        project_id,
        sha: "abc".to_string(),
        parent_sha: None,
        description: String::new(),
        commit_time: 1,
    };
    let first = new(1).save(&mut store).unwrap();
    let second = new(2).save(&mut store).unwrap();
    assert_ne!(first.id, second.id);
    assert_eq!(new(1).save(&mut store).unwrap().id, first.id);
}

#[test]
fn file_save() {
    let mut store = EntityStore::new(now());
    let project_id = 1;
    let file = NewFile { project_id, path: "src/main.rs".to_string(), no_features: false }
        .save(&mut store)
        .unwrap();
    assert_eq!(file.id, 1);
    assert_eq!(file.project_id, project_id);
    assert_eq!(file.path, "src/main.rs".to_string());
    assert!(file.feature_names(&store).is_empty());
    assert!(file.commit_shas(&store).is_empty());
    assert!(file.owners(&store).is_empty());

    // Cannot have duplicate files in the same project
    let file = NewFile { project_id, path: "src/main.rs".to_string(), no_features: false }
        .save(&mut store)
        .unwrap();
    assert_eq!(file.id, 1);
}

#[test]
fn file_without_features() {
    let mut store = EntityStore::new(now());
    let project_id = 1;
    let file = NewFile { project_id, path: "src/main.rs".to_string(), no_features: true }
        .save(&mut store)
        .unwrap();
    let feature = NewFeature { project_id, name: "Test".to_string(), description: None }
        .save(&mut store)
        .unwrap();

    let file_feature_err = file.add_feature(feature.id, &mut store);
    assert!(file_feature_err.is_err());
    match file_feature_err {
        Err(FownerError::FileCannotHaveFeatures(path)) => assert_eq!(path, "src/main.rs"),
        other => panic!("unexpected {:?}", other),
    }
    assert!(store.snapshot().file_features.is_empty());
    assert!(FileFeature::load(file.id, feature.id, &store).is_err());
}

#[test]
fn file_load() {
    let mut store = EntityStore::new(now());
    let project_id = 1;
    let owner = NewOwner { handle: "Krakaw".to_string(), name: None, primary_owner_id: None }
        .save(&mut store)
        .unwrap();
    let owner_id = owner.id;
    let commit_1 = NewCommit {
        owner_id,
        project_id,
        sha: "deadbeef".to_string(),
        parent_sha: None,
        description: "Initial Commit".to_string(),
        commit_time: now(),
    }
    .save(&mut store)
    .unwrap();
    let feature = NewFeature { project_id, name: "Test".to_string(), description: None }
        .save(&mut store)
        .unwrap();
    let owner = NewOwner { handle: "Krakaw".to_string(), name: None, primary_owner_id: None }
        .save_or_load(&mut store)
        .unwrap();
    let file = NewFile { project_id, path: "src/main.rs".to_string(), no_features: false }
        .save(&mut store)
        .unwrap();

    file.add_feature(feature.id, &mut store).unwrap();

    FileCommit { file_id: file.id, commit_id: commit_1.id }.save(&mut store).unwrap();
    NewFileOwner {
        file_id: file.id,
        owner_id: owner.id,
        action_date: now(),
        sha: commit_1.sha,
    }
    .save(&mut store)
    .unwrap();

    let db_file = File::load_by_path(project_id, "src/main.rs".to_string(), &store).unwrap();
    assert_eq!(db_file.id, 1);
    assert_eq!(db_file.project_id, 1);
    assert_eq!(db_file.path, "src/main.rs".to_string());
    assert_eq!(db_file.feature_names(&store), vec!["Test".to_string()]);
    assert_eq!(db_file.commit_shas(&store), vec!["deadbeef".to_string()]);
    assert_eq!(db_file.owners(&store), vec!["Krakaw".to_string()]);

    let commit_2 = NewCommit {
        owner_id,
        project_id,
        sha: "beefdead".to_string(),
        parent_sha: Some(vec!["deadbeef".to_string()]),
        description: "Feature Commit".to_string(),
        commit_time: now(),
    }
    .save(&mut store)
    .unwrap();

    FileCommit { file_id: file.id, commit_id: commit_2.id }.save(&mut store).unwrap();
    let owner = NewOwner { handle: "NewOwner".to_string(), name: None, primary_owner_id: None }
        .save(&mut store)
        .unwrap();

    let feature = NewFeature { project_id, name: "New Feature".to_string(), description: None }
        .save(&mut store)
        .unwrap();
    file.add_feature(feature.id, &mut store).unwrap();

    NewFileOwner {
        file_id: file.id,
        owner_id: owner.id,
        action_date: now(),
        sha: commit_2.sha,
    }
    .save(&mut store)
    .unwrap();

    let db_file = File::load_by_path(project_id, "src/main.rs".to_string(), &store).unwrap();
    assert_eq!(
        db_file.feature_names(&store),
        vec!["Test".to_string(), "New Feature".to_string()]
    );
    assert_eq!(
        db_file.commit_shas(&store),
        vec!["deadbeef".to_string(), "beefdead".to_string()]
    );
    assert_eq!(
        db_file.owners(&store),
        vec!["Krakaw".to_string(), "NewOwner".to_string()]
    );
}

#[test]
fn files_and_features_are_kept_per_project() {
    let mut store = EntityStore::new(3);
    let f1 = NewFile { project_id: 1, path: "a".to_string(), no_features: false }
        .save(&mut store)
        .unwrap();
    let f2 = NewFile { project_id: 2, path: "a".to_string(), no_features: true }
        .save(&mut store)
        .unwrap();
    let f3 = NewFile { project_id: 1, path: "b".to_string(), no_features: false }
        .save(&mut store)
        .unwrap();
    assert_eq!((f1.id, f2.id, f3.id), (1, 2, 3));
    assert_eq!(File::all(1, &store).unwrap(), vec![f1.clone(), f3.clone()]);
    assert_eq!(File::all(2, &store).unwrap(), vec![f2.clone()]);
    assert!(File::all(3, &store).unwrap().is_empty());
    assert_eq!(File::load(1, 3, &store).unwrap(), f3);
    assert!(matches!(File::load(2, 3, &store), Err(FownerError::NotFound(_))));
    assert!(File::load_by_path(1, "c".to_string(), &store).is_err());
    // The stored flag wins over the one that is offered again.
    let again = NewFile { project_id: 2, path: "a".to_string(), no_features: false }
        .save(&mut store)
        .unwrap();
    assert!(again.no_features);

    let x = NewFeature { project_id: 1, name: "X".to_string(), description: None }
        .save(&mut store)
        .unwrap();
    let y = NewFeature { project_id: 2, name: "X".to_string(), description: Some("d".to_string()) }
        .save(&mut store)
        .unwrap();
    assert_eq!((x.id, y.id), (1, 2));
    let x_again = NewFeature { project_id: 1, name: "X".to_string(), description: Some("z".to_string()) }
        .save(&mut store)
        .unwrap();
    assert_eq!(x_again, x);
    assert_eq!(Feature::load(2, &store).unwrap(), y);
    assert_eq!(Feature::load_by_name(1, "X".to_string(), &store).unwrap(), x);
    assert!(Feature::load_by_name(1, "x".to_string(), &store).is_err());
    assert_eq!(Feature::load_by_project(2, &store).unwrap(), vec![y]);
    assert!(Feature::load(9, &store).is_err());
}

#[test]
fn links_are_written_once() {
    let mut store = EntityStore::new(11);
    let link = FileCommit { file_id: 1, commit_id: 2 };
    assert_eq!(link.save(&mut store).unwrap(), link);
    assert_eq!(link.save(&mut store).unwrap(), link);
    FileCommit { file_id: 1, commit_id: 3 }.save(&mut store).unwrap();
    assert_eq!(store.snapshot().file_commits.len(), 2);

    let first = NewFileFeature { file_id: 1, feature_id: 4 }.save(&mut store).unwrap();
    store.set_clock(12);
    let second = NewFileFeature { file_id: 1, feature_id: 4 }.save(&mut store).unwrap();
    assert_eq!(first, second);
    assert_eq!(first.created_at, 11);
    assert_eq!(store.snapshot().file_features.len(), 1);
    assert_eq!(FileFeature::load(1, 4, &store).unwrap(), first);
    assert!(matches!(FileFeature::load(1, 5, &store), Err(FownerError::NotFound(_))));
}

#[test]
fn touches_are_always_added() {
    let mut store = EntityStore::new(1);
    let touch = NewFileOwner { file_id: 1, owner_id: 1, action_date: 5, sha: "abc".to_string() };
    let first = touch.save(&mut store).unwrap();
    let second = touch.save(&mut store).unwrap();
    assert_eq!(first, second);
    assert_eq!(first.action_date, 5);
    assert_eq!(first.sha, "abc");
    assert_eq!(store.snapshot().file_owners.len(), 2);
}

#[test]
fn snapshot_round_trip() {
    let mut store = EntityStore::new(21);
    krakaw(&mut store);
    NewFile { project_id: 1, path: "a".to_string(), no_features: false }.save(&mut store).unwrap();
    let snapshot = store.snapshot();
    assert_eq!(snapshot.clock, 21);
    assert_eq!(snapshot.next_owner, 2);
    assert_eq!(snapshot.next_file, 2);
    assert_eq!(snapshot.next_commit, 1);
    let restored = EntityStore::restore(snapshot).unwrap();
    assert_eq!(Owner::all(&restored).unwrap(), Owner::all(&store).unwrap());
    assert_eq!(File::all(1, &restored).unwrap(), File::all(1, &store).unwrap());
}

fn empty_snapshot() -> Snapshot {
    EntityStore::new(0).snapshot()
}

#[test]
fn restore_refuses_broken_snapshots() {
    let owner = |id: u32, handle: &str| Owner {
        id,
        handle: handle.to_string(),
        name: None,
        primary_owner_id: None,
        created_at: 0,
        updated_at: 0,
    };
    let mut twice = empty_snapshot();
    twice.owners = vec![owner(1, "a"), owner(1, "b")];
    twice.next_owner = 5;
    assert!(matches!(EntityStore::restore(twice), Err(FownerError::Store(_))));

    let mut same_handle = empty_snapshot();
    same_handle.owners = vec![owner(1, "a"), owner(2, "a")];
    same_handle.next_owner = 5;
    assert!(EntityStore::restore(same_handle).is_err());

    let mut id_ahead = empty_snapshot();
    id_ahead.owners = vec![owner(1, "a")];
    id_ahead.next_owner = 1;
    assert!(EntityStore::restore(id_ahead).is_err());

    let mut linked_twice = empty_snapshot();
    linked_twice.file_commits =
        vec![FileCommit { file_id: 1, commit_id: 1 }, FileCommit { file_id: 1, commit_id: 1 }];
    assert!(EntityStore::restore(linked_twice).is_err());

    let mut fine = empty_snapshot();
    fine.owners = vec![owner(3, "a"), owner(1, "A")];
    fine.next_owner = 4;
    let restored = EntityStore::restore(fine).unwrap();
    assert_eq!(Owner::load_by_handle("a".to_string(), &restored).unwrap().id, 3);
    let mut restored = restored;
    let next = NewOwner { handle: "c".to_string(), name: None, primary_owner_id: None }
        .save(&mut restored)
        .unwrap();
    assert_eq!(next.id, 4);
}
