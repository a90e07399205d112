use fowner::db::models::commit::Commit;
use fowner::db::models::file::{File, NewFile};
use fowner::db::models::owner::Owner;
use fowner::db::models::project::Project;
use fowner::db::processor::{Pending, Processor};
use fowner::db::snapshot::Snapshot;
use fowner::db::EntityStore;
use fowner::errors::FownerError;
use fowner::git::history::GitHistory;

fn project(labels_only: bool, repo_url: Option<&str>) -> Project {
    Project {
        id: 1,
        name: None,
        repo_url: repo_url.map(|s| s.to_string()),
        github_api_token: None,
        github_labels_only: labels_only,
        path: "repo".to_string(),
        created_at: 0,
        updated_at: 0,
    }
}

fn record(
    handle: &str,
    sha: &str,
    parents: &[&str],
    timestamp: usize,
    summary: &str,
    features: &[&str],
    files: &[&str],
) -> GitHistory {
    GitHistory {
        handle: handle.to_string(),
        sha: sha.to_string(),
        parent_sha: if parents.is_empty() {
            None
        } else {
            Some(parents.iter().map(|s| s.to_string()).collect())
        },
        timestamp,
        summary: summary.to_string(),
        files: files.iter().map(|s| s.to_string()).collect(),
        features: features.iter().map(|s| s.to_string()).collect(),
    }
}

fn batch() -> Vec<GitHistory> {
    vec![
        record("Keith", "c1", &[], 10, "Initial commit [Core]", &["Core"], &[".gitignore", "README.md"]),
        record("Krakaw", "c2", &["c1"], 20, "Second [Core, History]", &["Core", "History"], &["README.md", "src/main.rs"]),
        record("krakaw", "c3", &["c2", "c1"], 30, "Merge", &[], &["src/main.rs"]),
    ]
}

fn counts(snapshot: &Snapshot) -> (usize, usize, usize, usize, usize, usize, usize) {
    (
        snapshot.owners.len(),
        snapshot.commits.len(),
        snapshot.features.len(),
        snapshot.files.len(),
        snapshot.file_commits.len(),
        snapshot.file_features.len(),
        snapshot.file_owners.len(),
    )
}

#[test]
fn a_batch_is_ingested_in_order() {
    let processor = Processor::new(project(false, None));
    let mut store = EntityStore::new(100);
    let result = processor
        .fetch_history_and_store_data(&mut store, &batch(), None, &vec![])
        .unwrap();
    assert_eq!(result, (3, 3));
    let snapshot = store.snapshot();
    assert_eq!(counts(&snapshot), (2, 3, 2, 3, 5, 5, 5));

    let handles: Vec<&str> = snapshot.owners.iter().map(|o| o.handle.as_str()).collect();
    assert_eq!(handles, vec!["Keith", "Krakaw"]);
    let paths: Vec<&str> = snapshot.files.iter().map(|f| f.path.as_str()).collect();
    assert_eq!(paths, vec![".gitignore", "README.md", "src/main.rs"]);
    let names: Vec<&str> = snapshot.features.iter().map(|f| f.name.as_str()).collect();
    assert_eq!(names, vec!["Core", "History"]);

    let merge = &snapshot.commits[2];
    assert_eq!(merge.sha, "c3");
    assert_eq!(merge.owner_id, 2);
    assert_eq!(merge.parent_sha, Some(vec!["c2".to_string(), "c1".to_string()]));
    assert_eq!(merge.description, "Merge");
    assert_eq!(merge.commit_time, 30);
    assert_eq!(merge.created_at, 100);

    let readme = File::load_by_path(1, "README.md".to_string(), &store).unwrap();
    assert_eq!(readme.feature_names(&store), vec!["Core", "History"]);
    assert_eq!(readme.commit_shas(&store), vec!["c1", "c2"]);
    assert_eq!(readme.owners(&store), vec!["Keith", "Krakaw"]);
    let touches: Vec<(u32, u32, i64, &str)> = snapshot
        .file_owners
        .iter()
        .map(|t| (t.file_id, t.owner_id, t.action_date, t.sha.as_str()))
        .collect();
    assert_eq!(
        touches,
        vec![(1, 1, 10, "c1"), (2, 1, 10, "c1"), (2, 2, 20, "c2"), (3, 2, 20, "c2"), (3, 2, 30, "c3")]
    );
    assert_eq!(Commit::fetch_latest_for_project(1, &store).unwrap().commit_time, 30);
}

#[test]
fn ingesting_twice_adds_no_rows() {
    let processor = Processor::new(project(false, None));
    let mut store = EntityStore::new(100);
    let history = batch();
    processor.fetch_history_and_store_data(&mut store, &history, None, &vec![]).unwrap();
    let once = store.snapshot();
    store.set_clock(200);
    let result = processor.fetch_history_and_store_data(&mut store, &history, None, &vec![]).unwrap();
    assert_eq!(result, (3, 3));
    let twice = store.snapshot();
    assert_eq!(twice.owners, once.owners);
    assert_eq!(twice.features, once.features);
    assert_eq!(twice.files, once.files);
    assert_eq!(twice.file_commits, once.file_commits);
    assert_eq!(twice.file_features, once.file_features);
    assert_eq!(twice.commits.len(), once.commits.len());
    assert_eq!(twice.file_owners.len(), 2 * once.file_owners.len());
    for (a, b) in once.commits.iter().zip(twice.commits.iter()) {
        assert_eq!((a.id, &a.sha, a.created_at), (b.id, &b.sha, b.created_at));
        assert_eq!(b.updated_at, 200);
    }
}

#[test]
fn a_commit_seen_again_takes_the_last_values() {
    let processor = Processor::new(project(false, None));
    let mut store = EntityStore::new(1);
    let mut history = batch();
    processor.fetch_history_and_store_data(&mut store, &history, None, &vec![]).unwrap();
    history[1] = record("Keith", "c2", &["c0"], 25, "Rewritten", &[], &[]);
    processor.fetch_history_and_store_data(&mut store, &history, None, &vec![]).unwrap();
    let commit = Commit::load_by_sha("c2".to_string(), &store).unwrap();
    assert_eq!(commit.id, 2);
    assert_eq!(commit.owner_id, 1);
    assert_eq!(commit.parent_sha, Some(vec!["c0".to_string()]));
    assert_eq!(commit.description, "Rewritten");
    assert_eq!(commit.commit_time, 25);
    assert_eq!(store.snapshot().commits.len(), 3);
}

#[test]
fn ingestion_stops_before_the_named_commit() {
    let processor = Processor::new(project(false, None));
    let mut store = EntityStore::new(100);
    let result = processor
        .fetch_history_and_store_data(&mut store, &batch(), Some("c2".to_string()), &vec![])
        .unwrap();
    assert_eq!(result, (1, 3));
    let snapshot = store.snapshot();
    assert_eq!(snapshot.commits.len(), 1);
    assert_eq!(snapshot.commits[0].sha, "c1");
    assert_eq!(snapshot.owners.len(), 1);
    assert_eq!(snapshot.files.len(), 2);

    let mut store = EntityStore::new(100);
    let result = processor
        .fetch_history_and_store_data(&mut store, &batch(), Some("c1".to_string()), &vec![])
        .unwrap();
    assert_eq!(result, (0, 3));
    assert_eq!(counts(&store.snapshot()), (0, 0, 0, 0, 0, 0, 0));

    let mut store = EntityStore::new(100);
    let result = processor
        .fetch_history_and_store_data(&mut store, &batch(), Some("unknown".to_string()), &vec![])
        .unwrap();
    assert_eq!(result, (3, 3));
    let result = processor
        .fetch_history_and_store_data(&mut EntityStore::new(0), &vec![], None, &vec![])
        .unwrap();
    assert_eq!(result, (0, 0));
}

#[test]
fn a_file_without_features_takes_none() {
    let processor = Processor::new(project(false, None));
    let mut store = EntityStore::new(100);
    let excluded = NewFile { project_id: 1, path: "README.md".to_string(), no_features: true }
        .save(&mut store)
        .unwrap();
    let feature_error = excluded.add_feature(1, &mut store);
    assert!(matches!(feature_error, Err(FownerError::FileCannotHaveFeatures(_))));
    assert!(store.snapshot().file_features.is_empty());

    let result = processor
        .fetch_history_and_store_data(&mut store, &batch(), None, &vec![])
        .unwrap();
    assert_eq!(result, (3, 3));
    let readme = File::load_by_path(1, "README.md".to_string(), &store).unwrap();
    assert!(readme.no_features);
    assert!(readme.feature_names(&store).is_empty());
    assert_eq!(readme.commit_shas(&store), vec!["c1", "c2"]);
    assert_eq!(readme.owners(&store), vec!["Keith", "Krakaw"]);
    let ignore = File::load_by_path(1, ".gitignore".to_string(), &store).unwrap();
    assert_eq!(ignore.feature_names(&store), vec!["Core"]);
    let main = File::load_by_path(1, "src/main.rs".to_string(), &store).unwrap();
    assert_eq!(main.feature_names(&store), vec!["Core", "History"]);
    assert_eq!(store.snapshot().file_features.len(), 3);
}

#[test]
fn labels_win_over_the_summary() {
    let inline = vec!["Core".to_string()];
    let labels = vec!["API".to_string(), "Billing".to_string()];
    assert_eq!(Processor::source_feature_names(Some(labels.clone()), &inline, false), labels);
    assert_eq!(Processor::source_feature_names(Some(labels.clone()), &inline, true), labels);
    assert_eq!(Processor::source_feature_names(None, &inline, false), inline);
    assert_eq!(Processor::source_feature_names(Some(vec![]), &inline, false), inline);
    assert_eq!(Processor::source_feature_names(None, &inline, true), Vec::<String>::new());
    assert_eq!(Processor::source_feature_names(Some(vec![]), &inline, true), Vec::<String>::new());
}

#[test]
fn looked_up_labels_name_the_features() {
    let processor = Processor::new(project(false, None));
    let mut store = EntityStore::new(100);
    let lookups = vec![Some(vec!["API".to_string()]), None, Some(vec![])];
    processor.fetch_history_and_store_data(&mut store, &batch(), None, &lookups).unwrap();
    let names: Vec<String> = store.snapshot().features.iter().map(|f| f.name.clone()).collect();
    assert_eq!(names, vec!["API", "Core", "History"]);
    let ignore = File::load_by_path(1, ".gitignore".to_string(), &store).unwrap();
    assert_eq!(ignore.feature_names(&store), vec!["API"]);

    let labels_only = Processor::new(project(true, None));
    let mut store = EntityStore::new(100);
    labels_only.fetch_history_and_store_data(&mut store, &batch(), None, &lookups).unwrap();
    let names: Vec<String> = store.snapshot().features.iter().map(|f| f.name.clone()).collect();
    assert_eq!(names, vec!["API"]);
}

#[test]
fn a_commit_that_does_not_fit_is_refused_whole() {
    let processor = Processor::new(project(false, None));
    let mut snapshot = EntityStore::new(0).snapshot();
    snapshot.next_file = u32::MAX - 1;
    let mut store = EntityStore::restore(snapshot).unwrap();
    let history = batch();
    let before = counts(&store.snapshot());
    let result = processor.fetch_history_and_store_data(&mut store, &history, None, &vec![]);
    assert!(matches!(result, Err(FownerError::Store(_))));
    assert_eq!(counts(&store.snapshot()), before);
    assert!(matches!(
        processor.store_commit(&mut store, &history[0], None),
        Err(FownerError::Store(_))
    ));
    assert!(processor.store_commit(&mut store, &history[2], None).is_ok());
    assert_eq!(store.snapshot().files.len(), 1);

    let mut store = EntityStore::new(0);
    let late = record("a", "s", &[], usize::MAX, "x", &[], &[]);
    assert!(matches!(processor.store_commit(&mut store, &late, None), Err(FownerError::Store(_))));
    assert_eq!(counts(&store.snapshot()), (0, 0, 0, 0, 0, 0, 0));
}

#[test]
fn a_run_that_fails_keeps_the_commits_before() {
    let processor = Processor::new(project(false, None));
    let mut snapshot = EntityStore::new(0).snapshot();
    snapshot.next_file = u32::MAX - 2;
    let mut store = EntityStore::restore(snapshot).unwrap();
    let result = processor.fetch_history_and_store_data(&mut store, &batch(), None, &vec![]);
    assert!(matches!(result, Err(FownerError::Store(_))));
    let snapshot = store.snapshot();
    assert_eq!(snapshot.commits.len(), 1);
    assert_eq!(snapshot.files.len(), 2);
}

#[test]
fn step_by_step_ingestion() {
    let processor = Processor::new(project(false, Some("https://github.com/Krakaw/fowner.git")));
    let mut store = EntityStore::new(100);
    let mut run = processor.begin(batch(), Some("c3".to_string()), true);
    assert_eq!(run.counts(), (0, 3));
    match processor.pending(&run) {
        Pending::Labels(sha) => assert_eq!(sha, "c1"),
        _ => panic!("the label source is to be asked"),
    }
    processor.advance(&mut store, &mut run, Some(vec!["API".to_string()])).unwrap();
    assert_eq!(run.counts(), (1, 3));
    match processor.pending(&run) {
        Pending::Labels(sha) => assert_eq!(sha, "c2"),
        _ => panic!("the label source is to be asked"),
    }
    processor.advance(&mut store, &mut run, None).unwrap();
    assert_eq!(run.counts(), (2, 3));
    assert!(matches!(processor.pending(&run), Pending::Finished));
    processor.advance(&mut store, &mut run, None).unwrap();
    assert_eq!(run.counts(), (2, 3));
    assert_eq!(store.snapshot().commits.len(), 2);
    let names: Vec<String> = store.snapshot().features.iter().map(|f| f.name.clone()).collect();
    assert_eq!(names, vec!["API", "Core", "History"]);

    let run = processor.begin(batch(), None, false);
    assert!(matches!(processor.pending(&run), Pending::Commit));
    let without_source = Processor::new(project(false, None));
    let run = without_source.begin(batch(), None, true);
    assert!(matches!(without_source.pending(&run), Pending::Commit));
    let run = without_source.begin(vec![], None, true);
    assert!(matches!(without_source.pending(&run), Pending::Finished));
}

#[test]
fn halting_is_by_commit_id() {
    let first = &batch()[0];
    assert!(Processor::halts_at(first, &Some("c1".to_string())));
    assert!(!Processor::halts_at(first, &Some("c".to_string())));
    assert!(!Processor::halts_at(first, &None));
    let nameless = record("a", "", &[], 1, "", &[], &[]);
    assert!(!Processor::halts_at(&nameless, &None));
    assert!(Processor::halts_at(&nameless, &Some(String::new())));
}

#[test]
fn owners_are_matched_whatever_the_case() {
    let processor = Processor::new(project(false, None));
    let mut store = EntityStore::new(100);
    processor.fetch_history_and_store_data(&mut store, &batch(), None, &vec![]).unwrap();
    let owners = Owner::all(&store).unwrap();
    assert_eq!(owners.len(), 2);
    assert_eq!(Owner::load_by_handle("KRAKAW".to_string(), &store).unwrap().handle, "Krakaw");
}

#[test]
fn what_is_stored_is_taken_again_without_ids() {
    let processor = Processor::new(project(false, None));
    let mut store = EntityStore::new(1);
    let history = batch();
    processor.fetch_history_and_store_data(&mut store, &history, None, &vec![]).unwrap();
    let mut snapshot = store.snapshot();
    snapshot.next_owner = u32::MAX;
    snapshot.next_commit = u32::MAX;
    snapshot.next_feature = u32::MAX;
    snapshot.next_file = u32::MAX;
    let mut full = EntityStore::restore(snapshot).unwrap();
    let before = counts(&full.snapshot());
    assert!(processor.fits(&full, &history[1], &history[1].features));
    let result = processor.fetch_history_and_store_data(&mut full, &history, None, &vec![]);
    assert_eq!(result.unwrap(), (3, 3));
    let after = counts(&full.snapshot());
    assert_eq!((after.0, after.1, after.2, after.3, after.4, after.5), (before.0, before.1, before.2, before.3, before.4, before.5));
    let new = record("new", "c4", &[], 40, "x", &[], &[]);
    assert!(!processor.fits(&full, &new, &vec![]));
    let known_owner = record("Keith", "c1", &[], 40, "x", &["Unknown"], &[]);
    assert!(!processor.fits(&full, &known_owner, &known_owner.features));
    assert!(processor.fits(&full, &known_owner, &vec!["Core".to_string()]));
}
