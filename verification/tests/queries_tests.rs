use fowner::db::dotfile::{
    apply_feature_rows, feature_rows, parse_feature_file, render_feature_file, sort_rows,
    FeatureRow,
};
use fowner::db::models::commit::{Commit, NewCommit};
use fowner::db::models::feature::NewFeature;
use fowner::db::models::file::{File, NewFile};
use fowner::db::models::file_commit::{was_changed_between, FileCommit};
use fowner::db::models::file_feature::FileFeature;
use fowner::db::models::file_owner::NewFileOwner;
use fowner::db::models::owner::NewOwner;
use fowner::db::models::project::NewProject;
use fowner::db::stats::{
    contributions_per_owner, ContributionCount, ContributionRow, TimeBreakdown,
};
use fowner::db::EntityStore;
use fowner::errors::FownerError;
use fowner::git::manager::GitManager;
use fowner::server::paging::{missing_limit, Paging, SortDir};
use fowner::test::builders::file_builder::FileBuilder;

fn row(path: &str, features: &[&str]) -> FeatureRow {
    FeatureRow { path: path.to_string(), features: features.iter().map(|s| s.to_string()).collect() }
}

fn commit(store: &mut EntityStore, project_id: u32, sha: &str, time: i64) -> Commit {
    NewCommit {
        owner_id: 1,
        project_id,
        sha: sha.to_string(),
        parent_sha: None,
        description: sha.to_string(),
        commit_time: time,
    }
    .save(store)
    .unwrap()
}

#[test]
fn feature_file_is_read_row_by_row() {
    let rows = parse_feature_file("src/main.rs|Core,API\n\n  README.md|Docs  \nLICENSE\nempty|\na|b|c\n");
    assert_eq!(
        rows,
        vec![
            row("src/main.rs", &["Core", "API"]),
            row("README.md", &["Docs"]),
            row("LICENSE", &[]),
            row("empty", &[""]),
            row("a", &["b"]),
        ]
    );
    assert!(parse_feature_file("").is_empty());
    assert!(parse_feature_file("\n  \n").is_empty());
}

#[test]
fn rows_are_sorted_by_path() {
    let rows = vec![row("b", &["1"]), row("a/z", &[]), row("B", &[]), row("a", &["2"]), row("b", &["3"])];
    let sorted = sort_rows(&rows);
    let paths: Vec<&str> = sorted.iter().map(|r| r.path.as_str()).collect();
    assert_eq!(paths, vec!["B", "a", "a/z", "b", "b"]);
    assert_eq!(sorted[3].features, vec!["1"]);
    assert_eq!(sorted[4].features, vec!["3"]);
    let mut by_std = rows.clone();
    by_std.sort_by(|a, b| a.path.cmp(&b.path));
    assert_eq!(sorted, by_std);
    let odd = vec![row("\u{e9}", &[]), row("z", &[]), row("", &[]), row("\u{10348}", &[]), row("\u{ffff}", &[])];
    let mut by_std = odd.clone();
    by_std.sort_by(|a, b| a.path.cmp(&b.path));
    assert_eq!(sort_rows(&odd), by_std);
}

#[test]
fn rows_are_written_with_bars_and_commas() {
    let rows = vec![row("a", &["X", "Y"]), row("b", &[]), row("c", &["Z"])];
    assert_eq!(render_feature_file(&rows), "a|X,Y\nb|\nc|Z");
    assert_eq!(render_feature_file(&vec![]), "");
    assert_eq!(render_feature_file(&vec![row("only", &[])]), "only|");
}

#[test]
fn feature_file_is_brought_up_to_date() {
    let mut store = EntityStore::new(5);
    NewFile { project_id: 1, path: "z.rs".to_string(), no_features: false }.save(&mut store).unwrap();
    let locked = NewFile { project_id: 1, path: "gen.rs".to_string(), no_features: true }
        .save(&mut store)
        .unwrap();
    NewFile { project_id: 2, path: "other.rs".to_string(), no_features: false }
        .save(&mut store)
        .unwrap();
    let text = File::generate_feature_file(1, "a.rs|Core,API\ngen.rs|Core\nz.rs|API\n", &mut store)
        .unwrap();
    assert_eq!(text, "a.rs|Core,API\ngen.rs|\nz.rs|API");
    assert!(locked.feature_names(&store).is_empty());
    let again = File::generate_feature_file(1, text.as_str(), &mut store).unwrap();
    assert_eq!(again, "a.rs|Core,API\ngen.rs|\nz.rs|API");
    let snapshot = store.snapshot();
    assert_eq!(snapshot.files.len(), 4);
    assert_eq!(snapshot.file_features.len(), 3);
    let names: Vec<&str> = snapshot.features.iter().map(|f| f.name.as_str()).collect();
    assert_eq!(names, vec!["Core", "API", ""]);
    assert_eq!(feature_rows(2, &store), vec![row("other.rs", &[])]);
}

#[test]
fn rows_that_do_not_fit_are_refused_whole() {
    let mut snapshot = EntityStore::new(0).snapshot();
    snapshot.next_feature = u32::MAX - 1;
    let mut store = EntityStore::restore(snapshot).unwrap();
    let rows = vec![row("a", &["X"]), row("b", &["X"])];
    assert!(matches!(apply_feature_rows(1, &rows, &mut store), Err(FownerError::Store(_))));
    assert!(store.snapshot().files.is_empty());
    assert!(apply_feature_rows(1, &rows[..1].to_vec(), &mut store).is_ok());
    assert_eq!(store.snapshot().files.len(), 1);
}

#[test]
fn removing_features_excludes_the_file() {
    let mut store = EntityStore::new(5);
    let file = NewFile { project_id: 1, path: "a".to_string(), no_features: false }
        .save(&mut store)
        .unwrap();
    let other = NewFile { project_id: 1, path: "b".to_string(), no_features: false }
        .save(&mut store)
        .unwrap();
    let feature = NewFeature { project_id: 1, name: "X".to_string(), description: None }
        .save(&mut store)
        .unwrap();
    file.add_feature(feature.id, &mut store).unwrap();
    other.add_feature(feature.id, &mut store).unwrap();
    assert_eq!(file.remove_features(&mut store).unwrap(), 1);
    let stored = File::load(1, file.id, &store).unwrap();
    assert!(stored.no_features);
    assert!(stored.feature_names(&store).is_empty());
    assert_eq!(other.feature_names(&store), vec!["X"]);
    assert!(matches!(
        stored.add_feature(feature.id, &mut store),
        Err(FownerError::FileCannotHaveFeatures(_))
    ));
    assert!(FileFeature::load(file.id, feature.id, &store).is_err());
    let unknown = File { id: 77, ..file };
    assert_eq!(unknown.remove_features(&mut store).unwrap(), 0);
    assert_eq!(store.snapshot().file_features.len(), 1);
}

#[test]
fn files_and_features_between_commits() {
    let mut store = EntityStore::new(5);
    let c1 = commit(&mut store, 1, "c1", 10);
    let c2 = commit(&mut store, 1, "c2", 20);
    let c3 = commit(&mut store, 1, "c3", 30);
    let far = commit(&mut store, 2, "c9", 20);
    let add = |store: &mut EntityStore, project_id: u32, path: &str, commit_id: u32, feature: &str| {
        let file = NewFile { project_id, path: path.to_string(), no_features: false }
            .save(store)
            .unwrap();
        FileCommit { file_id: file.id, commit_id }.save(store).unwrap();
        let feature = NewFeature { project_id, name: feature.to_string(), description: None }
            .save(store)
            .unwrap();
        file.add_feature(feature.id, store).unwrap();
        file
    };
    let a = add(&mut store, 1, "a", c1.id, "A");
    let b = add(&mut store, 1, "b", c2.id, "B");
    let c = add(&mut store, 1, "c", c3.id, "C");
    add(&mut store, 2, "far", far.id, "Far");
    FileCommit { file_id: a.id, commit_id: c3.id }.save(&mut store).unwrap();

    let files = FileCommit::fetch_between(1, c2.clone(), c3.clone(), &store).unwrap();
    let paths: Vec<&str> = files.iter().map(|f| f.path.as_str()).collect();
    assert_eq!(paths, vec!["a", "b", "c"]);
    let files = FileCommit::fetch_between(1, c1.clone(), c1.clone(), &store).unwrap();
    assert_eq!(files, vec![a.clone()]);
    assert!(FileCommit::fetch_between(1, c3.clone(), c1.clone(), &store).unwrap().is_empty());
    assert!(FileCommit::fetch_between(2, c1.clone(), c3.clone(), &store).unwrap().is_empty());
    assert!(was_changed_between(&store, b.id, 1, 20, 20));
    assert!(!was_changed_between(&store, b.id, 1, 21, 40));
    assert!(!was_changed_between(&store, b.id, 2, 0, 40));
    assert!(!was_changed_between(&store, c.id, 1, 0, 29));

    let features = FileFeature::fetch_between(c1.clone(), c2.clone(), &store).unwrap();
    let names: Vec<&str> = features.iter().map(|f| f.name.as_str()).collect();
    assert_eq!(names, vec!["A", "B"]);
    let features = FileFeature::fetch_between(c3.clone(), c3.clone(), &store).unwrap();
    let names: Vec<&str> = features.iter().map(|f| f.name.as_str()).collect();
    assert_eq!(names, vec!["A", "C"]);
    let features = FileFeature::fetch_between(far.clone(), far, &store).unwrap();
    assert_eq!(features.len(), 1);
}

#[test]
fn owners_of_a_file_are_reported_under_their_primary() {
    let mut store = EntityStore::new(5);
    let main = NewOwner { handle: "main".to_string(), name: None, primary_owner_id: None }
        .save(&mut store)
        .unwrap();
    let alias = NewOwner { handle: "alias".to_string(), name: None, primary_owner_id: Some(main.id) }
        .save(&mut store)
        .unwrap();
    let lost = NewOwner { handle: "lost".to_string(), name: None, primary_owner_id: Some(99) }
        .save(&mut store)
        .unwrap();
    let file = NewFile { project_id: 1, path: "a".to_string(), no_features: false }
        .save(&mut store)
        .unwrap();
    for owner_id in [alias.id, lost.id, main.id, 42, alias.id] {
        NewFileOwner { file_id: file.id, owner_id, action_date: 1, sha: "s".to_string() }
            .save(&mut store)
            .unwrap();
    }
    NewFileOwner { file_id: file.id + 1, owner_id: lost.id, action_date: 1, sha: "s".to_string() }
        .save(&mut store)
        .unwrap();
    assert_eq!(file.owners(&store), vec!["main", "lost"]);
}

#[test]
fn commits_are_found_by_the_start_of_their_sha() {
    let mut store = EntityStore::new(5);
    commit(&mut store, 1, "abcdef", 30);
    commit(&mut store, 1, "abc123", 10);
    commit(&mut store, 2, "ABCDEF0", 20);
    assert_eq!(Commit::load_by_sha("abc".to_string(), &store).unwrap().sha, "abc123");
    assert_eq!(Commit::load_by_sha("abcd".to_string(), &store).unwrap().sha, "ABCDEF0");
    assert_eq!(Commit::load_by_sha("abcdef".to_string(), &store).unwrap().sha, "ABCDEF0");
    assert_eq!(Commit::load_by_sha(String::new(), &store).unwrap().sha, "abc123");
    assert!(matches!(
        Commit::load_by_sha("abd".to_string(), &store),
        Err(FownerError::NotFound(_))
    ));
    assert_eq!(Commit::sort_by_field(None), "commit_time");
    assert_eq!(Commit::sort_by_field(Some("description".to_string())), "description");
    assert_eq!(Commit::sort_by_field(Some("commit_time".to_string())), "commit_time");
    assert_eq!(Commit::sort_by_field(Some("sha; drop".to_string())), "commit_time");
}

#[test]
fn builder_stores_file_features_and_commits() {
    let mut store = EntityStore::new(9);
    let file = FileBuilder { project_id: 1, path: "a.rs".to_string(), ..FileBuilder::default() }
        .with_features(vec!["Feature 1".to_string(), "Feature 2".to_string()])
        .with_commits(vec!["one".to_string(), "two".to_string(), "three".to_string()])
        .build(&mut store)
        .unwrap();
    assert_eq!(file.id, 1);
    assert_eq!(file.feature_names(&store), vec!["Feature 1", "Feature 2"]);
    assert_eq!(file.commit_shas(&store), vec!["one", "two", "three"]);
    let snapshot = store.snapshot();
    let parents: Vec<Option<Vec<String>>> =
        snapshot.commits.iter().map(|c| c.parent_sha.clone()).collect();
    assert_eq!(
        parents,
        vec![None, Some(vec!["one".to_string()]), Some(vec!["two".to_string()])]
    );
    assert_eq!(snapshot.commits[1].description, "two");
    assert_eq!(snapshot.commits[1].owner_id, 0);
    assert_eq!(snapshot.commits[1].commit_time, 9);

    let excluded = FileBuilder {
        project_id: 1,
        path: "b.rs".to_string(),
        no_features: true,
        ..FileBuilder::default()
    }
    .with_features(vec!["X".to_string()])
    .build(&mut store);
    assert!(matches!(excluded, Err(FownerError::FileCannotHaveFeatures(_))));
    assert_eq!(store.snapshot().files.len(), 1);
    let plain = FileBuilder {
        project_id: 1,
        path: "b.rs".to_string(),
        no_features: true,
        ..FileBuilder::default()
    }
    .build(&mut store)
    .unwrap();
    assert!(plain.no_features);
}

#[test]
fn sort_direction_and_paging() {
    assert_eq!(SortDir::from("Asc"), SortDir::Asc);
    assert_eq!(SortDir::from("asc"), SortDir::Asc);
    assert_eq!(SortDir::from("Desc"), SortDir::Desc);
    assert_eq!(SortDir::from("desc"), SortDir::Desc);
    assert_eq!(SortDir::from("DESC"), SortDir::Asc);
    assert_eq!(SortDir::from(""), SortDir::Asc);
    assert_eq!(SortDir::default(), SortDir::Desc);
    assert_eq!(SortDir::Asc.name(), "Asc");
    assert_eq!(SortDir::Desc.name(), "Desc");
    assert_eq!(SortDir::Asc.to_sql(), "ASC");
    assert_eq!(SortDir::Desc.to_sql(), "DESC");
    assert_eq!(missing_limit(), 50);
    let page: Paging = Paging::first_page();
    assert_eq!((page.limit, page.offset, page.total), (50, 0, 0));
    assert!(page.sort.is_none() && page.sort_dir.is_none());
}

#[test]
fn time_breakdown() {
    assert_eq!(TimeBreakdown::from("daily".to_string()), TimeBreakdown::Daily);
    assert_eq!(TimeBreakdown::from("Monthly".to_string()), TimeBreakdown::Monthly);
    assert_eq!(TimeBreakdown::from("YEARLY".to_string()), TimeBreakdown::Yearly);
    assert_eq!(TimeBreakdown::from("weekly".to_string()), TimeBreakdown::Daily);
    assert_eq!(TimeBreakdown::default(), TimeBreakdown::Daily);
    assert_eq!(TimeBreakdown::Daily.date_format(), "%Y-%m-%d");
    assert_eq!(TimeBreakdown::Monthly.date_format(), "%Y-%m");
    assert_eq!(TimeBreakdown::Yearly.date_format(), "%Y");
    assert_eq!(TimeBreakdown::Daily.first_day("2022-06-18"), "2022-06-18");
    assert_eq!(TimeBreakdown::Monthly.first_day("2022-06"), "2022-06-01");
    assert_eq!(TimeBreakdown::Yearly.first_day("2022"), "2022-01-01");
}

#[test]
fn project_of_a_working_copy() {
    let manager = GitManager { path: "/repos/x".to_string(), url: Some("u".to_string()) };
    assert_eq!(
        NewProject::from(&manager),
        NewProject {
            name: None,
            repo_url: Some("u".to_string()),
            github_api_token: None,
            github_labels_only: false,
            path: "/repos/x".to_string(),
        }
    );
}

#[test]
fn contributions_add_up_per_project_and_owner() {
    let counted = |project_id: u32, owner_id: u32, handle: &str, span: &str, count: u64| ContributionRow {
        project_id,
        project_name: format!("p{}", project_id),
        owner_id,
        owner_handle: handle.to_string(),
        commit_time: span.to_string(),
        commit_count: count,
    };
    let rows = vec![
        counted(1, 1, "a", "2022-05", 3),
        counted(2, 1, "a", "2022-05", 1),
        counted(1, 2, "b", "2022-06", 2),
        counted(1, 1, "a", "2022-07", 4),
        counted(1, 2, "b", "2022-04", u64::MAX),
    ];
    let result = contributions_per_owner(&rows, Some(TimeBreakdown::Monthly));
    assert_eq!(result.len(), 2);
    let first = &result[0];
    assert_eq!((first.project_id, first.project_name.as_str()), (1, "p1"));
    assert_eq!(first.start, "2022-05-01");
    assert_eq!(first.end, "2022-07-01");
    assert_eq!(first.contributions.len(), 2);
    assert_eq!(first.contributions[0].owner_handle, "a");
    assert_eq!(first.contributions[0].total_contributions, 7);
    assert_eq!(
        first.contributions[0].contribution_counts,
        vec![
            ContributionCount { commit_count: 3, commit_time: "2022-05".to_string() },
            ContributionCount { commit_count: 4, commit_time: "2022-07".to_string() },
        ]
    );
    assert_eq!(first.contributions[1].total_contributions, usize::MAX);
    assert_eq!(first.contributions[1].contribution_counts.len(), 2);
    assert_eq!(result[1].project_id, 2);
    assert_eq!(result[1].end, "2022-05-01");
    assert_eq!(result[1].contributions[0].total_contributions, 1);

    let daily = contributions_per_owner(&rows[..1].to_vec(), None);
    assert_eq!(daily[0].start, "2022-05");
    assert!(contributions_per_owner(&vec![], None).is_empty());
}

#[test]
fn commits_span_a_time_within_one_project() {
    let mut store = EntityStore::new(5);
    let early = commit(&mut store, 1, "a", 10);
    let late = commit(&mut store, 1, "b", 20);
    let other = commit(&mut store, 2, "c", 15);
    let (from, to) = Commit::span(late.clone(), early.clone()).unwrap();
    assert_eq!((from.sha.as_str(), to.sha.as_str()), ("a", "b"));
    let (from, to) = Commit::span(early.clone(), late.clone()).unwrap();
    assert_eq!((from.sha.as_str(), to.sha.as_str()), ("a", "b"));
    match Commit::span(early, other) {
        Err(FownerError::GitError(m)) => assert_eq!(m, "Commits are from different projects"),
        _ => panic!("commits of two projects span nothing"),
    }
}

#[test]
fn a_project_is_named_after_its_repository() {
    let project = |name: Option<&str>, url: Option<&str>| NewProject {
        name: name.map(|s| s.to_string()),
        repo_url: url.map(|s| s.to_string()),
        github_api_token: None,
        github_labels_only: true,
        path: "p".to_string(),
    };
    let named = project(None, Some("https://github.com/Krakaw/empty.git")).named();
    assert_eq!(named.name, Some("empty".to_string()));
    assert!(named.github_labels_only);
    assert_eq!(
        project(Some("TestProject"), Some("https://github.com/Krakaw/empty.git")).named().name,
        Some("TestProject".to_string())
    );
    assert_eq!(project(None, None).named().name, None);
    assert_eq!(project(None, Some("plain")).named().name, Some("plain".to_string()));
    assert_eq!(project(None, Some("a/b.git.git/")).named().name, Some(String::new()));
}
