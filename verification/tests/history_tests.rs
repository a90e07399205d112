use fowner::errors::FownerError;
use fowner::git::history::GitHistory;

fn texts(items: &[&str]) -> Vec<String> {
    items.iter().map(|s| s.to_string()).collect()
}

#[test]
fn process_rows() {
    let history_string = r#"---
Krakaw
74ebe78fe948f83d42a59d021b5a411b7ac13981
685dc3d64c54719dadd46b9b7bc4cb0a994728e1 43ce09e6475f4013fc00a6bdfefc4a53e4ddff68
1655513699
Merge branch 'main' of github.com:Krakaw/fowner
---
Krakaw
685dc3d64c54719dadd46b9b7bc4cb0a994728e1
790f3db24ba26480725dbfc52594b4ce5d4a0b13
1655513635
Added models and initial DB interactions
.gitignore
Cargo.toml
src/db/migrations.rs
src/db/mod.rs
src/db/models/commit.rs
src/db/models/feature.rs
src/db/models/file.rs
src/db/models/mod.rs
src/db/models/owner.rs
src/db/models/project.rs
src/git/history.rs
src/git/mod.rs
src/git/repo.rs
src/main.rs

---
Krakaw
43ce09e6475f4013fc00a6bdfefc4a53e4ddff68
790f3db24ba26480725dbfc52594b4ce5d4a0b13
1655451712
Initial commit of feature tracking based on git history
src/git/history.rs
src/main.rs

---
Krakaw
790f3db24ba26480725dbfc52594b4ce5d4a0b13
c60c24663d3b67fdee8079a18cbe40c843932b48
1655395513
Initial commit of feature tracking based on git history [Core_Feature-1, History 2]
.gitignore
Cargo.toml
README.md
src/git/history.rs
src/git/mod.rs
src/main.rs

---
Keith Simon
c60c24663d3b67fdee8079a18cbe40c843932b48

1655391971
Initial commit [Core_Feature-1]
.gitignore
README.md

"#
    .to_string();
    let history = GitHistory::parse(history_string).unwrap();
    assert_eq!(history.len(), 5);
    let initial = history.first().unwrap();
    assert_eq!(initial.sha, "c60c24663d3b67fdee8079a18cbe40c843932b48");
    assert_eq!(initial.handle, "Keith Simon");
    assert_eq!(initial.features, vec!["Core_Feature-1"]);
    assert_eq!(initial.files, vec![".gitignore", "README.md"]);
    assert_eq!(initial.parent_sha, None);

    let multiple_features = history.get(1).unwrap();
    assert_eq!(
        multiple_features.features,
        vec!["Core_Feature-1", "History 2"]
    );

    let last = history.last().unwrap();
    assert_eq!(last.sha, "74ebe78fe948f83d42a59d021b5a411b7ac13981");
    assert_eq!(
        last.parent_sha.as_ref().unwrap().last(),
        Some(&"43ce09e6475f4013fc00a6bdfefc4a53e4ddff68".to_string())
    );
    assert_eq!(
        last.parent_sha,
        Some(texts(&[
            "685dc3d64c54719dadd46b9b7bc4cb0a994728e1",
            "43ce09e6475f4013fc00a6bdfefc4a53e4ddff68"
        ]))
    );
    assert_eq!(last.timestamp, 1655513699);
    assert!(last.files.is_empty());
    let stamps: Vec<usize> = history.iter().map(|h| h.timestamp).collect();
    assert_eq!(
        stamps,
        vec![1655391971, 1655395513, 1655451712, 1655513635, 1655513699]
    );
}

#[test]
fn records_come_back_in_reverse_order_of_the_log() {
    let text = "---\nc\n3\n2\n30\nthird\nf3\n\n---\nb\n2\n1\n20\nsecond\nf2\n\n---\na\n1\n\n10\nfirst\nf1\n\n";
    let history = GitHistory::parse(text.to_string()).unwrap();
    let shas: Vec<&str> = history.iter().map(|h| h.sha.as_str()).collect();
    assert_eq!(shas, vec!["1", "2", "3"]);
    let stamps: Vec<usize> = history.iter().map(|h| h.timestamp).collect();
    assert_eq!(stamps, vec![10, 20, 30]);
    assert_eq!(history[0].handle, "a");
    assert_eq!(history[2].summary, "third");
    assert_eq!(history[1].files, vec!["f2"]);
}

#[test]
fn equal_timestamps_keep_the_reversed_order() {
    let text = "---\nb\n2\n1\n10\nsecond\nf\n\n---\na\n1\n\n10\nfirst\nf\n\n";
    let history = GitHistory::parse(text.to_string()).unwrap();
    let shas: Vec<&str> = history.iter().map(|h| h.sha.as_str()).collect();
    assert_eq!(shas, vec!["1", "2"]);
}

#[test]
fn merge_commit_keeps_both_parents_in_order() {
    let text = "---\nme\nabc\np1 p2\n5\nmerge\nf\n\n";
    let history = GitHistory::parse(text.to_string()).unwrap();
    assert_eq!(history.len(), 1);
    let parents = history[0].parent_sha.clone().unwrap();
    assert_eq!(parents.len(), 2);
    assert_eq!(parents, texts(&["p1", "p2"]));
    assert_eq!(GitHistory::parents_of("p1 p2 p3"), Some(texts(&["p1", "p2", "p3"])));
    assert_eq!(GitHistory::parents_of("p1"), Some(texts(&["p1"])));
}

#[test]
fn root_commit_has_no_parents() {
    let text = "---\nme\nabc\n\n5\nroot\nf\n\n";
    let history = GitHistory::parse(text.to_string()).unwrap();
    assert_eq!(history.len(), 1);
    assert_eq!(history[0].parent_sha, None);
    assert!(history[0].parent_sha.clone().unwrap_or_default().is_empty());
    assert_eq!(GitHistory::parents_of(""), None);
}

#[test]
fn feature_tag_extraction() {
    let text = "---\nme\nabc\n\n5\nFix bug [Auth, Billing]\nf\n\n---\nme\nabd\n\n4\nFix bug\nf\n\n";
    let history = GitHistory::parse(text.to_string()).unwrap();
    assert_eq!(history[1].summary, "Fix bug [Auth, Billing]");
    assert_eq!(history[1].features, vec!["Auth", "Billing"]);
    assert_eq!(history[0].features, Vec::<String>::new());
}

#[test]
fn tag_must_close_the_summary() {
    let text = "---\nme\nabc\n\n5\n[Auth] fix bug\nf\n\n---\nme\nabd\n\n4\nfix [a/b]\nf\n\n";
    let history = GitHistory::parse(text.to_string()).unwrap();
    assert!(history[0].features.is_empty());
    assert!(history[1].features.is_empty());
}

#[test]
fn names_in_a_tag_are_trimmed() {
    assert_eq!(
        GitHistory::names_in_tag(" Core_Feature-1 ,History 2,  x"),
        texts(&["Core_Feature-1", "History 2", "x"])
    );
    assert_eq!(GitHistory::names_in_tag("a,,b"), texts(&["a", "", "b"]));
    assert_eq!(GitHistory::features_from(None), Vec::<String>::new());
    assert_eq!(
        GitHistory::features_from(Some("A, B".to_string())),
        texts(&["A", "B"])
    );
}

#[test]
fn non_numeric_timestamp_is_refused() {
    let text = "---\nme\nabc\n\nyesterday\nsummary\nf\n\n";
    match GitHistory::parse(text.to_string()) {
        Err(FownerError::ParseInt(field)) => assert_eq!(field, "yesterday"),
        other => panic!("unexpected {:?}", other),
    }
    for field in ["", "-5", "+", "1 2", "12a", "99999999999999999999999999"] {
        let text = format!("---\nme\nabc\n\n{}\nsummary\nf\n\n", field);
        assert!(matches!(
            GitHistory::parse(text),
            Err(FownerError::ParseInt(_))
        ));
    }
}

#[test]
fn a_bad_record_refuses_the_whole_log() {
    let text = "---\nb\n2\n1\n20\nsecond\nf2\n\n---\na\n1\n\nbad\nfirst\nf1\n\n";
    assert!(GitHistory::parse(text.to_string()).is_err());
}

#[test]
fn timestamp_may_carry_a_plus_sign_and_zeros() {
    let text = "---\nme\nabc\n\n+0042\nsummary\nf\n\n";
    let history = GitHistory::parse(text.to_string()).unwrap();
    assert_eq!(history[0].timestamp, 42);
}

#[test]
fn lines_are_trimmed() {
    let text = "  ---  \n  me \n\tabc\n p1  \n 7 \n  summary [X] \n  a/b.rs  \n   \n";
    let history = GitHistory::parse(text.to_string()).unwrap();
    assert_eq!(history.len(), 1);
    assert_eq!(history[0].handle, "me");
    assert_eq!(history[0].sha, "abc");
    assert_eq!(history[0].parent_sha, Some(texts(&["p1"])));
    assert_eq!(history[0].timestamp, 7);
    assert_eq!(history[0].summary, "summary [X]");
    assert_eq!(history[0].features, vec!["X"]);
    assert_eq!(history[0].files, vec!["a/b.rs"]);
}

#[test]
fn separator_before_a_complete_record_is_passed_over() {
    let text = "---\n---\nme\n---\nabc\n\n5\nsummary\nf\n---\n";
    let history = GitHistory::parse(text.to_string()).unwrap();
    assert_eq!(history.len(), 1);
    assert_eq!(history[0].handle, "me");
    assert_eq!(history[0].sha, "abc");
    assert_eq!(history[0].files, vec!["f"]);
}

#[test]
fn a_record_left_open_is_not_reported() {
    let text = "---\nb\n2\n1\n20\nsecond\nf2\n\n---\na\n1\n\n10\nfirst\nf1";
    let history = GitHistory::parse(text.to_string()).unwrap();
    assert_eq!(history.len(), 1);
    assert_eq!(history[0].sha, "2");
    assert!(GitHistory::parse(String::new()).unwrap().is_empty());
}

#[test]
fn blank_record_is_empty() {
    let blank = GitHistory::blank();
    assert_eq!(blank.handle, "");
    assert_eq!(blank.parent_sha, None);
    assert_eq!(blank.timestamp, 0);
    assert!(blank.files.is_empty() && blank.features.is_empty());
}
