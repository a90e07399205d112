use fowner::db::models::project::NewProject;
use fowner::errors::FownerError;
use fowner::git::manager::{CommandOutput, GitManager};
use fowner::git::repo::GitRepo;
use fowner::test::builders::file_builder::FileBuilder;
use fowner::test::builders::project_builder::ProjectBuilder;

fn manager() -> GitManager {
    GitManager { path: "repo".to_string(), url: None }
}

fn output(success: bool, stdout: &[u8], stderr: &[u8]) -> CommandOutput {
    CommandOutput { success, stdout: stdout.to_vec(), stderr: stderr.to_vec() }
}

#[test]
fn log_is_asked_for_in_the_fixed_layout() {
    assert_eq!(
        manager().history_args(None),
        vec![
            "--no-pager",
            "log",
            "--name-only",
            "--pretty=format:---%n%an%n%H%n%P%n%ad%n%s",
            "--date=unix",
            "."
        ]
    );
}

#[test]
fn commits_are_asked_for_from_one_second_later() {
    let args = manager().history_args(Some(1655513699));
    assert_eq!(args.len(), 7);
    assert_eq!(args[5], "--after=\"2022-06-18T00:55:00.0Z\"");
    assert_eq!(args[6], ".");
    assert_eq!(manager().history_args(Some(0))[5], "--after=\"1970-01-01T00:00:01.0Z\"");
    assert_eq!(manager().history_args(Some(-1))[5], "--after=\"1970-01-01T00:00:00.0Z\"");
}

#[test]
fn a_time_that_cannot_be_written_gives_no_bound() {
    assert_eq!(manager().history_args(Some(i64::MAX)).len(), 6);
    assert_eq!(manager().history_args(Some(i64::MIN)).len(), 6);
}

#[test]
fn output_of_a_run_is_the_text_or_the_failure() {
    assert_eq!(manager().history(output(true, b"---\nme\n", b"warning")).unwrap(), "---\nme\n");
    match manager().history(output(false, b"ignored", b"fatal: not a git repository")) {
        Err(FownerError::Execution(text)) => assert_eq!(text, "fatal: not a git repository"),
        other => panic!("unexpected {:?}", other),
    }
    assert!(matches!(
        manager().history(output(true, &[0xff, 0xfe], b"")),
        Err(FownerError::Utf8(_))
    ));
    assert!(matches!(
        manager().history(output(false, b"", &[0xc3, 0x28])),
        Err(FownerError::Utf8(_))
    ));
    assert_eq!(manager().history(output(true, "h\u{e9}".as_bytes(), b"")).unwrap(), "h\u{e9}");
}

#[test]
fn output_of_a_run_is_parsed() {
    let text = b"---\nb\n2\n1\n20\nsecond [X]\nf2\n\n---\na\n1\n\n10\nfirst\nf1\n\n";
    let history = manager().parse_history(output(true, text, b"")).unwrap();
    assert_eq!(history.len(), 2);
    assert_eq!(history[0].sha, "1");
    assert_eq!(history[1].features, vec!["X"]);
    let repo = GitRepo { path: "repo".to_string(), name: None, url: None };
    assert_eq!(repo.parse_history(output(true, text, b"")).unwrap().len(), 2);
    assert!(matches!(
        repo.parse_history(output(false, text, b"oops")),
        Err(FownerError::Execution(_))
    ));
    assert!(matches!(
        manager().parse_history(output(true, b"---\na\n1\n\nnever\nfirst\n\n", b"")),
        Err(FownerError::ParseInt(_))
    ));
}

#[test]
fn error_messages() {
    assert_eq!(FownerError::NotFound("x".to_string()).message(), "Not found: x");
    assert_eq!(
        FownerError::Execution("x".to_string()).message(),
        "Error executing command: x"
    );
    assert_eq!(FownerError::ParseInt("x".to_string()).message(), "ParseInt Error: x");
    assert_eq!(FownerError::GitError("x".to_string()).message(), "Git Error: x");
    assert_eq!(
        FownerError::FileCannotHaveFeatures("a/b".to_string()).message(),
        "File Cannot Have Features: a/b"
    );
    assert_eq!(FownerError::Store("x".to_string()).message(), "Store Error: x");
    let not_utf8 = manager().history(output(true, &[0xff], b"")).unwrap_err();
    assert_eq!(not_utf8.message(), "Utf8 Conversion Error");
}

#[test]
fn builders_keep_what_they_are_given() {
    let builder = FileBuilder { project_id: 4, ..FileBuilder::default() }
        .with_features(vec!["Feature 1".to_string(), "Feature 2".to_string()])
        .with_commits(vec!["abc".to_string()]);
    assert_eq!(builder.project_id, 4);
    assert_eq!(builder.features, vec!["Feature 1", "Feature 2"]);
    assert_eq!(builder.commits, vec!["abc"]);
    assert!(!builder.no_features);

    let project = ProjectBuilder::with_path("/tmp/x").build();
    assert_eq!(
        project,
        NewProject {
            name: None,
            repo_url: None,
            github_api_token: None,
            github_labels_only: false,
            path: "/tmp/x".to_string(),
        }
    );
}
