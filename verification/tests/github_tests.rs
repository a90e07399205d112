use fowner::db::models::project::Project;
use fowner::errors::FownerError;
use fowner::git::github::{Github, Label, Pr};

fn project(repo_url: Option<&str>) -> Project {
    Project {
        id: 1,
        name: Some("Project 1".to_string()),
        repo_url: repo_url.map(|s| s.to_string()),
        github_api_token: Some("abc".to_string()),
        github_labels_only: false,
        path: "p1".to_string(),
        created_at: 0,
        updated_at: 0,
    }
}

fn is_match(name: &str) -> bool {
    // The mark is there where the pattern matches: then a non-empty rest is a feature.
    let probe = format!("{}x", name);
    Github::feature_label(&Some(probe)).unwrap().is_some()
}

fn replace(name: &str) -> String {
    match Github::feature_label(&Some(name.to_string())).unwrap() {
        Some(stripped) => stripped,
        None => name.to_string(),
    }
}

#[test]
fn label_regex() {
    assert!(is_match("F: Feature"));
    assert!(is_match("F:Feature"));
    assert!(is_match("F:      Feature"));
    assert!(is_match("f: Feature"));
    assert!(is_match("f:Feature"));
    assert!(is_match("f:     Feature"));
    assert!(!is_match("Feature"));

    assert_eq!(replace("F: Feature"), "Feature");
    assert_eq!(replace("F:      Feature"), "Feature");
    assert_eq!(replace("F:Feature"), "Feature");
    assert_eq!(replace("f: Feature"), "Feature");
    assert_eq!(replace("f:Feature"), "Feature");
    assert_eq!(replace("Feature"), "Feature");
}

#[test]
fn labels_without_the_mark_name_no_feature() {
    assert_eq!(Github::feature_label(&Some("Feature".to_string())).unwrap(), None);
    assert_eq!(Github::feature_label(&Some("bug f: x".to_string())).unwrap(), None);
    assert_eq!(Github::feature_label(&Some("f:".to_string())).unwrap(), None);
    assert_eq!(Github::feature_label(&Some("  f:   ".to_string())).unwrap(), None);
    assert_eq!(Github::feature_label(&None).unwrap(), None);
    assert_eq!(
        Github::feature_label(&Some("  F: Billing  ".to_string())).unwrap(),
        Some("Billing".to_string())
    );
}

#[test]
fn qualifying_label_needs_mark_and_rest() {
    assert_eq!(Github::qualifying_label(true, "API".to_string()), Some("API".to_string()));
    assert_eq!(Github::qualifying_label(false, "API".to_string()), None);
    assert_eq!(Github::qualifying_label(true, String::new()), None);
}

#[test]
fn feature_labels_keep_the_order_of_pulls_and_labels() {
    let label = |s: &str| Label { name: Some(s.to_string()) };
    let pulls = vec![
        Pr { labels: vec![label("f: API"), label("bug"), label("F:Core")] },
        Pr { labels: vec![] },
        Pr { labels: vec![Label { name: None }, label("f:  Billing ")] },
    ];
    assert_eq!(
        Github::feature_labels(&pulls).unwrap(),
        vec!["API".to_string(), "Core".to_string(), "Billing".to_string()]
    );
    assert_eq!(Github::feature_labels(&vec![]).unwrap(), Vec::<String>::new());
}

#[test]
fn get_github_api_url() {
    let project1 = project(Some("https://github.com/Krakaw/fowner.git"));
    let gh_api_url = project1.get_github_api_url().unwrap();
    assert_eq!(gh_api_url, "https://api.github.com/repos/Krakaw/fowner");

    let project2 = project(Some("git@github.com:Krakaw/fowner.git"));
    let gh_api_url = project2.get_github_api_url().unwrap();
    assert_eq!(gh_api_url, "https://api.github.com/repos/Krakaw/fowner");

    let project3 = project(Some("git@github.com:tari-labs/emoji.id-frontend.git"));
    let gh_api_url = project3.get_github_api_url().unwrap();
    assert_eq!(
        gh_api_url,
        "https://api.github.com/repos/tari-labs/emoji.id-frontend"
    );
}

#[test]
fn api_url_needs_a_repository_on_the_host() {
    match project(None).get_github_api_url() {
        Err(FownerError::NotFound(m)) => assert_eq!(m, "repo_url is missing for this project"),
        other => panic!("unexpected {:?}", other),
    }
    match project(Some("https://gitlab.com/a/b.git")).get_github_api_url() {
        Err(FownerError::GitError(m)) => {
            assert_eq!(m, "Github API url cannot be generated from https://gitlab.com/a/b.git")
        }
        other => panic!("unexpected {:?}", other),
    }
    match project(Some("git@github.com:fowner.git")).get_github_api_url() {
        Err(FownerError::GitError(m)) => assert_eq!(m, "Missing owner in repo_url"),
        other => panic!("unexpected {:?}", other),
    }
    assert_eq!(
        project(Some("HTTPS://github.com/Krakaw/fowner")).get_github_api_url().unwrap(),
        "https://api.github.com/repos/Krakaw/fowner"
    );
}

#[test]
fn github_from_project() {
    let github = Github::try_from(&project(Some("https://github.com/Krakaw/fowner.git"))).unwrap();
    assert_eq!(github.api_url, "https://api.github.com/repos/Krakaw/fowner");
    assert_eq!(github.api_token, Some("abc".to_string()));
    assert_eq!(github.authorization(), Some("token abc".to_string()));
    assert_eq!(
        github.pulls_url("a69560db7e8f23e371ed384203e55d6a031cb3dc"),
        "https://api.github.com/repos/Krakaw/fowner/commits/a69560db7e8f23e371ed384203e55d6a031cb3dc/pulls"
    );
    assert!(Github::try_from(&project(None)).is_err());
    let open = Github::new("u".to_string(), None);
    assert_eq!(open.authorization(), None);
}
