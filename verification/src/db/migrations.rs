//! The schema under which the store is kept in SQLite.

use rusqlite_migration::{Migrations, M};
use vstd::prelude::*;

verus! {

/// `rusqlite_migration::Migrations`: a list of steps that bring a database
/// to a schema. Nothing is known of a value but that it is one.
#[verifier::external_type_specification]
#[verifier::external_body]
pub struct ExMigrations<'m>(Migrations<'m>);

/// The commits of the projects.
pub const CREATE_COMMITS: &'static str = r#"
            CREATE TABLE IF NOT EXISTS commits
            (
                id          INTEGER  PRIMARY KEY AUTOINCREMENT,
                owner_id    INTEGER NOT NULL,
                project_id  INTEGER NOT NULL,
                sha         TEXT NOT NULL,
                parent_sha  TEXT NULL,
                description TEXT NULL,
                commit_time INT  NOT NULL,
                created_at  INT  NOT NULL,
                updated_at  INT  NOT NULL,
                CONSTRAINT fk_projects
                    FOREIGN KEY (project_id)
                    REFERENCES projects(id)
                    ON DELETE CASCADE
            );
        "#;

/// One commit per project and sha.
pub const INDEX_COMMITS: &'static str = r#"
            CREATE UNIQUE INDEX idx_commits_project_id_sha ON commits (project_id, sha);
        "#;

/// The features of the projects.
pub const CREATE_FEATURES: &'static str = r#"
            CREATE TABLE IF NOT EXISTS features
            (
                id          INTEGER  PRIMARY KEY AUTOINCREMENT,
                project_id  INTEGER NOT NULL,
                name        TEXT NOT NULL,
                description TEXT NULL,
                created_at  INT  NOT NULL,
                updated_at  INT  NOT NULL,
                CONSTRAINT fk_projects
                    FOREIGN KEY (project_id)
                    REFERENCES projects(id)
                    ON DELETE CASCADE
            );
        "#;

/// The files of the projects.
pub const CREATE_FILES: &'static str = r#"
            CREATE TABLE IF NOT EXISTS files
            (
                id          INTEGER PRIMARY KEY AUTOINCREMENT,
                project_id  INTEGER NOT NULL,
                path        TEXT    NOT NULL,
                no_features INT DEFAULT 0 NOT NULL,
                created_at  INT     NOT NULL,
                updated_at  INT     NOT NULL,
                CONSTRAINT fk_projects
                    FOREIGN KEY (project_id)
                        REFERENCES projects (id)
                        ON DELETE CASCADE
            );
        "#;

/// One file per project and path.
pub const INDEX_FILES: &'static str = r#"
            CREATE UNIQUE INDEX idx_files_project_id_path ON files (project_id, path);
        "#;

/// Who touched which file, and when.
pub const CREATE_FILE_OWNERS: &'static str = r#"
            CREATE TABLE IF NOT EXISTS file_owners
            (
                file_id     INTEGER,
                owner_id    INTEGER,
                action_date INT NOT NULL,
                sha         TEXT NOT NULL,
                created_at  INT NOT NULL,
                updated_at  INT NOT NULL,
                CONSTRAINT fk_files
                    FOREIGN KEY (file_id)
                    REFERENCES files(id)
                    ON DELETE CASCADE
            );
        "#;

/// Which file carries which feature.
pub const CREATE_FILE_FEATURES: &'static str = r#"
            CREATE TABLE IF NOT EXISTS file_features
            (
                file_id     INTEGER ,
                feature_id  INTEGER ,
                created_at  INT NOT NULL,
                updated_at  INT NOT NULL,
                CONSTRAINT fk_files
                    FOREIGN KEY (file_id)
                    REFERENCES files(id)
                    ON DELETE CASCADE
            );
        "#;

/// A file carries a feature once.
pub const INDEX_FILE_FEATURES: &'static str = r#"
            CREATE UNIQUE INDEX idx_feature_files_file_id_feature_id ON file_features (file_id, feature_id);
        "#;

/// The owners.
pub const CREATE_OWNERS: &'static str = r#"
            CREATE TABLE IF NOT EXISTS owners
            (
                id               INTEGER PRIMARY KEY AUTOINCREMENT,
                handle           TEXT    NOT NULL UNIQUE,
                name             TEXT    NULL,
                primary_owner_id INTEGER NULL,
                created_at       INT     NOT NULL,
                updated_at       INT     NOT NULL
            );
        "#;

/// The projects.
pub const CREATE_PROJECTS: &'static str = r#"
            CREATE TABLE IF NOT EXISTS projects
            (
                id                  INTEGER PRIMARY KEY AUTOINCREMENT,
                path                TEXT NOT NULL UNIQUE,
                name                TEXT NULL,
                repo_url            TEXT NULL,
                github_api_token    TEXT NULL,
                github_labels_only  INT DEFAULT 0 NOT NULL,
                created_at          INT NOT NULL,
                updated_at          INT NOT NULL
            );
        "#;

/// Which file was changed in which commit.
pub const CREATE_FILE_COMMITS: &'static str = r#"
            CREATE TABLE IF NOT EXISTS file_commits
            (
                file_id     INTEGER,
                commit_id   INTEGER,
                CONSTRAINT fk_files
                    FOREIGN KEY (file_id)
                    REFERENCES files(id)
                    ON DELETE CASCADE

            );
        "#;

/// A file is linked to a commit once.
pub const INDEX_FILE_COMMITS: &'static str = r#"
            CREATE UNIQUE INDEX idx_file_commits_file_id_commit_id ON file_commits (file_id, commit_id);
        "#;

/// The statements that set up the schema, in the order in which they are to run.
pub fn statements() -> (r: Vec<&'static str>)
    ensures
        r@ == seq![
            CREATE_COMMITS,
            INDEX_COMMITS,
            CREATE_FEATURES,
            CREATE_FILES,
            INDEX_FILES,
            CREATE_FILE_OWNERS,
            CREATE_FILE_FEATURES,
            INDEX_FILE_FEATURES,
            CREATE_OWNERS,
            CREATE_PROJECTS,
            CREATE_FILE_COMMITS,
            INDEX_FILE_COMMITS,
        ],
{
    let mut out: Vec<&'static str> = Vec::new();
    out.push(CREATE_COMMITS);
    out.push(INDEX_COMMITS);
    out.push(CREATE_FEATURES);
    out.push(CREATE_FILES);
    out.push(INDEX_FILES);
    out.push(CREATE_FILE_OWNERS);
    out.push(CREATE_FILE_FEATURES);
    out.push(INDEX_FILE_FEATURES);
    out.push(CREATE_OWNERS);
    out.push(CREATE_PROJECTS);
    out.push(CREATE_FILE_COMMITS);
    out.push(INDEX_FILE_COMMITS);
    assert(out@ =~= seq![
        CREATE_COMMITS,
        INDEX_COMMITS,
        CREATE_FEATURES,
        CREATE_FILES,
        INDEX_FILES,
        CREATE_FILE_OWNERS,
        CREATE_FILE_FEATURES,
        INDEX_FILE_FEATURES,
        CREATE_OWNERS,
        CREATE_PROJECTS,
        CREATE_FILE_COMMITS,
        INDEX_FILE_COMMITS,
    ]);
    out
}

/// The statements of the steps that a set of migrations holds, in the order
/// of the steps: for each step the SQL that `M::up` was given for it.
pub uninterp spec fn up_statements(migrations: Migrations<'static>) -> Seq<Seq<char>>;

/// The texts of the statements.
pub open spec fn statement_texts(statements: Seq<&'static str>) -> Seq<Seq<char>> {
    Seq::new(statements.len(), |i: int| statements[i]@)
}

/// The statements of the schema, in the order in which they are to run: each
/// table, and behind it the index that keeps its rows unique.
pub open spec fn schema() -> Seq<Seq<char>> {
    seq![
        CREATE_COMMITS@,
        INDEX_COMMITS@,
        CREATE_FEATURES@,
        CREATE_FILES@,
        INDEX_FILES@,
        CREATE_FILE_OWNERS@,
        CREATE_FILE_FEATURES@,
        INDEX_FILE_FEATURES@,
        CREATE_OWNERS@,
        CREATE_PROJECTS@,
        CREATE_FILE_COMMITS@,
        INDEX_FILE_COMMITS@,
    ]
}

/// Hands the statements to `rusqlite_migration::Migrations::new`, each as a
/// step of its own made by `M::up`. Claimed: the set that comes back holds
/// one step per statement, in the order given, each with that statement as
/// the SQL that brings the database up.
#[verifier::external_body]
fn steps(statements: Vec<&'static str>) -> (r: Migrations<'static>)
    ensures
        up_statements(r) == statement_texts(statements@),
{
    Migrations::new(statements.into_iter().map(M::up).collect())
}

/// The migrations that bring a database to the schema: one step per
/// statement of the schema, in order.
pub fn migrations() -> (r: Migrations<'static>)
    ensures
        up_statements(r) == schema(),
{
    let all = statements();
    assert(statement_texts(all@) =~= schema());
    steps(all)
}

} // verus!
