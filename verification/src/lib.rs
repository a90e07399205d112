//! Ingestion of a repository's commit history into a normalized record of who
//! touched which file, when, and under which feature tag.

pub mod db;
pub mod errors;
pub mod git;
pub mod pattern;
pub mod server;
pub mod test;
pub mod text;
