//! The rows of the store, one module per kind.

pub mod commit;
pub mod feature;
pub mod file;
pub mod file_commit;
pub mod file_feature;
pub mod file_owner;
pub mod owner;
pub mod project;
