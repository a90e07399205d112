//! Builders of stored rows.

pub mod file_builder;
pub mod project_builder;
