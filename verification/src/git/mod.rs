//! The commit log: how it is asked for, and how it is read.

pub mod github;
pub mod history;
pub mod manager;
pub mod repo;
