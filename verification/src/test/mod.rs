//! Helpers that set up rows for trials of the library.

pub mod builders;
