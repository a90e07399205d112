//! What requests for lists of rows carry.

pub mod paging;
