//! Pages and their order.

use crate::text::same_text;
use vstd::prelude::*;

verus! {

/// The direction in which a list is sorted.
#[derive(Debug, Clone, Copy, PartialEq, Eq, Structural)]
pub enum SortDir {
    Asc,
    Desc,
}

/// The page of a list that is asked for, and how the list is sorted.
#[derive(Debug, Clone)]
pub struct Paging {
    pub limit: u32,
    pub offset: u32,
    pub total: i64,
    pub sort: Option<String>,
    pub sort_dir: Option<SortDir>,
}

/// The direction that a word names: descending for `Desc` and `desc`,
/// ascending for every other word.
pub open spec fn direction_named(dir: Seq<char>) -> SortDir {
    if dir == "Desc"@ || dir == "desc"@ {
        SortDir::Desc
    } else {
        SortDir::Asc
    }
}

impl SortDir {
    /// The direction that a word names.
    pub fn from(dir: &str) -> (r: SortDir)
        ensures
            r == direction_named(dir@),
    {
        if same_text(dir, "Desc") || same_text(dir, "desc") {
            SortDir::Desc
        } else {
            SortDir::Asc
        }
    }

    /// The name of the direction.
    pub fn name(&self) -> (r: String)
        ensures
            r@ == match self {
                SortDir::Asc => "Asc"@,
                SortDir::Desc => "Desc"@,
            },
    {
        match self {
            SortDir::Asc => String::from_str("Asc"),
            SortDir::Desc => String::from_str("Desc"),
        }
    }

    /// The word for the direction in a query.
    pub fn to_sql(&self) -> (r: String)
        ensures
            r@ == match self {
                SortDir::Asc => "ASC"@,
                SortDir::Desc => "DESC"@,
            },
    {
        match self {
            SortDir::Asc => String::from_str("ASC"),
            SortDir::Desc => String::from_str("DESC"),
        }
    }
}

impl Default for SortDir {
    fn default() -> (r: SortDir)
        ensures
            r == SortDir::Desc,
    {
        SortDir::Desc
    }
}

/// The number of rows on a page where the request names none.
pub fn missing_limit() -> (r: u32)
    ensures
        r == 50,
{
    50
}

impl Paging {
    /// The page that a request without any wish asks for: the first rows, as
    /// many as `missing_limit` says.
    pub fn first_page() -> (r: Paging)
        ensures
            r.limit == 50,
            r.offset == 0,
            r.total == 0,
            r.sort is None,
            r.sort_dir is None,
    {
        Paging { limit: missing_limit(), offset: 0, total: 0, sort: None, sort_dir: None }
    }
}

} // verus!
