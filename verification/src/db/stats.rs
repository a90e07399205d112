//! How contributions are counted over time.

use crate::db::{first_index, lemma_first_index_is, lemma_first_index_none};
use crate::text::{eq_ignore_case, not_after, same_ignoring_case, text_le};
use vstd::prelude::*;

verus! {

/// The span of time over which commits are counted together.
#[derive(Debug, Clone, Copy, PartialEq, Eq, Structural)]
pub enum TimeBreakdown {
    Daily,
    Monthly,
    Yearly,
}

/// The number of commits of an owner in one span of time.
#[derive(Debug, Clone, PartialEq, Eq)]
pub struct ContributionCount {
    pub commit_count: u64,
    pub commit_time: String,
}

/// The commits of an owner, span by span.
#[derive(Debug, Clone, PartialEq, Eq)]
pub struct Contributions {
    pub owner_id: u32,
    pub owner_handle: String,
    pub total_contributions: usize,
    pub contribution_counts: Vec<ContributionCount>,
}

/// The span that a word names, whatever the case of its letters: a month for
/// `monthly`, a year for `yearly`, and a day for every other word.
pub open spec fn breakdown_named(word: Seq<char>) -> TimeBreakdown {
    if eq_ignore_case(word, "monthly"@) {
        TimeBreakdown::Monthly
    } else if eq_ignore_case(word, "yearly"@) {
        TimeBreakdown::Yearly
    } else {
        TimeBreakdown::Daily
    }
}

impl TimeBreakdown {
    /// The span that a word names.
    pub fn from(t: String) -> (r: TimeBreakdown)
        ensures
            r == breakdown_named(t@),
    {
        if same_ignoring_case(t.as_str(), "monthly") {
            TimeBreakdown::Monthly
        } else if same_ignoring_case(t.as_str(), "yearly") {
            TimeBreakdown::Yearly
        } else {
            TimeBreakdown::Daily
        }
    }

    /// How the start of a span is written: the format of a day, a month or a year.
    pub fn date_format(&self) -> (r: String)
        ensures
            r@ == match self {
                TimeBreakdown::Daily => "%Y-%m-%d"@,
                TimeBreakdown::Monthly => "%Y-%m"@,
                TimeBreakdown::Yearly => "%Y"@,
            },
    {
        match self {
            TimeBreakdown::Daily => String::from_str("%Y-%m-%d"),
            TimeBreakdown::Monthly => String::from_str("%Y-%m"),
            TimeBreakdown::Yearly => String::from_str("%Y"),
        }
    }

    /// The first day of a span, from how the span is written: the text
    /// itself for a day, with `-01` behind it for a month and `-01-01` for a
    /// year.
    pub fn first_day(&self, span: &str) -> (r: String)
        ensures
            r@ == match self {
                TimeBreakdown::Daily => span@,
                TimeBreakdown::Monthly => span@ + "-01"@,
                TimeBreakdown::Yearly => span@ + "-01-01"@,
            },
    {
        match self {
            TimeBreakdown::Daily => String::from_str(span),
            TimeBreakdown::Monthly => String::from_str(span).concat("-01"),
            TimeBreakdown::Yearly => String::from_str(span).concat("-01-01"),
        }
    }
}

impl Default for TimeBreakdown {
    fn default() -> (r: TimeBreakdown)
        ensures
            r == TimeBreakdown::Daily,
    {
        TimeBreakdown::Daily
    }
}

/// The commits of one owner in one project in one span of time, as they are
/// counted in the store.
#[derive(Debug, Clone, PartialEq, Eq)]
pub struct ContributionRow {
    pub project_id: u32,
    pub project_name: String,
    pub owner_id: u32,
    pub owner_handle: String,
    /// The span, written in the format of the breakdown.
    pub commit_time: String,
    pub commit_count: u64,
}

/// The contributions to one project, owner by owner, with the first days of
/// the first and of the last span in which there were any.
#[derive(Debug, Clone, PartialEq, Eq)]
pub struct ContributionResponse {
    pub project_id: u32,
    pub project_name: String,
    pub start: String,
    pub end: String,
    pub contributions: Vec<Contributions>,
}

pub struct CountView {
    pub commit_count: u64,
    pub commit_time: Seq<char>,
}

pub struct ContributionsView {
    pub owner_id: u32,
    pub owner_handle: Seq<char>,
    pub total_contributions: usize,
    pub contribution_counts: Seq<CountView>,
}

pub struct ResponseView {
    pub project_id: u32,
    pub project_name: Seq<char>,
    pub start: Seq<char>,
    pub end: Seq<char>,
    pub contributions: Seq<ContributionsView>,
}

pub struct RowView {
    pub project_id: u32,
    pub project_name: Seq<char>,
    pub owner_id: u32,
    pub owner_handle: Seq<char>,
    pub commit_time: Seq<char>,
    pub commit_count: u64,
}

impl View for ContributionCount {
    type V = CountView;

    open spec fn view(&self) -> CountView {
        CountView { commit_count: self.commit_count, commit_time: self.commit_time@ }
    }
}

pub open spec fn count_views(v: Seq<ContributionCount>) -> Seq<CountView> {
    Seq::new(v.len(), |i: int| v[i]@)
}

impl View for Contributions {
    type V = ContributionsView;

    open spec fn view(&self) -> ContributionsView {
        ContributionsView {
            owner_id: self.owner_id,
            owner_handle: self.owner_handle@,
            total_contributions: self.total_contributions,
            contribution_counts: count_views(self.contribution_counts@),
        }
    }
}

pub open spec fn contributions_views(v: Seq<Contributions>) -> Seq<ContributionsView> {
    Seq::new(v.len(), |i: int| v[i]@)
}

impl View for ContributionResponse {
    type V = ResponseView;

    open spec fn view(&self) -> ResponseView {
        ResponseView {
            project_id: self.project_id,
            project_name: self.project_name@,
            start: self.start@,
            end: self.end@,
            contributions: contributions_views(self.contributions@),
        }
    }
}

pub open spec fn response_views(v: Seq<ContributionResponse>) -> Seq<ResponseView> {
    Seq::new(v.len(), |i: int| v[i]@)
}

impl View for ContributionRow {
    type V = RowView;

    open spec fn view(&self) -> RowView {
        RowView {
            project_id: self.project_id,
            project_name: self.project_name@,
            owner_id: self.owner_id,
            owner_handle: self.owner_handle@,
            commit_time: self.commit_time@,
            commit_count: self.commit_count,
        }
    }
}

pub open spec fn counted_views(v: Seq<ContributionRow>) -> Seq<RowView> {
    Seq::new(v.len(), |i: int| v[i]@)
}

/// The first day of a span, from how the span is written.
pub open spec fn first_day_of(breakdown: TimeBreakdown, span: Seq<char>) -> Seq<char> {
    match breakdown {
        TimeBreakdown::Daily => span,
        TimeBreakdown::Monthly => span + "-01"@,
        TimeBreakdown::Yearly => span + "-01-01"@,
    }
}

/// Holds of the contributions to project `id`.
pub open spec fn to_project(id: u32) -> spec_fn(ResponseView) -> bool {
    |r: ResponseView| r.project_id == id
}

/// Holds of the contributions of owner `id`.
pub open spec fn of_owner(id: u32) -> spec_fn(ContributionsView) -> bool {
    |c: ContributionsView| c.owner_id == id
}

/// The sum of a total and a count, as far as it can be held.
pub open spec fn total_with(total: usize, count: u64) -> usize {
    if total + count <= usize::MAX {
        (total + count) as usize
    } else {
        usize::MAX
    }
}

/// The contributions of the owners of one project with one more row counted.
pub open spec fn with_count(owners: Seq<ContributionsView>, row: RowView) -> Seq<
    ContributionsView,
> {
    let known = match first_index(owners, of_owner(row.owner_id)) {
        Some(_) => owners,
        None => owners.push(
            ContributionsView {
                owner_id: row.owner_id,
                owner_handle: row.owner_handle,
                total_contributions: 0,
                contribution_counts: Seq::empty(),
            },
        ),
    };
    let at = match first_index(owners, of_owner(row.owner_id)) {
        Some(i) => i,
        None => owners.len() as int,
    };
    known.update(
        at,
        ContributionsView {
            total_contributions: total_with(known[at].total_contributions, row.commit_count),
            contribution_counts: known[at].contribution_counts.push(
                CountView { commit_count: row.commit_count, commit_time: row.commit_time },
            ),
            ..known[at]
        },
    )
}

/// The contributions with one more row counted. A project is entered when
/// its first row comes, and an owner of a project likewise; the last day of
/// a project moves on where the row's day comes after it.
pub open spec fn with_row(all: Seq<ResponseView>, row: RowView, breakdown: TimeBreakdown) -> Seq<
    ResponseView,
> {
    let day = first_day_of(breakdown, row.commit_time);
    let known = match first_index(all, to_project(row.project_id)) {
        Some(_) => all,
        None => all.push(
            ResponseView {
                project_id: row.project_id,
                project_name: row.project_name,
                start: day,
                end: day,
                contributions: Seq::empty(),
            },
        ),
    };
    let at = match first_index(all, to_project(row.project_id)) {
        Some(i) => i,
        None => all.len() as int,
    };
    known.update(
        at,
        ResponseView {
            end: if text_le(day, known[at].end) {
                known[at].end
            } else {
                day
            },
            contributions: with_count(known[at].contributions, row),
            ..known[at]
        },
    )
}

/// The contributions that the rows add up to, row by row.
pub open spec fn contributions_of(rows: Seq<RowView>, breakdown: TimeBreakdown) -> Seq<
    ResponseView,
>
    decreases rows.len(),
{
    if rows.len() == 0 {
        Seq::empty()
    } else {
        with_row(contributions_of(rows.drop_last(), breakdown), rows.last(), breakdown)
    }
}

fn copy_counts(v: &Vec<ContributionCount>) -> (r: Vec<ContributionCount>)
    ensures
        count_views(r@) == count_views(v@),
{
    let mut out: Vec<ContributionCount> = Vec::new();
    let mut i: usize = 0;
    while i < v.len()
        invariant
            i <= v.len(),
            count_views(out@) == count_views(v@).take(i as int),
        decreases v.len() - i,
    {
        let ghost before = count_views(out@);
        out.push(
            ContributionCount {
                commit_count: v[i].commit_count,
                commit_time: v[i].commit_time.clone(),
            },
        );
        assert(count_views(out@) =~= before.push(v@[i as int]@));
        assert(count_views(v@).take(i as int + 1) =~= before.push(v@[i as int]@));
        i += 1;
    }
    assert(count_views(v@).take(i as int) =~= count_views(v@));
    out
}

fn copy_contributions(v: &Vec<Contributions>) -> (r: Vec<Contributions>)
    ensures
        contributions_views(r@) == contributions_views(v@),
{
    let mut out: Vec<Contributions> = Vec::new();
    let mut i: usize = 0;
    while i < v.len()
        invariant
            i <= v.len(),
            contributions_views(out@) == contributions_views(v@).take(i as int),
        decreases v.len() - i,
    {
        let ghost before = contributions_views(out@);
        out.push(
            Contributions {
                owner_id: v[i].owner_id,
                owner_handle: v[i].owner_handle.clone(),
                total_contributions: v[i].total_contributions,
                contribution_counts: copy_counts(&v[i].contribution_counts),
            },
        );
        assert(contributions_views(out@) =~= before.push(v@[i as int]@));
        assert(contributions_views(v@).take(i as int + 1) =~= before.push(v@[i as int]@));
        i += 1;
    }
    assert(contributions_views(v@).take(i as int) =~= contributions_views(v@));
    out
}

/// The contributions of the owners of one project with one more row counted.
fn count_row(owners: &Vec<Contributions>, row: &ContributionRow) -> (r: Vec<Contributions>)
    ensures
        contributions_views(r@) == with_count(contributions_views(owners@), row@),
{
    let ghost views = contributions_views(owners@);
    let ghost p = of_owner(row.owner_id);
    let mut out = copy_contributions(owners);
    let mut at: usize = 0;
    while at < out.len() && out[at].owner_id != row.owner_id
        invariant
            at <= out.len(),
            contributions_views(out@) == views,
            p == of_owner(row.owner_id),
            forall|j: int| 0 <= j < at ==> !p(views[j]),
        decreases out.len() - at,
    {
        assert(views[at as int] == out@[at as int]@);
        at += 1;
    }
    if at == out.len() {
        proof {
            lemma_first_index_none(views, p);
        }
        out.push(
            Contributions {
                owner_id: row.owner_id,
                owner_handle: row.owner_handle.clone(),
                total_contributions: 0,
                contribution_counts: Vec::new(),
            },
        );
        assert(out@[at as int]@.contribution_counts =~= Seq::empty());
    } else {
        assert(views[at as int] == out@[at as int]@);
        proof {
            lemma_first_index_is(views, p, at as int);
        }
    }
    let ghost known = contributions_views(out@);
    assert(known[at as int] == out@[at as int]@);
    let mut counts = copy_counts(&out[at].contribution_counts);
    let ghost had = count_views(counts@);
    counts.push(
        ContributionCount { commit_count: row.commit_count, commit_time: row.commit_time.clone() },
    );
    assert(count_views(counts@) =~= had.push(
        CountView { commit_count: row.commit_count, commit_time: row.commit_time@ },
    ));
    let total = out[at].total_contributions;
    let sum: usize = if row.commit_count > usize::MAX as u64 || total > usize::MAX
        - row.commit_count as usize {
        usize::MAX
    } else {
        total + row.commit_count as usize
    };
    let entry = Contributions {
        owner_id: out[at].owner_id,
        owner_handle: out[at].owner_handle.clone(),
        total_contributions: sum,
        contribution_counts: counts,
    };
    out.set(at, entry);
    assert(contributions_views(out@) =~= with_count(views, row@));
    out
}

/// The contributions that the rows add up to, project by project and owner
/// by owner, each in the order in which its first row comes.
pub fn contributions_per_owner(rows: &Vec<ContributionRow>, time_breakdown: Option<TimeBreakdown>)
    -> (r: Vec<ContributionResponse>)
    ensures
        response_views(r@) == contributions_of(
            counted_views(rows@),
            match time_breakdown {
                Some(b) => b,
                None => TimeBreakdown::Daily,
            },
        ),
{
    let breakdown = match time_breakdown {
        Some(b) => b,
        None => TimeBreakdown::Daily,
    };
    let ghost all = counted_views(rows@);
    let mut out: Vec<ContributionResponse> = Vec::new();
    let mut i: usize = 0;
    assert(all.take(0) =~= Seq::empty());
    assert(response_views(out@) =~= Seq::empty());
    while i < rows.len()
        invariant
            i <= rows.len(),
            all == counted_views(rows@),
            response_views(out@) == contributions_of(all.take(i as int), breakdown),
        decreases rows.len() - i,
    {
        let ghost before = response_views(out@);
        let ghost taken = all.take(i as int + 1);
        assert(taken.drop_last() =~= all.take(i as int));
        assert(taken.last() == rows@[i as int]@);
        let row = &rows[i];
        let ghost p = to_project(row.project_id);
        let day = breakdown.first_day(row.commit_time.as_str());
        let mut at: usize = 0;
        while at < out.len() && out[at].project_id != row.project_id
            invariant
                at <= out.len(),
                response_views(out@) == before,
                p == to_project(row.project_id),
                forall|j: int| 0 <= j < at ==> !p(before[j]),
            decreases out.len() - at,
        {
            assert(before[at as int] == out@[at as int]@);
            at += 1;
        }
        if at == out.len() {
            proof {
                lemma_first_index_none(before, p);
            }
            out.push(
                ContributionResponse {
                    project_id: row.project_id,
                    project_name: row.project_name.clone(),
                    start: day.clone(),
                    end: day.clone(),
                    contributions: Vec::new(),
                },
            );
            assert(out@[at as int]@.contributions =~= Seq::empty());
        } else {
            assert(before[at as int] == out@[at as int]@);
            proof {
                lemma_first_index_is(before, p, at as int);
            }
        }
        let ghost known = response_views(out@);
        assert(known[at as int] == out@[at as int]@);
        let end = if not_after(day.as_str(), out[at].end.as_str()) {
            out[at].end.clone()
        } else {
            day
        };
        let entry = ContributionResponse {
            project_id: out[at].project_id,
            project_name: out[at].project_name.clone(),
            start: out[at].start.clone(),
            end,
            contributions: count_row(&out[at].contributions, row),
        };
        out.set(at, entry);
        assert(response_views(out@) =~= with_row(before, rows@[i as int]@, breakdown));
        i += 1;
    }
    assert(all.take(i as int) =~= all);
    out
}

} // verus!
