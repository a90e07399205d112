//! The feature file of a project: one line per file, `path|feature,feature`,
//! sorted by path. Features listed there are attached to the files before
//! the file is written anew from the store.

use crate::db::models::feature::NewFeature;
use crate::db::models::file::{file_of_project, File, FileView, NewFile};
use crate::db::{first_index, lemma_first_index, EntityStore, StoreView};
use crate::errors::FownerError;
use crate::text::{
    chars_of, join, joined, lemma_split_some, lemma_text_le_total, lemma_text_le_transitive,
    not_after, piece_views, split, split_on, string_of, string_views, text_le, texts_of, trim,
    trimmed,
};
use vstd::prelude::*;

verus! {

/// A file and the names of its features.
#[derive(Clone, Debug, PartialEq, Eq)]
pub struct FeatureRow {
    pub path: String,
    pub features: Vec<String>,
}

pub struct FeatureRowView {
    pub path: Seq<char>,
    pub features: Seq<Seq<char>>,
}

impl View for FeatureRow {
    type V = FeatureRowView;

    open spec fn view(&self) -> FeatureRowView {
        FeatureRowView { path: self.path@, features: string_views(self.features@) }
    }
}

pub open spec fn row_views(rows: Seq<FeatureRow>) -> Seq<FeatureRowView> {
    Seq::new(rows.len(), |i: int| rows[i]@)
}

/// The row that a line of the feature file stands for: the path before the
/// first bar, and the names between the commas of what follows it up to the
/// next bar. A line without a bar names a path without features.
pub open spec fn row_of_line(line: Seq<char>) -> FeatureRowView {
    let parts = split(line, '|');
    FeatureRowView {
        path: parts[0],
        features: if parts.len() >= 2 {
            split(parts[1], ',')
        } else {
            Seq::empty()
        },
    }
}

/// The rows that the lines stand for; a line that is blank stands for none.
pub open spec fn rows_of_lines(lines: Seq<Seq<char>>) -> Seq<FeatureRowView>
    decreases lines.len(),
{
    if lines.len() == 0 {
        Seq::empty()
    } else if trim(lines.last()).len() == 0 {
        rows_of_lines(lines.drop_last())
    } else {
        rows_of_lines(lines.drop_last()).push(row_of_line(trim(lines.last())))
    }
}

/// The rows of a feature file.
pub open spec fn rows_of(contents: Seq<char>) -> Seq<FeatureRowView> {
    rows_of_lines(split(contents, '\n'))
}

/// The number of feature names in the rows.
pub open spec fn names_listed(rows: Seq<FeatureRowView>) -> nat
    decreases rows.len(),
{
    if rows.len() == 0 {
        0
    } else {
        names_listed(rows.drop_last()) + rows.last().features.len()
    }
}

/// Where a row goes into rows that are in order: before the first row whose
/// path comes after its own.
pub open spec fn comes_after(path: Seq<char>) -> spec_fn(FeatureRowView) -> bool {
    |r: FeatureRowView| !text_le(r.path, path)
}

pub open spec fn place_of(rows: Seq<FeatureRowView>, row: FeatureRowView) -> int {
    match first_index(rows, comes_after(row.path)) {
        Some(i) => i,
        None => rows.len() as int,
    }
}

/// The rows in the order of their paths; rows of one path keep their order.
pub open spec fn in_order(rows: Seq<FeatureRowView>) -> Seq<FeatureRowView>
    decreases rows.len(),
{
    if rows.len() == 0 {
        Seq::empty()
    } else {
        let before = in_order(rows.drop_last());
        before.insert(place_of(before, rows.last()), rows.last())
    }
}

/// The rows are in the order of their paths.
pub open spec fn ordered(rows: Seq<FeatureRowView>) -> bool {
    forall|i: int, j: int| 0 <= i < j < rows.len() ==> text_le(rows[i].path, rows[j].path)
}

/// Putting rows in order gives the same rows, in the order of their paths.
pub proof fn rows_in_order_are_sorted(rows: Seq<FeatureRowView>)
    ensures
        ordered(in_order(rows)),
        in_order(rows).to_multiset() == rows.to_multiset(),
        in_order(rows).len() == rows.len(),
    decreases rows.len(),
{
    broadcast use vstd::seq_lib::to_multiset_insert, vstd::seq_lib::to_multiset_build;

    if rows.len() > 0 {
        let before = in_order(rows.drop_last());
        let row = rows.last();
        rows_in_order_are_sorted(rows.drop_last());
        lemma_first_index(before, comes_after(row.path));
        let at = place_of(before, row);
        let after = before.insert(at, row);
        assert(rows.drop_last().push(row) =~= rows);
        assert forall|i: int, j: int| 0 <= i < j < after.len() implies text_le(
            after[i].path,
            after[j].path,
        ) by {
            if j < at {
                assert(after[i] == before[i] && after[j] == before[j]);
            } else if j == at {
                assert(after[i] == before[i]);
                assert(!comes_after(row.path)(before[i]));
            } else if i < at {
                assert(after[i] == before[i] && after[j] == before[j - 1]);
            } else if i == at {
                assert(after[j] == before[j - 1]);
                assert(comes_after(row.path)(before[at]));
                lemma_text_le_total(before[at].path, row.path);
                if j - 1 > at {
                    assert(text_le(before[at].path, before[j - 1].path));
                    lemma_text_le_transitive(row.path, before[at].path, before[j - 1].path);
                }
            } else {
                assert(after[i] == before[i - 1] && after[j] == before[j - 1]);
            }
        }
    } else {
        assert(in_order(rows) =~= rows);
    }
}

/// How a row is written: the path, a bar, and the names with commas between them.
pub open spec fn line_of(row: FeatureRowView) -> Seq<char> {
    row.path + "|"@ + join(row.features, ","@)
}

pub open spec fn lines_of(rows: Seq<FeatureRowView>) -> Seq<Seq<char>> {
    Seq::new(rows.len(), |i: int| line_of(rows[i]))
}

/// The feature file that lists the rows as they stand.
pub open spec fn rendered(rows: Seq<FeatureRowView>) -> Seq<char> {
    join(lines_of(rows), "\n"@)
}

/// The rows that the store lists for the files: each file with the names of
/// the features it carries.
pub open spec fn listed(s: StoreView, files: Seq<FileView>) -> Seq<FeatureRowView> {
    Seq::new(
        files.len(),
        |i: int| FeatureRowView { path: files[i].path, features: s.feature_names_of(files[i].id) },
    )
}

impl StoreView {
    /// The store after a row of the feature file was taken: the file is
    /// resolved, and so is each of the features; the file then carries them,
    /// unless it is excluded from tagging.
    pub open spec fn tag_listed(self, project_id: u32, row: FeatureRowView) -> StoreView {
        let resolved = self.resolve_file(project_id, row.path, false);
        let file = resolved.files[resolved.file_at(project_id, row.path).unwrap()];
        if file.no_features {
            resolved.resolve_features(project_id, row.features)
        } else {
            resolved.tag_file(project_id, file.id, row.features)
        }
    }

    /// The store after the rows were taken, in order.
    pub open spec fn tag_all(self, project_id: u32, rows: Seq<FeatureRowView>) -> StoreView
        decreases rows.len(),
    {
        if rows.len() == 0 {
            self
        } else {
            self.tag_all(project_id, rows.drop_last()).tag_listed(project_id, rows.last())
        }
    }

    /// Whether ids are left for as many files and features as the rows name.
    pub open spec fn rows_fit(self, rows: Seq<FeatureRowView>) -> bool {
        self.next_file + rows.len() <= u32::MAX && self.next_feature + names_listed(rows)
            <= u32::MAX
    }
}

impl FeatureRow {
    /// A second copy of the row.
    pub fn duplicate(&self) -> (r: FeatureRow)
        ensures
            r@ == self@,
    {
        FeatureRow { path: self.path.clone(), features: crate::text::copy_texts(&self.features) }
    }
}

/// The rows of a feature file.
pub fn parse_feature_file(contents: &str) -> (r: Vec<FeatureRow>)
    ensures
        row_views(r@) == rows_of(contents@),
{
    let chars = chars_of(contents);
    let lines = split_on(&chars, '\n');
    let ghost all = piece_views(lines@);
    let mut out: Vec<FeatureRow> = Vec::new();
    let mut i: usize = 0;
    assert(all.take(0) =~= Seq::empty());
    assert(row_views(out@) =~= Seq::empty());
    while i < lines.len()
        invariant
            i <= lines.len(),
            all == piece_views(lines@),
            row_views(out@) == rows_of_lines(all.take(i as int)),
        decreases lines.len() - i,
    {
        let ghost before = row_views(out@);
        let ghost taken = all.take(i as int + 1);
        assert(taken.drop_last() =~= all.take(i as int));
        assert(taken.last() == lines@[i as int]@);
        let line = trimmed(&lines[i]);
        if line.len() > 0 {
            let parts = split_on(&line, '|');
            proof {
                lemma_split_some(line@, '|');
            }
            assert(piece_views(parts@)[0] == parts@[0]@);
            let features = if parts.len() >= 2 {
                assert(piece_views(parts@)[1] == parts@[1]@);
                texts_of(&split_on(&parts[1], ','))
            } else {
                let none: Vec<String> = Vec::new();
                assert(string_views(none@) =~= Seq::empty());
                none
            };
            let row = FeatureRow { path: string_of(&parts[0]), features };
            assert(row@ == row_of_line(line@));
            out.push(row);
            assert(row_views(out@) =~= before.push(row_of_line(line@)));
        }
        i += 1;
    }
    assert(all.take(i as int) =~= all);
    out
}

/// The number of feature names in the rows, as far as it can be counted.
fn count_names(rows: &Vec<FeatureRow>) -> (r: Option<u64>)
    ensures
        match r {
            Some(n) => n == names_listed(row_views(rows@)),
            None => names_listed(row_views(rows@)) > u64::MAX,
        },
{
    let ghost all = row_views(rows@);
    let mut total: u64 = 0;
    let mut i: usize = 0;
    assert(all.take(0) =~= Seq::empty());
    while i < rows.len()
        invariant
            i <= rows.len(),
            all == row_views(rows@),
            total == names_listed(all.take(i as int)),
        decreases rows.len() - i,
    {
        let ghost taken = all.take(i as int + 1);
        assert(taken.drop_last() =~= all.take(i as int));
        assert(taken.last() == rows@[i as int]@);
        match total.checked_add(rows[i].features.len() as u64) {
            Some(sum) => {
                total = sum;
            },
            None => {
                proof {
                    lemma_names_grow(all, i as int + 1);
                }
                return None;
            },
        }
        i += 1;
    }
    assert(all.take(i as int) =~= all);
    Some(total)
}

proof fn lemma_names_grow(rows: Seq<FeatureRowView>, k: int)
    requires
        0 <= k <= rows.len(),
    ensures
        names_listed(rows.take(k)) <= names_listed(rows),
    decreases rows.len() - k,
{
    if k < rows.len() {
        lemma_names_grow(rows, k + 1);
        assert(rows.take(k + 1).drop_last() =~= rows.take(k));
    } else {
        assert(rows.take(k) =~= rows);
    }
}

fn tag_listed(project_id: u32, row: &FeatureRow, store: &mut EntityStore)
    requires
        old(store)@.wf(),
        old(store)@.next_file < u32::MAX,
        old(store)@.next_feature + row.features.len() <= u32::MAX,
    ensures
        final(store)@ == old(store)@.tag_listed(project_id, row@),
        final(store)@.wf(),
        final(store)@.next_file <= old(store)@.next_file + 1,
        final(store)@.next_feature <= old(store)@.next_feature + row.features.len(),
{
    let new_file = NewFile { project_id, path: row.path.clone(), no_features: false };
    let file = match new_file.save(store) {
        Ok(file) => file,
        Err(_) => {
            assert(false);
            return ;
        },
    };
    let ghost resolved = store@;
    let ghost names = string_views(row.features@);
    let mut i: usize = 0;
    assert(names.take(0) =~= Seq::empty());
    while i < row.features.len()
        invariant
            i <= row.features.len(),
            names == string_views(row.features@),
            store@.wf(),
            store@ == if file.no_features {
                resolved.resolve_features(project_id, names.take(i as int))
            } else {
                resolved.tag_file(project_id, file.id, names.take(i as int))
            },
            store@.next_feature <= resolved.next_feature + i,
            resolved.next_feature + row.features.len() <= u32::MAX,
            store@.next_file == resolved.next_file,
        decreases row.features.len() - i,
    {
        let ghost taken = names.take(i as int + 1);
        assert(taken.drop_last() =~= names.take(i as int));
        assert(taken.last() == row.features@[i as int]@);
        let new_feature = NewFeature {
            project_id,
            name: row.features[i].clone(),
            description: None,
        };
        match new_feature.save(store) {
            Ok(feature) => {
                let _ = file.add_feature(feature.id, store);
            },
            Err(_) => {
                assert(false);
            },
        }
        i += 1;
    }
    assert(names.take(i as int) =~= names);
}

/// Takes the rows of a feature file into the store: each file is resolved,
/// each feature is resolved and attached to its file. A file that is
/// excluded from tagging takes no feature; its row is passed over without an
/// error.
///
/// Nothing is stored where ids may run out.
pub fn apply_feature_rows(project_id: u32, rows: &Vec<FeatureRow>, store: &mut EntityStore) -> (r:
    Result<(), FownerError>)
    requires
        old(store)@.wf(),
    ensures
        match r {
            Ok(_) => old(store)@.rows_fit(row_views(rows@)) && final(store)@ == old(store)@.tag_all(project_id, row_views(rows@)),
            Err(e) => !old(store)@.rows_fit(row_views(rows@)) && final(store)@ == old(store)@
                && e is Store,
        },
        final(store)@.wf(),
{
    let ghost before = store@;
    let ghost all = row_views(rows@);
    let names = count_names(rows);
    let fits = match names {
        Some(n) => rows.len() as u64 <= (u32::MAX - store.next_file) as u64 && n <= (u32::MAX
            - store.next_feature) as u64,
        None => false,
    };
    if !fits {
        return Err(FownerError::Store(String::from_str("no id is left")));
    }
    let mut i: usize = 0;
    assert(all.take(0) =~= Seq::empty());
    while i < rows.len()
        invariant
            i <= rows.len(),
            all == row_views(rows@),
            before == old(store)@,
            before.rows_fit(all),
            store@.wf(),
            store@ == before.tag_all(project_id, all.take(i as int)),
            store@.next_file <= before.next_file + i,
            store@.next_feature <= before.next_feature + names_listed(all.take(i as int)),
        decreases rows.len() - i,
    {
        let ghost taken = all.take(i as int + 1);
        assert(taken.drop_last() =~= all.take(i as int));
        assert(taken.last() == rows@[i as int]@);
        proof {
            lemma_names_grow(all, i as int + 1);
        }
        tag_listed(project_id, &rows[i], store);
        i += 1;
    }
    assert(all.take(i as int) =~= all);
    Ok(())
}

/// The rows that the store lists for the files of a project, in the order
/// in which the files were stored.
pub fn feature_rows(project_id: u32, store: &EntityStore) -> (r: Vec<FeatureRow>)
    ensures
        row_views(r@) == listed(store@, store@.files.filter(file_of_project(project_id))),
{
    let files = match File::all(project_id, store) {
        Ok(files) => files,
        Err(_) => Vec::new(),
    };
    let ghost views = store@.files.filter(file_of_project(project_id));
    let mut out: Vec<FeatureRow> = Vec::new();
    let mut i: usize = 0;
    while i < files.len()
        invariant
            i <= files.len(),
            crate::db::file_views(files@) == views,
            row_views(out@) == listed(store@, views).take(i as int),
        decreases files.len() - i,
    {
        let ghost before = row_views(out@);
        assert(views[i as int] == files@[i as int]@);
        let row = FeatureRow {
            path: files[i].path.clone(),
            features: files[i].feature_names(store),
        };
        out.push(row);
        assert(row_views(out@) =~= before.push(listed(store@, views)[i as int]));
        assert(listed(store@, views).take(i as int + 1) =~= before.push(
            listed(store@, views)[i as int],
        ));
        i += 1;
    }
    assert(listed(store@, views).take(i as int) =~= listed(store@, views));
    out
}

/// The rows in the order of their paths; rows of one path keep their order.
pub fn sort_rows(rows: &Vec<FeatureRow>) -> (r: Vec<FeatureRow>)
    ensures
        row_views(r@) == in_order(row_views(rows@)),
{
    let ghost all = row_views(rows@);
    let mut out: Vec<FeatureRow> = Vec::new();
    let mut i: usize = 0;
    assert(all.take(0) =~= Seq::empty());
    assert(row_views(out@) =~= Seq::empty());
    while i < rows.len()
        invariant
            i <= rows.len(),
            all == row_views(rows@),
            row_views(out@) == in_order(all.take(i as int)),
        decreases rows.len() - i,
    {
        let ghost before = row_views(out@);
        let ghost taken = all.take(i as int + 1);
        assert(taken.drop_last() =~= all.take(i as int));
        assert(taken.last() == rows@[i as int]@);
        let ghost p = comes_after(rows@[i as int]@.path);
        let mut at: usize = 0;
        while at < out.len() && not_after(out[at].path.as_str(), rows[i].path.as_str())
            invariant
                at <= out.len(),
                i < rows.len(),
                before == row_views(out@),
                p == comes_after(rows@[i as int]@.path),
                forall|k: int| 0 <= k < at ==> !p(before[k]),
            decreases out.len() - at,
        {
            assert(before[at as int] == out@[at as int]@);
            at += 1;
        }
        proof {
            if at < out.len() {
                assert(before[at as int] == out@[at as int]@);
                crate::db::lemma_first_index_is(before, p, at as int);
            } else {
                crate::db::lemma_first_index_none(before, p);
            }
        }
        let row = rows[i].duplicate();
        out.insert(at, row);
        assert(row_views(out@) =~= before.insert(at as int, rows@[i as int]@));
        i += 1;
    }
    assert(all.take(i as int) =~= all);
    out
}

/// The feature file that lists the rows as they stand.
pub fn render_feature_file(rows: &Vec<FeatureRow>) -> (r: String)
    ensures
        r@ == rendered(row_views(rows@)),
{
    let ghost all = lines_of(row_views(rows@));
    let mut lines: Vec<String> = Vec::new();
    let mut i: usize = 0;
    while i < rows.len()
        invariant
            i <= rows.len(),
            all == lines_of(row_views(rows@)),
            string_views(lines@) == all.take(i as int),
        decreases rows.len() - i,
    {
        let ghost before = string_views(lines@);
        let line = rows[i].path.clone().concat("|").concat(
            joined(&rows[i].features, ",").as_str(),
        );
        assert(line@ == line_of(rows@[i as int]@));
        lines.push(line);
        assert(string_views(lines@) =~= before.push(all[i as int]));
        assert(all.take(i as int + 1) =~= before.push(all[i as int]));
        i += 1;
    }
    assert(all.take(i as int) =~= all);
    joined(&lines, "\n")
}

impl File {
    /// Brings the feature file of a project up to date: the rows of the
    /// file as it is, given by its text, are taken into the store, and the
    /// text of the new file is handed back. It lists every file of the
    /// project with its features, in the order of the paths.
    ///
    /// Nothing is stored where ids may run out.
    pub fn generate_feature_file(project_id: u32, existing_contents: &str, store: &mut EntityStore)
        -> (r: Result<String, FownerError>)
        requires
            old(store)@.wf(),
        ensures
            match r {
                Ok(text) => {
                    &&& old(store)@.rows_fit(rows_of(existing_contents@))
                    &&& final(store)@ == old(store)@.tag_all(
                        project_id,
                        rows_of(existing_contents@),
                    )
                    &&& text@ == rendered(
                        in_order(
                            listed(
                                final(store)@,
                                final(store)@.files.filter(file_of_project(project_id)),
                            ),
                        ),
                    )
                },
                Err(e) => {
                    &&& !old(store)@.rows_fit(rows_of(existing_contents@))
                    &&& final(store)@ == old(store)@
                    &&& e is Store
                },
            },
            final(store)@.wf(),
    {
        let rows = parse_feature_file(existing_contents);
        match apply_feature_rows(project_id, &rows, store) {
            Ok(_) => {},
            Err(e) => {
                return Err(e);
            },
        }
        let listed = feature_rows(project_id, store);
        let sorted = sort_rows(&listed);
        Ok(render_feature_file(&sorted))
    }
}

} // verus!
