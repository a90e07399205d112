//! The commit log as text, and the parser that turns it into records.
//!
//! The log tool writes one block per commit, newest first: a separator line,
//! then author, commit id, parent ids, timestamp and summary on a line each,
//! then the paths the commit changed, closed by a blank line.

use crate::errors::FownerError;
use crate::pattern::{first_group, regex_compiles, regex_first_group};
use crate::text::{
    chars_of, decimal, is_whitespace, option_text, option_texts, parse_decimal, piece_views, split,
    split_on, trim_end, trim_start,
    string_of, string_views, texts_of, trim, trimmed,
};
use vstd::prelude::*;

verus! {

/// Finds the list of feature names that may close a summary: `[a, b]` at its end.
pub const FEATURE_PATTERN: &'static str = r"\[([\w ,-]+)\]$";

/// One commit as the log reports it.
#[derive(Clone, Debug, Default)]
pub struct GitHistory {
    pub handle: String,
    pub sha: String,
    /// The ids of the parents in the order of the log; `None` for a commit without parents.
    pub parent_sha: Option<Vec<String>>,
    pub timestamp: usize,
    pub summary: String,
    pub files: Vec<String>,
    pub features: Vec<String>,
}

pub struct GitHistoryView {
    pub handle: Seq<char>,
    pub sha: Seq<char>,
    pub parent_sha: Option<Seq<Seq<char>>>,
    pub timestamp: usize,
    pub summary: Seq<char>,
    pub files: Seq<Seq<char>>,
    pub features: Seq<Seq<char>>,
}

impl View for GitHistory {
    type V = GitHistoryView;

    open spec fn view(&self) -> GitHistoryView {
        GitHistoryView {
            handle: self.handle@,
            sha: self.sha@,
            parent_sha: option_texts(self.parent_sha),
            timestamp: self.timestamp,
            summary: self.summary@,
            files: string_views(self.files@),
            features: string_views(self.features@),
        }
    }
}

impl GitHistoryView {
    /// The parent ids as a list: empty for a commit without parents.
    pub open spec fn parent_ids(self) -> Seq<Seq<char>> {
        match self.parent_sha {
            Some(ids) => ids,
            None => Seq::empty(),
        }
    }
}

pub open spec fn history_views(v: Seq<GitHistory>) -> Seq<GitHistoryView> {
    Seq::new(v.len(), |i: int| v[i]@)
}

/// The field that the parser expects next.
#[derive(Clone, Copy, Debug, PartialEq, Eq)]
pub enum GitState {
    Handle,
    Sha,
    ParentSha,
    Timestamp,
    Summary,
    Files,
}

/// Why a log is refused.
pub enum ParseFailure {
    /// The regex engine rejects the feature pattern.
    Pattern,
    /// A timestamp field, given here, is no decimal numeral.
    Timestamp(Seq<char>),
}

/// The parser between two lines: the field it waits for, the record in
/// progress, and the records already closed, newest first.
pub struct ParserView {
    pub state: GitState,
    pub row: GitHistoryView,
    pub history: Seq<GitHistoryView>,
}

pub open spec fn separator() -> Seq<char> {
    seq!['-', '-', '-']
}

pub open spec fn blank_row() -> GitHistoryView {
    GitHistoryView {
        handle: Seq::empty(),
        sha: Seq::empty(),
        parent_sha: None,
        timestamp: 0,
        summary: Seq::empty(),
        files: Seq::empty(),
        features: Seq::empty(),
    }
}

pub open spec fn start() -> ParserView {
    ParserView { state: GitState::Handle, row: blank_row(), history: Seq::empty() }
}

/// The parents that a parent field names: none for an empty field, else the
/// ids between its spaces, in order.
pub open spec fn parent_list(field: Seq<char>) -> Option<Seq<Seq<char>>> {
    if field.len() == 0 {
        None
    } else {
        Some(split(field, ' '))
    }
}

/// The names in the text between the brackets of a feature tag: what stands
/// between its commas, each without the white space around it.
pub open spec fn tag_names(inner: Seq<char>) -> Seq<Seq<char>> {
    let pieces = split(inner, ',');
    Seq::new(pieces.len(), |i: int| trim(pieces[i]))
}

/// The feature names that a summary carries, given what the feature pattern
/// captured in it.
pub open spec fn features_of(captured: Option<Seq<char>>) -> Seq<Seq<char>> {
    match captured {
        Some(inner) => tag_names(inner),
        None => Seq::empty(),
    }
}

/// One transition of the parser on one line of the log, white space at its
/// ends already removed.
pub open spec fn step(p: ParserView, line: Seq<char>) -> Result<ParserView, ParseFailure> {
    if line == separator() {
        match p.state {
            GitState::Files => Ok(
                ParserView {
                    state: GitState::Handle,
                    row: blank_row(),
                    history: p.history.push(p.row),
                },
            ),
            _ => Ok(p),
        }
    } else {
        match p.state {
            GitState::Handle => Ok(
                ParserView {
                    state: GitState::Sha,
                    row: GitHistoryView { handle: line, ..blank_row() },
                    ..p
                },
            ),
            GitState::Sha => Ok(
                ParserView {
                    state: GitState::ParentSha,
                    row: GitHistoryView { sha: line, ..p.row },
                    ..p
                },
            ),
            GitState::ParentSha => Ok(
                ParserView {
                    state: GitState::Timestamp,
                    row: GitHistoryView { parent_sha: parent_list(line), ..p.row },
                    ..p
                },
            ),
            GitState::Timestamp => match parse_decimal(line) {
                Some(t) => Ok(
                    ParserView {
                        state: GitState::Summary,
                        row: GitHistoryView { timestamp: t, ..p.row },
                        ..p
                    },
                ),
                None => Err(ParseFailure::Timestamp(line)),
            },
            GitState::Summary => Ok(
                ParserView {
                    state: GitState::Files,
                    row: GitHistoryView {
                        summary: line,
                        features: features_of(regex_first_group(FEATURE_PATTERN@, line)),
                        ..p.row
                    },
                    ..p
                },
            ),
            GitState::Files => if line.len() == 0 {
                Ok(
                    ParserView {
                        state: GitState::Handle,
                        row: blank_row(),
                        history: p.history.push(p.row),
                    },
                )
            } else {
                Ok(ParserView { row: GitHistoryView { files: p.row.files.push(line), ..p.row }, ..p })
            },
        }
    }
}

/// The parser that started as `p` after the given lines; the first line that
/// cannot be taken ends the run.
pub open spec fn run_from(p: ParserView, lines: Seq<Seq<char>>) -> Result<ParserView, ParseFailure>
    decreases lines.len(),
{
    if lines.len() == 0 {
        Ok(p)
    } else {
        match run_from(p, lines.drop_last()) {
            Ok(q) => step(q, lines.last()),
            Err(e) => Err(e),
        }
    }
}

/// The lines, each without the white space at its ends.
pub open spec fn trimmed_lines(lines: Seq<Seq<char>>) -> Seq<Seq<char>> {
    Seq::new(lines.len(), |i: int| trim(lines[i]))
}

/// The parser after the given lines of a log, each taken without the white
/// space at its ends.
pub open spec fn run(lines: Seq<Seq<char>>) -> Result<ParserView, ParseFailure> {
    run_from(start(), trimmed_lines(lines))
}

/// What a log parses to: the records that were closed, oldest first, or the
/// reason why the log is refused. A record still open when the text ends is
/// not part of the result. Nothing is parsed where the regex engine rejects
/// the feature pattern.
pub open spec fn parse_outcome(text: Seq<char>) -> Result<Seq<GitHistoryView>, ParseFailure> {
    if !regex_compiles(FEATURE_PATTERN@) {
        Err(ParseFailure::Pattern)
    } else {
        match run(split(text, '\n')) {
            Ok(p) => Ok(p.history.reverse()),
            Err(e) => Err(e),
        }
    }
}

fn is_separator(line: &Vec<char>) -> (r: bool)
    ensures
        r == (line@ == separator()),
{
    if line.len() == 3 && line[0] == '-' && line[1] == '-' && line[2] == '-' {
        assert(line@ =~= separator());
        true
    } else {
        false
    }
}

fn reversed(mut v: Vec<GitHistory>) -> (r: Vec<GitHistory>)
    ensures
        history_views(r@) == history_views(v@).reverse(),
{
    let ghost whole = v@;
    let mut out: Vec<GitHistory> = Vec::new();
    while v.len() > 0
        invariant
            v@.len() <= whole.len(),
            v@ == whole.take(v@.len() as int),
            out@.len() == whole.len() - v@.len(),
            forall|j: int| 0 <= j < out@.len() ==> out@[j] == whole[whole.len() - 1 - j],
        decreases v.len(),
    {
        let last = v.pop().unwrap();
        out.push(last);
    }
    assert(history_views(out@) =~= history_views(whole).reverse());
    out
}

impl GitHistory {
    /// A record with every field empty.
    pub fn blank() -> (r: GitHistory)
        ensures
            r@ == blank_row(),
    {
        let r = GitHistory {
            handle: String::new(),
            sha: String::new(),
            parent_sha: None,
            timestamp: 0,
            summary: String::new(),
            files: Vec::new(),
            features: Vec::new(),
        };
        assert(r@.files =~= Seq::empty());
        assert(r@.features =~= Seq::empty());
        r
    }

    /// The parents named by a parent field of the log.
    pub fn parents_of(field: &str) -> (r: Option<Vec<String>>)
        ensures
            option_texts(r) == parent_list(field@),
    {
        let chars = chars_of(field);
        if chars.len() == 0 {
            None
        } else {
            let pieces = split_on(&chars, ' ');
            Some(texts_of(&pieces))
        }
    }

    /// The feature names listed between the brackets of a feature tag.
    pub fn names_in_tag(inner: &str) -> (r: Vec<String>)
        ensures
            string_views(r@) == tag_names(inner@),
    {
        let chars = chars_of(inner);
        let pieces = split_on(&chars, ',');
        let mut out: Vec<String> = Vec::new();
        let mut i: usize = 0;
        while i < pieces.len()
            invariant
                i <= pieces.len(),
                piece_views(pieces@) == split(inner@, ','),
                string_views(out@) == tag_names(inner@).take(i as int),
            decreases pieces.len() - i,
        {
            let ghost before = string_views(out@);
            let name = trimmed(&pieces[i]);
            out.push(string_of(&name));
            assert(piece_views(pieces@)[i as int] == pieces@[i as int]@);
            assert(string_views(out@) =~= before.push(name@));
            assert(tag_names(inner@).take(i as int + 1) =~= before.push(name@));
            i += 1;
        }
        assert(tag_names(inner@).take(i as int) =~= tag_names(inner@));
        out
    }

    /// The feature names of a summary, from what the feature pattern captured in it.
    pub fn features_from(captured: Option<String>) -> (r: Vec<String>)
        ensures
            string_views(r@) == features_of(option_text(captured)),
    {
        match captured {
            Some(inner) => Self::names_in_tag(inner.as_str()),
            None => {
                let r: Vec<String> = Vec::new();
                assert(string_views(r@) =~= Seq::empty());
                r
            },
        }
    }

    /// Parses the text that the log tool wrote into records, oldest first.
    ///
    /// The text is refused as a whole when a timestamp field is no decimal
    /// numeral; the error then holds that field.
    pub fn parse(history_string: String) -> (r: Result<Vec<GitHistory>, FownerError>)
        ensures
            match parse_outcome(history_string@) {
                Ok(records) => r matches Ok(v) && history_views(v@) == records,
                Err(ParseFailure::Pattern) => r matches Err(FownerError::Regex(_)),
                Err(ParseFailure::Timestamp(field)) => r matches Err(FownerError::ParseInt(s))
                    && s@ == field,
            },
    {
        let nothing = String::new();
        match first_group(FEATURE_PATTERN, nothing.as_str()) {
            Ok(_) => {},
            Err(e) => {
                return Err(FownerError::Regex(e));
            },
        }
        let chars = chars_of(history_string.as_str());
        let lines = split_on(&chars, '\n');
        let ghost all = piece_views(lines@);
        let ghost bare = trimmed_lines(all);
        let mut history: Vec<GitHistory> = Vec::new();
        let mut row = GitHistory::blank();
        let mut state = GitState::Handle;
        let mut i: usize = 0;
        assert(bare.take(0) =~= Seq::empty());
        assert(history_views(history@) =~= Seq::empty());
        while i < lines.len()
            invariant
                i <= lines.len(),
                all == piece_views(lines@),
                all == split(history_string@, '\n'),
                regex_compiles(FEATURE_PATTERN@),
                bare == trimmed_lines(all),
                run_from(start(), bare.take(i as int)) == Ok::<ParserView, ParseFailure>(
                    ParserView { state, row: row@, history: history_views(history@) },
                ),
            decreases lines.len() - i,
        {
            let ghost before = ParserView { state, row: row@, history: history_views(history@) };
            let ghost taken = bare.take(i as int + 1);
            assert(taken.drop_last() =~= bare.take(i as int));
            assert(all[i as int] == lines@[i as int]@);
            let line = trimmed(&lines[i]);
            assert(taken.last() == line@);
            assert(run_from(start(), taken) == step(before, line@));
            proof {
                lemma_failure_stays(start(), bare, i as int + 1);
            }
            if is_separator(&line) {
                match state {
                    GitState::Files => {
                        let ghost closed = history_views(history@);
                        history.push(row);
                        assert(history_views(history@) =~= closed.push(before.row));
                        row = GitHistory::blank();
                        state = GitState::Handle;
                    },
                    _ => {},
                }
            } else {
                match state {
                    GitState::Handle => {
                        row = GitHistory::blank();
                        row.handle = string_of(&line);
                        state = GitState::Sha;
                    },
                    GitState::Sha => {
                        row.sha = string_of(&line);
                        state = GitState::ParentSha;
                    },
                    GitState::ParentSha => {
                        let field = string_of(&line);
                        row.parent_sha = Self::parents_of(field.as_str());
                        state = GitState::Timestamp;
                    },
                    GitState::Timestamp => {
                        match decimal(&line) {
                            Some(t) => {
                                row.timestamp = t;
                                state = GitState::Summary;
                            },
                            None => {
                                return Err(FownerError::ParseInt(string_of(&line)));
                            },
                        }
                    },
                    GitState::Summary => {
                        row.summary = string_of(&line);
                        match first_group(FEATURE_PATTERN, row.summary.as_str()) {
                            Ok(captured) => {
                                row.features = Self::features_from(captured);
                            },
                            Err(e) => {
                                return Err(FownerError::Regex(e));
                            },
                        }
                        state = GitState::Files;
                    },
                    GitState::Files => {
                        if line.len() == 0 {
                            let ghost closed = history_views(history@);
                            history.push(row);
                            assert(history_views(history@) =~= closed.push(before.row));
                            row = GitHistory::blank();
                            state = GitState::Handle;
                        } else {
                            let ghost paths = row@.files;
                            row.files.push(string_of(&line));
                            assert(row@.files =~= paths.push(line@));
                        }
                    },
                }
            }
            i += 1;
        }
        assert(bare.take(i as int) =~= bare);
        Ok(reversed(history))
    }
}

/// Once a line has been refused, the lines after it change nothing.
pub proof fn lemma_failure_stays(p: ParserView, lines: Seq<Seq<char>>, k: int)
    requires
        0 <= k <= lines.len(),
    ensures
        run_from(p, lines.take(k)) is Err ==> run_from(p, lines) == run_from(p, lines.take(k)),
    decreases lines.len() - k,
{
    if k < lines.len() {
        lemma_failure_stays(p, lines, k + 1);
        assert(lines.take(k + 1).drop_last() =~= lines.take(k));
    } else {
        assert(lines.take(k) =~= lines);
    }
}

/// Running over two runs of lines is running over the first, then over the
/// second from where the first ended.
pub proof fn lemma_run_joined(p: ParserView, a: Seq<Seq<char>>, b: Seq<Seq<char>>)
    ensures
        run_from(p, a + b) == match run_from(p, a) {
            Ok(q) => run_from(q, b),
            Err(e) => Err(e),
        },
    decreases b.len(),
{
    if b.len() == 0 {
        assert(a + b =~= a);
    } else {
        lemma_run_joined(p, a, b.drop_last());
        assert((a + b).drop_last() =~= a + b.drop_last());
        assert((a + b).last() == b.last());
    }
}

/// A commit as it stands in the log, line by line, each line without the
/// white space at its ends.
pub struct Block {
    pub handle: Seq<char>,
    pub sha: Seq<char>,
    pub parents: Seq<char>,
    pub timestamp: Seq<char>,
    pub summary: Seq<char>,
    pub files: Seq<Seq<char>>,
}

impl Block {
    /// The block is well formed: no field is the separator, the timestamp is
    /// a decimal numeral, and no path is empty.
    pub open spec fn wf(self) -> bool {
        &&& self.handle != separator()
        &&& self.sha != separator()
        &&& self.parents != separator()
        &&& parse_decimal(self.timestamp) is Some
        &&& self.summary != separator()
        &&& forall|i: int|
            0 <= i < self.files.len() ==> (#[trigger] self.files[i]).len() > 0 && self.files[i]
                != separator()
    }

    /// The lines of the block: the separator, the five fields, the paths,
    /// and the blank line that closes it.
    pub open spec fn lines(self) -> Seq<Seq<char>> {
        seq![separator(), self.handle, self.sha, self.parents, self.timestamp, self.summary]
            + self.files + seq![Seq::<char>::empty()]
    }

    /// The record that the block stands for.
    pub open spec fn record(self) -> GitHistoryView {
        GitHistoryView {
            handle: self.handle,
            sha: self.sha,
            parent_sha: parent_list(self.parents),
            timestamp: parse_decimal(self.timestamp).unwrap(),
            summary: self.summary,
            files: self.files,
            features: features_of(regex_first_group(FEATURE_PATTERN@, self.summary)),
        }
    }
}

/// The lines of the blocks, one block after the other.
pub open spec fn block_lines(blocks: Seq<Block>) -> Seq<Seq<char>>
    decreases blocks.len(),
{
    if blocks.len() == 0 {
        Seq::empty()
    } else {
        block_lines(blocks.drop_last()) + blocks.last().lines()
    }
}

/// The records that the blocks stand for, in the order of the blocks.
pub open spec fn block_records(blocks: Seq<Block>) -> Seq<GitHistoryView> {
    Seq::new(blocks.len(), |i: int| blocks[i].record())
}

proof fn lemma_paths_taken(p: ParserView, files: Seq<Seq<char>>)
    requires
        p.state == GitState::Files,
        forall|i: int|
            0 <= i < files.len() ==> (#[trigger] files[i]).len() > 0 && files[i] != separator(),
    ensures
        run_from(p, files) == Ok::<ParserView, ParseFailure>(
            ParserView { row: GitHistoryView { files: p.row.files + files, ..p.row }, ..p },
        ),
    decreases files.len(),
{
    if files.len() == 0 {
        assert(p.row.files + files =~= p.row.files);
    } else {
        lemma_paths_taken(p, files.drop_last());
        assert(files.last() == files[files.len() - 1]);
        assert((p.row.files + files.drop_last()).push(files.last()) =~= p.row.files + files);
    }
}

proof fn lemma_block_taken(history: Seq<GitHistoryView>, block: Block)
    requires
        block.wf(),
    ensures
        run_from(
            ParserView { state: GitState::Handle, row: blank_row(), history },
            block.lines(),
        ) == Ok::<ParserView, ParseFailure>(
            ParserView {
                state: GitState::Handle,
                row: blank_row(),
                history: history.push(block.record()),
            },
        ),
{
    let p = ParserView { state: GitState::Handle, row: blank_row(), history };
    let head = seq![
        separator(),
        block.handle,
        block.sha,
        block.parents,
        block.timestamp,
        block.summary,
    ];
    let tail = seq![Seq::<char>::empty()];
    let l0 = head.take(0);
    let l1 = head.take(1);
    let l2 = head.take(2);
    let l3 = head.take(3);
    let l4 = head.take(4);
    let l5 = head.take(5);
    assert(l1.drop_last() =~= l0);
    assert(l2.drop_last() =~= l1);
    assert(l3.drop_last() =~= l2);
    assert(l4.drop_last() =~= l3);
    assert(l5.drop_last() =~= l4);
    assert(head.drop_last() =~= l5);
    assert(run_from(p, l0) == Ok::<ParserView, ParseFailure>(p));
    assert(run_from(p, l1) == step(p, separator()));
    assert(run_from(p, l1) == Ok::<ParserView, ParseFailure>(p));
    assert(run_from(p, l2) == step(p, block.handle));
    let with_handle = step(p, block.handle)->Ok_0;
    assert(run_from(p, l3) == step(with_handle, block.sha));
    let with_sha = step(with_handle, block.sha)->Ok_0;
    assert(run_from(p, l4) == step(with_sha, block.parents));
    let with_parents = step(with_sha, block.parents)->Ok_0;
    assert(run_from(p, l5) == step(with_parents, block.timestamp));
    let with_time = step(with_parents, block.timestamp)->Ok_0;
    assert(run_from(p, head) == step(with_time, block.summary));
    let with_summary = step(with_time, block.summary)->Ok_0;
    assert(with_summary.state == GitState::Files);
    assert(with_summary.row.files =~= Seq::<Seq<char>>::empty());
    lemma_run_joined(p, head, block.files);
    lemma_paths_taken(with_summary, block.files);
    let with_files = ParserView { row: GitHistoryView { files: with_summary.row.files + block.files, ..with_summary.row }, ..with_summary };
    assert(with_summary.row.files + block.files =~= block.files);
    lemma_run_joined(p, head + block.files, tail);
    assert(tail.drop_last() =~= Seq::<Seq<char>>::empty());
    assert(tail.len() == 1);
    assert(tail.last() == Seq::<char>::empty());
    assert(run_from(with_files, tail.drop_last()) == Ok::<ParserView, ParseFailure>(with_files));
    assert(run_from(with_files, tail) == step(with_files, Seq::<char>::empty()));
    assert(Seq::<char>::empty() != separator()) by {
        assert(separator().len() == 3);
    }
    assert(with_files.row == block.record());
}

proof fn lemma_blocks_taken(blocks: Seq<Block>)
    requires
        forall|i: int| 0 <= i < blocks.len() ==> (#[trigger] blocks[i]).wf(),
    ensures
        run_from(start(), block_lines(blocks)) == Ok::<ParserView, ParseFailure>(
            ParserView {
                state: GitState::Handle,
                row: blank_row(),
                history: block_records(blocks),
            },
        ),
    decreases blocks.len(),
{
    if blocks.len() == 0 {
        assert(block_records(blocks) =~= Seq::empty());
    } else {
        let earlier = blocks.drop_last();
        assert forall|i: int| 0 <= i < earlier.len() implies (#[trigger] earlier[i]).wf() by {
            assert(earlier[i] == blocks[i]);
        }
        lemma_blocks_taken(earlier);
        lemma_run_joined(start(), block_lines(earlier), blocks.last().lines());
        assert(blocks.last() == blocks[blocks.len() - 1]);
        lemma_block_taken(block_records(earlier), blocks.last());
        assert(block_records(earlier).push(blocks.last().record()) =~= block_records(blocks));
    }
}

/// A log of well-formed blocks parses to one record per block, in the
/// reverse of the order of the log. So a log that lists its commits newest
/// first, as the log tool does, comes back oldest first, and commits of one
/// time keep the reversed order of the log.
///
/// The log is given by its text; `blocks` are its lines, taken without the
/// white space at their ends.
pub proof fn parse_returns_blocks_in_reverse(text: Seq<char>, blocks: Seq<Block>)
    requires
        forall|i: int| 0 <= i < blocks.len() ==> (#[trigger] blocks[i]).wf(),
        trimmed_lines(split(text, '\n')) == block_lines(blocks),
    ensures
        regex_compiles(FEATURE_PATTERN@) ==> parse_outcome(text) == Ok::<
            Seq<GitHistoryView>,
            ParseFailure,
        >(block_records(blocks).reverse()),
        !regex_compiles(FEATURE_PATTERN@) ==> parse_outcome(text) == Err::<
            Seq<GitHistoryView>,
            ParseFailure,
        >(ParseFailure::Pattern),
        block_records(blocks).reverse().len() == blocks.len(),
        forall|i: int|
            0 <= i < blocks.len() ==> (#[trigger] block_records(blocks).reverse()[i])
                == blocks[blocks.len() - 1 - i].record(),
        (forall|i: int, j: int|
            0 <= i < j < blocks.len() ==> blocks[i].record().timestamp
                >= blocks[j].record().timestamp) ==> (forall|i: int, j: int|
            0 <= i < j < blocks.len() ==> block_records(blocks).reverse()[i].timestamp
                <= block_records(blocks).reverse()[j].timestamp),
{
    lemma_blocks_taken(blocks);
}

/// A line as the log tool writes it: it holds no line break, and no white
/// space at its ends.
pub open spec fn bare(line: Seq<char>) -> bool {
    trim(line) == line && !line.contains('\n')
}

pub open spec fn all_bare(lines: Seq<Seq<char>>) -> bool {
    forall|i: int| 0 <= i < lines.len() ==> bare(#[trigger] lines[i])
}

impl Block {
    /// Each line of the block is as the log tool writes it.
    pub open spec fn bare(self) -> bool {
        &&& bare(self.handle)
        &&& bare(self.sha)
        &&& bare(self.parents)
        &&& bare(self.timestamp)
        &&& bare(self.summary)
        &&& all_bare(self.files)
    }
}

/// The text of the log that lists the blocks: their lines, one per line.
pub open spec fn log_of(blocks: Seq<Block>) -> Seq<char> {
    crate::text::join(block_lines(blocks), seq!['\n'])
}

proof fn lemma_block_lines_bare(blocks: Seq<Block>)
    requires
        forall|i: int| 0 <= i < blocks.len() ==> (#[trigger] blocks[i]).bare(),
    ensures
        all_bare(block_lines(blocks)),
        blocks.len() >= 1 ==> block_lines(blocks).len() >= 1,
    decreases blocks.len(),
{
    if blocks.len() > 0 {
        let earlier = blocks.drop_last();
        let block = blocks.last();
        assert forall|i: int| 0 <= i < earlier.len() implies (#[trigger] earlier[i]).bare() by {
            assert(earlier[i] == blocks[i]);
        }
        lemma_block_lines_bare(earlier);
        assert(block == blocks[blocks.len() - 1]);
        let sep = separator();
        assert(bare(sep)) by {
            assert(!is_whitespace(sep[0]));
            assert(!is_whitespace(sep.last()));
            assert(trim_start(sep) == sep);
            assert(trim_end(sep) == sep);
            assert forall|k: int| 0 <= k < sep.len() implies sep[k] != '\n' by {}
        }
        let blank = Seq::<char>::empty();
        assert(bare(blank)) by {
            assert(trim_start(blank) == blank);
            assert(trim_end(blank) == blank);
        }
        let head = seq![sep, block.handle, block.sha, block.parents, block.timestamp, block.summary];
        let lines = block.lines();
        assert forall|i: int| 0 <= i < lines.len() implies bare(#[trigger] lines[i]) by {
            if i < 6 {
                assert(lines[i] == head[i]);
            } else if i < 6 + block.files.len() {
                assert(lines[i] == block.files[i - 6]);
            } else {
                assert(lines[i] == blank);
            }
        }
        let all = block_lines(blocks);
        assert forall|i: int| 0 <= i < all.len() implies bare(#[trigger] all[i]) by {
            if i < block_lines(earlier).len() {
                assert(all[i] == block_lines(earlier)[i]);
            } else {
                assert(all[i] == lines[i - block_lines(earlier).len()]);
            }
        }
    }
}

/// The log that lists well-formed blocks as the log tool writes them parses
/// back to the records of the blocks, last block first.
pub proof fn log_of_blocks_parses_back(blocks: Seq<Block>)
    requires
        blocks.len() >= 1,
        forall|i: int| 0 <= i < blocks.len() ==> (#[trigger] blocks[i]).wf() && blocks[i].bare(),
    ensures
        regex_compiles(FEATURE_PATTERN@) ==> parse_outcome(log_of(blocks)) == Ok::<
            Seq<GitHistoryView>,
            ParseFailure,
        >(block_records(blocks).reverse()),
{
    lemma_block_lines_bare(blocks);
    let lines = block_lines(blocks);
    assert forall|i: int| 0 <= i < lines.len() implies !(#[trigger] lines[i]).contains(
        '\n',
    ) by {
        assert(bare(lines[i]));
    }
    crate::text::split_undoes_join(lines, '\n');
    assert(trimmed_lines(lines) =~= lines) by {
        assert forall|i: int| 0 <= i < lines.len() implies trimmed_lines(lines)[i] == lines[i] by {
            assert(bare(lines[i]));
        }
    }
    parse_returns_blocks_in_reverse(log_of(blocks), blocks);
}

/// A commit whose parent field holds two ids with one space between them
/// has both as its parents, in the order of the field; a commit whose parent
/// field is empty has no parents.
pub proof fn parent_field_names_all_parents(first: Seq<char>, second: Seq<char>, block: Block)
    requires
        !first.contains(' '),
        !second.contains(' '),
    ensures
        block.parents == first.push(' ') + second ==> block.record().parent_ids() == seq![
            first,
            second,
        ] && block.record().parent_ids().len() == 2,
        block.parents.len() == 0 ==> block.record().parent_sha is None
            && block.record().parent_ids().len() == 0,
{
    crate::text::lemma_split_joined(first, second, ' ');
    crate::text::lemma_split_whole(first, ' ');
    crate::text::lemma_split_whole(second, ' ');
    assert(seq![first] + seq![second] =~= seq![first, second]);
}

} // verus!
