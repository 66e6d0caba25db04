//! The diff model: commits offered for review, changed files, hunks and lines,
//! and the small computations made on them.

use vstd::prelude::*;

use crate::stamp::now_nanos;
use crate::syntax::{
    copy_segments, default_segments, file_runs, plain_runs, plain_style, runs_view, segments_view, Highlighter, SegmentStyle,
    StyledSegments,
};
use crate::theme::SyntaxTheme;
use crate::tui::app::{str_less, text_less};
use crate::text::{
    chars_of, is_blank, join, join_strings, lines, replace_all, replace_char, split_lines,
    string_from, trim, trim_end_char, trim_end_matches_char,
};

verus! {

pub const DEFAULT_COMMIT_LIMIT: usize = 10;

pub const WORKING_TREE_SELECTION_ID: &'static str = "__copanion_working_tree__";

/// A commit offered for review, or the pseudo-entry for uncommitted changes.
/// `time` is nanoseconds since the Unix epoch.
#[derive(Debug, Clone, PartialEq, Eq)]
pub struct CommitInfo {
    pub id: String,
    pub short_id: String,
    pub branch_name: Option<String>,
    pub summary: String,
    pub body: Option<String>,
    pub author: String,
    pub time: i64,
}

#[derive(Debug, Clone, Copy, PartialEq, Eq, Structural)]
pub enum FileStatus {
    Added,
    Modified,
    Deleted,
    Renamed,
    Copied,
}

#[derive(Debug, Clone, Copy, PartialEq, Eq, Structural)]
pub enum LineOrigin {
    Context,
    Addition,
    Deletion,
}

#[derive(Debug, Clone)]
pub struct DiffLine {
    pub origin: LineOrigin,
    pub content: String,
    pub old_lineno: Option<usize>,
    pub new_lineno: Option<usize>,
    pub segments: StyledSegments,
}

#[derive(Debug, Clone)]
pub struct DiffHunk {
    pub header: String,
    pub lines: Vec<DiffLine>,
    pub old_start: usize,
    pub old_count: usize,
    pub new_start: usize,
    pub new_count: usize,
}

#[derive(Debug, Clone)]
pub struct DiffFile {
    pub old_path: Option<String>,
    pub new_path: Option<String>,
    pub status: FileStatus,
    pub hunks: Vec<DiffHunk>,
    pub is_binary: bool,
    pub is_too_large: bool,
}

/// What a diff review covers.
#[derive(Debug, Clone, PartialEq, Eq)]
pub enum DiffSelection {
    WorkingTree,
    /// Commit ids, oldest first.
    CommitRange(Vec<String>),
    /// Commit ids, oldest first, plus the uncommitted changes after them.
    WorkingTreeAndCommits(Vec<String>),
}

pub open spec fn working_tree_id() -> Seq<char> {
    "__copanion_working_tree__"@
}

impl CommitInfo {
    /// The pseudo-entry for uncommitted changes, stamped now.
    pub fn working_tree_entry() -> (r: Self)
        ensures
            r.id@ == working_tree_id(),
            r.short_id@ == "WORKTREE"@,
            r.branch_name is None,
            r.summary@ == "Uncommitted changes"@,
            r.body is None,
            r.author@.len() == 0,
    {
        CommitInfo {
            id: WORKING_TREE_SELECTION_ID.to_string(),
            short_id: "WORKTREE".to_string(),
            branch_name: None,
            summary: "Uncommitted changes".to_string(),
            body: None,
            author: String::new(),
            time: now_nanos(),
        }
    }

    pub fn is_working_tree(&self) -> (r: bool)
        ensures
            r == (self.id@ == working_tree_id()),
    {
        crate::text::str_eq(self.id.as_str(), WORKING_TREE_SELECTION_ID)
    }
}

/// What the commit selector offers: the pseudo-entry for uncommitted changes
/// first when there are any, then the recent commits in the order given.
pub fn review_options(has_working_tree_changes: bool, commits: Vec<CommitInfo>) -> (r: Vec<CommitInfo>)
    ensures
        !has_working_tree_changes ==> r@ == commits@,
        has_working_tree_changes ==> {
            &&& r@.len() == commits@.len() + 1
            &&& r@[0].id@ == working_tree_id()
            &&& r@[0].short_id@ == "WORKTREE"@
            &&& r@[0].summary@ == "Uncommitted changes"@
            &&& r@.skip(1) == commits@
        },
{
    let mut options = commits;
    if has_working_tree_changes {
        let ghost before = options@;
        options.insert(0, CommitInfo::working_tree_entry());
        assert(options@.skip(1) =~= before);
    }
    options
}

pub open spec fn status_char(s: FileStatus) -> char {
    match s {
        FileStatus::Added => 'A',
        FileStatus::Modified => 'M',
        FileStatus::Deleted => 'D',
        FileStatus::Renamed => 'R',
        FileStatus::Copied => 'C',
    }
}

impl FileStatus {
    pub fn as_char(self) -> (c: char)
        ensures
            c == status_char(self),
    {
        match self {
            FileStatus::Added => 'A',
            FileStatus::Modified => 'M',
            FileStatus::Deleted => 'D',
            FileStatus::Renamed => 'R',
            FileStatus::Copied => 'C',
        }
    }
}

impl DiffFile {
    /// The new path, or the old one for a deleted file.
    pub fn display_path(&self) -> (r: &str)
        requires
            self.new_path is Some || self.old_path is Some,
        ensures
            r@ == match self.new_path {
                Some(p) => p@,
                None => self.old_path->0@,
            },
    {
        match &self.new_path {
            Some(p) => p.as_str(),
            None => match &self.old_path {
                Some(p) => p.as_str(),
                None => "",
            },
        }
    }
}

pub open spec fn sat_sub(a: int, b: int) -> int {
    if a >= b {
        a - b
    } else {
        0
    }
}

/// The number of new-side lines hidden before `current`: from line 1, or from
/// the end of the previous hunk, to the line before `current` starts.
pub open spec fn spec_gap(previous: Option<(usize, usize)>, current_new_start: usize) -> int {
    match previous {
        None => sat_sub(current_new_start as int, 1),
        Some((start, count)) => sat_sub(
            current_new_start as int,
            if start + count > usize::MAX {
                usize::MAX as int
            } else {
                start + count
            },
        ),
    }
}

pub fn calculate_gap(previous_hunk: Option<&DiffHunk>, current_hunk: &DiffHunk) -> (r: usize)
    ensures
        r == spec_gap(
            match previous_hunk {
                Some(p) => Some((p.new_start, p.new_count)),
                None => None,
            },
            current_hunk.new_start,
        ),
{
    match previous_hunk {
        None => current_hunk.new_start.saturating_sub(1),
        Some(previous) => {
            let previous_end = previous.new_start.saturating_add(previous.new_count);
            current_hunk.new_start.saturating_sub(previous_end)
        },
    }
}

/// The lines after the leading blank ones.
pub open spec fn skip_blank(ls: Seq<Seq<char>>) -> Seq<Seq<char>>
    decreases ls.len(),
{
    if ls.len() > 0 && trim(ls[0]).len() == 0 {
        skip_blank(ls.drop_first())
    } else {
        ls
    }
}

proof fn lemma_skip_blank(ls: Seq<Seq<char>>, k: int)
    requires
        0 <= k <= ls.len(),
        forall|j: int| 0 <= j < k ==> trim(#[trigger] ls[j]).len() == 0,
        k == ls.len() || trim(ls[k]).len() != 0,
    ensures
        skip_blank(ls) == ls.skip(k),
    decreases k,
{
    if k > 0 {
        lemma_skip_blank(ls.drop_first(), k - 1);
        assert(ls.drop_first().skip(k - 1) =~= ls.skip(k));
    } else {
        assert(ls.skip(0) =~= ls);
    }
}

/// A commit message split into its summary (the first line, or
/// `(no message)`) and its body: the later lines after any blank ones, joined
/// by newlines, kept only when not blank.
pub open spec fn commit_message_parts(message: Seq<char>) -> (Seq<char>, Option<Seq<char>>) {
    let ls = lines(message);
    let summary = if ls.len() > 0 {
        ls[0]
    } else {
        "(no message)"@
    };
    let rest = if ls.len() > 0 {
        ls.drop_first()
    } else {
        ls
    };
    let body_text = join(skip_blank(rest), seq!['\n']);
    (summary, if trim(body_text).len() > 0 {
        Some(body_text)
    } else {
        None
    })
}

pub fn parse_commit_message(message: &str) -> (r: (String, Option<String>))
    ensures
        r.0@ == commit_message_parts(message@).0,
        r.1.deep_view() == commit_message_parts(message@).1,
{
    let ls = split_lines(message);
    let ghost lv = ls.deep_view();
    let summary = if ls.len() > 0 {
        ls[0].clone()
    } else {
        "(no message)".to_string()
    };
    proof {
        reveal_strlit("(no message)");
    }
    let ghost rest = if lv.len() > 0 {
        lv.drop_first()
    } else {
        lv
    };
    let mut k: usize = if ls.len() > 0 {
        1
    } else {
        0
    };
    while k < ls.len() && is_blank(ls[k].as_str())
        invariant
            k <= ls@.len(),
            lv == ls.deep_view(),
            lv.len() > 0 ==> k >= 1,
            lv.len() == 0 ==> k == 0,
            forall|j: int| (if lv.len() > 0 { 1int } else { 0int }) <= j < k ==> trim(#[trigger] lv[j]).len() == 0,
        decreases ls.len() - k,
    {
        k = k + 1;
    }
    let ghost off: int = if lv.len() > 0 {
        1
    } else {
        0
    };
    proof {
        assert forall|j: int| 0 <= j < k - off implies trim(#[trigger] rest[j]).len() == 0 by {
            assert(rest[j] == lv[j + off]);
        }
        if k < lv.len() {
            assert(rest[k - off] == lv[k as int]);
        }
        lemma_skip_blank(rest, k - off);
    }
    let mut tail: Vec<String> = Vec::new();
    let mut i: usize = k;
    while i < ls.len()
        invariant
            k <= i <= ls@.len(),
            lv == ls.deep_view(),
            tail.deep_view() == lv.subrange(k as int, i as int),
        decreases ls.len() - i,
    {
        let ghost before = tail.deep_view();
        let line = ls[i].clone();
        tail.push(line);
        assert(tail.deep_view() =~= before.push(lv[i as int]));
        assert(lv.subrange(k as int, i + 1) =~= lv.subrange(k as int, i as int).push(lv[i as int]));
        i = i + 1;
    }
    assert(rest.skip(k - off) =~= lv.subrange(k as int, lv.len() as int));
    let body_text = join_strings(&tail, "\n");
    proof {
        reveal_strlit("\n");
        assert("\n"@ =~= seq!['\n']);
        assert(tail.deep_view() == skip_blank(rest));
        assert(body_text@ == join(skip_blank(rest), seq!['\n']));
    }
    let body = if is_blank(body_text.as_str()) {
        None
    } else {
        Some(body_text)
    };
    (summary, body)
}

/// The first seven characters of a commit id (all of it when shorter).
pub fn short_id(id: &str) -> (r: String)
    ensures
        r@ == id@.take(if id@.len() < 7 { id@.len() as int } else { 7 }),
{
    let v = chars_of(id);
    let n = if v.len() < 7 {
        v.len()
    } else {
        7
    };
    let mut w: Vec<char> = Vec::new();
    let mut i: usize = 0;
    while i < n
        invariant
            i <= n <= v@.len(),
            v@ == id@,
            w@ == v@.take(i as int),
        decreases n - i,
    {
        w.push(v[i]);
        assert(v@.take(i + 1) =~= v@.take(i as int).push(v@[i as int]));
        i = i + 1;
    }
    string_from(&w)
}

/// A path as shown in the review: backslashes become forward slashes.
pub fn normalize_path(path: &str) -> (r: String)
    ensures
        r@ == replace_char(path@, '\\', "/"@),
{
    replace_all(path, '\\', "/")
}

/// How a raw diff line is shown: trailing newlines, then trailing carriage
/// returns, removed, and each tab widened to four spaces.
pub open spec fn diff_line_text(raw: Seq<char>) -> Seq<char> {
    replace_char(trim_end_char(trim_end_char(raw, '\n'), '\r'), '\t', "    "@)
}

pub fn clean_diff_line(raw: &str) -> (r: String)
    ensures
        r@ == diff_line_text(raw@),
{
    let v = chars_of(raw);
    let a = trim_end_matches_char(&v, '\n');
    let b = trim_end_matches_char(&a, '\r');
    let s = string_from(&b);
    replace_all(s.as_str(), '\t', "    ")
}

/// The lines of a hunk split into the old side (context and deletions) and
/// the new side (context and additions), with each line's index on each side.
pub struct HighlightSequences {
    pub old_lines: Vec<String>,
    pub new_lines: Vec<String>,
    pub old_line_indices: Vec<Option<usize>>,
    pub new_line_indices: Vec<Option<usize>>,
}

pub open spec fn highlight_split(lines: Seq<Seq<char>>, origins: Seq<LineOrigin>, n: nat) -> (
    Seq<Seq<char>>,
    Seq<Seq<char>>,
    Seq<Option<usize>>,
    Seq<Option<usize>>,
)
    decreases n,
{
    if n == 0 {
        (Seq::empty(), Seq::empty(), Seq::empty(), Seq::empty())
    } else {
        let prev = highlight_split(lines, origins, (n - 1) as nat);
        let line = lines[n - 1];
        match origins[n - 1] {
            LineOrigin::Context => (
                prev.0.push(line),
                prev.1.push(line),
                prev.2.push(Some(prev.0.len() as usize)),
                prev.3.push(Some(prev.1.len() as usize)),
            ),
            LineOrigin::Deletion => (
                prev.0.push(line),
                prev.1,
                prev.2.push(Some(prev.0.len() as usize)),
                prev.3.push(None),
            ),
            LineOrigin::Addition => (
                prev.0,
                prev.1.push(line),
                prev.2.push(None),
                prev.3.push(Some(prev.1.len() as usize)),
            ),
        }
    }
}

proof fn lemma_highlight_split_len(lines: Seq<Seq<char>>, origins: Seq<LineOrigin>, n: nat)
    ensures
        highlight_split(lines, origins, n).0.len() <= n,
        highlight_split(lines, origins, n).1.len() <= n,
        highlight_split(lines, origins, n).2.len() == n,
        highlight_split(lines, origins, n).3.len() == n,
    decreases n,
{
    if n > 0 {
        lemma_highlight_split_len(lines, origins, (n - 1) as nat);
    }
}

/// Pairs lines with origins (as far as both go) and splits them into the two
/// sides of the hunk; see `highlight_split`.
pub fn split_diff_lines_for_highlighting(lines: &Vec<String>, origins: &Vec<LineOrigin>) -> (r:
    HighlightSequences)
    ensures
        ({
            let n = if lines@.len() < origins@.len() {
                lines@.len()
            } else {
                origins@.len()
            };
            let h = highlight_split(lines.deep_view(), origins@, n);
            &&& r.old_lines.deep_view() == h.0
            &&& r.new_lines.deep_view() == h.1
            &&& r.old_line_indices@ == h.2
            &&& r.new_line_indices@ == h.3
        }),
{
    let ghost lv = lines.deep_view();
    let n = if lines.len() < origins.len() {
        lines.len()
    } else {
        origins.len()
    };
    let mut old_lines: Vec<String> = Vec::new();
    let mut new_lines: Vec<String> = Vec::new();
    let mut old_line_indices: Vec<Option<usize>> = Vec::new();
    let mut new_line_indices: Vec<Option<usize>> = Vec::new();
    let mut i: usize = 0;
    while i < n
        invariant
            i <= n <= lines@.len(),
            n <= origins@.len(),
            lv == lines.deep_view(),
            ({
                let h = highlight_split(lv, origins@, i as nat);
                &&& old_lines.deep_view() == h.0
                &&& new_lines.deep_view() == h.1
                &&& old_line_indices@ == h.2
                &&& new_line_indices@ == h.3
            }),
        decreases n - i,
    {
        proof {
            lemma_highlight_split_len(lv, origins@, i as nat);
        }
        let ghost ob = old_lines.deep_view();
        let ghost nb = new_lines.deep_view();
        let line = &lines[i];
        assert(line@ == lv[i as int]);
        match origins[i] {
            LineOrigin::Context => {
                let old_index = old_lines.len();
                let new_index = new_lines.len();
                old_lines.push(line.clone());
                new_lines.push(line.clone());
                old_line_indices.push(Some(old_index));
                new_line_indices.push(Some(new_index));
                assert(old_lines.deep_view() =~= ob.push(lv[i as int]));
                assert(new_lines.deep_view() =~= nb.push(lv[i as int]));
            },
            LineOrigin::Deletion => {
                let old_index = old_lines.len();
                old_lines.push(line.clone());
                old_line_indices.push(Some(old_index));
                new_line_indices.push(None);
                assert(old_lines.deep_view() =~= ob.push(lv[i as int]));
            },
            LineOrigin::Addition => {
                let new_index = new_lines.len();
                new_lines.push(line.clone());
                old_line_indices.push(None);
                new_line_indices.push(Some(new_index));
                assert(new_lines.deep_view() =~= nb.push(lv[i as int]));
            },
        }
        i = i + 1;
    }
    HighlightSequences { old_lines, new_lines, old_line_indices, new_line_indices }
}

// ---------------------------------------------------------------------------
// Highlighting a hunk.
// ---------------------------------------------------------------------------


/// The runs a hunk line takes from its side's highlighting: a deleted line
/// from the old side, any other from the new side, at its index there; plain
/// when it has none there.
pub open spec fn picked_runs(
    line: Seq<char>,
    origin: LineOrigin,
    old_index: Option<usize>,
    new_index: Option<usize>,
    old_runs: Seq<Seq<(SegmentStyle, Seq<char>)>>,
    new_runs: Seq<Seq<(SegmentStyle, Seq<char>)>>,
) -> Seq<(SegmentStyle, Seq<char>)> {
    let (index, runs) = match origin {
        LineOrigin::Deletion => (old_index, old_runs),
        _ => (new_index, new_runs),
    };
    match index {
        Some(j) => if j < runs.len() {
            runs[j as int]
        } else {
            plain_runs(line)
        },
        None => plain_runs(line),
    }
}

/// Whether each line got its runs from the two sides' highlighting.
pub open spec fn runs_picked(
    r: Seq<StyledSegments>,
    lines: Seq<String>,
    origins: Seq<LineOrigin>,
    old_indices: Seq<Option<usize>>,
    new_indices: Seq<Option<usize>>,
    old_runs: Seq<Seq<(SegmentStyle, Seq<char>)>>,
    new_runs: Seq<Seq<(SegmentStyle, Seq<char>)>>,
) -> bool {
    &&& r.len() == lines.len()
    &&& forall|i: int|
        0 <= i < lines.len() ==> segments_view(#[trigger] r[i]) == picked_runs(
            lines[i]@,
            origins[i],
            old_indices[i],
            new_indices[i],
            old_runs,
            new_runs,
        )
}

/// Gives each hunk line its runs from the two sides' highlighting; see
/// `picked_runs`.
pub fn pick_side_runs(
    lines: &Vec<String>,
    origins: &Vec<LineOrigin>,
    sides: &HighlightSequences,
    old_runs: &Vec<StyledSegments>,
    new_runs: &Vec<StyledSegments>,
) -> (r: Vec<StyledSegments>)
    requires
        origins@.len() == lines@.len(),
        sides.old_line_indices@.len() == lines@.len(),
        sides.new_line_indices@.len() == lines@.len(),
    ensures
        runs_picked(
            r@,
            lines@,
            origins@,
            sides.old_line_indices@,
            sides.new_line_indices@,
            runs_view(old_runs@),
            runs_view(new_runs@),
        ),
{
    let mut out: Vec<StyledSegments> = Vec::new();
    let mut i: usize = 0;
    while i < lines.len()
        invariant
            i <= lines@.len(),
            origins@.len() == lines@.len(),
            sides.old_line_indices@.len() == lines@.len(),
            sides.new_line_indices@.len() == lines@.len(),
            out@.len() == i,
            forall|k: int|
                0 <= k < i ==> segments_view(#[trigger] out@[k]) == picked_runs(
                    lines@[k]@,
                    origins@[k],
                    sides.old_line_indices@[k],
                    sides.new_line_indices@[k],
                    runs_view(old_runs@),
                    runs_view(new_runs@),
                ),
        decreases lines.len() - i,
    {
        let line = lines[i].as_str();
        let (index, runs) = match origins[i] {
            LineOrigin::Deletion => (sides.old_line_indices[i], old_runs),
            _ => (sides.new_line_indices[i], new_runs),
        };
        let picked = match index {
            Some(j) => if j < runs.len() {
                copy_segments(&runs[j])
            } else {
                default_segments(line)
            },
            None => default_segments(line),
        };
        out.push(picked);
        i = i + 1;
    }
    out
}

/// The runs for a hunk's lines: all plain without a path; otherwise each
/// side of the hunk (see `split_diff_lines_for_highlighting`) is highlighted
/// as a whole file (`file_runs`) and each line takes its runs from its side
/// (`picked_runs`).
pub fn diff_line_runs(
    highlighter: &Highlighter,
    theme: SyntaxTheme,
    path: Option<&str>,
    lines: &Vec<String>,
    origins: &Vec<LineOrigin>,
) -> (r: Vec<StyledSegments>)
    requires
        origins@.len() == lines@.len(),
    ensures
        r@.len() == lines@.len(),
        path is None ==> forall|i: int| 0 <= i < lines@.len() ==> segments_view(#[trigger] r@[i]) == plain_runs(lines@[i]@),
        path matches Some(p) ==> ({
            let h = highlight_split(lines.deep_view(), origins@, lines@.len());
            runs_picked(r@, lines@, origins@, h.2, h.3, file_runs(p@, theme, h.0), file_runs(p@, theme, h.1))
        }),
{
    match path {
        None => {
            let mut out: Vec<StyledSegments> = Vec::new();
            let mut i: usize = 0;
            while i < lines.len()
                invariant
                    i <= lines@.len(),
                    out@.len() == i,
                    forall|k: int| 0 <= k < i ==> segments_view(#[trigger] out@[k]) == plain_runs(lines@[k]@),
                decreases lines.len() - i,
            {
                out.push(default_segments(lines[i].as_str()));
                i = i + 1;
            }
            out
        },
        Some(p) => {
            let sides = split_diff_lines_for_highlighting(lines, origins);
            proof {
                lemma_highlight_split_len(lines.deep_view(), origins@, lines@.len());
            }
            let old_runs = if sides.old_lines.len() == 0 {
                Vec::new()
            } else {
                highlighter.highlight_file(theme, p, &sides.old_lines)
            };
            let new_runs = if sides.new_lines.len() == 0 {
                Vec::new()
            } else {
                highlighter.highlight_file(theme, p, &sides.new_lines)
            };
            assert(runs_view(old_runs@) =~= file_runs(p@, theme, sides.old_lines.deep_view()));
            assert(runs_view(new_runs@) =~= file_runs(p@, theme, sides.new_lines.deep_view()));
            pick_side_runs(lines, origins, &sides, &old_runs, &new_runs)
        },
    }
}

// ---------------------------------------------------------------------------
// Context around hunks.
// ---------------------------------------------------------------------------

/// How many of a file's `n` lines fall in `start..=end` (none when the range
/// is empty or starts at 0).
pub open spec fn context_count(n: int, start: int, end: int) -> int {
    if start == 0 || start > end {
        0
    } else {
        let last = if end < n { end } else { n };
        if last >= start { last - start + 1 } else { 0 }
    }
}

/// The context row for line `line_no` of a file.
pub open spec fn context_line_is(
    l: DiffLine,
    lines: Seq<String>,
    runs: Seq<StyledSegments>,
    line_no: int,
    deleted: bool,
) -> bool {
    let index = line_no - 1;
    &&& l.origin == LineOrigin::Context
    &&& l.content@ == lines[index]@
    &&& l.old_lineno == Some(line_no as usize)
    &&& l.new_lineno == (if deleted { None } else { Some(line_no as usize) })
    &&& segments_view(l.segments) == (if index < runs.len() {
        segments_view(runs[index])
    } else {
        plain_runs(lines[index]@)
    })
}

/// Lines `start..=end` of a file (its lines and their runs), as context rows
/// numbered on both sides, or on the old side alone for a deleted file; lines
/// past the end of the file are left out.
pub fn context_lines(
    lines: &Vec<String>,
    runs: &Vec<StyledSegments>,
    start: usize,
    end: usize,
    deleted: bool,
) -> (r: Vec<DiffLine>)
    ensures
        r@.len() == context_count(lines@.len() as int, start as int, end as int),
        forall|k: int| 0 <= k < r@.len() ==> context_line_is(#[trigger] r@[k], lines@, runs@, start + k, deleted),
{
    let mut out: Vec<DiffLine> = Vec::new();
    if start == 0 || start > end {
        return out;
    }
    let last = if end < lines.len() { end } else { lines.len() };
    if start > last {
        return out;
    }
    let count = last - start + 1;
    let mut k: usize = 0;
    while k < count
        invariant
            1 <= start <= last,
            count == last - start + 1,
            last <= lines@.len(),
            last <= end,
            k <= count,
            out@.len() == k,
            forall|j: int| 0 <= j < out@.len() ==> context_line_is(#[trigger] out@[j], lines@, runs@, start + j, deleted),
        decreases count - k,
    {
        let line_no = start + k;
        let index = line_no - 1;
        let content = &lines[index];
        let segments = if index < runs.len() {
            copy_segments(&runs[index])
        } else {
            default_segments(content.as_str())
        };
        let line = DiffLine {
            origin: LineOrigin::Context,
            content: content.clone(),
            old_lineno: Some(line_no),
            new_lineno: if deleted { None } else { Some(line_no) },
            segments,
        };
        out.push(line);
        k = k + 1;
    }
    out
}

// ---------------------------------------------------------------------------
// What a changed file shows.
// ---------------------------------------------------------------------------

/// Untracked files larger than this (10 MiB) are listed without their lines.
pub const MAX_UNTRACKED_FILE_SIZE: u64 = 10485760;

/// Whether a changed file is listed without its lines for its size: an
/// untracked file over `MAX_UNTRACKED_FILE_SIZE` bytes.
pub fn too_large_to_show(untracked: bool, size: u64) -> (r: bool)
    ensures
        r == (untracked && size > MAX_UNTRACKED_FILE_SIZE),
{
    untracked && size > MAX_UNTRACKED_FILE_SIZE
}

/// The branch a commit is shown under when branches point at it: the
/// smallest of their names.
pub fn tip_branch_name(names: &Vec<String>) -> (r: Option<String>)
    ensures
        names@.len() == 0 ==> r is None,
        names@.len() > 0 ==> (r matches Some(n) && (exists|i: int| 0 <= i < names@.len() && names@[i]@ == n@) && forall|i: int|
            0 <= i < names@.len() ==> !text_less(#[trigger] names@[i]@, n@)),
{
    if names.len() == 0 {
        return None;
    }
    let mut best: usize = 0;
    let mut i: usize = 1;
    proof {
        crate::tui::app::lemma_text_less_order(names@[0]@, names@[0]@, names@[0]@);
    }
    while i < names.len()
        invariant
            0 < i <= names@.len(),
            best < i,
            forall|k: int| 0 <= k < i ==> !text_less(#[trigger] names@[k]@, names@[best as int]@),
        decreases names.len() - i,
    {
        if str_less(names[i].as_str(), names[best].as_str()) {
            proof {
                assert forall|k: int| 0 <= k <= i implies !text_less(#[trigger] names@[k]@, names@[i as int]@) by {
                    crate::tui::app::lemma_text_less_order(names@[k]@, names@[best as int]@, names@[i as int]@);
                    if k < i {
                        if text_less(names@[k]@, names@[i as int]@) {
                            crate::tui::app::lemma_text_less_order(names@[k]@, names@[i as int]@, names@[best as int]@);
                        }
                    }
                }
            }
            best = i;
        }
        i = i + 1;
    }
    Some(names[best].clone())
}

// ---------------------------------------------------------------------------
// Reading a patch.
// ---------------------------------------------------------------------------

pub open spec fn origin_of(marker: char) -> LineOrigin {
    if marker == '+' {
        LineOrigin::Addition
    } else if marker == '-' {
        LineOrigin::Deletion
    } else {
        LineOrigin::Context
    }
}

/// What a patch line's origin marker says: `+` an addition, `-` a deletion,
/// anything else context.
pub fn line_origin(marker: char) -> (r: LineOrigin)
    ensures
        r == origin_of(marker),
{
    if marker == '+' {
        LineOrigin::Addition
    } else if marker == '-' {
        LineOrigin::Deletion
    } else {
        LineOrigin::Context
    }
}

/// A hunk's header as shown: its text trimmed.
pub fn hunk_header_text(raw: &str) -> (r: String)
    ensures
        r@ == trim(raw@),
{
    crate::text::trim_string(raw)
}

/// The changed files of a diff, refused when there are none.
pub fn changed_files(files: Vec<DiffFile>) -> (r: Result<Vec<DiffFile>, &'static str>)
    ensures
        files@.len() == 0 ==> (r matches Err(m) && m@ == "no changes found for the selected diff"@),
        files@.len() > 0 ==> r == Ok::<Vec<DiffFile>, &'static str>(files),
{
    if files.len() == 0 {
        Err("no changes found for the selected diff")
    } else {
        Ok(files)
    }
}

} // verus!
