//! The rest of the screen as lines of styled text: the header, the side
//! lists, the status line, and the contents of the popups (help, drafts,
//! threads, search). Where they are placed is left to the caller.

use vstd::prelude::*;

use crate::diff::DiffSelection;
use crate::model::{anchor_text, open_threads, Question, QuestionStatus};
use crate::text::{decimal, push_decimal, push_str};
use crate::theme::{Color, Theme};
use crate::tui::app::{diff_file_path, is_diff, App};
use crate::text::{join, lines, split_lines};
use crate::tui::app::{
    annotation_target, note_at, open_thread_here, thread_here, visual_range, DiffBrowserState, DraftKind, FilePickerState,
    FocusPane, InputMode, PromptDraft, SearchState,
};
use crate::tui::render::{fitted_status, mode_words, truncated_start, truncate_from_start};
use crate::tui::app::{note_on, open_thread_on, path_at};
use crate::tui::diff_view::status_color;
use crate::diff::{status_char, working_tree_id, CommitInfo};
use crate::tui::render::{
    card_status_word, char_width, draft_words, line_col_from, line_view, lines_view, span, span_str, style_of, SpanStyle,
    StyledLine, StyledSpan,
};
use crate::tui::source_view::LineView;

verus! {

/// Text in the terminal's own colours.
pub open spec fn plain() -> SpanStyle {
    style_of(None, None, false)
}

// ---------------------------------------------------------------------------
// The header.
// ---------------------------------------------------------------------------

/// The path of the file the source view shows.
pub open spec fn shown_path(a: App) -> Seq<char> {
    if a.current_file < a.files@.len() {
        a.files@[a.current_file as int].path@
    } else {
        "No tracked files"@
    }
}

/// `n commit` or `n commits`.
pub open spec fn commit_count_text(n: nat) -> Seq<char> {
    decimal(n) + " commit"@ + if n == 1 { ""@ } else { "s"@ }
}

/// What the diff covers, in words.
pub open spec fn selection_words(s: Option<DiffSelection>) -> Seq<char> {
    match s {
        Some(DiffSelection::WorkingTree) => "working tree"@,
        Some(DiffSelection::CommitRange(ids)) => commit_count_text(ids@.len()),
        Some(DiffSelection::WorkingTreeAndCommits(ids)) => "working tree + "@ + commit_count_text(ids@.len()),
        None => "choose commits"@,
    }
}

/// The header row: a badge, the packet's title, then in diff mode what the
/// diff covers and the current file, else the counts of files, notes and
/// open threads and the file shown.
pub open spec fn header_spans(a: App, t: Theme) -> LineView {
    if is_diff(a) {
        let b = a.diff_browser;
        let path = match b {
            Some(b) => if b.current_file < b.files@.len() {
                diff_file_path(b.files@[b.current_file as int])
            } else {
                "Select a diff range"@
            },
            None => "Select a diff range"@,
        };
        let selection = match b {
            Some(b) => b.selection,
            None => None,
        };
        seq![
            (" COPANION DIFF "@, style_of(Some(t.bg), Some(t.accent), false)),
            ("  "@, plain()),
            (a.packet.title@, style_of(Some(t.text), None, true)),
            ("  "@, plain()),
            (selection_words(selection), style_of(Some(t.muted), None, false)),
            ("  "@, plain()),
            (path, style_of(Some(t.accent), None, false)),
        ]
    } else {
        seq![
            (" COPANION "@, style_of(Some(t.bg), Some(t.accent), false)),
            ("  "@, plain()),
            (a.packet.title@, style_of(Some(t.text), None, true)),
            ("  "@, plain()),
            (decimal(a.files@.len()) + " files  "@ + decimal(a.packet@.notes.len()) + " notes  "@ + decimal(
                open_threads(a.packet@.questions).len(),
            ) + " open questions"@, style_of(Some(t.muted), None, false)),
            ("  "@, plain()),
            (shown_path(a), style_of(Some(t.accent), None, false)),
        ]
    }
}

fn push_commit_count(out: &mut String, n: usize)
    ensures
        final(out)@ == old(out)@ + commit_count_text(n as nat),
{
    push_decimal(out, n);
    push_str(out, " commit");
    push_str(out, if n == 1 { "" } else { "s" });
    proof {
        reveal_strlit("");
    }
}

fn selection_text(s: Option<&DiffSelection>) -> (r: String)
    ensures
        r@ == selection_words(
            match s {
                Some(x) => Some(*x),
                None => None,
            },
        ),
{
    match s {
        Some(DiffSelection::WorkingTree) => "working tree".to_string(),
        Some(DiffSelection::CommitRange(ids)) => {
            let mut out = String::new();
            push_commit_count(&mut out, ids.len());
            out
        },
        Some(DiffSelection::WorkingTreeAndCommits(ids)) => {
            let mut out = "working tree + ".to_string();
            push_commit_count(&mut out, ids.len());
            out
        },
        None => "choose commits".to_string(),
    }
}

/// The header row (see `header_spans`).
pub fn header_line(app: &App, theme: &Theme) -> (r: StyledLine)
    ensures
        line_view(r) == header_spans(*app, *theme),
{
    let mut spans: StyledLine = Vec::new();
    if app.is_diff_mode() {
        let path = match app.current_diff_path() {
            Some(p) => p,
            None => "Select a diff range",
        };
        let selection = selection_text(app.current_diff_selection());
        spans.push(span_str(" COPANION DIFF ", Some(theme.bg), Some(theme.accent), false));
        spans.push(span_str("  ", None, None, false));
        spans.push(span_str(app.packet.title.as_str(), Some(theme.text), None, true));
        spans.push(span_str("  ", None, None, false));
        spans.push(span(selection, Some(theme.muted), None, false));
        spans.push(span_str("  ", None, None, false));
        spans.push(span_str(path, Some(theme.accent), None, false));
    } else {
        let path = match app.current_file() {
            Some(f) => f.path.as_str(),
            None => "No tracked files",
        };
        let mut counts = String::new();
        push_decimal(&mut counts, app.files.len());
        push_str(&mut counts, " files  ");
        push_decimal(&mut counts, app.packet.notes.len());
        push_str(&mut counts, " notes  ");
        push_decimal(&mut counts, app.packet.open_questions().len());
        push_str(&mut counts, " open questions");
        spans.push(span_str(" COPANION ", Some(theme.bg), Some(theme.accent), false));
        spans.push(span_str("  ", None, None, false));
        spans.push(span_str(app.packet.title.as_str(), Some(theme.text), None, true));
        spans.push(span_str("  ", None, None, false));
        spans.push(span(counts, Some(theme.muted), None, false));
        spans.push(span_str("  ", None, None, false));
        spans.push(span_str(path, Some(theme.accent), None, false));
    }
    assert(line_view(spans) =~= header_spans(*app, *theme));
    spans
}


// ---------------------------------------------------------------------------
// Help.
// ---------------------------------------------------------------------------

/// A row of the help: a sentence, a blank row, a heading, or a key with what
/// it does.
#[derive(Debug, Clone, Copy)]
pub enum HelpItem {
    Text(&'static str),
    Blank,
    Heading(&'static str),
    Key(&'static str, &'static str),
}

pub enum HelpItemView {
    Text(Seq<char>),
    Blank,
    Heading(Seq<char>),
    Key(Seq<char>, Seq<char>),
}

pub open spec fn help_item_view(i: HelpItem) -> HelpItemView {
    match i {
        HelpItem::Text(s) => HelpItemView::Text(s@),
        HelpItem::Blank => HelpItemView::Blank,
        HelpItem::Heading(s) => HelpItemView::Heading(s@),
        HelpItem::Key(k, d) => HelpItemView::Key(k@, d@),
    }
}

/// The help, row by row.
pub open spec fn help_table() -> Seq<HelpItemView> {
    seq![
        HelpItemView::Text("Source mode shows tracked files with inline notes. Diff mode adds a commit selector and unified patch browser."@),
        HelpItemView::Blank,
        HelpItemView::Heading("Shared keys"@),
        HelpItemView::Key("Tab"@, "toggle focus between the sidebar and the main view"@),
        HelpItemView::Key("j / k"@, "move through the selected pane"@),
        HelpItemView::Key("h / l"@, "switch files from the source pane"@),
        HelpItemView::Key("[ / ]"@, "jump to the previous or next note or thread"@),
        HelpItemView::Key("PageUp / PageDown"@, "move by one viewport"@),
        HelpItemView::Key("Ctrl-U / Ctrl-D"@, "move by half a viewport"@),
        HelpItemView::Key("v / V"@, "start a visual selection on anchorable lines"@),
        HelpItemView::Key("a"@, "open or continue the thread under the cursor"@),
        HelpItemView::Key("Enter / Space"@, "open the thread under the cursor in a readonly viewer"@),
        HelpItemView::Key("c"@, "close the open thread under the cursor"@),
        HelpItemView::Key("o"@, "reopen the closed thread under the cursor"@),
        HelpItemView::Key("n"@, "open a NOTE draft at the cursor or selected range"@),
        HelpItemView::Key("i"@, "edit the thread under the cursor, or fall back to the note"@),
        HelpItemView::Key("Esc"@, "leave visual mode or close the current popup"@),
        HelpItemView::Key("I"@, "edit the note under the cursor, or fall back to the thread"@),
        HelpItemView::Key("/"@, "fuzzy-search notes and threads, then jump"@),
        HelpItemView::Key("dd"@, "delete the current annotation, or the tracked file in source mode"@),
        HelpItemView::Key("Ctrl-O"@, "open the current draft in $VISUAL or $EDITOR"@),
        HelpItemView::Key("s"@, "save the packet to disk"@),
        HelpItemView::Blank,
        HelpItemView::Heading("Source mode"@),
        HelpItemView::Key("f"@, "open the fuzzy file picker and add a tracked file"@),
        HelpItemView::Key("R"@, "reload tracked file contents from disk"@),
        HelpItemView::Key("y"@, "copy the open-question export without quitting"@),
        HelpItemView::Key("x"@, "save, export open questions, and quit"@),
        HelpItemView::Blank,
        HelpItemView::Heading("Diff mode"@),
        HelpItemView::Key("--diff"@, "start in diff mode instead of the tracked-source browser"@),
        HelpItemView::Key("Space"@, "toggle a contiguous commit range, or expand/collapse hidden diff context"@),
        HelpItemView::Key("Enter"@, "open the selected diff range, or expand/collapse hidden context"@),
        HelpItemView::Key("Esc"@, "in diff mode, return to the commit selector"@),
        HelpItemView::Key("m"@, "in diff mode, reopen the commit selector"@),
        HelpItemView::Key("r"@, "mark the current diff file reviewed and jump next"@),
        HelpItemView::Key("y"@, "copy a diff-review export with selected commits and your comments"@),
        HelpItemView::Key("x"@, "save, export the diff review, and quit"@),
        HelpItemView::Key("q"@, "quit; press twice if there are unsaved changes"@),
        HelpItemView::Key("?"@, "toggle this help"@),
    ]
}

pub fn help_items() -> (r: Vec<HelpItem>)
    ensures
        r@.map_values(|i: HelpItem| help_item_view(i)) == help_table(),
{
    let mut items: Vec<HelpItem> = Vec::new();
    items.push(HelpItem::Text("Source mode shows tracked files with inline notes. Diff mode adds a commit selector and unified patch browser."));
    items.push(HelpItem::Blank);
    items.push(HelpItem::Heading("Shared keys"));
    items.push(HelpItem::Key("Tab", "toggle focus between the sidebar and the main view"));
    items.push(HelpItem::Key("j / k", "move through the selected pane"));
    items.push(HelpItem::Key("h / l", "switch files from the source pane"));
    items.push(HelpItem::Key("[ / ]", "jump to the previous or next note or thread"));
    items.push(HelpItem::Key("PageUp / PageDown", "move by one viewport"));
    items.push(HelpItem::Key("Ctrl-U / Ctrl-D", "move by half a viewport"));
    items.push(HelpItem::Key("v / V", "start a visual selection on anchorable lines"));
    items.push(HelpItem::Key("a", "open or continue the thread under the cursor"));
    items.push(HelpItem::Key("Enter / Space", "open the thread under the cursor in a readonly viewer"));
    items.push(HelpItem::Key("c", "close the open thread under the cursor"));
    items.push(HelpItem::Key("o", "reopen the closed thread under the cursor"));
    items.push(HelpItem::Key("n", "open a NOTE draft at the cursor or selected range"));
    items.push(HelpItem::Key("i", "edit the thread under the cursor, or fall back to the note"));
    items.push(HelpItem::Key("Esc", "leave visual mode or close the current popup"));
    items.push(HelpItem::Key("I", "edit the note under the cursor, or fall back to the thread"));
    items.push(HelpItem::Key("/", "fuzzy-search notes and threads, then jump"));
    items.push(HelpItem::Key("dd", "delete the current annotation, or the tracked file in source mode"));
    items.push(HelpItem::Key("Ctrl-O", "open the current draft in $VISUAL or $EDITOR"));
    items.push(HelpItem::Key("s", "save the packet to disk"));
    items.push(HelpItem::Blank);
    items.push(HelpItem::Heading("Source mode"));
    items.push(HelpItem::Key("f", "open the fuzzy file picker and add a tracked file"));
    items.push(HelpItem::Key("R", "reload tracked file contents from disk"));
    items.push(HelpItem::Key("y", "copy the open-question export without quitting"));
    items.push(HelpItem::Key("x", "save, export open questions, and quit"));
    items.push(HelpItem::Blank);
    items.push(HelpItem::Heading("Diff mode"));
    items.push(HelpItem::Key("--diff", "start in diff mode instead of the tracked-source browser"));
    items.push(HelpItem::Key("Space", "toggle a contiguous commit range, or expand/collapse hidden diff context"));
    items.push(HelpItem::Key("Enter", "open the selected diff range, or expand/collapse hidden context"));
    items.push(HelpItem::Key("Esc", "in diff mode, return to the commit selector"));
    items.push(HelpItem::Key("m", "in diff mode, reopen the commit selector"));
    items.push(HelpItem::Key("r", "mark the current diff file reviewed and jump next"));
    items.push(HelpItem::Key("y", "copy a diff-review export with selected commits and your comments"));
    items.push(HelpItem::Key("x", "save, export the diff review, and quit"));
    items.push(HelpItem::Key("q", "quit; press twice if there are unsaved changes"));
    items.push(HelpItem::Key("?", "toggle this help"));
    assert(items@.map_values(|i: HelpItem| help_item_view(i)) =~= help_table());
    items
}

/// `s` padded with spaces on the right to `n` characters.
pub open spec fn pad_right(s: Seq<char>, n: nat) -> Seq<char> {
    if s.len() < n {
        s + crate::tui::source_view::spaces((n - s.len()) as nat)
    } else {
        s
    }
}

/// A help row: sentences in the text colour, headings bold in the accent
/// colour, keys bold in the accent colour in a column 16 wide, then what
/// they do.
pub open spec fn help_item_line(i: HelpItemView, t: Theme) -> LineView {
    match i {
        HelpItemView::Text(s) => seq![(s, style_of(Some(t.text), None, false))],
        HelpItemView::Blank => Seq::empty(),
        HelpItemView::Heading(s) => seq![(s, style_of(Some(t.accent), None, true))],
        HelpItemView::Key(k, d) => seq![(pad_right(k, 16), style_of(Some(t.accent), None, true)), (d, style_of(Some(t.text), None, false))],
    }
}

fn padded_right(s: &str, n: usize) -> (r: String)
    ensures
        r@ == pad_right(s@, n as nat),
{
    let len = crate::text::chars_of(s).len();
    let mut out = s.to_string();
    if len < n {
        crate::tui::source_view::push_spaces(&mut out, n - len);
    }
    out
}

fn help_item_spans(i: HelpItem, theme: &Theme) -> (r: StyledLine)
    ensures
        line_view(r) == help_item_line(help_item_view(i), *theme),
{
    let mut spans: StyledLine = Vec::new();
    match i {
        HelpItem::Text(s) => spans.push(span_str(s, Some(theme.text), None, false)),
        HelpItem::Blank => {},
        HelpItem::Heading(s) => spans.push(span_str(s, Some(theme.accent), None, true)),
        HelpItem::Key(k, d) => {
            spans.push(span(padded_right(k, 16), Some(theme.accent), None, true));
            spans.push(span_str(d, Some(theme.text), None, false));
        },
    }
    assert(line_view(spans) =~= help_item_line(help_item_view(i), *theme));
    spans
}

/// The rows of the help popup.
pub fn help_lines(theme: &Theme) -> (r: Vec<StyledLine>)
    ensures
        lines_view(r@) == help_table().map_values(|i: HelpItemView| help_item_line(i, *theme)),
{
    let items = help_items();
    let ghost f = |i: HelpItemView| help_item_line(i, *theme);
    let ghost iv = items@.map_values(|i: HelpItem| help_item_view(i));
    let mut out: Vec<StyledLine> = Vec::new();
    let mut k: usize = 0;
    while k < items.len()
        invariant
            k <= items@.len(),
            iv == items@.map_values(|i: HelpItem| help_item_view(i)),
            f == (|i: HelpItemView| help_item_line(i, *theme)),
            lines_view(out@) == iv.take(k as int).map_values(f),
        decreases items.len() - k,
    {
        let l = help_item_spans(items[k], theme);
        let ghost before = lines_view(out@);
        out.push(l);
        assert(lines_view(out@) =~= before.push(f(iv[k as int])));
        assert(iv.take(k + 1).map_values(f) =~= iv.take(k as int).map_values(f).push(f(iv[k as int])));
        k = k + 1;
    }
    assert(iv.take(k as int) =~= iv);
    out
}


// ---------------------------------------------------------------------------
// The thread viewer.
// ---------------------------------------------------------------------------

/// The viewer's title.
pub fn thread_view_title(diff_mode: bool) -> (r: &'static str)
    ensures
        r@ == if diff_mode { " Comment Thread "@ } else { " Question Thread "@ },
{
    if diff_mode {
        " Comment Thread "
    } else {
        " Question Thread "
    }
}

/// The two rows above a thread in the viewer: its file and anchor, its
/// status and number of turns.
pub open spec fn thread_summary(q: crate::model::QuestionView, t: Theme) -> Seq<LineView> {
    seq![
        seq![
            ("File: "@, style_of(Some(t.muted), None, false)),
            (q.path, style_of(Some(t.text), None, false)),
            ("  "@, plain()),
            ("Anchor: "@, style_of(Some(t.muted), None, false)),
            (match q.anchor {
                Some(a) => anchor_text(a),
                None => "none"@,
            }, style_of(Some(t.text), None, false)),
        ],
        seq![
            ("Status: "@, style_of(Some(t.muted), None, false)),
            (card_status_word(q.status), style_of(Some(t.accent), None, false)),
            ("  "@, plain()),
            ("Turns: "@, style_of(Some(t.muted), None, false)),
            (decimal(q.conversation.len() + 1), style_of(Some(t.text), None, false)),
        ],
    ]
}

pub fn thread_summary_lines(question: &Question, theme: &Theme) -> (r: Vec<StyledLine>)
    requires
        question@.conversation.len() < usize::MAX,
    ensures
        lines_view(r@) == thread_summary(question@, *theme),
{
    let anchor = match question.anchor {
        Some(a) => a.display(),
        None => "none".to_string(),
    };
    let mut first: StyledLine = Vec::new();
    first.push(span_str("File: ", Some(theme.muted), None, false));
    first.push(span_str(question.path.as_str(), Some(theme.text), None, false));
    first.push(span_str("  ", None, None, false));
    first.push(span_str("Anchor: ", Some(theme.muted), None, false));
    first.push(span(anchor, Some(theme.text), None, false));
    let mut turns = String::new();
    push_decimal(&mut turns, question.turn_count());
    let mut second: StyledLine = Vec::new();
    second.push(span_str("Status: ", Some(theme.muted), None, false));
    second.push(span_str(crate::tui::render::question_status_label(question.status), Some(theme.accent), None, false));
    second.push(span_str("  ", None, None, false));
    second.push(span_str("Turns: ", Some(theme.muted), None, false));
    second.push(span(turns, Some(theme.text), None, false));
    let mut out: Vec<StyledLine> = Vec::new();
    out.push(first);
    out.push(second);
    proof {
        let q = question@;
        assert(line_view(first) =~= thread_summary(q, *theme)[0]);
        assert(line_view(second) =~= thread_summary(q, *theme)[1]);
        assert(lines_view(out@) =~= thread_summary(q, *theme));
    }
    out
}

/// The keys row under a thread in the viewer.
pub open spec fn thread_view_keys(t: Theme) -> LineView {
    seq![
        ("j/k"@, style_of(Some(t.accent), None, false)),
        (" scroll  "@, plain()),
        ("Ctrl-U/D"@, style_of(Some(t.accent), None, false)),
        (" half-page  "@, plain()),
        ("PgUp/PgDn"@, style_of(Some(t.accent), None, false)),
        (" page  "@, plain()),
        ("Enter/Esc"@, style_of(Some(t.danger), None, false)),
        (" close"@, plain()),
    ]
}

pub fn thread_view_footer(theme: &Theme) -> (r: StyledLine)
    ensures
        line_view(r) == thread_view_keys(*theme),
{
    let mut spans: StyledLine = Vec::new();
    spans.push(span_str("j/k", Some(theme.accent), None, false));
    spans.push(span_str(" scroll  ", None, None, false));
    spans.push(span_str("Ctrl-U/D", Some(theme.accent), None, false));
    spans.push(span_str(" half-page  ", None, None, false));
    spans.push(span_str("PgUp/PgDn", Some(theme.accent), None, false));
    spans.push(span_str(" page  ", None, None, false));
    spans.push(span_str("Enter/Esc", Some(theme.danger), None, false));
    spans.push(span_str(" close", None, None, false));
    assert(line_view(spans) =~= thread_view_keys(*theme));
    spans
}

/// The rows of `lines` from `skip` on, at most `count` of them.
pub open spec fn window<T>(s: Seq<T>, skip: nat, count: nat) -> Seq<T> {
    let start = if skip <= s.len() { skip } else { s.len() };
    let end = if start + count <= s.len() { start + count } else { s.len() };
    s.subrange(start as int, end as int)
}

/// The rows that fit a viewport `count` rows high scrolled down by `skip`.
pub fn visible_lines(lines: Vec<StyledLine>, skip: usize, count: usize) -> (r: Vec<StyledLine>)
    ensures
        lines_view(r@) == window(lines_view(lines@), skip as nat, count as nat),
{
    let ghost lv = lines_view(lines@);
    let mut rest = lines;
    let mut out: Vec<StyledLine> = Vec::new();
    let ghost mut taken: int = 0;
    let ghost start: int = if skip <= lv.len() { skip as int } else { lv.len() as int };
    let ghost end: int = if start + count <= lv.len() { start + count } else { lv.len() as int };
    let mut seen: usize = 0;
    while rest.len() > 0
        invariant
            0 <= taken <= lv.len(),
            seen as int == if taken <= skip { taken } else { skip as int },
            lines_view(rest@) == lv.skip(taken),
            start == (if skip <= lv.len() { skip as int } else { lv.len() as int }),
            end == (if start + count <= lv.len() { start + count } else { lv.len() as int }),
            taken <= start ==> out@.len() == 0,
            taken > start ==> lines_view(out@) == lv.subrange(start, if taken <= end { taken } else { end }),
        decreases rest.len(),
    {
        let ghost before = lines_view(rest@);
        let l = rest.remove(0);
        proof {
            assert(before.len() == lv.len() - taken);
            assert(line_view(l) == before[0]);
            assert(before[0] == lv[taken]);
            assert(lines_view(rest@) =~= before.drop_first());
            assert(before.drop_first() =~= lv.skip(taken + 1));
        }
        if seen < skip {
            seen = seen + 1;
        } else if out.len() < count {
            let ghost o = lines_view(out@);
            out.push(l);
            assert(lines_view(out@) =~= o.push(lv[taken]));
        }
        proof {
            if taken >= start && taken < end {
                assert(lv.subrange(start, taken + 1) =~= lv.subrange(start, taken).push(lv[taken]));
            }
            taken = taken + 1;
        }
    }
    proof {
        if lv.len() <= start {
            assert(window(lv, skip as nat, count as nat) =~= Seq::<LineView>::empty());
        }
    }
    out
}

// ---------------------------------------------------------------------------
// Drafts.
// ---------------------------------------------------------------------------

/// A draft popup's title and border colour: a comment or a question draft
/// has the question colour, a note draft the note colour.
pub fn draft_title(kind: DraftKind, diff_mode: bool, theme: &Theme) -> (r: (&'static str, Color))
    ensures
        r.0@ == match kind {
            DraftKind::Question => if diff_mode { " Comment Draft "@ } else { " Question Draft "@ },
            DraftKind::Note => " Note Draft "@,
        },
        r.1 == match kind {
            DraftKind::Question => theme.question_border,
            DraftKind::Note => theme.note_border,
        },
{
    match kind {
        DraftKind::Question => if diff_mode {
            (" Comment Draft ", theme.question_border)
        } else {
            (" Question Draft ", theme.question_border)
        },
        DraftKind::Note => (" Note Draft ", theme.note_border),
    }
}

/// The title of a draft's text area.
pub fn draft_area_title(kind: DraftKind, diff_mode: bool) -> (r: &'static str)
    ensures
        r@ == match kind {
            DraftKind::Question => if diff_mode { " Comment "@ } else { " Question "@ },
            DraftKind::Note => " Note "@,
        },
{
    match kind {
        DraftKind::Question => if diff_mode {
            " Comment "
        } else {
            " Question "
        },
        DraftKind::Note => " Note ",
    }
}

/// The two rows above a draft: what it is and its file, its anchor and the
/// notes it links.
pub open spec fn draft_summary(d: PromptDraft, diff_mode: bool, t: Theme) -> Seq<LineView> {
    seq![
        seq![
            ("Mode: "@, style_of(Some(t.muted), None, false)),
            (draft_words(d.kind, d.target, diff_mode), style_of(Some(t.accent), None, false)),
            ("  "@, plain()),
            ("File: "@, style_of(Some(t.muted), None, false)),
            (d.path@, style_of(Some(t.text), None, false)),
        ],
        seq![
            ("Anchor: "@, style_of(Some(t.muted), None, false)),
            (anchor_text(d.anchor), style_of(Some(t.text), None, false)),
            ("  "@, plain()),
            ("Linked notes: "@, style_of(Some(t.muted), None, false)),
            (if d.related_note_ids@.len() == 0 {
                "none"@
            } else {
                join(d.related_note_ids.deep_view(), ", "@)
            }, style_of(Some(t.text), None, false)),
        ],
    ]
}

pub fn draft_summary_lines(draft: &PromptDraft, diff_mode: bool, theme: &Theme) -> (r: Vec<StyledLine>)
    ensures
        lines_view(r@) == draft_summary(*draft, diff_mode, *theme),
{
    let mut first: StyledLine = Vec::new();
    first.push(span_str("Mode: ", Some(theme.muted), None, false));
    first.push(span(crate::tui::render::draft_mode_label(draft, diff_mode), Some(theme.accent), None, false));
    first.push(span_str("  ", None, None, false));
    first.push(span_str("File: ", Some(theme.muted), None, false));
    first.push(span_str(draft.path.as_str(), Some(theme.text), None, false));
    let linked = if draft.related_note_ids.len() == 0 {
        "none".to_string()
    } else {
        crate::text::join_strings(&draft.related_note_ids, ", ")
    };
    let mut second: StyledLine = Vec::new();
    second.push(span_str("Anchor: ", Some(theme.muted), None, false));
    second.push(span(draft.anchor.display(), Some(theme.text), None, false));
    second.push(span_str("  ", None, None, false));
    second.push(span_str("Linked notes: ", Some(theme.muted), None, false));
    second.push(span(linked, Some(theme.text), None, false));
    let mut out: Vec<StyledLine> = Vec::new();
    out.push(first);
    out.push(second);
    proof {
        assert(line_view(first) =~= draft_summary(*draft, diff_mode, *theme)[0]);
        assert(line_view(second) =~= draft_summary(*draft, diff_mode, *theme)[1]);
        assert(lines_view(out@) =~= draft_summary(*draft, diff_mode, *theme));
    }
    out
}

/// The keys row under a draft.
pub open spec fn draft_keys(t: Theme) -> LineView {
    seq![
        ("Ctrl-S"@, style_of(Some(t.success), None, false)),
        (" save  "@, plain()),
        ("Ctrl-O"@, style_of(Some(t.accent), None, false)),
        (" external editor  "@, plain()),
        ("Esc"@, style_of(Some(t.danger), None, false)),
        (" close"@, plain()),
    ]
}

pub fn draft_footer(theme: &Theme) -> (r: StyledLine)
    ensures
        line_view(r) == draft_keys(*theme),
{
    let mut spans: StyledLine = Vec::new();
    spans.push(span_str("Ctrl-S", Some(theme.success), None, false));
    spans.push(span_str(" save  ", None, None, false));
    spans.push(span_str("Ctrl-O", Some(theme.accent), None, false));
    spans.push(span_str(" external editor  ", None, None, false));
    spans.push(span_str("Esc", Some(theme.danger), None, false));
    spans.push(span_str(" close", None, None, false));
    assert(line_view(spans) =~= draft_keys(*theme));
    spans
}

/// The rows of the popup asking whether to save a draft before closing it.
pub open spec fn draft_confirm(t: Theme) -> Seq<LineView> {
    seq![
        seq![("Save the current draft before closing?"@, style_of(Some(t.text), None, true))],
        Seq::empty(),
        seq![
            ("y"@, style_of(Some(t.success), None, false)),
            (" save it  "@, plain()),
            ("n"@, style_of(Some(t.danger), None, false)),
            (" discard it  "@, plain()),
            ("Esc"@, style_of(Some(t.accent), None, false)),
            (" keep editing"@, plain()),
        ],
    ]
}

pub fn draft_confirm_lines(theme: &Theme) -> (r: Vec<StyledLine>)
    ensures
        lines_view(r@) == draft_confirm(*theme),
{
    let mut first: StyledLine = Vec::new();
    first.push(span_str("Save the current draft before closing?", Some(theme.text), None, true));
    let blank: StyledLine = Vec::new();
    let mut keys: StyledLine = Vec::new();
    keys.push(span_str("y", Some(theme.success), None, false));
    keys.push(span_str(" save it  ", None, None, false));
    keys.push(span_str("n", Some(theme.danger), None, false));
    keys.push(span_str(" discard it  ", None, None, false));
    keys.push(span_str("Esc", Some(theme.accent), None, false));
    keys.push(span_str(" keep editing", None, None, false));
    let mut out: Vec<StyledLine> = Vec::new();
    out.push(first);
    out.push(blank);
    out.push(keys);
    proof {
        assert(line_view(first) =~= draft_confirm(*theme)[0]);
        assert(line_view(blank) =~= draft_confirm(*theme)[1]);
        assert(line_view(keys) =~= draft_confirm(*theme)[2]);
        assert(lines_view(out@) =~= draft_confirm(*theme));
    }
    out
}

// ---------------------------------------------------------------------------
// Text areas.
// ---------------------------------------------------------------------------

/// The rows of a text area: a muted prompt when it is empty, else each line
/// of its text as it is.
pub open spec fn text_area(text: Seq<char>, t: Theme) -> Seq<LineView> {
    if text.len() == 0 {
        seq![seq![("Type here..."@, style_of(Some(t.muted), None, false))]]
    } else {
        lines(text).map_values(|l: Seq<char>| seq![(l, plain())])
    }
}

pub fn text_area_lines(text: &str, theme: &Theme) -> (r: Vec<StyledLine>)
    ensures
        lines_view(r@) == text_area(text@, *theme),
{
    let mut out: Vec<StyledLine> = Vec::new();
    if crate::text::chars_of(text).len() == 0 {
        let l = crate::tui::render::line_of1(span_str("Type here...", Some(theme.muted), None, false));
        out.push(l);
        assert(lines_view(out@) =~= text_area(text@, *theme));
        return out;
    }
    let parts = split_lines(text);
    let ghost pv = parts.deep_view();
    let ghost f = |l: Seq<char>| seq![(l, plain())];
    let mut i: usize = 0;
    while i < parts.len()
        invariant
            i <= pv.len(),
            pv == parts.deep_view(),
            pv == lines(text@),
            f == (|l: Seq<char>| seq![(l, plain())]),
            lines_view(out@) == pv.take(i as int).map_values(f),
        decreases parts.len() - i,
    {
        let l = crate::tui::render::line_of1(span(parts[i].clone(), None, None, false));
        let ghost before = lines_view(out@);
        out.push(l);
        assert(lines_view(out@) =~= before.push(f(pv[i as int])));
        assert(pv.take(i + 1).map_values(f) =~= pv.take(i as int).map_values(f).push(f(pv[i as int])));
        i = i + 1;
    }
    assert(pv.take(i as int) =~= pv);
    out
}

/// The smaller of two cells.
pub open spec fn min_u16(a: u16, b: u16) -> u16 {
    if a <= b { a } else { b }
}

pub open spec fn sat_add_u16(a: u16, b: u16) -> u16 {
    if a + b <= u16::MAX { (a + b) as u16 } else { u16::MAX }
}

pub open spec fn sat_sub_u16(a: u16, b: u16) -> u16 {
    if a >= b { (a - b) as u16 } else { 0 }
}

/// Where the terminal cursor goes in a bordered text area at (`x`, `y`),
/// `width` by `height`: the text's line and column inside the border, kept
/// inside it.
pub open spec fn cursor_cell(x: u16, y: u16, width: u16, height: u16, text: Seq<char>, cursor: usize) -> (u16, u16) {
    let ix = sat_add_u16(x, 1);
    let iy = sat_add_u16(y, 1);
    let iw = sat_sub_u16(width, 2);
    let ih = sat_sub_u16(height, 2);
    let (line, col) = line_col_from(text, cursor as int, 0, 0);
    (
        min_u16(sat_add_u16(ix, col as u16), (ix + sat_sub_u16(iw, 1)) as u16),
        min_u16(sat_add_u16(iy, line as u16), (iy + sat_sub_u16(ih, 1)) as u16),
    )
}

/// Where the terminal cursor goes (see `cursor_cell`).
pub fn text_cursor_position(x: u16, y: u16, width: u16, height: u16, text: &str, cursor: usize) -> (r: (u16, u16))
    requires
        text@.len() * 3 < usize::MAX,
        x as int + width <= u16::MAX,
        y as int + height <= u16::MAX,
    ensures
        r == cursor_cell(x, y, width, height, text@, cursor),
{
    let ix = x.saturating_add(1);
    let iy = y.saturating_add(1);
    let iw = width.saturating_sub(2);
    let ih = height.saturating_sub(2);
    let (line, col) = crate::tui::render::line_col_at(text, cursor);
    let cx = ix.saturating_add(col as u16);
    let cy = iy.saturating_add(line as u16);
    let right = ix + iw.saturating_sub(1);
    let bottom = iy + ih.saturating_sub(1);
    (if cx <= right { cx } else { right }, if cy <= bottom { cy } else { bottom })
}


// ---------------------------------------------------------------------------
// The status line.
// ---------------------------------------------------------------------------

/// The thread under the cursor is closed or archived.
pub open spec fn closed_thread_here(a: App) -> bool {
    thread_here(a) matches Some(i) && a.packet@.questions[i].status != QuestionStatus::Open
}

/// The keys the source-mode status line offers in each mode.
pub open spec fn source_hints(a: App) -> Seq<char> {
    match a.input_mode {
        InputMode::Normal => if open_thread_here(a) is Some {
            "Tab focus  j/k move  [] jump  Enter/Space view  v select  dd delete  a ask or continue  c close  R reload  n note  i edit  f add file  / search"@
        } else if closed_thread_here(a) {
            "Tab focus  j/k move  [] jump  Enter/Space view  v select  dd delete  a ask or continue  o reopen  R reload  n note  i edit  f add file  / search"@
        } else {
            "Tab focus  j/k move  [] jump  Enter/Space view  v select  dd delete  a ask or continue  R reload  n note  i edit  f add file  / search"@
        },
        InputMode::Visual => "j/k move  a question  n note  Esc cancel  v finish selection"@,
        InputMode::Draft => "Type the draft  Ctrl-S save  Ctrl-O edit in $EDITOR  Esc close"@,
        InputMode::DraftConfirm => "Save this draft before closing? y yes  n no  Esc back"@,
        InputMode::ThreadView => "j/k scroll  Ctrl-U/Ctrl-D half-page  PageUp/PageDown page  Enter/Esc close"@,
        InputMode::FilePicker => "Type to fuzzy-search files  Enter add  j/k move  Esc cancel"@,
        InputMode::Search => "Type to fuzzy-search notes and questions  Enter jump  j/k move  Esc cancel"@,
        InputMode::Help => "q or Esc closes help"@,
        InputMode::CommitSelect => "j/k move  Space toggle range  Enter open diff  q quit"@,
    }
}

/// The keys the diff-mode status line offers in each mode.
pub open spec fn diff_hints(a: App) -> Seq<char> {
    match a.input_mode {
        InputMode::CommitSelect => "j/k move  Space toggle range  Enter open diff  q quit"@,
        InputMode::Help => "q or Esc closes help"@,
        InputMode::Normal => if open_thread_here(a) is Some {
            "Tab focus  j/k move  [] jump  v select  Enter/Space view thread  dd delete  a comment or reply  c close  n note  i edit  / search  r review+next  Esc/m commits"@
        } else if closed_thread_here(a) {
            "Tab focus  j/k move  [] jump  v select  Enter/Space view thread  dd delete  a comment or reply  o reopen  n note  i edit  / search  r review+next  Esc/m commits"@
        } else {
            "Tab focus  j/k move  [] jump  v select  Enter/Space context  dd delete  a comment or reply  n note  i edit  / search  r review+next  Esc/m commits"@
        },
        InputMode::Visual => "j/k move  a comment  n note  Esc cancel  v finish selection"@,
        InputMode::Draft => "Type the draft  Ctrl-S save  Ctrl-O edit in $EDITOR  Esc close"@,
        InputMode::DraftConfirm => "Save this draft before closing? y yes  n no  Esc back"@,
        InputMode::ThreadView => "j/k scroll  Ctrl-U/Ctrl-D half-page  PageUp/PageDown page  Enter/Esc close"@,
        InputMode::FilePicker => "Type to fuzzy-search files  Enter add  j/k move  Esc cancel"@,
        InputMode::Search => "Type to fuzzy-search review notes and comment threads  Enter jump  j/k move  Esc cancel"@,
    }
}

fn closed_thread_under_cursor(app: &App) -> (r: bool)
    ensures
        r == closed_thread_here(*app),
{
    match app.current_question() {
        Some(q) => q.status != QuestionStatus::Open,
        None => false,
    }
}

fn source_hint_text(app: &App) -> (r: &'static str)
    ensures
        r@ == source_hints(*app),
{
    match app.input_mode {
        InputMode::Normal => if app.current_open_question().is_some() {
            "Tab focus  j/k move  [] jump  Enter/Space view  v select  dd delete  a ask or continue  c close  R reload  n note  i edit  f add file  / search"
        } else if closed_thread_under_cursor(app) {
            "Tab focus  j/k move  [] jump  Enter/Space view  v select  dd delete  a ask or continue  o reopen  R reload  n note  i edit  f add file  / search"
        } else {
            "Tab focus  j/k move  [] jump  Enter/Space view  v select  dd delete  a ask or continue  R reload  n note  i edit  f add file  / search"
        },
        InputMode::Visual => "j/k move  a question  n note  Esc cancel  v finish selection",
        InputMode::Draft => "Type the draft  Ctrl-S save  Ctrl-O edit in $EDITOR  Esc close",
        InputMode::DraftConfirm => "Save this draft before closing? y yes  n no  Esc back",
        InputMode::ThreadView => "j/k scroll  Ctrl-U/Ctrl-D half-page  PageUp/PageDown page  Enter/Esc close",
        InputMode::FilePicker => "Type to fuzzy-search files  Enter add  j/k move  Esc cancel",
        InputMode::Search => "Type to fuzzy-search notes and questions  Enter jump  j/k move  Esc cancel",
        InputMode::Help => "q or Esc closes help",
        InputMode::CommitSelect => "j/k move  Space toggle range  Enter open diff  q quit",
    }
}

fn diff_hint_text(app: &App) -> (r: &'static str)
    ensures
        r@ == diff_hints(*app),
{
    match app.input_mode {
        InputMode::CommitSelect => "j/k move  Space toggle range  Enter open diff  q quit",
        InputMode::Help => "q or Esc closes help",
        InputMode::Normal => if app.current_open_question().is_some() {
            "Tab focus  j/k move  [] jump  v select  Enter/Space view thread  dd delete  a comment or reply  c close  n note  i edit  / search  r review+next  Esc/m commits"
        } else if closed_thread_under_cursor(app) {
            "Tab focus  j/k move  [] jump  v select  Enter/Space view thread  dd delete  a comment or reply  o reopen  n note  i edit  / search  r review+next  Esc/m commits"
        } else {
            "Tab focus  j/k move  [] jump  v select  Enter/Space context  dd delete  a comment or reply  n note  i edit  / search  r review+next  Esc/m commits"
        },
        InputMode::Visual => "j/k move  a comment  n note  Esc cancel  v finish selection",
        InputMode::Draft => "Type the draft  Ctrl-S save  Ctrl-O edit in $EDITOR  Esc close",
        InputMode::DraftConfirm => "Save this draft before closing? y yes  n no  Esc back",
        InputMode::ThreadView => "j/k scroll  Ctrl-U/Ctrl-D half-page  PageUp/PageDown page  Enter/Esc close",
        InputMode::FilePicker => "Type to fuzzy-search files  Enter add  j/k move  Esc cancel",
        InputMode::Search => "Type to fuzzy-search review notes and comment threads  Enter jump  j/k move  Esc cancel",
    }
}

/// `  visual <range>` while a range is selected.
pub open spec fn selection_note(a: App) -> Seq<char> {
    match visual_range(a) {
        Some(r) => "  visual "@ + anchor_text(r),
        None => ""@,
    }
}

pub open spec fn dirty_word(a: App) -> Seq<char> {
    if a.dirty { "unsaved"@ } else { "saved"@ }
}

/// The source-mode status line's middle part: the cursor's line, the
/// selection, whether there are unsaved changes, the notes on the line and
/// the thread under the cursor.
pub open spec fn source_meta(a: App) -> Seq<char> {
    let notes = match annotation_target(a) {
        Some((path, line)) => a.packet@.notes.filter(note_at(path, line)).len(),
        None => 0,
    };
    let thread = match thread_here(a) {
        Some(i) => "  thread "@ + card_status_word(a.packet@.questions[i].status),
        None => ""@,
    };
    "line "@ + decimal(a.cursor_line as nat) + selection_note(a) + "  "@ + dirty_word(a) + "  "@ + decimal(notes) + " attached notes"@ + thread
}

/// The diff-mode status line's middle part: the cursor's row (from 1), the
/// selection, whether there are unsaved changes, the files reviewed and the
/// current file.
pub open spec fn diff_meta(a: App) -> Seq<char> {
    let (row, reviewed, files, path) = match a.diff_browser {
        Some(b) => (
            if b.cursor_row < usize::MAX { b.cursor_row + 1 } else { usize::MAX as int },
            b.reviewed_paths@.len() as int,
            b.files@.len() as int,
            if b.current_file < b.files@.len() { diff_file_path(b.files@[b.current_file as int]) } else { "no diff"@ },
        ),
        None => (0int, 0int, 0int, "no diff"@),
    };
    "row "@ + decimal(row as nat) + selection_note(a) + "  "@ + dirty_word(a) + "  "@ + decimal(reviewed as nat) + "/"@ + decimal(
        files as nat,
    ) + " reviewed  "@ + path
}

/// The status line's parts before they are fitted to the width: the badge,
/// the middle part, and the message (the app's, else the keys).
pub open spec fn status_parts(a: App) -> (Seq<char>, Seq<char>, Seq<char>) {
    let hints = if is_diff(a) { diff_hints(a) } else { source_hints(a) };
    (
        " "@ + mode_words(a) + " "@,
        if is_diff(a) { diff_meta(a) } else { source_meta(a) },
        match a.message {
            Some(m) => m@,
            None => hints,
        },
    )
}

/// The status line: its parts fitted to `width` (see `fitted_status`), the
/// badge in reverse, the middle part muted.
pub open spec fn status_spans(a: App, width: usize, t: Theme) -> LineView {
    let (badge, meta, message) = status_parts(a);
    let f = fitted_status(badge, meta, message, width);
    seq![
        (f.0, style_of(Some(t.bg), Some(t.accent), false)),
        (f.1, plain()),
        (f.2, style_of(Some(t.muted), None, false)),
        (f.3, plain()),
        (f.4, style_of(Some(t.text), None, false)),
    ]
}

fn push_selection_note(out: &mut String, app: &App)
    ensures
        final(out)@ == old(out)@ + selection_note(*app),
{
    match app.visual_selection() {
        Some(a) => {
            push_str(out, "  visual ");
            let t = a.display();
            push_str(out, t.as_str());
        },
        None => {
            proof {
                reveal_strlit("");
            }
            assert(old(out)@ + ""@ =~= old(out)@);
        },
    }
}

fn source_meta_text(app: &App) -> (r: String)
    ensures
        r@ == source_meta(*app),
{
    let mut out = "line ".to_string();
    push_decimal(&mut out, app.cursor_line);
    push_selection_note(&mut out, app);
    push_str(&mut out, "  ");
    push_str(&mut out, if app.dirty { "unsaved" } else { "saved" });
    push_str(&mut out, "  ");
    let notes = app.notes_for_current_line();
    push_decimal(&mut out, notes.len());
    push_str(&mut out, " attached notes");
    match app.current_question() {
        Some(q) => {
            push_str(&mut out, "  thread ");
            push_str(&mut out, crate::tui::render::question_status_label(q.status));
        },
        None => {},
    }
    proof {
        reveal_strlit("");
    }
    assert(out@ =~= source_meta(*app));
    out
}

fn diff_meta_text(app: &App) -> (r: String)
    ensures
        r@ == diff_meta(*app),
{
    let (row, reviewed, files) = match &app.diff_browser {
        Some(b) => (b.cursor_row.saturating_add(1), b.reviewed_paths.len(), b.files.len()),
        None => (0, 0, 0),
    };
    let path = match app.current_diff_path() {
        Some(p) => p,
        None => "no diff",
    };
    let mut out = "row ".to_string();
    push_decimal(&mut out, row);
    push_selection_note(&mut out, app);
    push_str(&mut out, "  ");
    push_str(&mut out, if app.dirty { "unsaved" } else { "saved" });
    push_str(&mut out, "  ");
    push_decimal(&mut out, reviewed);
    push_str(&mut out, "/");
    push_decimal(&mut out, files);
    push_str(&mut out, " reviewed  ");
    push_str(&mut out, path);
    assert(out@ =~= diff_meta(*app));
    out
}

/// The status line (see `status_spans`).
pub fn status_line(app: &App, width: usize, theme: &Theme) -> (r: StyledLine)
    ensures
        line_view(r) == status_spans(*app, width, *theme),
{
    let mut badge = " ".to_string();
    let mode = crate::tui::render::status_mode_label(app);
    push_str(&mut badge, mode.as_str());
    push_str(&mut badge, " ");
    let meta = if app.is_diff_mode() { diff_meta_text(app) } else { source_meta_text(app) };
    let hints = if app.is_diff_mode() { diff_hint_text(app) } else { source_hint_text(app) };
    let message = match &app.message {
        Some(m) => m.as_str(),
        None => hints,
    };
    let fitted = crate::tui::render::fit_status_segments(badge.as_str(), meta.as_str(), message, width);
    let mut spans: StyledLine = Vec::new();
    spans.push(span(fitted.badge, Some(theme.bg), Some(theme.accent), false));
    spans.push(span(fitted.between_badge_and_meta, None, None, false));
    spans.push(span(fitted.meta, Some(theme.muted), None, false));
    spans.push(span(fitted.between_meta_and_message, None, None, false));
    spans.push(span(fitted.message, Some(theme.text), None, false));
    assert(line_view(spans) =~= status_spans(*app, width, *theme));
    spans
}


// ---------------------------------------------------------------------------
// Side lists.
// ---------------------------------------------------------------------------

/// The background of a list row: the cursor line's when selected.
pub open spec fn list_background(selected: bool, t: Theme) -> Color {
    if selected { t.cursor_line } else { t.panel }
}

pub open spec fn pointer(selected: bool) -> Seq<char> {
    if selected { "▸ "@ } else { "  "@ }
}

/// A row of the source file list: a pointer on the current file, its path
/// cut from the start to leave 12 columns, and its counts of notes and open
/// threads.
pub open spec fn file_row(a: App, i: int, width: usize, t: Theme) -> LineView {
    let selected = i == a.current_file;
    let bg = list_background(selected, t);
    let path = a.files@[i].path@;
    let notes = a.packet@.notes.filter(note_on(path)).len();
    let open = a.packet@.questions.filter(open_thread_on(path)).len();
    seq![
        (pointer(selected), style_of(Some(t.accent), Some(bg), false)),
        (truncated_start(path, if width >= 12 { (width - 12) as usize } else { 0 }), style_of(Some(t.text), Some(bg), selected)),
        (" "@, style_of(None, Some(bg), false)),
        (decimal(notes) + "n"@, style_of(Some(t.note_border), Some(bg), false)),
        (" "@, style_of(None, Some(bg), false)),
        (decimal(open) + "q"@, style_of(Some(t.question_border), Some(bg), false)),
    ]
}

/// The source file list, a row per tracked file, `width` columns wide.
pub fn file_list_lines(app: &App, width: usize, theme: &Theme) -> (r: Vec<StyledLine>)
    ensures
        lines_view(r@) == Seq::new(app.files@.len(), |i: int| file_row(*app, i, width, *theme)),
{
    let mut out: Vec<StyledLine> = Vec::new();
    let mut i: usize = 0;
    while i < app.files.len()
        invariant
            i <= app.files@.len(),
            lines_view(out@) == Seq::new(i as nat, |k: int| file_row(*app, k, width, *theme)),
        decreases app.files.len() - i,
    {
        let selected = i == app.current_file;
        let bg = if selected { theme.cursor_line } else { theme.panel };
        let path = app.files[i].path.as_str();
        let mut notes = String::new();
        push_decimal(&mut notes, app.file_note_count(path));
        push_str(&mut notes, "n");
        let mut open = String::new();
        push_decimal(&mut open, app.file_open_question_count(path));
        push_str(&mut open, "q");
        let mut row: StyledLine = Vec::new();
        row.push(span_str(if selected { "▸ " } else { "  " }, Some(theme.accent), Some(bg), false));
        row.push(span(truncate_from_start(path, if width >= 12 { width - 12 } else { 0 }), Some(theme.text), Some(bg), selected));
        row.push(span_str(" ", None, Some(bg), false));
        row.push(span(notes, Some(theme.note_border), Some(bg), false));
        row.push(span_str(" ", None, Some(bg), false));
        row.push(span(open, Some(theme.question_border), Some(bg), false));
        assert(line_view(row) =~= file_row(*app, i as int, width, *theme));
        let ghost before = lines_view(out@);
        out.push(row);
        assert(lines_view(out@) =~= before.push(line_view(row)));
        assert(Seq::new((i + 1) as nat, |k: int| file_row(*app, k, width, *theme)) =~= Seq::new(i as nat, |k: int| file_row(*app, k, width, *theme)).push(file_row(*app, i as int, width, *theme)));
        i = i + 1;
    }
    out
}

/// What a commit row says of a commit: the summary for uncommitted changes,
/// else the short id and summary, and the branch when there is one.
pub open spec fn commit_details(c: CommitInfo) -> Seq<char> {
    if c.id@ == working_tree_id() {
        c.summary@
    } else {
        match c.branch_name {
            Some(branch) => c.short_id@ + "  "@ + c.summary@ + "  ("@ + branch@ + ")"@,
            None => c.short_id@ + "  "@ + c.summary@,
        }
    }
}

/// A row of the commit selector: a pointer on the cursor, a filled dot in
/// the chosen range, the commit, and its author.
pub open spec fn commit_row(b: DiffBrowserState, i: int, t: Theme) -> LineView {
    let c = b.commit_options@[i];
    let selected = i == b.commit_cursor;
    let in_range = b.commit_selection_range matches Some((start, end)) && start <= i <= end;
    let bg = list_background(selected, t);
    seq![
        (pointer(selected), style_of(Some(t.accent), Some(bg), false)),
        (if in_range { "●"@ } else { "○"@ }, style_of(Some(if in_range { t.success } else { t.muted }), Some(bg), false)),
        (" "@, style_of(None, Some(bg), false)),
        (commit_details(c), style_of(Some(t.text), Some(bg), false)),
        (if c.author@.len() == 0 { ""@ } else { "  "@ + c.author@ }, style_of(Some(t.muted), Some(bg), false)),
    ]
}

/// The commit selector, a row per commit offered (none without a diff
/// browser).
pub fn commit_selector_lines(app: &App, theme: &Theme) -> (r: Vec<StyledLine>)
    ensures
        lines_view(r@) == match app.diff_browser {
            Some(b) => Seq::new(b.commit_options@.len(), |i: int| commit_row(b, i, *theme)),
            None => Seq::empty(),
        },
{
    let mut out: Vec<StyledLine> = Vec::new();
    let b = match &app.diff_browser {
        Some(b) => b,
        None => {
            return out;
        },
    };
    let mut i: usize = 0;
    while i < b.commit_options.len()
        invariant
            i <= b.commit_options@.len(),
            lines_view(out@) == Seq::new(i as nat, |k: int| commit_row(*b, k, *theme)),
        decreases b.commit_options.len() - i,
    {
        let c = &b.commit_options[i];
        let selected = i == b.commit_cursor;
        let in_range = match b.commit_selection_range {
            Some((start, end)) => i >= start && i <= end,
            None => false,
        };
        let bg = if selected { theme.cursor_line } else { theme.panel };
        let details = if c.is_working_tree() {
            c.summary.clone()
        } else {
            let mut d = c.short_id.clone();
            push_str(&mut d, "  ");
            push_str(&mut d, c.summary.as_str());
            match &c.branch_name {
                Some(branch) => {
                    push_str(&mut d, "  (");
                    push_str(&mut d, branch.as_str());
                    push_str(&mut d, ")");
                },
                None => {},
            }
            d
        };
        let author = if crate::text::chars_of(c.author.as_str()).len() == 0 {
            String::new()
        } else {
            let mut a = "  ".to_string();
            push_str(&mut a, c.author.as_str());
            a
        };
        let mut row: StyledLine = Vec::new();
        row.push(span_str(if selected { "▸ " } else { "  " }, Some(theme.accent), Some(bg), false));
        row.push(span_str(if in_range { "●" } else { "○" }, Some(if in_range { theme.success } else { theme.muted }), Some(bg), false));
        row.push(span_str(" ", None, Some(bg), false));
        row.push(span(details, Some(theme.text), Some(bg), false));
        row.push(span(author, Some(theme.muted), Some(bg), false));
        proof {
            reveal_strlit("");
        }
        assert(details@ == commit_details(*c));
        assert(author@ == (if c.author@.len() == 0 { ""@ } else { "  "@ + c.author@ }));
        assert(line_view(row) =~= commit_row(*b, i as int, *theme));
        let ghost before = lines_view(out@);
        out.push(row);
        assert(lines_view(out@) =~= before.push(line_view(row)));
        assert(Seq::new((i + 1) as nat, |k: int| commit_row(*b, k, *theme)) =~= Seq::new(i as nat, |k: int| commit_row(*b, k, *theme)).push(commit_row(*b, i as int, *theme)));
        i = i + 1;
    }
    out
}

/// A row of the changed-file list: a pointer on the current file, its
/// status, a mark when it was reviewed, its path cut from the start to leave
/// 16 columns (bold when current), and its counts of notes and open threads.
pub open spec fn changed_file_row(a: App, b: DiffBrowserState, i: int, width: usize, t: Theme) -> LineView {
    let f = b.files@[i];
    let selected = i == b.current_file;
    let bg = list_background(selected, t);
    let path = diff_file_path(f);
    let notes = a.packet@.notes.filter(note_on(path)).len();
    let open = a.packet@.questions.filter(open_thread_on(path)).len();
    let reviewed = b.reviewed_paths.deep_view().contains(path);
    seq![
        (pointer(selected), style_of(Some(t.accent), Some(bg), false)),
        (seq![status_char(f.status)], style_of(Some(status_color(f.status, t)), Some(bg), false)),
        (" "@, style_of(None, Some(bg), false)),
        (if reviewed { "✓ "@ } else { ""@ }, style_of(Some(t.success), Some(bg), false)),
        (truncated_start(path, if width >= 16 { (width - 16) as usize } else { 0 }), style_of(Some(t.text), Some(bg), selected)),
        ("  "@ + decimal(notes) + "n "@ + decimal(open) + "c"@, style_of(Some(t.muted), Some(bg), false)),
    ]
}

/// The changed-file list, a row per file of the diff (none without a diff
/// browser).
pub fn diff_file_list_lines(app: &App, width: usize, theme: &Theme) -> (r: Vec<StyledLine>)
    ensures
        lines_view(r@) == match app.diff_browser {
            Some(b) => Seq::new(b.files@.len(), |i: int| changed_file_row(*app, b, i, width, *theme)),
            None => Seq::empty(),
        },
{
    let mut out: Vec<StyledLine> = Vec::new();
    let b = match &app.diff_browser {
        Some(b) => b,
        None => {
            return out;
        },
    };
    let mut i: usize = 0;
    while i < b.files.len()
        invariant
            i <= b.files@.len(),
            app.diff_browser == Some(*b),
            lines_view(out@) == Seq::new(i as nat, |k: int| changed_file_row(*app, *b, k, width, *theme)),
        decreases b.files.len() - i,
    {
        let f = &b.files[i];
        let selected = i == b.current_file;
        let bg = if selected { theme.cursor_line } else { theme.panel };
        let path = crate::tui::app::diff_file_display(f);
        let mark = if app.is_current_diff_file_reviewed(path) { "✓ " } else { "" };
        let status = f.status.as_char();
        let mut status_text = String::new();
        crate::text::push_char(&mut status_text, status);
        let status_fg = if status == 'A' || status == 'C' {
            theme.success
        } else if status == 'D' {
            theme.danger
        } else {
            theme.accent
        };
        let mut counts = "  ".to_string();
        push_decimal(&mut counts, app.file_note_count(path));
        push_str(&mut counts, "n ");
        push_decimal(&mut counts, app.file_open_question_count(path));
        push_str(&mut counts, "c");
        let mut row: StyledLine = Vec::new();
        row.push(span_str(if selected { "▸ " } else { "  " }, Some(theme.accent), Some(bg), false));
        row.push(span(status_text, Some(status_fg), Some(bg), false));
        row.push(span_str(" ", None, Some(bg), false));
        row.push(span_str(mark, Some(theme.success), Some(bg), false));
        row.push(span(truncate_from_start(path, if width >= 16 { width - 16 } else { 0 }), Some(theme.text), Some(bg), selected));
        row.push(span(counts, Some(theme.muted), Some(bg), false));
        proof {
            reveal_strlit("");
            reveal_strlit("✓ ");
            assert(status_text@ =~= seq![status_char(f.status)]);
        }
        assert(line_view(row) =~= changed_file_row(*app, *b, i as int, width, *theme));
        let ghost before = lines_view(out@);
        out.push(row);
        assert(lines_view(out@) =~= before.push(line_view(row)));
        assert(Seq::new((i + 1) as nat, |k: int| changed_file_row(*app, *b, k, width, *theme)) =~= Seq::new(i as nat, |k: int| changed_file_row(*app, *b, k, width, *theme)).push(changed_file_row(*app, *b, i as int, width, *theme)));
        i = i + 1;
    }
    out
}

// ---------------------------------------------------------------------------
// Pickers.
// ---------------------------------------------------------------------------

/// A row of the search results: a pointer on the selection, where the match
/// is, its label (bold when selected), and its preview cut from the start to
/// leave 24 columns.
pub open spec fn search_row(s: SearchState, i: int, width: usize, t: Theme) -> LineView {
    let m = s.matches@[i];
    let selected = i == s.selected;
    let bg = list_background(selected, t);
    seq![
        (pointer(selected), style_of(Some(t.accent), Some(bg), false)),
        (m.path@ + ":"@ + decimal(m.line as nat) + " "@, style_of(Some(t.accent), Some(bg), false)),
        (m.label@, style_of(Some(t.text), Some(bg), selected)),
        (" "@, style_of(None, Some(bg), false)),
        (truncated_start(m.preview@, if width >= 24 { (width - 24) as usize } else { 0 }), style_of(Some(t.muted), Some(bg), false)),
    ]
}

/// The search results that fit `height` rows, `width` columns wide.
pub fn search_result_lines(search: &SearchState, height: usize, width: usize, theme: &Theme) -> (r: Vec<StyledLine>)
    ensures
        lines_view(r@) == Seq::new(
            if height <= search.matches@.len() { height as nat } else { search.matches@.len() },
            |i: int| search_row(*search, i, width, *theme),
        ),
{
    let n = if height <= search.matches.len() { height } else { search.matches.len() };
    let mut out: Vec<StyledLine> = Vec::new();
    let mut i: usize = 0;
    while i < n
        invariant
            i <= n,
            n <= search.matches@.len(),
            lines_view(out@) == Seq::new(i as nat, |k: int| search_row(*search, k, width, *theme)),
        decreases n - i,
    {
        let m = &search.matches[i];
        let selected = i == search.selected;
        let bg = if selected { theme.cursor_line } else { theme.panel };
        let mut place = m.path.clone();
        push_str(&mut place, ":");
        push_decimal(&mut place, m.line);
        push_str(&mut place, " ");
        let mut row: StyledLine = Vec::new();
        row.push(span_str(if selected { "▸ " } else { "  " }, Some(theme.accent), Some(bg), false));
        row.push(span(place, Some(theme.accent), Some(bg), false));
        row.push(span_str(m.label.as_str(), Some(theme.text), Some(bg), selected));
        row.push(span_str(" ", None, Some(bg), false));
        row.push(span(truncate_from_start(m.preview.as_str(), if width >= 24 { width - 24 } else { 0 }), Some(theme.muted), Some(bg), false));
        assert(line_view(row) =~= search_row(*search, i as int, width, *theme));
        let ghost before = lines_view(out@);
        out.push(row);
        assert(lines_view(out@) =~= before.push(line_view(row)));
        assert(Seq::new((i + 1) as nat, |k: int| search_row(*search, k, width, *theme)) =~= Seq::new(i as nat, |k: int| search_row(*search, k, width, *theme)).push(search_row(*search, i as int, width, *theme)));
        i = i + 1;
    }
    out
}

/// A row of the file picker: a pointer on the selection and the path (bold
/// when selected).
pub open spec fn picker_row(p: FilePickerState, i: int, t: Theme) -> LineView {
    let selected = i == p.selected;
    let bg = list_background(selected, t);
    seq![
        (pointer(selected), style_of(Some(t.accent), Some(bg), false)),
        (p.matches@[i]@, style_of(Some(t.text), Some(bg), selected)),
    ]
}

/// The file picker's matches that fit `height` rows.
pub fn picker_lines(picker: &FilePickerState, height: usize, theme: &Theme) -> (r: Vec<StyledLine>)
    ensures
        lines_view(r@) == Seq::new(
            if height <= picker.matches@.len() { height as nat } else { picker.matches@.len() },
            |i: int| picker_row(*picker, i, *theme),
        ),
{
    let n = if height <= picker.matches.len() { height } else { picker.matches.len() };
    let mut out: Vec<StyledLine> = Vec::new();
    let mut i: usize = 0;
    while i < n
        invariant
            i <= n,
            n <= picker.matches@.len(),
            lines_view(out@) == Seq::new(i as nat, |k: int| picker_row(*picker, k, *theme)),
        decreases n - i,
    {
        let selected = i == picker.selected;
        let bg = if selected { theme.cursor_line } else { theme.panel };
        let mut row: StyledLine = Vec::new();
        row.push(span_str(if selected { "▸ " } else { "  " }, Some(theme.accent), Some(bg), false));
        row.push(span_str(picker.matches[i].as_str(), Some(theme.text), Some(bg), selected));
        assert(line_view(row) =~= picker_row(*picker, i as int, *theme));
        let ghost before = lines_view(out@);
        out.push(row);
        assert(lines_view(out@) =~= before.push(line_view(row)));
        assert(Seq::new((i + 1) as nat, |k: int| picker_row(*picker, k, *theme)) =~= Seq::new(i as nat, |k: int| picker_row(*picker, k, *theme)).push(picker_row(*picker, i as int, *theme)));
        i = i + 1;
    }
    out
}

// ---------------------------------------------------------------------------
// Pane titles and borders.
// ---------------------------------------------------------------------------

/// The main pane has the focus: the source (or diff) pane in normal or
/// visual mode.
pub open spec fn source_focused(a: App) -> bool {
    a.focus == FocusPane::Source && (a.input_mode == InputMode::Normal || a.input_mode == InputMode::Visual)
}

/// The side list has the focus: in normal mode.
pub open spec fn files_focused(a: App) -> bool {
    a.focus == FocusPane::Files && a.input_mode == InputMode::Normal
}

pub fn is_source_focused(app: &App) -> (r: bool)
    ensures
        r == source_focused(*app),
{
    app.focus == FocusPane::Source && (app.input_mode == InputMode::Normal || app.input_mode == InputMode::Visual)
}

pub fn is_files_focused(app: &App) -> (r: bool)
    ensures
        r == files_focused(*app),
{
    app.focus == FocusPane::Files && app.input_mode == InputMode::Normal
}

/// A pane's border colour: brighter when it has the focus.
pub fn border_color(focused: bool, theme: &Theme) -> (r: Color)
    ensures
        r == if focused { theme.border_focus } else { theme.border },
{
    if focused { theme.border_focus } else { theme.border }
}

/// ` <name> [visual <range>] ` while a range is selected, else ` <name> `.
pub open spec fn pane_title(name: Seq<char>, a: App) -> Seq<char> {
    match visual_range(a) {
        Some(r) => " "@ + name + " [visual "@ + anchor_text(r) + "] "@,
        None => " "@ + name + " "@,
    }
}

fn titled(name: &str, app: &App) -> (r: String)
    ensures
        r@ == pane_title(name@, *app),
{
    let mut out = " ".to_string();
    push_str(&mut out, name);
    match app.visual_selection() {
        Some(a) => {
            push_str(&mut out, " [visual ");
            let t = a.display();
            push_str(&mut out, t.as_str());
            push_str(&mut out, "] ");
        },
        None => push_str(&mut out, " "),
    }
    out
}

/// The source pane's title: the file's path (empty without one).
pub fn source_view_title(app: &App) -> (r: String)
    ensures
        r@ == pane_title(path_at(app.files@, app.current_file as int), *app),
{
    titled(app.current_path(), app)
}

/// The diff pane's title: the current file's path, or `Diff` without one.
pub fn diff_view_title(app: &App) -> (r: String)
    ensures
        r@ == pane_title(
            match app.diff_browser {
                Some(b) => if b.current_file < b.files@.len() { diff_file_path(b.files@[b.current_file as int]) } else { "Diff"@ },
                None => "Diff"@,
            },
            *app,
        ),
{
    match app.current_diff_path() {
        Some(p) => titled(p, app),
        None => titled("Diff", app),
    }
}

} // verus!
