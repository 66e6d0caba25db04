//! The diff view: each file's header, its hunks with their lines and the
//! gaps between them, the cards of the notes and threads on the new side,
//! and what each row shows.

use vstd::prelude::*;

use crate::diff::{spec_gap, status_char, DiffFile, DiffHunk, DiffLine, FileStatus, LineOrigin};
use crate::export::turns_fit;
use crate::model::{Note, NoteView, Question, QuestionView};
use crate::syntax::{segments_view, SegmentStyle};
use crate::text::{decimal, push_char, push_decimal, push_str, str_eq};
use crate::theme::{blend, spec_blend, Color, Theme};
use crate::tui::app::{
    anchor_display_line, diff_file_display, diff_file_path, expanded_lines, find_gap, is_diff, max_line, min_line,
    note_on, open_thread_on, strictly_increasing, App, DiffBrowserState, DiffRow, DiffViewMetrics, GapId, InputMode,
};
use crate::tui::render::{
    append_lines, diff_line_digits, line_of1, line_view, lines_view, note_card_lines, number_digits, render_note_card,
    render_question_thread, span, span_str, style_of, thread_lines, SpanStyle, StyledLine, StyledSpan,
};
use crate::tui::source_view::{
    note_ends_at, padded_decimal, padded_number, push_spaces, row_background, row_color, spaces,
    text_spans, thread_ends_at, LineView,
};

verus! {

// ---------------------------------------------------------------------------
// Rows.
// ---------------------------------------------------------------------------

/// What a row of the diff view shows, with paths as text.
pub enum RowView {
    FileHeader,
    GapExpander(GapId),
    ExpandedContext(usize, GapId, usize),
    HunkHeader,
    Line(usize, usize, usize),
    Annotation(Seq<char>, usize),
    FileEnd,
}

pub open spec fn row_view(r: DiffRow) -> RowView {
    match r {
        DiffRow::FileHeader => RowView::FileHeader,
        DiffRow::GapExpander { gap_id } => RowView::GapExpander(gap_id),
        DiffRow::ExpandedContext { file_idx, gap_id, context_idx } => RowView::ExpandedContext(file_idx, gap_id, context_idx),
        DiffRow::HunkHeader => RowView::HunkHeader,
        DiffRow::DiffLine { file_idx, hunk_idx, line_idx } => RowView::Line(file_idx, hunk_idx, line_idx),
        DiffRow::Annotation { path, line_no } => RowView::Annotation(path@, line_no),
        DiffRow::FileEnd => RowView::FileEnd,
    }
}

/// Whether diff row `row` is in the visual selection: between the row where
/// it started and the cursor.
pub open spec fn diff_row_in_visual(a: App, row: int) -> bool {
    is_diff(a) && a.input_mode == InputMode::Visual && (a.diff_browser matches Some(b) && (b.visual_anchor_row matches Some(x)
        && min_line(x, b.cursor_row) <= row <= max_line(x, b.cursor_row)))
}

/// A row of muted text.
pub open spec fn muted_line(text: Seq<char>, t: Theme) -> LineView {
    seq![(text, style_of(Some(t.muted), None, false))]
}

// ---------------------------------------------------------------------------
// File headers.
// ---------------------------------------------------------------------------

/// The colour of a file's status letter: added or copied, deleted, other.
pub open spec fn status_color(s: FileStatus, t: Theme) -> Color {
    let c = status_char(s);
    if c == 'A' || c == 'C' {
        t.success
    } else if c == 'D' {
        t.danger
    } else {
        t.accent
    }
}

/// A file's header row: a pointer, its status, a mark when it was reviewed,
/// its path (bold when it is the current file), and its counts of notes and
/// open threads.
pub open spec fn header_spans(a: App, f: DiffFile, file_selected: bool, cursor_here: bool, visual: bool, t: Theme) -> LineView {
    let bg = row_background(cursor_here, visual, t);
    let path = diff_file_path(f);
    let notes = a.packet@.notes.filter(note_on(path)).len();
    let open = a.packet@.questions.filter(open_thread_on(path)).len();
    let reviewed = a.diff_browser matches Some(b) && b.reviewed_paths.deep_view().contains(path);
    seq![
        ("▸ "@, style_of(Some(if file_selected { t.accent } else { t.border }), Some(bg), false)),
        (seq![status_char(f.status)], style_of(Some(status_color(f.status, t)), Some(bg), false)),
        (" "@, style_of(None, Some(bg), false)),
        (if reviewed { "✓ "@ } else { ""@ }, style_of(Some(t.success), Some(bg), false)),
        (path, style_of(Some(t.text), Some(bg), file_selected)),
        ("  "@ + decimal(notes) + "n "@ + decimal(open) + "c"@, style_of(Some(t.muted), Some(bg), false)),
    ]
}

/// A file's header row (see `header_spans`).
pub fn render_diff_file_header(
    app: &App,
    file: &DiffFile,
    file_selected: bool,
    cursor_selected: bool,
    in_visual_selection: bool,
    theme: &Theme,
) -> (r: StyledLine)
    ensures
        line_view(r) == header_spans(*app, *file, file_selected, cursor_selected, in_visual_selection, *theme),
{
    let bg = row_color(cursor_selected, in_visual_selection, theme);
    let path = diff_file_display(file);
    let note_count = app.file_note_count(path);
    let question_count = app.file_open_question_count(path);
    let review_mark = if app.is_current_diff_file_reviewed(path) {
        "✓ "
    } else {
        ""
    };
    let status = file.status.as_char();
    let mut status_text = String::new();
    push_char(&mut status_text, status);
    let status_fg = if status == 'A' || status == 'C' {
        theme.success
    } else if status == 'D' {
        theme.danger
    } else {
        theme.accent
    };
    let mut counts = "  ".to_string();
    push_decimal(&mut counts, note_count);
    push_str(&mut counts, "n ");
    push_decimal(&mut counts, question_count);
    push_str(&mut counts, "c");
    let mut spans: StyledLine = Vec::new();
    spans.push(span_str("▸ ", Some(if file_selected { theme.accent } else { theme.border }), Some(bg), false));
    spans.push(span(status_text, Some(status_fg), Some(bg), false));
    spans.push(span_str(" ", None, Some(bg), false));
    spans.push(span_str(review_mark, Some(theme.success), Some(bg), false));
    spans.push(span_str(path, Some(theme.text), Some(bg), file_selected));
    spans.push(span(counts, Some(theme.muted), Some(bg), false));
    proof {
        reveal_strlit("✓ ");
        reveal_strlit("");
        assert(status_text@ =~= seq![status_char(file.status)]);
        assert(line_view(spans) =~= header_spans(*app, *file, file_selected, cursor_selected, in_visual_selection, *theme));
    }
    spans
}

// ---------------------------------------------------------------------------
// Gaps and hunk headers.
// ---------------------------------------------------------------------------

pub open spec fn gap_background(selected: bool, visual: bool, t: Theme) -> Color {
    let base = spec_blend(t.panel, t.border, 8);
    if selected && visual {
        spec_blend(base, t.border_focus, 28)
    } else if selected {
        spec_blend(t.panel, t.border_focus, 16)
    } else if visual {
        spec_blend(base, t.border_focus, 18)
    } else {
        base
    }
}

/// The row that stands for `gap` hidden lines before a hunk.
pub open spec fn gap_spans(gap: usize, selected: bool, visual: bool, t: Theme) -> LineView {
    seq![("       ... expand ("@ + decimal(gap as nat) + " lines) ..."@, style_of(Some(t.muted), Some(gap_background(selected, visual, t)), false))]
}

pub fn render_diff_gap_line(gap: usize, selected: bool, in_visual_selection: bool, theme: &Theme) -> (r: StyledLine)
    ensures
        line_view(r) == gap_spans(gap, selected, in_visual_selection, *theme),
{
    let base = blend(theme.panel, theme.border, 8);
    let bg = if selected && in_visual_selection {
        blend(base, theme.border_focus, 28)
    } else if selected {
        blend(theme.panel, theme.border_focus, 16)
    } else if in_visual_selection {
        blend(base, theme.border_focus, 18)
    } else {
        base
    };
    let mut text = "       ... expand (".to_string();
    push_decimal(&mut text, gap);
    push_str(&mut text, " lines) ...");
    line_of1(span(text, Some(theme.muted), Some(bg), false))
}

pub open spec fn hunk_background(selected: bool, visual: bool, t: Theme) -> Color {
    let base = spec_blend(t.panel, t.border, 10);
    if selected && visual {
        spec_blend(base, t.border_focus, 28)
    } else if selected {
        spec_blend(t.panel, t.border_focus, 20)
    } else if visual {
        spec_blend(base, t.border_focus, 18)
    } else {
        base
    }
}

/// A hunk's header row.
pub open spec fn hunk_header_spans(header: Seq<char>, selected: bool, visual: bool, t: Theme) -> LineView {
    seq![("  "@ + header, style_of(Some(t.muted), Some(hunk_background(selected, visual, t)), false))]
}

pub fn render_diff_hunk_header(hunk: &DiffHunk, selected: bool, in_visual_selection: bool, theme: &Theme) -> (r: StyledLine)
    ensures
        line_view(r) == hunk_header_spans(hunk.header@, selected, in_visual_selection, *theme),
{
    let base = blend(theme.panel, theme.border, 10);
    let bg = if selected && in_visual_selection {
        blend(base, theme.border_focus, 28)
    } else if selected {
        blend(theme.panel, theme.border_focus, 20)
    } else if in_visual_selection {
        blend(base, theme.border_focus, 18)
    } else {
        base
    };
    let mut text = "  ".to_string();
    push_str(&mut text, hunk.header.as_str());
    line_of1(span(text, Some(theme.muted), Some(bg), false))
}

// ---------------------------------------------------------------------------
// Diff lines.
// ---------------------------------------------------------------------------

/// The background of a line by its origin: the panel for context, tinted
/// for additions and deletions.
pub open spec fn origin_background(o: LineOrigin, t: Theme) -> Color {
    match o {
        LineOrigin::Context => t.panel,
        LineOrigin::Addition => spec_blend(t.panel, t.success, 14),
        LineOrigin::Deletion => spec_blend(t.panel, t.danger, 14),
    }
}

pub open spec fn diff_line_background(o: LineOrigin, selected: bool, visual: bool, t: Theme) -> Color {
    let base = origin_background(o, t);
    if selected && visual {
        spec_blend(base, t.border_focus, 30)
    } else if selected {
        spec_blend(base, t.border_focus, 24)
    } else if visual {
        spec_blend(base, t.border_focus, 16)
    } else {
        base
    }
}

pub open spec fn origin_color(o: LineOrigin, t: Theme) -> Color {
    match o {
        LineOrigin::Context => t.muted,
        LineOrigin::Addition => t.success,
        LineOrigin::Deletion => t.danger,
    }
}

pub open spec fn origin_mark(o: LineOrigin) -> char {
    match o {
        LineOrigin::Context => ' ',
        LineOrigin::Addition => '+',
        LineOrigin::Deletion => '-',
    }
}

/// A line-number column: the number right-aligned, or blank.
pub open spec fn number_column(n: Option<usize>, digits: usize) -> Seq<char> {
    match n {
        Some(x) => padded_number(x as nat, digits as nat),
        None => spaces(digits as nat),
    }
}

/// A diff line's row: its old and new numbers, a rule, its mark, then its
/// text (highlighted when it has runs).
pub open spec fn diff_line_spans(l: DiffLine, digits: usize, selected: bool, visual: bool, t: Theme) -> LineView {
    let bg = diff_line_background(l.origin, selected, visual, t);
    seq![
        (number_column(l.old_lineno, digits), style_of(Some(t.muted), Some(bg), false)),
        (" "@, style_of(None, Some(bg), false)),
        (number_column(l.new_lineno, digits), style_of(Some(t.muted), Some(bg), false)),
        (" │ "@, style_of(Some(t.border), Some(bg), false)),
        (seq![origin_mark(l.origin)], style_of(Some(origin_color(l.origin, t)), Some(bg), false)),
        (" "@, style_of(None, Some(bg), false)),
    ] + text_spans(l.content@, Some(segments_view(l.segments)), bg, t)
}

fn number_text(n: Option<usize>, digits: usize) -> (r: String)
    ensures
        r@ == number_column(n, digits),
{
    match n {
        Some(x) => padded_decimal(x, digits),
        None => {
            let mut s = String::new();
            push_spaces(&mut s, digits);
            assert(s@ =~= spaces(digits as nat));
            s
        },
    }
}

#[verifier::spinoff_prover]
#[verifier::rlimit(40)]
pub fn render_diff_line(diff_line: &DiffLine, digits: usize, selected: bool, in_visual_selection: bool, theme: &Theme) -> (r: StyledLine)
    ensures
        line_view(r) == diff_line_spans(*diff_line, digits, selected, in_visual_selection, *theme),
{
    let base = match diff_line.origin {
        LineOrigin::Context => theme.panel,
        LineOrigin::Addition => blend(theme.panel, theme.success, 14),
        LineOrigin::Deletion => blend(theme.panel, theme.danger, 14),
    };
    let bg = if selected && in_visual_selection {
        blend(base, theme.border_focus, 30)
    } else if selected {
        blend(base, theme.border_focus, 24)
    } else if in_visual_selection {
        blend(base, theme.border_focus, 16)
    } else {
        base
    };
    let mark_fg = match diff_line.origin {
        LineOrigin::Context => theme.muted,
        LineOrigin::Addition => theme.success,
        LineOrigin::Deletion => theme.danger,
    };
    let mark = match diff_line.origin {
        LineOrigin::Context => ' ',
        LineOrigin::Addition => '+',
        LineOrigin::Deletion => '-',
    };
    let mut mark_text = String::new();
    push_char(&mut mark_text, mark);
    let mut spans: StyledLine = Vec::new();
    spans.push(span(number_text(diff_line.old_lineno, digits), Some(theme.muted), Some(bg), false));
    spans.push(span_str(" ", None, Some(bg), false));
    spans.push(span(number_text(diff_line.new_lineno, digits), Some(theme.muted), Some(bg), false));
    spans.push(span_str(" │ ", Some(theme.border), Some(bg), false));
    spans.push(span(mark_text, Some(mark_fg), Some(bg), false));
    spans.push(span_str(" ", None, Some(bg), false));
    let ghost head = line_view(spans);
    if diff_line.segments.len() == 0 {
        let ghost before = line_view(spans);
        spans.push(span_str(diff_line.content.as_str(), Some(theme.text), Some(bg), false));
        assert(line_view(spans) =~= before.push((diff_line.content@, style_of(Some(theme.text), Some(bg), false))));
    } else {
        crate::tui::source_view::push_segments(&mut spans, &diff_line.segments, bg);
    }
    proof {
        assert(mark_text@ =~= seq![origin_mark(diff_line.origin)]);
        assert(line_view(spans) =~= head + text_spans(diff_line.content@, Some(segments_view(diff_line.segments)), bg, *theme));
    }
    spans
}


// ---------------------------------------------------------------------------
// Building the view.
// ---------------------------------------------------------------------------

/// The view as built so far: its rows' lines and what each row shows, the
/// row of each file's header, and the row where each card starts.
#[verifier::ext_equal]
pub struct DiffOut {
    pub lines: Seq<LineView>,
    pub rows: Seq<RowView>,
    pub file_rows: Seq<usize>,
    pub marks: Seq<usize>,
}

/// One more row.
pub open spec fn emit(o: DiffOut, line: LineView, row: RowView) -> DiffOut {
    DiffOut { lines: o.lines.push(line), rows: o.rows.push(row), file_rows: o.file_rows, marks: o.marks }
}

/// A card under line `line` of `path`: its rows, and where it starts.
pub open spec fn emit_card(o: DiffOut, card: Seq<LineView>, path: Seq<char>, line: usize) -> DiffOut {
    DiffOut {
        lines: o.lines + card,
        rows: o.rows + Seq::new(card.len(), |i: int| RowView::Annotation(path, line)),
        file_rows: o.file_rows,
        marks: o.marks.push(o.lines.len() as usize),
    }
}

pub open spec fn emit_note_cards(o: DiffOut, ns: Seq<NoteView>, path: Seq<char>, line: usize, width: usize, t: Theme) -> DiffOut
    decreases ns.len(),
{
    if ns.len() == 0 {
        o
    } else {
        emit_card(emit_note_cards(o, ns.drop_last(), path, line, width, t), note_card_lines(ns.last(), width, t), path, line)
    }
}

pub open spec fn emit_thread_cards(o: DiffOut, qs: Seq<QuestionView>, path: Seq<char>, line: usize, width: usize, t: Theme) -> DiffOut
    decreases qs.len(),
{
    if qs.len() == 0 {
        o
    } else {
        emit_card(emit_thread_cards(o, qs.drop_last(), path, line, width, t), thread_lines(qs.last(), width, true, true, t), path, line)
    }
}

/// The cards under a diff line: for a line of the new side of a file that
/// has one, the notes, then the threads, whose cards end on that line.
pub open spec fn emit_annotations(o: DiffOut, a: App, f: DiffFile, line_no: Option<usize>, width: usize, t: Theme) -> DiffOut {
    match line_no {
        Some(n) => match f.new_path {
            Some(p) => emit_thread_cards(
                emit_note_cards(o, a.packet@.notes.filter(note_ends_at(p@, n as int)), p@, n, width, t),
                a.packet@.questions.filter(thread_ends_at(p@, n as int)),
                p@,
                n,
                width,
                t,
            ),
            None => o,
        },
        None => o,
    }
}

/// The exec side of `DiffOut`.
pub struct DiffBuild {
    pub rendered: Vec<StyledLine>,
    pub rows: Vec<DiffRow>,
    pub file_rows: Vec<usize>,
    pub annotation_rows: Vec<usize>,
}

pub open spec fn build_view(b: DiffBuild) -> DiffOut {
    DiffOut {
        lines: lines_view(b.rendered@),
        rows: b.rows@.map_values(|r: DiffRow| row_view(r)),
        file_rows: b.file_rows@,
        marks: b.annotation_rows@,
    }
}

fn push_row(out: &mut DiffBuild, line: StyledLine, row: DiffRow)
    ensures
        build_view(*final(out)) == emit(build_view(*old(out)), line_view(line), row_view(row)),
{
    let ghost before = build_view(*out);
    out.rendered.push(line);
    out.rows.push(row);
    assert(lines_view(out.rendered@) =~= before.lines.push(line_view(line)));
    assert(out.rows@.map_values(|r: DiffRow| row_view(r)) =~= before.rows.push(row_view(row)));
}

fn push_card(out: &mut DiffBuild, card: Vec<StyledLine>, path: &str, line: usize)
    ensures
        build_view(*final(out)) == emit_card(build_view(*old(out)), lines_view(card@), path@, line),
{
    let ghost start = build_view(*out);
    let ghost cv = lines_view(card@);
    out.annotation_rows.push(out.rendered.len());
    let mut rest = card;
    let ghost mut taken: int = 0;
    while rest.len() > 0
        invariant
            0 <= taken <= cv.len(),
            lines_view(rest@) == cv.skip(taken),
            lines_view(out.rendered@) == start.lines + cv.take(taken),
            out.rows@.map_values(|r: DiffRow| row_view(r)) == start.rows + Seq::new(taken as nat, |k: int| RowView::Annotation(path@, line)),
            out.file_rows@ == start.file_rows,
            out.annotation_rows@ == start.marks.push(start.lines.len() as usize),
        decreases rest.len(),
    {
        let ghost before = lines_view(rest@);
        let l = rest.remove(0);
        proof {
            assert(line_view(l) == before[0]);
            assert(lines_view(rest@) =~= before.drop_first());
            assert(before.drop_first() =~= cv.skip(taken + 1));
            assert(cv.take(taken + 1) =~= cv.take(taken).push(cv[taken]));
        }
        let ghost lv = lines_view(out.rendered@);
        let ghost rv = out.rows@.map_values(|r: DiffRow| row_view(r));
        out.rendered.push(l);
        let row = DiffRow::Annotation { path: path.to_string(), line_no: line };
        assert(row_view(row) == RowView::Annotation(path@, line));
        out.rows.push(row);
        assert(lines_view(out.rendered@) =~= lv.push(cv[taken]));
        assert(out.rows@.map_values(|r: DiffRow| row_view(r)) =~= rv.push(row_view(row)));
        assert(out.rows@.map_values(|r: DiffRow| row_view(r)) =~= start.rows + Seq::new((taken + 1) as nat, |k: int| RowView::Annotation(path@, line)));
        proof {
            taken = taken + 1;
        }
    }
    assert(cv.take(taken) =~= cv);
}

/// Adds the cards under a diff line (see `emit_annotations`).
pub fn append_diff_annotations(app: &App, file: &DiffFile, line_no: Option<usize>, width: usize, out: &mut DiffBuild, theme: &Theme)
    requires
        turns_fit(app.packet@),
    ensures
        build_view(*final(out)) == emit_annotations(build_view(*old(out)), *app, *file, line_no, width, *theme),
{
    let line = match line_no {
        Some(n) => n,
        None => {
            return;
        },
    };
    let path = match &file.new_path {
        Some(p) => p.as_str(),
        None => {
            return;
        },
    };
    let ghost o0 = build_view(*out);
    let ghost ns = app.packet@.notes;
    let ghost np = note_ends_at(path@, line as int);
    let mut i: usize = 0;
    proof {
        reveal(Seq::filter);
    }
    assert(ns.take(0) =~= Seq::<NoteView>::empty());
    while i < app.packet.notes.len()
        invariant
            i <= ns.len(),
            ns == app.packet@.notes,
            np == note_ends_at(path@, line as int),
            build_view(*out) == emit_note_cards(o0, ns.take(i as int).filter(np), path@, line, width, *theme),
        decreases app.packet.notes.len() - i,
    {
        proof {
            reveal(Seq::filter);
            assert(ns.take(i + 1).drop_last() =~= ns.take(i as int));
            assert(ns.take(i + 1).last() == ns[i as int]);
        }
        let note = &app.packet.notes[i];
        if str_eq(note.path.as_str(), path) && anchor_display_line(note.anchor) == line {
            let card = render_note_card(note, width, theme);
            let ghost kept = ns.take(i as int).filter(np);
            assert(kept.push(ns[i as int]).drop_last() =~= kept);
            push_card(out, card, path, line);
        }
        i = i + 1;
    }
    assert(ns.take(i as int) =~= ns);
    let ghost o1 = build_view(*out);
    let ghost qs = app.packet@.questions;
    let ghost qp = thread_ends_at(path@, line as int);
    let mut j: usize = 0;
    assert(qs.take(0) =~= Seq::<QuestionView>::empty());
    while j < app.packet.questions.len()
        invariant
            j <= qs.len(),
            qs == app.packet@.questions,
            turns_fit(app.packet@),
            qp == thread_ends_at(path@, line as int),
            build_view(*out) == emit_thread_cards(o1, qs.take(j as int).filter(qp), path@, line, width, *theme),
        decreases app.packet.questions.len() - j,
    {
        proof {
            reveal(Seq::filter);
            assert(qs.take(j + 1).drop_last() =~= qs.take(j as int));
            assert(qs.take(j + 1).last() == qs[j as int]);
        }
        let question = &app.packet.questions[j];
        let ends_here = match question.anchor {
            Some(a) => anchor_display_line(a) == line,
            None => false,
        };
        if str_eq(question.path.as_str(), path) && ends_here {
            assert(qs[j as int].conversation.len() < usize::MAX);
            let card = render_question_thread(question, width, true, true, theme);
            let ghost kept = qs.take(j as int).filter(qp);
            assert(kept.push(qs[j as int]).drop_last() =~= kept);
            push_card(out, card, path, line);
        }
        j = j + 1;
    }
    assert(qs.take(j as int) =~= qs);
}


// ---------------------------------------------------------------------------
// Hunks.
// ---------------------------------------------------------------------------

/// A diff line's row, then the cards under it.
pub open spec fn emit_diff_line(o: DiffOut, a: App, f: DiffFile, l: DiffLine, digits: usize, row: RowView, width: usize, t: Theme) -> DiffOut {
    let at = o.lines.len() as int;
    emit_annotations(
        emit(o, diff_line_spans(l, digits, a.diff_browser->0.cursor_row == at, diff_row_in_visual(a, at), t), row),
        a,
        f,
        l.new_lineno,
        width,
        t,
    )
}

/// The lines of hunk `hi` of file `fi`, each with its cards.
pub open spec fn emit_hunk_lines(o: DiffOut, a: App, f: DiffFile, fi: usize, hi: usize, ls: Seq<DiffLine>, digits: usize, width: usize, t: Theme) -> DiffOut
    decreases ls.len(),
{
    if ls.len() == 0 {
        o
    } else {
        emit_diff_line(
            emit_hunk_lines(o, a, f, fi, hi, ls.drop_last(), digits, width, t),
            a,
            f,
            ls.last(),
            digits,
            RowView::Line(fi, hi, (ls.len() - 1) as usize),
            width,
            t,
        )
    }
}

/// The lines shown in an opened gap, each with its cards.
pub open spec fn emit_context_lines(o: DiffOut, a: App, f: DiffFile, fi: usize, gid: GapId, ls: Seq<DiffLine>, digits: usize, width: usize, t: Theme) -> DiffOut
    decreases ls.len(),
{
    if ls.len() == 0 {
        o
    } else {
        emit_diff_line(
            emit_context_lines(o, a, f, fi, gid, ls.drop_last(), digits, width, t),
            a,
            f,
            ls.last(),
            digits,
            RowView::ExpandedContext(fi, gid, (ls.len() - 1) as usize),
            width,
            t,
        )
    }
}

/// The number of lines hidden before hunk `hi`.
pub open spec fn hunk_gap(f: DiffFile, hi: int) -> int {
    spec_gap(
        if hi > 0 {
            Some((f.hunks@[hi - 1].new_start, f.hunks@[hi - 1].new_count))
        } else {
            None
        },
        f.hunks@[hi].new_start,
    )
}

/// What stands for the lines hidden before hunk `hi`: nothing when there are
/// none, their lines when the gap was opened, else a row that opens it.
pub open spec fn emit_gap(o: DiffOut, a: App, f: DiffFile, fi: usize, hi: usize, digits: usize, width: usize, t: Theme) -> DiffOut {
    let b = a.diff_browser->0;
    let gid = GapId { file_idx: fi, hunk_idx: hi };
    let gap = hunk_gap(f, hi as int);
    let at = o.lines.len() as int;
    if gap > 0 {
        match expanded_lines(b.expanded@, gid) {
            Some(ls) => emit_context_lines(o, a, f, fi, gid, ls, digits, width, t),
            None => emit(o, gap_spans(gap as usize, b.cursor_row == at, diff_row_in_visual(a, at), t), RowView::GapExpander(gid)),
        }
    } else {
        o
    }
}

/// Hunk `hi` of file `fi`: what stands for the gap before it, its header,
/// then its lines.
pub open spec fn emit_hunk(o: DiffOut, a: App, f: DiffFile, fi: usize, hi: usize, digits: usize, width: usize, t: Theme) -> DiffOut {
    let o1 = emit_gap(o, a, f, fi, hi, digits, width, t);
    let at = o1.lines.len() as int;
    let o2 = emit(
        o1,
        hunk_header_spans(f.hunks@[hi as int].header@, a.diff_browser->0.cursor_row == at, diff_row_in_visual(a, at), t),
        RowView::HunkHeader,
    );
    emit_hunk_lines(o2, a, f, fi, hi, f.hunks@[hi as int].lines@, digits, width, t)
}

/// Hunks 0 to `k - 1` of file `fi`.
pub open spec fn emit_hunks(o: DiffOut, a: App, f: DiffFile, fi: usize, k: nat, digits: usize, width: usize, t: Theme) -> DiffOut
    decreases k,
{
    if k == 0 {
        o
    } else {
        emit_hunk(emit_hunks(o, a, f, fi, (k - 1) as nat, digits, width, t), a, f, fi, (k - 1) as usize, digits, width, t)
    }
}

fn emit_diff_line_rows(
    app: &App,
    b: &DiffBrowserState,
    file: &DiffFile,
    l: &DiffLine,
    digits: usize,
    row: DiffRow,
    width: usize,
    out: &mut DiffBuild,
    theme: &Theme,
)
    requires
        app.diff_browser == Some(*b),
        turns_fit(app.packet@),
    ensures
        build_view(*final(out)) == emit_diff_line(build_view(*old(out)), *app, *file, *l, digits, row_view(row), width, *theme),
{
    let at = out.rendered.len();
    let line = render_diff_line(l, digits, b.cursor_row == at, app.is_diff_row_in_visual_selection(at), theme);
    push_row(out, line, row);
    append_diff_annotations(app, file, l.new_lineno, width, out, theme);
}

fn emit_gap_rows(app: &App, b: &DiffBrowserState, file: &DiffFile, fi: usize, hi: usize, digits: usize, width: usize, out: &mut DiffBuild, theme: &Theme)
    requires
        app.diff_browser == Some(*b),
        turns_fit(app.packet@),
        hi < file.hunks@.len(),
    ensures
        build_view(*final(out)) == emit_gap(build_view(*old(out)), *app, *file, fi, hi, digits, width, *theme),
{
    let previous = if hi > 0 {
        Some(&file.hunks[hi - 1])
    } else {
        None
    };
    let gap = crate::diff::calculate_gap(previous, &file.hunks[hi]);
    if gap == 0 {
        return;
    }
    let gap_id = GapId { file_idx: fi, hunk_idx: hi };
    match find_gap(&b.expanded, gap_id) {
        Some(k) => {
            let ls = &b.expanded[k].1;
            let ghost o0 = build_view(*out);
            let mut c: usize = 0;
            assert(ls@.take(0) =~= Seq::<DiffLine>::empty());
            while c < ls.len()
                invariant
                    c <= ls@.len(),
                    app.diff_browser == Some(*b),
                    turns_fit(app.packet@),
                    build_view(*out) == emit_context_lines(o0, *app, *file, fi, gap_id, ls@.take(c as int), digits, width, *theme),
                decreases ls.len() - c,
            {
                assert(ls@.take(c + 1).drop_last() =~= ls@.take(c as int));
                assert(ls@.take(c + 1).last() == ls@[c as int]);
                emit_diff_line_rows(
                    app,
                    b,
                    file,
                    &ls[c],
                    digits,
                    DiffRow::ExpandedContext { file_idx: fi, gap_id, context_idx: c },
                    width,
                    out,
                    theme,
                );
                c = c + 1;
            }
            assert(ls@.take(c as int) =~= ls@);
        },
        None => {
            let at = out.rendered.len();
            let line = render_diff_gap_line(gap, b.cursor_row == at, app.is_diff_row_in_visual_selection(at), theme);
            push_row(out, line, DiffRow::GapExpander { gap_id });
        },
    }
}

fn emit_hunk_rows(app: &App, b: &DiffBrowserState, file: &DiffFile, fi: usize, hi: usize, digits: usize, width: usize, out: &mut DiffBuild, theme: &Theme)
    requires
        app.diff_browser == Some(*b),
        turns_fit(app.packet@),
        hi < file.hunks@.len(),
    ensures
        build_view(*final(out)) == emit_hunk(build_view(*old(out)), *app, *file, fi, hi, digits, width, *theme),
{
    emit_gap_rows(app, b, file, fi, hi, digits, width, out, theme);
    let hunk = &file.hunks[hi];
    let at = out.rendered.len();
    let header = render_diff_hunk_header(hunk, b.cursor_row == at, app.is_diff_row_in_visual_selection(at), theme);
    push_row(out, header, DiffRow::HunkHeader);
    let ghost o0 = build_view(*out);
    let ls = &hunk.lines;
    let mut li: usize = 0;
    assert(ls@.take(0) =~= Seq::<DiffLine>::empty());
    while li < ls.len()
        invariant
            li <= ls@.len(),
            app.diff_browser == Some(*b),
            turns_fit(app.packet@),
            build_view(*out) == emit_hunk_lines(o0, *app, *file, fi, hi, ls@.take(li as int), digits, width, *theme),
        decreases ls.len() - li,
    {
        assert(ls@.take(li + 1).drop_last() =~= ls@.take(li as int));
        assert(ls@.take(li + 1).last() == ls@[li as int]);
        emit_diff_line_rows(
            app,
            b,
            file,
            &ls[li],
            digits,
            DiffRow::DiffLine { file_idx: fi, hunk_idx: hi, line_idx: li },
            width,
            out,
            theme,
        );
        li = li + 1;
    }
    assert(ls@.take(li as int) =~= ls@);
}


// ---------------------------------------------------------------------------
// Files and the whole view.
// ---------------------------------------------------------------------------

/// File `fi`: its header row, then a single line for a binary file or one
/// too large to show, else its hunks (with a line saying there are none) and
/// a closing row.
pub open spec fn emit_file(o: DiffOut, a: App, fi: usize, width: usize, t: Theme) -> DiffOut {
    let b = a.diff_browser->0;
    let f = b.files@[fi as int];
    let at = o.lines.len() as int;
    let headed = emit(o, header_spans(a, f, fi == b.current_file, b.cursor_row == at, diff_row_in_visual(a, at), t), RowView::FileHeader);
    let o1 = DiffOut { file_rows: o.file_rows.push(at as usize), ..headed };
    if f.is_binary {
        emit(o1, muted_line("  binary file"@, t), RowView::FileEnd)
    } else if f.is_too_large {
        emit(o1, muted_line("  untracked file too large to render inline"@, t), RowView::FileEnd)
    } else {
        let o2 = if f.hunks@.len() == 0 {
            emit(o1, muted_line("  no textual hunks"@, t), RowView::FileEnd)
        } else {
            o1
        };
        let o3 = emit_hunks(o2, a, f, fi, f.hunks@.len(), number_digits(f) as usize, width, t);
        emit(o3, muted_line("─ end of "@ + diff_file_path(f) + " ─"@, t), RowView::FileEnd)
    }
}

/// Files 0 to `k - 1`.
pub open spec fn emit_files(o: DiffOut, a: App, k: nat, width: usize, t: Theme) -> DiffOut
    decreases k,
{
    if k == 0 {
        o
    } else {
        emit_file(emit_files(o, a, (k - 1) as nat, width, t), a, (k - 1) as usize, width, t)
    }
}

pub open spec fn no_rows() -> DiffOut {
    DiffOut { lines: Seq::empty(), rows: Seq::empty(), file_rows: Seq::empty(), marks: Seq::empty() }
}

/// A view of one line of muted text, standing for a file header.
pub open spec fn notice_view(text: Seq<char>, t: Theme) -> DiffOut {
    DiffOut { lines: seq![muted_line(text, t)], rows: seq![RowView::FileHeader], file_rows: seq![0usize], marks: Seq::empty() }
}

/// The diff view: a notice when there is no diff browser or no diff loaded,
/// else every file.
pub open spec fn diff_view(a: App, width: usize, t: Theme) -> DiffOut {
    match a.diff_browser {
        None => notice_view("Diff mode is unavailable"@, t),
        Some(b) => if b.files@.len() == 0 {
            notice_view("Select a commit range and press Enter to load a diff."@, t)
        } else {
            emit_files(no_rows(), a, b.files@.len(), width, t)
        },
    }
}

fn push_muted_row(out: &mut DiffBuild, text: &str, row: DiffRow, theme: &Theme)
    ensures
        build_view(*final(out)) == emit(build_view(*old(out)), muted_line(text@, *theme), row_view(row)),
{
    let line = line_of1(span_str(text, Some(theme.muted), None, false));
    push_row(out, line, row);
}

fn emit_file_rows(app: &App, b: &DiffBrowserState, fi: usize, width: usize, out: &mut DiffBuild, theme: &Theme)
    requires
        app.diff_browser == Some(*b),
        turns_fit(app.packet@),
        fi < b.files@.len(),
    ensures
        build_view(*final(out)) == emit_file(build_view(*old(out)), *app, fi, width, *theme),
{
    let file = &b.files[fi];
    let at = out.rendered.len();
    out.file_rows.push(at);
    let header = render_diff_file_header(app, file, fi == b.current_file, b.cursor_row == at, app.is_diff_row_in_visual_selection(at), theme);
    push_row(out, header, DiffRow::FileHeader);
    if file.is_binary {
        push_muted_row(out, "  binary file", DiffRow::FileEnd, theme);
        return;
    }
    if file.is_too_large {
        push_muted_row(out, "  untracked file too large to render inline", DiffRow::FileEnd, theme);
        return;
    }
    let digits = diff_line_digits(file);
    if file.hunks.len() == 0 {
        push_muted_row(out, "  no textual hunks", DiffRow::FileEnd, theme);
    }
    let ghost o0 = build_view(*out);
    let mut hi: usize = 0;
    while hi < file.hunks.len()
        invariant
            hi <= file.hunks@.len(),
            app.diff_browser == Some(*b),
            turns_fit(app.packet@),
            build_view(*out) == emit_hunks(o0, *app, *file, fi, hi as nat, digits, width, *theme),
        decreases file.hunks.len() - hi,
    {
        emit_hunk_rows(app, b, file, fi, hi, digits, width, out, theme);
        hi = hi + 1;
    }
    let mut closing = "─ end of ".to_string();
    push_str(&mut closing, diff_file_display(file));
    push_str(&mut closing, " ─");
    push_muted_row(out, closing.as_str(), DiffRow::FileEnd, theme);
}

fn notice(text: &str, theme: &Theme) -> (r: (Vec<StyledLine>, DiffViewMetrics))
    ensures
        lines_view(r.0@) == notice_view(text@, *theme).lines,
        r.1.rows@.map_values(|row: DiffRow| row_view(row)) == notice_view(text@, *theme).rows,
        r.1.file_rows@ == notice_view(text@, *theme).file_rows,
        r.1.annotation_rows@ == notice_view(text@, *theme).marks,
        r.1.total_rows == 1,
        r.0@.len() == 1,
        r.1.viewport_height == 1,
{
    let mut out = DiffBuild { rendered: Vec::new(), rows: Vec::new(), file_rows: Vec::new(), annotation_rows: Vec::new() };
    out.file_rows.push(0);
    push_muted_row(&mut out, text, DiffRow::FileHeader, theme);
    assert(build_view(out).lines =~= notice_view(text@, *theme).lines);
    assert(build_view(out).rows =~= notice_view(text@, *theme).rows);
    assert(build_view(out).file_rows =~= notice_view(text@, *theme).file_rows);
    assert(build_view(out).marks =~= notice_view(text@, *theme).marks);
    (out.rendered, DiffViewMetrics { file_rows: out.file_rows, annotation_rows: out.annotation_rows, rows: out.rows, total_rows: 1, viewport_height: 1 })
}

/// The rows of the diff view, what each shows, and where files and cards
/// start (see `diff_view`).
pub fn build_diff_lines(app: &App, width: usize, theme: &Theme) -> (r: (Vec<StyledLine>, DiffViewMetrics))
    requires
        turns_fit(app.packet@),
    ensures
        lines_view(r.0@) == diff_view(*app, width, *theme).lines,
        r.1.rows@.map_values(|row: DiffRow| row_view(row)) == diff_view(*app, width, *theme).rows,
        r.1.file_rows@ == diff_view(*app, width, *theme).file_rows,
        r.1.annotation_rows@ == diff_view(*app, width, *theme).marks,
        r.1.total_rows == if r.0@.len() > 0 { r.0@.len() } else { 1 },
        r.1.viewport_height == 1,
{
    let b = match &app.diff_browser {
        Some(b) => b,
        None => {
            return notice("Diff mode is unavailable", theme);
        },
    };
    if b.files.len() == 0 {
        return notice("Select a commit range and press Enter to load a diff.", theme);
    }
    let mut out = DiffBuild { rendered: Vec::new(), rows: Vec::new(), file_rows: Vec::new(), annotation_rows: Vec::new() };
    assert(build_view(out) =~= no_rows());
    let mut fi: usize = 0;
    while fi < b.files.len()
        invariant
            fi <= b.files@.len(),
            app.diff_browser == Some(*b),
            turns_fit(app.packet@),
            build_view(out) == emit_files(no_rows(), *app, fi as nat, width, *theme),
        decreases b.files.len() - fi,
    {
        emit_file_rows(app, b, fi, width, &mut out, theme);
        fi = fi + 1;
    }
    let total_rows = if out.rendered.len() > 0 { out.rendered.len() } else { 1 };
    (out.rendered, DiffViewMetrics { file_rows: out.file_rows, annotation_rows: out.annotation_rows, rows: out.rows, total_rows, viewport_height: 1 })
}


// ---------------------------------------------------------------------------
// Laws.
// ---------------------------------------------------------------------------

/// The view so far describes each of its rows exactly once, and its cards
/// start at rows that increase, each within the view.
pub open spec fn in_step(o: DiffOut) -> bool {
    &&& rows_match(o)
    &&& strictly_increasing(o.marks)
    &&& forall|i: int| 0 <= i < o.marks.len() ==> o.marks[i] < o.lines.len()
}

pub open spec fn rows_match(o: DiffOut) -> bool {
    o.rows.len() == o.lines.len()
}

/// Adding rows, or a card of at least one row, keeps the view in step (as
/// long as its rows can be counted in a `usize`).
proof fn lemma_emit_in_step(o: DiffOut, line: LineView, row: RowView)
    ensures
        emit(o, line, row).lines.len() == o.lines.len() + 1,
        rows_match(o) ==> rows_match(emit(o, line, row)),
        in_step(o) ==> in_step(emit(o, line, row)),
{
}

proof fn lemma_card_in_step(o: DiffOut, card: Seq<LineView>, path: Seq<char>, line: usize)
    ensures
        emit_card(o, card, path, line).lines.len() == o.lines.len() + card.len(),
        rows_match(o) ==> rows_match(emit_card(o, card, path, line)),
        in_step(o) && card.len() > 0 && o.lines.len() <= usize::MAX ==> in_step(emit_card(o, card, path, line)),
{
    let o2 = emit_card(o, card, path, line);
    if in_step(o) && card.len() > 0 && o.lines.len() <= usize::MAX {
        assert(o2.rows.len() == o2.lines.len());
        assert forall|i: int, j: int| 0 <= i < j < o2.marks.len() implies o2.marks[i] < o2.marks[j] by {
            if j < o.marks.len() {
                assert(o.marks[i] < o.marks[j]);
            } else {
                assert(o.marks[i] < o.lines.len());
            }
        }
        assert forall|i: int| 0 <= i < o2.marks.len() implies o2.marks[i] < o2.lines.len() by {
            if i < o.marks.len() {
                assert(o.marks[i] < o.lines.len());
            }
        }
    }
}

proof fn lemma_note_cards_in_step(o: DiffOut, ns: Seq<NoteView>, path: Seq<char>, line: usize, width: usize, t: Theme)
    ensures
        emit_note_cards(o, ns, path, line, width, t).lines.len() >= o.lines.len(),
        rows_match(o) ==> rows_match(emit_note_cards(o, ns, path, line, width, t)),
        in_step(o) && emit_note_cards(o, ns, path, line, width, t).lines.len() <= usize::MAX ==> in_step(
            emit_note_cards(o, ns, path, line, width, t),
        ),
    decreases ns.len(),
{
    if ns.len() > 0 {
        lemma_note_cards_in_step(o, ns.drop_last(), path, line, width, t);
        let o1 = emit_note_cards(o, ns.drop_last(), path, line, width, t);
        lemma_card_in_step(o1, note_card_lines(ns.last(), width, t), path, line);
    }
}

proof fn lemma_thread_cards_in_step(o: DiffOut, qs: Seq<QuestionView>, path: Seq<char>, line: usize, width: usize, t: Theme)
    ensures
        emit_thread_cards(o, qs, path, line, width, t).lines.len() >= o.lines.len(),
        rows_match(o) ==> rows_match(emit_thread_cards(o, qs, path, line, width, t)),
        in_step(o) && emit_thread_cards(o, qs, path, line, width, t).lines.len() <= usize::MAX ==> in_step(
            emit_thread_cards(o, qs, path, line, width, t),
        ),
    decreases qs.len(),
{
    if qs.len() > 0 {
        lemma_thread_cards_in_step(o, qs.drop_last(), path, line, width, t);
        let o1 = emit_thread_cards(o, qs.drop_last(), path, line, width, t);
        lemma_card_in_step(o1, thread_lines(qs.last(), width, true, true, t), path, line);
    }
}

proof fn lemma_cards_in_step(o: DiffOut, a: App, f: DiffFile, line_no: Option<usize>, width: usize, t: Theme)
    ensures
        emit_annotations(o, a, f, line_no, width, t).lines.len() >= o.lines.len(),
        rows_match(o) ==> rows_match(emit_annotations(o, a, f, line_no, width, t)),
        in_step(o) && emit_annotations(o, a, f, line_no, width, t).lines.len() <= usize::MAX ==> in_step(
            emit_annotations(o, a, f, line_no, width, t),
        ),
{
    match line_no {
        Some(n) => match f.new_path {
            Some(p) => {
                lemma_note_cards_in_step(o, a.packet@.notes.filter(note_ends_at(p@, n as int)), p@, n, width, t);
                let o1 = emit_note_cards(o, a.packet@.notes.filter(note_ends_at(p@, n as int)), p@, n, width, t);
                lemma_thread_cards_in_step(o1, a.packet@.questions.filter(thread_ends_at(p@, n as int)), p@, n, width, t);
            },
            None => {},
        },
        None => {},
    }
}

proof fn lemma_diff_line_in_step(o: DiffOut, a: App, f: DiffFile, l: DiffLine, digits: usize, row: RowView, width: usize, t: Theme)
    ensures
        emit_diff_line(o, a, f, l, digits, row, width, t).lines.len() >= o.lines.len(),
        rows_match(o) ==> rows_match(emit_diff_line(o, a, f, l, digits, row, width, t)),
        in_step(o) && emit_diff_line(o, a, f, l, digits, row, width, t).lines.len() <= usize::MAX ==> in_step(
            emit_diff_line(o, a, f, l, digits, row, width, t),
        ),
{
    let at = o.lines.len() as int;
    let line = diff_line_spans(l, digits, a.diff_browser->0.cursor_row == at, diff_row_in_visual(a, at), t);
    lemma_emit_in_step(o, line, row);
    let o1 = emit(o, line, row);
    lemma_cards_in_step(o1, a, f, l.new_lineno, width, t);
}

proof fn lemma_hunk_lines_in_step(o: DiffOut, a: App, f: DiffFile, fi: usize, hi: usize, ls: Seq<DiffLine>, digits: usize, width: usize, t: Theme)
    ensures
        emit_hunk_lines(o, a, f, fi, hi, ls, digits, width, t).lines.len() >= o.lines.len(),
        rows_match(o) ==> rows_match(emit_hunk_lines(o, a, f, fi, hi, ls, digits, width, t)),
        in_step(o) && emit_hunk_lines(o, a, f, fi, hi, ls, digits, width, t).lines.len() <= usize::MAX ==> in_step(
            emit_hunk_lines(o, a, f, fi, hi, ls, digits, width, t),
        ),
    decreases ls.len(),
{
    if ls.len() > 0 {
        lemma_hunk_lines_in_step(o, a, f, fi, hi, ls.drop_last(), digits, width, t);
        let o1 = emit_hunk_lines(o, a, f, fi, hi, ls.drop_last(), digits, width, t);
        lemma_diff_line_in_step(o1, a, f, ls.last(), digits, RowView::Line(fi, hi, (ls.len() - 1) as usize), width, t);
    }
}

proof fn lemma_context_lines_in_step(o: DiffOut, a: App, f: DiffFile, fi: usize, gid: GapId, ls: Seq<DiffLine>, digits: usize, width: usize, t: Theme)
    ensures
        emit_context_lines(o, a, f, fi, gid, ls, digits, width, t).lines.len() >= o.lines.len(),
        rows_match(o) ==> rows_match(emit_context_lines(o, a, f, fi, gid, ls, digits, width, t)),
        in_step(o) && emit_context_lines(o, a, f, fi, gid, ls, digits, width, t).lines.len() <= usize::MAX ==> in_step(
            emit_context_lines(o, a, f, fi, gid, ls, digits, width, t),
        ),
    decreases ls.len(),
{
    if ls.len() > 0 {
        lemma_context_lines_in_step(o, a, f, fi, gid, ls.drop_last(), digits, width, t);
        let o1 = emit_context_lines(o, a, f, fi, gid, ls.drop_last(), digits, width, t);
        lemma_diff_line_in_step(o1, a, f, ls.last(), digits, RowView::ExpandedContext(fi, gid, (ls.len() - 1) as usize), width, t);
    }
}

proof fn lemma_hunk_in_step(o: DiffOut, a: App, f: DiffFile, fi: usize, hi: usize, digits: usize, width: usize, t: Theme)
    ensures
        emit_hunk(o, a, f, fi, hi, digits, width, t).lines.len() >= o.lines.len(),
        rows_match(o) ==> rows_match(emit_hunk(o, a, f, fi, hi, digits, width, t)),
        in_step(o) && emit_hunk(o, a, f, fi, hi, digits, width, t).lines.len() <= usize::MAX ==> in_step(
            emit_hunk(o, a, f, fi, hi, digits, width, t),
        ),
{
    let b = a.diff_browser->0;
    let gid = GapId { file_idx: fi, hunk_idx: hi };
    match expanded_lines(b.expanded@, gid) {
        Some(ls) => lemma_context_lines_in_step(o, a, f, fi, gid, ls, digits, width, t),
        None => {},
    }
    let o1 = emit_gap(o, a, f, fi, hi, digits, width, t);
    let at = o1.lines.len() as int;
    let header = hunk_header_spans(f.hunks@[hi as int].header@, b.cursor_row == at, diff_row_in_visual(a, at), t);
    lemma_emit_in_step(o1, header, RowView::HunkHeader);
    let o2 = emit(o1, header, RowView::HunkHeader);
    lemma_hunk_lines_in_step(o2, a, f, fi, hi, f.hunks@[hi as int].lines@, digits, width, t);
}

proof fn lemma_hunks_in_step(o: DiffOut, a: App, f: DiffFile, fi: usize, k: nat, digits: usize, width: usize, t: Theme)
    ensures
        emit_hunks(o, a, f, fi, k, digits, width, t).lines.len() >= o.lines.len(),
        rows_match(o) ==> rows_match(emit_hunks(o, a, f, fi, k, digits, width, t)),
        in_step(o) && emit_hunks(o, a, f, fi, k, digits, width, t).lines.len() <= usize::MAX ==> in_step(
            emit_hunks(o, a, f, fi, k, digits, width, t),
        ),
    decreases k,
{
    if k > 0 {
        lemma_hunks_in_step(o, a, f, fi, (k - 1) as nat, digits, width, t);
        lemma_hunk_in_step(emit_hunks(o, a, f, fi, (k - 1) as nat, digits, width, t), a, f, fi, (k - 1) as usize, digits, width, t);
    }
}

proof fn lemma_file_in_step(o: DiffOut, a: App, fi: usize, width: usize, t: Theme)
    ensures
        emit_file(o, a, fi, width, t).lines.len() >= o.lines.len(),
        rows_match(o) ==> rows_match(emit_file(o, a, fi, width, t)),
        in_step(o) && emit_file(o, a, fi, width, t).lines.len() <= usize::MAX ==> in_step(emit_file(o, a, fi, width, t)),
{
    let b = a.diff_browser->0;
    let f = b.files@[fi as int];
    let at = o.lines.len() as int;
    let head = header_spans(a, f, fi == b.current_file, b.cursor_row == at, diff_row_in_visual(a, at), t);
    lemma_emit_in_step(o, head, RowView::FileHeader);
    let headed = emit(o, head, RowView::FileHeader);
    let o1 = DiffOut { file_rows: o.file_rows.push(at as usize), ..headed };
    if !f.is_binary && !f.is_too_large {
        let o2 = if f.hunks@.len() == 0 {
            lemma_emit_in_step(o1, muted_line("  no textual hunks"@, t), RowView::FileEnd);
            emit(o1, muted_line("  no textual hunks"@, t), RowView::FileEnd)
        } else {
            o1
        };
        lemma_hunks_in_step(o2, a, f, fi, f.hunks@.len(), number_digits(f) as usize, width, t);
    }
}

proof fn lemma_files_in_step(o: DiffOut, a: App, k: nat, width: usize, t: Theme)
    ensures
        emit_files(o, a, k, width, t).lines.len() >= o.lines.len(),
        rows_match(o) ==> rows_match(emit_files(o, a, k, width, t)),
        in_step(o) && emit_files(o, a, k, width, t).lines.len() <= usize::MAX ==> in_step(emit_files(o, a, k, width, t)),
    decreases k,
{
    if k > 0 {
        lemma_files_in_step(o, a, (k - 1) as nat, width, t);
        lemma_file_in_step(emit_files(o, a, (k - 1) as nat, width, t), a, (k - 1) as usize, width, t);
    }
}

/// Every row the diff view shows has exactly one description of what it
/// is: the view's rows and the kinds of its rows correspond one to one.
/// And the rows where its cards start (the ones jumped between) increase,
/// each within the view, so jumping to the next card and back returns to
/// the same one (`lemma_next_and_previous_annotation_undo`); this part holds
/// as long as the view's rows can be counted in a `usize`.
pub proof fn lemma_diff_rows_match_lines(a: App, width: usize, t: Theme)
    ensures
        diff_view(a, width, t).rows.len() == diff_view(a, width, t).lines.len(),
        diff_view(a, width, t).lines.len() <= usize::MAX ==> {
            &&& strictly_increasing(diff_view(a, width, t).marks)
            &&& forall|i: int|
                0 <= i < diff_view(a, width, t).marks.len() ==> diff_view(a, width, t).marks[i] < diff_view(
                    a,
                    width,
                    t,
                ).lines.len()
        },
{
    match a.diff_browser {
        Some(b) => if b.files@.len() > 0 {
            lemma_files_in_step(no_rows(), a, b.files@.len(), width, t);
        },
        None => {},
    }
}

} // verus!
