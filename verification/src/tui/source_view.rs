//! The source view: each line of the file shown with its number and marks,
//! the cards of the notes and threads that end on it below it, and where each
//! line's row falls.

use vstd::prelude::*;

use crate::model::{Note, NoteView, Question, QuestionView};
use crate::syntax::{segments_view, SegmentStyle, StyledSegments};
use crate::text::{decimal, push_char, push_decimal, push_str};
use crate::theme::{blend, spec_blend, Color, Theme};
use crate::tui::app::{
    anchor_display_line, anchor_end, covers, is_diff, note_on, strictly_increasing, thread_on, visual_range, App, LoadedFile,
    ViewMetrics,
};
use crate::export::turns_fit;
use crate::text::str_eq;
use crate::tui::render::{
    append_lines, decimal_len, line_of1, line_view, lines_view, note_card_lines, render_note_card, render_question_thread,
    span, span_str, style_of, thread_lines, SpanStyle, StyledLine, StyledSpan,
};

verus! {

/// One line of the screen, as its runs of text with their styles.
pub type LineView = Seq<(Seq<char>, SpanStyle)>;

// ---------------------------------------------------------------------------
// One source line.
// ---------------------------------------------------------------------------

/// What a source line's row shows besides its text.
#[derive(Debug, Clone, Copy, PartialEq, Eq, Structural)]
pub struct SourceLineState {
    /// The width of the line-number column.
    pub digits: usize,
    /// The cursor is on the line.
    pub selected: bool,
    /// A note covers the line.
    pub has_note: bool,
    /// A thread covers the line.
    pub has_question: bool,
    /// The line is in the visual selection.
    pub in_visual_selection: bool,
}

/// The mark in front of a line: a dot for a note, a ring for a thread, a
/// diamond for both.
pub open spec fn line_mark(has_note: bool, has_question: bool) -> Seq<char> {
    if has_note && has_question {
        "◆"@
    } else if has_question {
        "◌"@
    } else if has_note {
        "●"@
    } else {
        " "@
    }
}

/// The background of a row by whether the cursor is on it and whether it is
/// selected.
pub open spec fn row_background(selected: bool, in_visual_selection: bool, t: Theme) -> Color {
    if selected && in_visual_selection {
        spec_blend(t.panel, t.border_focus, 28)
    } else if selected {
        t.cursor_line
    } else if in_visual_selection {
        spec_blend(t.panel, t.border_focus, 18)
    } else {
        t.panel
    }
}

/// `k` spaces.
pub open spec fn spaces(k: nat) -> Seq<char> {
    Seq::new(k, |i: int| ' ')
}

/// `n` in decimal, right-aligned with spaces to `digits` columns.
pub open spec fn padded_number(n: nat, digits: nat) -> Seq<char> {
    if decimal(n).len() < digits {
        spaces((digits - decimal(n).len()) as nat) + decimal(n)
    } else {
        decimal(n)
    }
}

/// A highlighted run drawn on the row's background.
pub open spec fn on_background(style: SegmentStyle, bg: Color) -> SpanStyle {
    SpanStyle { fg: style.fg, bg: Some(bg), bold: style.bold, italic: style.italic, underline: style.underline }
}

/// The runs of the line's text: its highlighted runs when there are any,
/// else the plain text.
pub open spec fn text_spans(content: Seq<char>, highlighted: Option<Seq<(SegmentStyle, Seq<char>)>>, bg: Color, t: Theme) -> LineView {
    match highlighted {
        Some(segments) if segments.len() > 0 => segments.map_values(
            |s: (SegmentStyle, Seq<char>)| (s.1, on_background(s.0, bg)),
        ),
        _ => seq![(content, style_of(Some(t.text), Some(bg), false))],
    }
}

/// A source line's row: its mark, its number and a rule, then its text.
pub open spec fn source_line_spans(
    line_no: usize,
    content: Seq<char>,
    highlighted: Option<Seq<(SegmentStyle, Seq<char>)>>,
    state: SourceLineState,
    t: Theme,
) -> LineView {
    let bg = row_background(state.selected, state.in_visual_selection, t);
    let mark_fg = if state.in_visual_selection { t.border_focus } else { t.accent };
    seq![
        (line_mark(state.has_note, state.has_question), style_of(Some(mark_fg), Some(bg), false)),
        (" "@, style_of(None, Some(bg), false)),
        (padded_number(line_no as nat, state.digits as nat), style_of(Some(t.muted), Some(bg), false)),
        (" │ "@, style_of(Some(t.border), Some(bg), false)),
    ] + text_spans(content, highlighted, bg, t)
}

/// The background of a row (see `row_background`).
pub fn row_color(selected: bool, in_visual_selection: bool, theme: &Theme) -> (r: Color)
    ensures
        r == row_background(selected, in_visual_selection, *theme),
{
    if selected && in_visual_selection {
        blend(theme.panel, theme.border_focus, 28)
    } else if selected {
        theme.cursor_line
    } else if in_visual_selection {
        blend(theme.panel, theme.border_focus, 18)
    } else {
        theme.panel
    }
}

/// Appends `k` spaces.
pub fn push_spaces(out: &mut String, k: usize)
    ensures
        final(out)@ == old(out)@ + spaces(k as nat),
{
    let mut i: usize = 0;
    while i < k
        invariant
            i <= k,
            out@ == old(out)@ + spaces(i as nat),
        decreases k - i,
    {
        push_char(out, ' ');
        assert(old(out)@ + spaces((i + 1) as nat) =~= (old(out)@ + spaces(i as nat)).push(' '));
        i = i + 1;
    }
}

/// `n` right-aligned to `digits` columns (see `padded_number`).
pub fn padded_decimal(n: usize, digits: usize) -> (r: String)
    ensures
        r@ == padded_number(n as nat, digits as nat),
{
    let len = decimal_len(n);
    let mut out = String::new();
    if len < digits {
        push_spaces(&mut out, digits - len);
    }
    push_decimal(&mut out, n);
    out
}

/// Appends the runs of a highlighted line drawn on `bg`.
pub fn push_segments(out: &mut StyledLine, segments: &StyledSegments, bg: Color)
    ensures
        line_view(*final(out)) == line_view(*old(out)) + segments_view(*segments).map_values(
            |s: (SegmentStyle, Seq<char>)| (s.1, on_background(s.0, bg)),
        ),
{
    let ghost sv = segments_view(*segments);
    let ghost f = |s: (SegmentStyle, Seq<char>)| (s.1, on_background(s.0, bg));
    let ghost start = line_view(*out);
    let mut i: usize = 0;
    while i < segments.len()
        invariant
            i <= sv.len(),
            sv == segments_view(*segments),
            f == (|s: (SegmentStyle, Seq<char>)| (s.1, on_background(s.0, bg))),
            line_view(*out) == start + sv.take(i as int).map_values(f),
        decreases segments.len() - i,
    {
        let (style, text) = &segments[i];
        let s = StyledSpan {
            text: text.clone(),
            style: SpanStyle { fg: style.fg, bg: Some(bg), bold: style.bold, italic: style.italic, underline: style.underline },
        };
        let ghost before = line_view(*out);
        out.push(s);
        assert(line_view(*out) =~= before.push(f(sv[i as int])));
        assert(sv.take(i + 1).map_values(f) =~= sv.take(i as int).map_values(f).push(f(sv[i as int])));
        i = i + 1;
    }
    assert(sv.take(i as int) =~= sv);
}

/// A source line's row (see `source_line_spans`).
pub fn render_source_line(
    line_no: usize,
    content: &str,
    highlighted: Option<&StyledSegments>,
    state: SourceLineState,
    theme: &Theme,
) -> (r: StyledLine)
    ensures
        line_view(r) == source_line_spans(
            line_no,
            content@,
            match highlighted {
                Some(h) => Some(segments_view(*h)),
                None => None,
            },
            state,
            *theme,
        ),
{
    let mark = if state.has_note && state.has_question {
        "◆"
    } else if state.has_question {
        "◌"
    } else if state.has_note {
        "●"
    } else {
        " "
    };
    let bg = row_color(state.selected, state.in_visual_selection, theme);
    let mark_fg = if state.in_visual_selection { theme.border_focus } else { theme.accent };
    let mut spans: StyledLine = Vec::new();
    spans.push(span_str(mark, Some(mark_fg), Some(bg), false));
    spans.push(span_str(" ", None, Some(bg), false));
    spans.push(span(padded_decimal(line_no, state.digits), Some(theme.muted), Some(bg), false));
    spans.push(span_str(" │ ", Some(theme.border), Some(bg), false));
    let ghost head = line_view(spans);
    let plain = match highlighted {
        Some(segments) => segments.len() == 0,
        None => true,
    };
    if plain {
        let ghost before = line_view(spans);
        spans.push(span_str(content, Some(theme.text), Some(bg), false));
        assert(line_view(spans) =~= before.push((content@, style_of(Some(theme.text), Some(bg), false))));
    } else {
        match highlighted {
            Some(segments) => push_segments(&mut spans, segments, bg),
            None => {},
        }
    }
    proof {
        reveal_strlit("◆");
        reveal_strlit("◌");
        reveal_strlit("●");
        reveal_strlit(" ");
        reveal_strlit(" │ ");
        let hv = match highlighted {
            Some(h) => Some(segments_view(*h)),
            None => None,
        };
        let bgv = row_background(state.selected, state.in_visual_selection, *theme);
        assert(mark@ == line_mark(state.has_note, state.has_question));
        assert(line_view(spans) =~= head + text_spans(content@, hv, bgv, *theme));
    }
    spans
}


// ---------------------------------------------------------------------------
// Cards under a line.
// ---------------------------------------------------------------------------

/// A note on `path` whose card goes under `line`: its last line.
pub open spec fn note_ends_at(path: Seq<char>, line: int) -> spec_fn(NoteView) -> bool {
    |n: NoteView| n.path == path && anchor_end(n.anchor) == line
}

/// A thread on `path` anchored so that its card goes under `line`.
pub open spec fn thread_ends_at(path: Seq<char>, line: int) -> spec_fn(QuestionView) -> bool {
    |q: QuestionView| q.path == path && (q.anchor matches Some(a) && anchor_end(a) == line)
}

/// The cards of the notes, one after another.
pub open spec fn note_cards(ns: Seq<NoteView>, width: usize, t: Theme) -> Seq<LineView>
    decreases ns.len(),
{
    if ns.len() == 0 {
        Seq::empty()
    } else {
        note_cards(ns.drop_last(), width, t) + note_card_lines(ns.last(), width, t)
    }
}

/// The cards of the threads, one after another, each with its actions.
pub open spec fn thread_cards(qs: Seq<QuestionView>, width: usize, comment_mode: bool, t: Theme) -> Seq<LineView>
    decreases qs.len(),
{
    if qs.len() == 0 {
        Seq::empty()
    } else {
        thread_cards(qs.drop_last(), width, comment_mode, t) + thread_lines(qs.last(), width, comment_mode, true, t)
    }
}

/// The cards of the notes of `path` that go under `line`, and how many notes
/// they are.
pub fn note_cards_at(app: &App, path: &str, line: usize, width: usize, theme: &Theme) -> (r: (Vec<StyledLine>, usize))
    ensures
        lines_view(r.0@) == note_cards(app.packet@.notes.filter(note_ends_at(path@, line as int)), width, *theme),
        r.1 == app.packet@.notes.filter(note_ends_at(path@, line as int)).len(),
{
    let ghost ns = app.packet@.notes;
    let ghost p = note_ends_at(path@, line as int);
    let mut out: Vec<StyledLine> = Vec::new();
    let mut count: usize = 0;
    let mut i: usize = 0;
    proof {
        reveal(Seq::filter);
    }
    assert(ns.take(0) =~= Seq::<NoteView>::empty());
    while i < app.packet.notes.len()
        invariant
            i <= ns.len(),
            ns == app.packet@.notes,
            p == note_ends_at(path@, line as int),
            lines_view(out@) == note_cards(ns.take(i as int).filter(p), width, *theme),
            count == ns.take(i as int).filter(p).len(),
            count <= i,
        decreases app.packet.notes.len() - i,
    {
        proof {
            reveal(Seq::filter);
            assert(ns.take(i + 1).drop_last() =~= ns.take(i as int));
            assert(ns.take(i + 1).last() == ns[i as int]);
        }
        let note = &app.packet.notes[i];
        if str_eq(note.path.as_str(), path) && anchor_display_line(note.anchor) == line {
            let card = render_note_card(note, width, *&theme);
            let ghost kept = ns.take(i as int).filter(p);
            assert(kept.push(ns[i as int]).drop_last() =~= kept);
            append_lines(&mut out, card);
            count = count + 1;
        }
        i = i + 1;
    }
    assert(ns.take(i as int) =~= ns);
    (out, count)
}

/// The cards of the threads of `path` that go under `line`, and how many
/// threads they are.
pub fn thread_cards_at(app: &App, path: &str, line: usize, width: usize, comment_mode: bool, theme: &Theme) -> (r: (
    Vec<StyledLine>,
    usize,
))
    requires
        turns_fit(app.packet@),
    ensures
        lines_view(r.0@) == thread_cards(app.packet@.questions.filter(thread_ends_at(path@, line as int)), width, comment_mode, *theme),
        r.1 == app.packet@.questions.filter(thread_ends_at(path@, line as int)).len(),
{
    let ghost qs = app.packet@.questions;
    let ghost p = thread_ends_at(path@, line as int);
    let mut out: Vec<StyledLine> = Vec::new();
    let mut count: usize = 0;
    let mut i: usize = 0;
    proof {
        reveal(Seq::filter);
    }
    assert(qs.take(0) =~= Seq::<QuestionView>::empty());
    while i < app.packet.questions.len()
        invariant
            i <= qs.len(),
            qs == app.packet@.questions,
            turns_fit(app.packet@),
            p == thread_ends_at(path@, line as int),
            lines_view(out@) == thread_cards(qs.take(i as int).filter(p), width, comment_mode, *theme),
            count == qs.take(i as int).filter(p).len(),
            count <= i,
        decreases app.packet.questions.len() - i,
    {
        proof {
            reveal(Seq::filter);
            assert(qs.take(i + 1).drop_last() =~= qs.take(i as int));
            assert(qs.take(i + 1).last() == qs[i as int]);
        }
        let question = &app.packet.questions[i];
        let ends_here = match question.anchor {
            Some(a) => anchor_display_line(a) == line,
            None => false,
        };
        if str_eq(question.path.as_str(), path) && ends_here {
            assert(qs[i as int].conversation.len() < usize::MAX);
            let card = render_question_thread(question, width, comment_mode, true, theme);
            let ghost kept = qs.take(i as int).filter(p);
            assert(kept.push(qs[i as int]).drop_last() =~= kept);
            append_lines(&mut out, card);
            count = count + 1;
        }
        i = i + 1;
    }
    assert(qs.take(i as int) =~= qs);
    (out, count)
}

/// Whether a note on `path` covers `line`.
pub open spec fn some_note_covers(a: App, path: Seq<char>, line: int) -> bool {
    exists|i: int| 0 <= i < a.packet@.notes.len() && #[trigger] a.packet@.notes[i].path == path && covers(a.packet@.notes[i].anchor, line)
}

/// Whether an anchored thread on `path` covers `line`.
pub open spec fn some_thread_covers(a: App, path: Seq<char>, line: int) -> bool {
    exists|i: int|
        0 <= i < a.packet@.questions.len() && #[trigger] a.packet@.questions[i].path == path && (a.packet@.questions[i].anchor matches Some(an)
            && covers(an, line))
}

pub fn line_has_note(app: &App, path: &str, line: usize) -> (r: bool)
    ensures
        r == some_note_covers(*app, path@, line as int),
{
    let ghost ns = app.packet@.notes;
    let mut i: usize = 0;
    while i < app.packet.notes.len()
        invariant
            i <= ns.len(),
            ns == app.packet@.notes,
            forall|j: int| 0 <= j < i ==> !(#[trigger] ns[j].path == path@ && covers(ns[j].anchor, line as int)),
        decreases app.packet.notes.len() - i,
    {
        let note = &app.packet.notes[i];
        if str_eq(note.path.as_str(), path) && crate::tui::app::anchor_contains_line(note.anchor, line) {
            assert(ns[i as int].path == path@);
            return true;
        }
        i = i + 1;
    }
    false
}

pub fn line_has_thread(app: &App, path: &str, line: usize) -> (r: bool)
    ensures
        r == some_thread_covers(*app, path@, line as int),
{
    let ghost qs = app.packet@.questions;
    let mut i: usize = 0;
    while i < app.packet.questions.len()
        invariant
            i <= qs.len(),
            qs == app.packet@.questions,
            forall|j: int|
                0 <= j < i ==> !(#[trigger] qs[j].path == path@ && (qs[j].anchor matches Some(an) && covers(an, line as int))),
        decreases app.packet.questions.len() - i,
    {
        let question = &app.packet.questions[i];
        let covered = match question.anchor {
            Some(a) => crate::tui::app::anchor_contains_line(a, line),
            None => false,
        };
        if str_eq(question.path.as_str(), path) && covered {
            assert(qs[i as int].path == path@);
            return true;
        }
        i = i + 1;
    }
    false
}


// ---------------------------------------------------------------------------
// The whole view.
// ---------------------------------------------------------------------------

/// The number of rows the file takes: its lines, at least one.
pub open spec fn line_count(f: LoadedFile) -> nat {
    if f.lines@.len() > 0 {
        f.lines@.len()
    } else {
        1
    }
}

/// The text of line `line_no` (counted from 1), empty past the end.
pub open spec fn line_content(f: LoadedFile, line_no: int) -> Seq<char> {
    if 1 <= line_no <= f.lines@.len() {
        f.lines@[line_no - 1]@
    } else {
        Seq::empty()
    }
}

/// The highlighting of line `line_no`, if the file has it.
pub open spec fn line_highlight(f: LoadedFile, line_no: int) -> Option<Seq<(SegmentStyle, Seq<char>)>> {
    if 1 <= line_no <= f.highlighted_lines@.len() {
        Some(segments_view(f.highlighted_lines@[line_no - 1]))
    } else {
        None
    }
}

/// What the row of line `line_no` shows besides its text.
pub open spec fn line_state_of(a: App, f: LoadedFile, line_no: usize) -> SourceLineState {
    SourceLineState {
        digits: decimal(line_count(f)).len() as usize,
        selected: line_no == a.cursor_line,
        has_note: some_note_covers(a, f.path@, line_no as int),
        has_question: some_thread_covers(a, f.path@, line_no as int),
        in_visual_selection: !is_diff(a) && (visual_range(a) matches Some(r) && covers(r, line_no as int)),
    }
}

/// Line `line_no`'s row, then the cards of its notes, then those of its
/// threads.
#[verifier::opaque]
pub open spec fn source_block(a: App, f: LoadedFile, line_no: usize, width: usize, t: Theme) -> Seq<LineView> {
    seq![source_line_spans(line_no, line_content(f, line_no as int), line_highlight(f, line_no as int), line_state_of(a, f, line_no), t)]
        + note_cards(a.packet@.notes.filter(note_ends_at(f.path@, line_no as int)), width, t)
        + thread_cards(a.packet@.questions.filter(thread_ends_at(f.path@, line_no as int)), width, false, t)
}

/// Whether cards go under line `line`.
pub open spec fn has_cards_at(a: App, f: LoadedFile, line: int) -> bool {
    a.packet@.notes.filter(note_ends_at(f.path@, line)).len() > 0 || a.packet@.questions.filter(thread_ends_at(f.path@, line)).len() > 0
}

/// The blocks of lines 1 to `k`.
pub open spec fn source_blocks(a: App, f: LoadedFile, k: nat, width: usize, t: Theme) -> Seq<LineView>
    decreases k,
{
    if k == 0 {
        Seq::empty()
    } else {
        source_blocks(a, f, (k - 1) as nat, width, t) + source_block(a, f, k as usize, width, t)
    }
}

/// The row where each of lines 1 to `k` starts.
pub open spec fn block_rows(a: App, f: LoadedFile, k: nat, width: usize, t: Theme) -> Seq<usize>
    decreases k,
{
    if k == 0 {
        Seq::empty()
    } else {
        block_rows(a, f, (k - 1) as nat, width, t).push(source_blocks(a, f, (k - 1) as nat, width, t).len() as usize)
    }
}

/// Those of lines 1 to `k` that carry cards, in order.
pub open spec fn marked_lines(a: App, f: LoadedFile, k: nat) -> Seq<usize>
    decreases k,
{
    if k == 0 {
        Seq::empty()
    } else {
        marked_lines(a, f, (k - 1) as nat) + if has_cards_at(a, f, k as int) {
            seq![k as usize]
        } else {
            Seq::empty()
        }
    }
}

/// The annotated lines are listed once each, in increasing order, within the
/// file's lines: so the jumps between them (`next_wrapping`,
/// `previous_wrapping`) undo each other.
pub proof fn lemma_marked_lines_increase(a: App, f: LoadedFile, k: nat)
    requires
        k <= usize::MAX,
    ensures
        strictly_increasing(marked_lines(a, f, k)),
        forall|i: int| 0 <= i < marked_lines(a, f, k).len() ==> 1 <= #[trigger] marked_lines(a, f, k)[i] <= k,
    decreases k,
{
    if k > 0 {
        lemma_marked_lines_increase(a, f, (k - 1) as nat);
    }
}

/// The closing row, counting the lines that carry cards.
pub open spec fn end_of_file_line(path: Seq<char>, marked: nat, t: Theme) -> LineView {
    seq![("─ end of "@ + path + " ─ "@ + decimal(marked) + " annotations attached"@, style_of(Some(t.muted), None, false))]
}

/// What is shown for a file that could not be read.
pub open spec fn unreadable_lines(path: Seq<char>, error: Seq<char>, t: Theme) -> Seq<LineView> {
    seq![
        seq![("unable to read "@ + path, style_of(Some(t.danger), None, true))],
        seq![(error, style_of(Some(t.muted), None, false))],
    ]
}

/// The view shows the unreadable-file message: no file is tracked, or the
/// one shown could not be read.
pub open spec fn shows_unreadable(a: App) -> bool {
    !(a.current_file < a.files@.len()) || a.files@[a.current_file as int].load_error is Some
}

/// The rows of the source view.
pub open spec fn source_view_lines(a: App, width: usize, t: Theme) -> Seq<LineView> {
    if !(a.current_file < a.files@.len()) {
        unreadable_lines("No tracked files"@, "Use f to add a file from the workspace."@, t)
    } else {
        let f = a.files@[a.current_file as int];
        match f.load_error {
            Some(e) => unreadable_lines(f.path@, e@, t),
            None => source_blocks(a, f, line_count(f), width, t) + seq![
                end_of_file_line(f.path@, marked_lines(a, f, line_count(f)).len(), t),
            ],
        }
    }
}

/// The row where each source line starts.
pub open spec fn source_line_rows(a: App, width: usize, t: Theme) -> Seq<usize> {
    if shows_unreadable(a) {
        seq![0usize]
    } else {
        let f = a.files@[a.current_file as int];
        block_rows(a, f, line_count(f), width, t)
    }
}

/// The lines that carry cards.
pub open spec fn source_marks(a: App) -> Seq<usize> {
    if shows_unreadable(a) {
        Seq::empty()
    } else {
        let f = a.files@[a.current_file as int];
        marked_lines(a, f, line_count(f))
    }
}

/// Line `line_no`'s block, and whether it carries cards.
fn source_block_lines(app: &App, f: &LoadedFile, line_no: usize, digits: usize, width: usize, theme: &Theme) -> (r: (
    Vec<StyledLine>,
    bool,
))
    requires
        turns_fit(app.packet@),
        digits == decimal(line_count(*f)).len(),
        1 <= line_no,
    ensures
        lines_view(r.0@) == source_block(*app, *f, line_no, width, *theme),
        r.1 == has_cards_at(*app, *f, line_no as int),
{
    let path = f.path.as_str();
    let content = if line_no - 1 < f.lines.len() {
        f.lines[line_no - 1].as_str()
    } else {
        ""
    };
    let highlighted = if line_no - 1 < f.highlighted_lines.len() {
        Some(&f.highlighted_lines[line_no - 1])
    } else {
        None
    };
    let state = SourceLineState {
        digits,
        selected: line_no == app.cursor_line,
        has_note: line_has_note(app, path, line_no),
        has_question: line_has_thread(app, path, line_no),
        in_visual_selection: app.is_line_in_visual_selection(line_no),
    };
    proof {
        reveal_strlit("");
        assert(content@ =~= line_content(*f, line_no as int));
        assert(match highlighted {
            Some(h) => Some(segments_view(*h)),
            None => None,
        } == line_highlight(*f, line_no as int));
        assert(state == line_state_of(*app, *f, line_no));
    }
    let row = render_source_line(line_no, content, highlighted, state, theme);
    proof {
        reveal(source_block);
    }
    let mut out: Vec<StyledLine> = Vec::new();
    out.push(row);
    assert(lines_view(out@) =~= seq![line_view(row)]);
    let (notes, note_count) = note_cards_at(app, path, line_no, width, theme);
    append_lines(&mut out, notes);
    let (threads, thread_count) = thread_cards_at(app, path, line_no, width, false, theme);
    append_lines(&mut out, threads);
    (out, note_count > 0 || thread_count > 0)
}

/// What is shown for a file that could not be read, with its metrics.
fn unreadable_view(path: &str, error: &str, theme: &Theme) -> (r: (Vec<StyledLine>, ViewMetrics))
    ensures
        lines_view(r.0@) == unreadable_lines(path@, error@, *theme),
        r.1.line_to_row@ == seq![0usize],
        r.1.annotation_lines@.len() == 0,
        r.1.total_rows == 2,
        r.1.total_rows == r.0@.len(),
        r.1.viewport_height == 1,
{
    let mut heading = "unable to read ".to_string();
    push_str(&mut heading, path);
    let first = line_of1(span(heading, Some(theme.danger), None, true));
    let second = line_of1(span_str(error, Some(theme.muted), None, false));
    let mut lines: Vec<StyledLine> = Vec::new();
    lines.push(first);
    lines.push(second);
    assert(lines_view(lines@) =~= seq![line_view(first), line_view(second)]);
    let mut line_to_row: Vec<usize> = Vec::new();
    line_to_row.push(0);
    assert(line_to_row@ =~= seq![0usize]);
    (lines, ViewMetrics { line_to_row, annotation_lines: Vec::new(), total_rows: 2, viewport_height: 1 })
}

/// The rows of a readable file: each line's block, then the closing row.
fn loaded_source_view(app: &App, f: &LoadedFile, width: usize, theme: &Theme) -> (r: (Vec<StyledLine>, ViewMetrics))
    requires
        turns_fit(app.packet@),
    ensures
        lines_view(r.0@) == source_blocks(*app, *f, line_count(*f), width, *theme) + seq![
            end_of_file_line(f.path@, marked_lines(*app, *f, line_count(*f)).len(), *theme),
        ],
        r.1.line_to_row@ == block_rows(*app, *f, line_count(*f), width, *theme),
        r.1.annotation_lines@ == marked_lines(*app, *f, line_count(*f)),
        r.1.total_rows == r.0@.len(),
        r.1.viewport_height == 1,
{
    let count = if f.lines.len() > 0 { f.lines.len() } else { 1 };
    let digits = decimal_len(count);
    let mut rendered: Vec<StyledLine> = Vec::new();
    let mut line_to_row: Vec<usize> = Vec::new();
    let mut annotation_lines: Vec<usize> = Vec::new();
    let mut k: usize = 0;
    while k < count
        invariant
            k <= count,
            count == line_count(*f),
            digits == decimal(line_count(*f)).len(),
            turns_fit(app.packet@),
            lines_view(rendered@) == source_blocks(*app, *f, k as nat, width, *theme),
            line_to_row@ == block_rows(*app, *f, k as nat, width, *theme),
            annotation_lines@ == marked_lines(*app, *f, k as nat),
        decreases count - k,
    {
        let line_no = k + 1;
        line_to_row.push(rendered.len());
        let (block, marked) = source_block_lines(app, f, line_no, digits, width, theme);
        if marked {
            annotation_lines.push(line_no);
        }
        append_lines(&mut rendered, block);
        assert(annotation_lines@ =~= marked_lines(*app, *f, line_no as nat));
        k = line_no;
    }
    let mut closing = "─ end of ".to_string();
    push_str(&mut closing, f.path.as_str());
    push_str(&mut closing, " ─ ");
    push_decimal(&mut closing, annotation_lines.len());
    push_str(&mut closing, " annotations attached");
    let last = line_of1(span(closing, Some(theme.muted), None, false));
    let ghost before = lines_view(rendered@);
    rendered.push(last);
    assert(lines_view(rendered@) =~= before.push(line_view(last)));
    let total_rows = rendered.len();
    (rendered, ViewMetrics { line_to_row, annotation_lines, total_rows, viewport_height: 1 })
}

/// The rows of the source view and where its lines fall.
pub fn build_source_lines(app: &App, width: usize, theme: &Theme) -> (r: (Vec<StyledLine>, ViewMetrics))
    requires
        turns_fit(app.packet@),
    ensures
        lines_view(r.0@) == source_view_lines(*app, width, *theme),
        r.1.line_to_row@ == source_line_rows(*app, width, *theme),
        r.1.annotation_lines@ == source_marks(*app),
        r.1.total_rows == r.0@.len(),
        r.1.viewport_height == 1,
{
    match app.current_file() {
        Some(f) => match &f.load_error {
            Some(e) => unreadable_view(f.path.as_str(), e.as_str(), theme),
            None => loaded_source_view(app, f, width, theme),
        },
        None => {
            let placeholder = crate::tui::app::empty_loaded_file();
            match &placeholder.load_error {
                Some(e) => unreadable_view(placeholder.path.as_str(), e.as_str(), theme),
                None => loaded_source_view(app, &placeholder, width, theme),
            }
        },
    }
}


// ---------------------------------------------------------------------------
// Laws.
// ---------------------------------------------------------------------------

proof fn lemma_block_rows(a: App, f: LoadedFile, n: nat, width: usize, t: Theme, k: int)
    requires
        1 <= k <= n,
        source_blocks(a, f, n, width, t).len() <= usize::MAX,
    ensures
        block_rows(a, f, n, width, t).len() == n,
        block_rows(a, f, n, width, t)[k - 1] == source_blocks(a, f, (k - 1) as nat, width, t).len(),
    decreases n,
{
    lemma_rows_len(a, f, n, width, t);
    lemma_rows_len(a, f, (n - 1) as nat, width, t);
    lemma_blocks_grow(a, f, n, width, t, (n - 1) as nat);
    if k < n {
        lemma_block_rows(a, f, (n - 1) as nat, width, t, k);
    }
}

proof fn lemma_rows_len(a: App, f: LoadedFile, n: nat, width: usize, t: Theme)
    ensures
        block_rows(a, f, n, width, t).len() == n,
    decreases n,
{
    if n > 0 {
        lemma_rows_len(a, f, (n - 1) as nat, width, t);
    }
}

/// The blocks of the first `j` lines begin the blocks of the first `n`.
proof fn lemma_blocks_grow(a: App, f: LoadedFile, n: nat, width: usize, t: Theme, j: nat)
    requires
        j <= n,
    ensures
        source_blocks(a, f, j, width, t).len() <= source_blocks(a, f, n, width, t).len(),
        source_blocks(a, f, n, width, t).take(source_blocks(a, f, j, width, t).len() as int) == source_blocks(a, f, j, width, t),
    decreases n,
{
    if j < n {
        lemma_blocks_grow(a, f, (n - 1) as nat, width, t, j);
        let before = source_blocks(a, f, (n - 1) as nat, width, t);
        let all = source_blocks(a, f, n, width, t);
        let part = source_blocks(a, f, j, width, t);
        assert(all.take(before.len() as int) =~= before);
        assert(all.take(part.len() as int) =~= before.take(part.len() as int));
    } else {
        let all = source_blocks(a, f, n, width, t);
        assert(all.take(all.len() as int) =~= all);
    }
}

proof fn lemma_block_starts_with_line(a: App, f: LoadedFile, k: usize, width: usize, t: Theme)
    ensures
        source_block(a, f, k, width, t).len() >= 1,
        source_block(a, f, k, width, t)[0] == source_line_spans(
            k,
            line_content(f, k as int),
            line_highlight(f, k as int),
            line_state_of(a, f, k),
            t,
        ),
{
    reveal(source_block);
}

/// Line `k`'s row among the blocks of the first `n` lines.
proof fn lemma_block_row_shows_line(a: App, f: LoadedFile, n: nat, width: usize, t: Theme, k: int)
    requires
        1 <= k <= n,
        n <= usize::MAX,
        source_blocks(a, f, n, width, t).len() <= usize::MAX,
    ensures
        ({
            let rows = block_rows(a, f, n, width, t);
            let all = source_blocks(a, f, n, width, t);
            &&& rows.len() == n
            &&& rows[k - 1] < all.len()
            &&& all[rows[k - 1] as int] == source_line_spans(
                k as usize,
                line_content(f, k),
                line_highlight(f, k),
                line_state_of(a, f, k as usize),
                t,
            )
            &&& (k > 1 ==> rows[k - 2] < rows[k - 1])
        }),
{
    let all = source_blocks(a, f, n, width, t);
    let upto = source_blocks(a, f, k as nat, width, t);
    let before = source_blocks(a, f, (k - 1) as nat, width, t);
    lemma_block_rows(a, f, n, width, t, k);
    lemma_blocks_grow(a, f, n, width, t, k as nat);
    assert(upto == before + source_block(a, f, k as usize, width, t));
    let block = source_block(a, f, k as usize, width, t);
    lemma_block_starts_with_line(a, f, k as usize, width, t);
    assert(upto[before.len() as int] == block[0]);
    assert(all.take(upto.len() as int)[before.len() as int] == all[before.len() as int]);
    if k > 1 {
        lemma_block_rows(a, f, n, width, t, k - 1);
        let earlier = source_blocks(a, f, (k - 2) as nat, width, t);
        lemma_block_starts_with_line(a, f, (k - 1) as usize, width, t);
        assert(before == earlier + source_block(a, f, (k - 1) as usize, width, t));
    }
}

/// In the source view of a readable file, line `k`'s row is where
/// `line_to_row` says it is: the row at that index shows line `k` (its mark,
/// number and text), and the lines' rows come in order.
pub proof fn lemma_line_rows_show_their_lines(a: App, width: usize, t: Theme, k: int)
    requires
        !shows_unreadable(a),
        1 <= k <= line_count(a.files@[a.current_file as int]),
        source_view_lines(a, width, t).len() <= usize::MAX,
    ensures
        ({
            let f = a.files@[a.current_file as int];
            let rows = source_line_rows(a, width, t);
            let view = source_view_lines(a, width, t);
            &&& rows.len() == line_count(f)
            &&& rows[k - 1] < view.len()
            &&& view[rows[k - 1] as int] == source_line_spans(
                k as usize,
                line_content(f, k),
                line_highlight(f, k),
                line_state_of(a, f, k as usize),
                t,
            )
            &&& (k > 1 ==> rows[k - 2] < rows[k - 1])
        }),
{
    let f = a.files@[a.current_file as int];
    let n = line_count(f);
    let all = source_blocks(a, f, n, width, t);
    let view = source_view_lines(a, width, t);
    assert(view == all + seq![end_of_file_line(f.path@, marked_lines(a, f, n).len(), t)]);
    assert(source_line_rows(a, width, t) == block_rows(a, f, n, width, t));
    assert(f.lines.len() == f.lines@.len());
    lemma_block_row_shows_line(a, f, n, width, t, k);
    assert(view[block_rows(a, f, n, width, t)[k - 1] as int] == all[block_rows(a, f, n, width, t)[k - 1] as int]);
}

} // verus!
