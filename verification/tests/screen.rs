use copanion::diff::{DiffFile, DiffHunk, DiffLine, FileStatus, LineOrigin};
use copanion::model::{Anchor, Note, NoteKind, NoteSource, Packet, Question, QuestionMessageRole, TrackedFile};
use copanion::theme::{Theme, ThemeName};
use copanion::tui::app::{App, LoadedFile};
use copanion::tui::diff_view::build_diff_lines;
use copanion::tui::render::{
    decimal_len, fit_status_segments, line_col_at, render_question_thread, truncate_from_start, truncate_to_width_end,
    wrap_text, StyledLine,
};
use copanion::tui::screen::{header_line, help_lines, status_line, text_area_lines, text_cursor_position, visible_lines};
use copanion::tui::source_view::{build_source_lines, padded_decimal};

fn s(text: &str) -> String {
    text.to_string()
}

fn theme() -> Theme {
    ThemeName::GruvboxDark.theme()
}

fn text_of(line: &StyledLine) -> String {
    line.iter().map(|span| span.text.as_str()).collect()
}

fn rendered(lines: &[StyledLine]) -> String {
    lines.iter().map(text_of).collect::<Vec<_>>().join("\n")
}

fn loaded(path: &str, contents: &str) -> LoadedFile {
    LoadedFile { path: s(path), lines: contents.lines().map(String::from).collect(), highlighted_lines: vec![], load_error: None }
}

fn app_over(path: &str, contents: &str, packet: Packet) -> App {
    let mut app = App::new(s("/tmp/demo/packet.toml"), packet, false);
    app.files_loaded(vec![loaded(path, contents)]);
    app
}

#[test]
fn wrapped_text_preserves_blank_paragraphs() {
    let wrapped = wrap_text("one two\n\nthree", 5);
    assert!(wrapped.contains(&String::new()));
}

#[test]
fn wrapping_breaks_between_words_and_splits_long_words() {
    assert_eq!(wrap_text("one two three", 7), vec![s("one two"), s("three")]);
    assert_eq!(wrap_text("abcdefgh", 3), vec![s("abc"), s("def"), s("gh")]);
}

#[test]
fn source_view_injects_note_and_question_cards() {
    let mut packet = Packet::new(s("demo"), s("Demo"), s("/tmp/demo"), vec![TrackedFile::new(s("src/main.rs"))]);
    packet.notes.push(Note::new(s("src/main.rs"), Anchor::new(1, None), NoteKind::Flow, s("entry"), s("starts here"), vec![], None, NoteSource::Agent));
    packet.questions.push(Question::new(s("src/main.rs"), Some(Anchor::new(1, None)), s("why empty?"), None, vec![]));
    let app = app_over("src/main.rs", "fn main() {}\n", packet);
    let (lines, metrics) = build_source_lines(&app, 80, &theme());
    let text = rendered(&lines);
    assert!(text.contains("entry"));
    assert!(text.contains("why empty?"));
    assert_eq!(metrics.annotation_lines, vec![1]);
}

#[test]
fn question_cards_render_the_full_thread_in_order() {
    let mut question = Question::new(s("src/main.rs"), Some(Anchor::new(11, None)), s("Why is this branch separate?"), None, vec![]);
    question.add_message(QuestionMessageRole::Agent, s("It keeps startup work off the fast path."));
    question.add_message(QuestionMessageRole::User, s("What invariant depends on that split?"));
    question.add_message(QuestionMessageRole::Agent, s("The fast path assumes setup already validated the inputs."));

    let text = rendered(&render_question_thread(&question, 80, false, false, &theme()));

    assert!(text.contains("4 turns"));
    assert!(text.contains("Question · original question"));
    assert!(text.contains("Follow-up · user follow-up"));
    assert!(text.contains("Agent Reply · agent answer"));
    assert!(text.contains("Why is this branch separate?"));
    assert!(text.contains("What invariant depends on that split?"));
    assert!(text.contains("The fast path assumes setup already validated the inputs."));
}

#[test]
fn ranged_annotations_render_at_their_end_line() {
    let mut packet = Packet::new(s("demo"), s("Demo"), s("/tmp/demo"), vec![TrackedFile::new(s("src/main.rs"))]);
    packet.notes.push(Note::new(s("src/main.rs"), Anchor::new(1, Some(3)), NoteKind::Flow, s("range note"), s("covers the first block"), vec![], None, NoteSource::Agent));
    let app = app_over("src/main.rs", "one\ntwo\nthree\n", packet);
    let (_, metrics) = build_source_lines(&app, 80, &theme());
    assert_eq!(metrics.annotation_lines, vec![3]);
}

#[test]
fn source_rows_are_mapped_line_by_line_with_cards_in_between() {
    let mut packet = Packet::new(s("demo"), s("Demo"), s("/tmp/demo"), vec![TrackedFile::new(s("a.rs"))]);
    packet.notes.push(Note::new(s("a.rs"), Anchor::new(1, None), NoteKind::Flow, s("first"), s("body"), vec![], None, NoteSource::Agent));
    let app = app_over("a.rs", "one\ntwo\n", packet);
    let (lines, metrics) = build_source_lines(&app, 80, &theme());
    assert_eq!(metrics.line_to_row[0], 0);
    assert!(metrics.line_to_row[1] > 1);
    assert_eq!(text_of(&lines[metrics.line_to_row[1]]), "  2 │ two");
    assert_eq!(text_of(&lines[0]), "● 1 │ one");
    assert_eq!(metrics.total_rows, lines.len());
    assert_eq!(text_of(lines.last().unwrap()), "─ end of a.rs ─ 1 annotations attached");
}

#[test]
fn unreadable_files_show_the_error() {
    let packet = Packet::new(s("demo"), s("Demo"), s("/tmp/demo"), vec![TrackedFile::new(s("gone.rs"))]);
    let mut app = App::new(s("/tmp/demo/packet.toml"), packet, false);
    app.files_loaded(vec![LoadedFile { path: s("gone.rs"), lines: vec![], highlighted_lines: vec![], load_error: Some(s("No such file")) }]);
    let (lines, metrics) = build_source_lines(&app, 80, &theme());
    assert_eq!(lines.len(), 2);
    assert_eq!(text_of(&lines[0]), "unable to read gone.rs");
    assert_eq!(text_of(&lines[1]), "No such file");
    assert_eq!(metrics.line_to_row, vec![0]);
    assert_eq!(metrics.total_rows, 2);
}

#[test]
fn diff_view_without_a_diff_says_so() {
    let packet = Packet::new(s("demo"), s("Demo"), s("/tmp/demo"), vec![]);
    let app = App::new(s("/tmp/demo/packet.toml"), Packet::new(s("demo"), s("Demo"), s("/tmp/demo"), vec![]), false);
    let (lines, metrics) = build_diff_lines(&app, 80, &theme());
    assert_eq!(rendered(&lines), "Diff mode is unavailable");
    assert_eq!(metrics.total_rows, 1);

    let diff_app = App::load_diff(s("/tmp/demo/packet.toml"), packet, false, vec![]);
    let (lines, _) = build_diff_lines(&diff_app, 80, &theme());
    assert_eq!(rendered(&lines), "Select a commit range and press Enter to load a diff.");
}

fn diff_line(origin: LineOrigin, old: Option<usize>, new: Option<usize>, content: &str) -> DiffLine {
    DiffLine { origin, content: s(content), old_lineno: old, new_lineno: new, segments: vec![] }
}

#[test]
fn diff_view_lists_headers_hunks_lines_and_cards() {
    let mut packet = Packet::new(s("demo"), s("Demo"), s("/tmp/demo"), vec![]);
    packet.questions.push(Question::new(s("src/main.rs"), Some(Anchor::new(2, None)), s("why print?"), None, vec![]));
    let mut app = App::load_diff(s("/tmp/demo/packet.toml"), packet, false, vec![]);
    let file = DiffFile {
        old_path: Some(s("src/main.rs")),
        new_path: Some(s("src/main.rs")),
        status: FileStatus::Modified,
        hunks: vec![DiffHunk {
            header: s("@@ -1,1 +1,2 @@"),
            lines: vec![
                diff_line(LineOrigin::Context, Some(1), Some(1), "fn main() {"),
                diff_line(LineOrigin::Addition, None, Some(2), "    println!(\"hi\");"),
            ],
            old_start: 1,
            old_count: 1,
            new_start: 1,
            new_count: 2,
        }],
        is_binary: false,
        is_too_large: false,
    };
    app.diff_browser.as_mut().unwrap().files = vec![file];
    let (lines, metrics) = build_diff_lines(&app, 80, &theme());
    let text = rendered(&lines);
    assert!(text.starts_with("▸ M src/main.rs  0n 1c"));
    assert!(text.contains("  @@ -1,1 +1,2 @@"));
    assert!(text.contains("1 1 │   fn main() {"));
    assert!(text.contains("  2 │ +     println!(\"hi\");"));
    assert!(text.contains("why print?"));
    assert!(text.ends_with("─ end of src/main.rs ─"));
    assert_eq!(metrics.rows.len(), lines.len());
    assert_eq!(metrics.file_rows, vec![0]);
    assert_eq!(metrics.annotation_rows, vec![4]);
    assert_eq!(metrics.total_rows, lines.len());
}

#[test]
fn header_counts_files_notes_and_open_threads() {
    let mut packet = Packet::new(s("demo"), s("Demo"), s("/tmp/demo"), vec![TrackedFile::new(s("a.rs"))]);
    packet.questions.push(Question::new(s("a.rs"), None, s("q"), None, vec![]));
    let app = app_over("a.rs", "x\n", packet);
    assert_eq!(text_of(&header_line(&app, &theme())), " COPANION   Demo  1 files  0 notes  1 open questions  a.rs");
}

#[test]
fn status_line_shows_mode_position_and_hint() {
    let packet = Packet::new(s("demo"), s("Demo"), s("/tmp/demo"), vec![TrackedFile::new(s("a.rs"))]);
    let app = app_over("a.rs", "x\n", packet);
    let line = text_of(&status_line(&app, 200, &theme()));
    assert!(line.starts_with(" source  line 1  saved  0 attached notes  Tab focus"));
}

#[test]
fn help_lists_every_key() {
    let lines = help_lines(&theme());
    let text = rendered(&lines);
    assert!(text.contains("Tab             toggle focus between the sidebar and the main view"));
    assert!(text.contains("?               toggle this help"));
    assert_eq!(lines.len(), 40);
}

#[test]
fn text_areas_prompt_when_empty() {
    assert_eq!(rendered(&text_area_lines("", &theme())), "Type here...");
    assert_eq!(rendered(&text_area_lines("a\r\nb\n", &theme())), "a\nb");
}

#[test]
fn cursor_cells_follow_lines_and_columns_inside_the_border() {
    assert_eq!(text_cursor_position(10, 5, 20, 6, "ab\ncd", 4), (12, 7));
    assert_eq!(text_cursor_position(0, 0, 4, 3, "abcdef", 6), (2, 1));
}

#[test]
fn truncation_keeps_the_ends_that_matter() {
    assert_eq!(truncate_from_start("src/deep/path/file.rs", 10), "...file.rs");
    assert_eq!(truncate_from_start("short", 10), "short");
    assert_eq!(truncate_to_width_end("hello world", 6), "hello…");
    assert_eq!(truncate_to_width_end("hello", 1), "…");
    assert_eq!(truncate_to_width_end("hello", 0), "");
}

#[test]
fn status_segments_share_the_width() {
    let fitted = fit_status_segments(" source ", "line 1", "hint", 30);
    assert_eq!(fitted.badge, " source ");
    assert_eq!(fitted.between_badge_and_meta, " ");
    assert_eq!(fitted.meta, "line 1");
    assert_eq!(fitted.between_meta_and_message, "  ");
    assert_eq!(fitted.message, "hint");
    let tight = fit_status_segments(" source ", "line 1", "", 8);
    assert_eq!(tight.badge, " source ");
    assert_eq!(tight.meta, "");
}

#[test]
fn line_and_column_count_wide_characters() {
    assert_eq!(line_col_at("ab\ncd", 4), (1, 1));
    assert_eq!(line_col_at("界x", 3), (0, 2));
}

#[test]
fn numbers_pad_to_their_column() {
    assert_eq!(padded_decimal(7, 3), "  7");
    assert_eq!(padded_decimal(1234, 2), "1234");
    assert_eq!(decimal_len(0), 1);
    assert_eq!(decimal_len(100), 3);
}

#[test]
fn a_window_of_rows_is_cut_from_the_view() {
    let rows: Vec<StyledLine> = (0..5).map(|i| vec![copanion::tui::render::span(format!("r{i}"), None, None, false)]).collect();
    let window = visible_lines(rows.clone(), 3, 4);
    assert_eq!(rendered(&window), "r3\nr4");
    let none = visible_lines(rows, 9, 4);
    assert!(none.is_empty());
}
