use copanion::diff::CommitInfo;
use copanion::model::{Anchor, Note, NoteKind, NoteSource, Packet, Question, QuestionMessageRole, QuestionStatus, TrackedFile};
use copanion::tui::app::{restore_commit_selector_state, App, DraftKind, DraftTarget, FocusPane, InputMode, LoadedFile, Pending, TextBuffer};

fn s(text: &str) -> String {
    text.to_string()
}

fn loaded(path: &str, contents: &str) -> LoadedFile {
    LoadedFile { path: s(path), lines: contents.lines().map(String::from).collect(), highlighted_lines: vec![], load_error: None }
}

/// A session over `files`, with their contents read as the terminal front end
/// reads them.
fn source_app(files: &[(&str, &str)], configure_packet: impl FnOnce(&mut Packet)) -> App {
    let tracked_files = files.iter().map(|(path, _)| TrackedFile::new(s(path))).collect();
    let mut packet = Packet::new(s("tour"), s("Tour"), s("/tmp/tour-root"), tracked_files);
    configure_packet(&mut packet);
    let mut app = App::new(s("/tmp/tour-root/tour.toml"), packet, false);
    app.files_loaded(files.iter().map(|(path, contents)| loaded(path, contents)).collect());
    app
}

fn single_file_app(contents: &str, configure_packet: impl FnOnce(&mut Packet)) -> App {
    source_app(&[("main.rs", contents)], configure_packet)
}

fn note(path: &str, anchor: Anchor, title: &str, body: &str) -> Note {
    Note::new(s(path), anchor, NoteKind::Overview, s(title), s(body), vec![], None, NoteSource::Agent)
}

fn question(path: &str, line: usize, prompt: &str) -> Question {
    Question::new(s(path), Some(Anchor::new(line, None)), s(prompt), None, vec![])
}

fn type_into_draft(app: &mut App, text: &str) {
    let buffer = app.active_draft_buffer_mut();
    buffer.text = s(text);
    buffer.cursor = buffer.text.len();
}

fn fake_commit(id: &str) -> CommitInfo {
    CommitInfo {
        id: s(id),
        short_id: s(id),
        branch_name: None,
        summary: format!("commit {id}"),
        body: None,
        author: s("Test"),
        time: 0,
    }
}

#[test]
fn text_buffer_basic_editing() {
    let mut buffer = TextBuffer::default();
    buffer.insert('a');
    buffer.insert('b');
    buffer.backspace();
    assert_eq!(buffer.text, "a");
    buffer.move_left();
    buffer.insert('z');
    assert_eq!(buffer.text, "za");
}

#[test]
fn text_buffer_moves_over_multibyte_characters() {
    let mut buffer = TextBuffer::from_text(s("aé"));
    assert_eq!(buffer.cursor, 3);
    buffer.move_left();
    assert_eq!(buffer.cursor, 1);
    buffer.move_home();
    assert_eq!(buffer.cursor, 0);
    buffer.move_end();
    buffer.backspace();
    assert_eq!(buffer.text, "a");
    buffer.clear();
    assert_eq!(buffer.text, "");
    assert_eq!(buffer.cursor, 0);
}

#[test]
fn app_stages_questions_against_current_line() {
    let mut app = single_file_app("fn main() {}\n", |packet| {
        packet.notes.push(note("main.rs", Anchor::new(1, None), "Entry point", "This function starts the binary."));
    });
    app.focus = FocusPane::Source;
    app.begin_question();
    type_into_draft(&mut app, "Why is main empty?");
    app.commit_draft();
    assert_eq!(app.packet.questions.len(), 1);
    assert!(app.dirty);
    assert_eq!(app.packet.questions[0].related_note_ids.len(), 1);
}

#[test]
fn can_start_note_draft() {
    let mut app = single_file_app("fn main() {}\n", |_| {});
    app.begin_note();
    assert_eq!(app.input_mode, InputMode::Draft);
    assert_eq!(app.draft.as_ref().map(|draft| draft.kind), Some(DraftKind::Note));
    assert_eq!(app.draft.as_ref().map(|draft| draft.anchor), Some(Anchor::new(1, None)));
}

#[test]
fn empty_drafts_are_not_committed() {
    let mut app = single_file_app("fn main() {}\n", |_| {});
    app.begin_question();
    type_into_draft(&mut app, "   ");
    app.commit_draft();
    assert!(app.packet.questions.is_empty());
    assert!(app.draft.is_some());
    assert_eq!(app.message.as_deref(), Some("the draft cannot be empty"));
}

#[test]
fn esc_requests_save_confirmation_for_dirty_draft() {
    let mut app = single_file_app("fn main() {}\n", |_| {});
    app.begin_question();
    type_into_draft(&mut app, "What is this?");
    app.request_close_draft();
    assert_eq!(app.input_mode, InputMode::DraftConfirm);
}

#[test]
fn closing_an_untouched_draft_needs_no_confirmation() {
    let mut app = single_file_app("fn main() {}\n", |_| {});
    app.begin_question();
    app.request_close_draft();
    assert_eq!(app.input_mode, InputMode::Normal);
    assert!(app.draft.is_none());
}

#[test]
fn can_reopen_and_edit_existing_question() {
    let mut app = single_file_app("fn main() {}\n", |packet| {
        packet.questions.push(question("main.rs", 1, "Original question?"));
    });
    app.begin_edit_current_annotation(false);
    type_into_draft(&mut app, "Updated question?");
    app.commit_draft();
    assert_eq!(app.packet.questions[0].prompt, "Updated question?");
}

#[test]
fn editing_prompt_preserves_existing_conversation() {
    let mut app = single_file_app("fn main() {}\n", |packet| {
        let mut q = question("main.rs", 1, "Original question?");
        q.add_message(QuestionMessageRole::Agent, s("This already has an answer."));
        packet.questions.push(q);
    });
    app.begin_edit_current_annotation(false);
    type_into_draft(&mut app, "Updated question?");
    app.commit_draft();

    assert_eq!(app.packet.questions[0].prompt, "Updated question?");
    assert_eq!(app.packet.questions[0].conversation.len(), 1);
    assert_eq!(app.packet.questions[0].conversation[0].body, "This already has an answer.");
}

#[test]
fn delete_annotation_prefers_question_threads_before_notes() {
    let mut app = single_file_app("fn main() {}\n", |packet| {
        packet.notes.push(note("main.rs", Anchor::new(1, None), "Entry point", "This function starts the binary."));
        packet.questions.push(question("main.rs", 1, "Why is main empty?"));
    });
    assert!(app.delete_annotation_at_cursor());
    assert!(app.packet.questions.is_empty());
    assert_eq!(app.packet.notes.len(), 1);
    assert!(app.delete_annotation_at_cursor());
    assert!(app.packet.notes.is_empty());
}

#[test]
fn deleting_current_file_purges_related_state() {
    let mut app = source_app(&[("src/main.rs", "fn main() {}\n"), ("src/lib.rs", "pub fn helper() {}\n")], |packet| {
        packet.notes.push(note("src/main.rs", Anchor::new(1, None), "Entry point", "This function starts the binary."));
        packet.questions.push(question("src/main.rs", 1, "Why is main empty?"));
    });
    assert!(app.delete_current_file());
    // The front end reads the remaining tracked files again.
    assert!(matches!(app.pending, Some(Pending::Reload(_))));
    app.files_loaded(vec![loaded("src/lib.rs", "pub fn helper() {}\n")]);
    assert_eq!(app.files.len(), 1);
    assert_eq!(app.current_path(), "src/lib.rs");
    assert!(app.packet.notes.is_empty());
    assert!(app.packet.questions.is_empty());
}

#[test]
fn the_last_tracked_file_cannot_be_deleted() {
    let mut app = single_file_app("fn main() {}\n", |_| {});
    assert!(!app.delete_current_file());
    assert_eq!(app.packet.files.len(), 1);
    assert_eq!(app.message.as_deref(), Some("cannot remove the last tracked file from inside the TUI"));
}

#[test]
fn empty_session_opens_file_picker_and_adds_file() {
    let packet = Packet::new(s("tour"), s("Tour"), s("/tmp/tour-root"), vec![]);
    let mut app = App::new(s("/tmp/tour-root/tour.toml"), packet, false);
    app.files_loaded(vec![]);
    // The front end walks the workspace and offers what it found.
    assert!(matches!(app.pending, Some(Pending::ListWorkspace(None))));
    app.begin_file_picker(vec![s("src/main.rs")]);
    assert_eq!(app.input_mode, InputMode::FilePicker);
    assert!(app.commit_file_picker_selection());
    app.files_loaded(vec![loaded("src/main.rs", "fn main() {}\n")]);
    assert_eq!(app.files.len(), 1);
    assert_eq!(app.current_path(), "src/main.rs");
}

#[test]
fn half_page_navigation_moves_by_half_the_viewport_height() {
    let contents = (1..=20).map(|line| format!("line {line}\n")).collect::<String>();
    let mut app = single_file_app(&contents, |_| {});
    app.view_metrics.viewport_height = 6;

    app.half_page_down();
    assert_eq!(app.cursor_line, 4);

    app.half_page_up();
    assert_eq!(app.cursor_line, 1);
}

#[test]
fn half_page_navigation_uses_a_minimum_step_of_one_line() {
    let mut app = single_file_app("one\ntwo\n", |_| {});
    app.view_metrics.viewport_height = 1;

    app.half_page_down();
    assert_eq!(app.cursor_line, 2);

    app.half_page_up();
    assert_eq!(app.cursor_line, 1);
}

#[test]
fn cursor_moves_stay_inside_the_file() {
    let mut app = single_file_app("one\ntwo\nthree\n", |_| {});
    app.focus = FocusPane::Source;
    app.move_cursor(10);
    assert_eq!(app.cursor_line, 3);
    app.move_cursor(-10);
    assert_eq!(app.cursor_line, 1);
    app.go_to_last_line();
    assert_eq!(app.cursor_line, 3);
    app.go_to_first_line();
    assert_eq!(app.cursor_line, 1);
}

#[test]
fn visual_selection_creates_range_note_anchor() {
    let mut app = single_file_app("one\ntwo\nthree\n", |_| {});
    app.enter_visual_mode();
    app.move_cursor(2);
    app.begin_note();
    type_into_draft(&mut app, "Range note");
    app.commit_draft();
    assert_eq!(app.packet.notes.len(), 1);
    assert_eq!(app.packet.notes[0].anchor, Anchor::new(1, Some(3)));
}

#[test]
fn visual_selection_collects_related_notes_across_the_range() {
    let mut note_id = String::new();
    let mut app = single_file_app("one\ntwo\nthree\n", |packet| {
        packet.notes.push(note("main.rs", Anchor::new(2, Some(3)), "shared range", "This overlaps the selected range."));
        note_id = packet.notes[0].id.clone();
    });
    app.enter_visual_mode();
    app.move_cursor(2);
    app.begin_question();
    let draft = app.draft.as_ref().expect("question draft should exist");
    assert_eq!(draft.anchor, Anchor::new(1, Some(3)));
    assert_eq!(draft.related_note_ids, vec![note_id]);
}

#[test]
fn continuing_question_appends_user_follow_up() {
    let mut app = single_file_app("one\ntwo\nthree\n", |packet| {
        let mut q = question("main.rs", 2, "Why is this separate?");
        q.add_message(QuestionMessageRole::Agent, s("It separates setup from the hot path."));
        packet.questions.push(q);
    });
    app.cursor_line = 2;
    app.begin_question_follow_up();
    type_into_draft(&mut app, "What invariant depends on that split?");
    app.commit_draft();

    assert_eq!(app.packet.questions[0].conversation.len(), 2);
    assert_eq!(app.packet.questions[0].conversation[1].role, QuestionMessageRole::User);
}

#[test]
fn begin_question_or_follow_up_prefers_open_thread_under_cursor() {
    let mut app = single_file_app("one\ntwo\nthree\n", |packet| {
        packet.questions.push(question("main.rs", 2, "Why is this separate?"));
    });
    app.cursor_line = 2;
    app.begin_question_or_follow_up();

    let draft = app.draft.as_ref().expect("question draft should exist");
    assert_eq!(draft.target, DraftTarget::ContinueQuestion { index: 0 });
    assert_eq!(app.input_mode, InputMode::Draft);
}

#[test]
fn can_open_question_in_readonly_thread_view() {
    let mut app = single_file_app("one\ntwo\nthree\n", |packet| {
        let mut q = question("main.rs", 2, "Why is this separate?");
        q.add_message(QuestionMessageRole::Agent, s("It separates setup from the hot path."));
        q.add_message(QuestionMessageRole::User, s("What invariant depends on that split?"));
        packet.questions.push(q);
    });
    app.cursor_line = 2;

    assert!(app.open_current_thread_viewer());
    assert_eq!(app.input_mode, InputMode::ThreadView);
    assert_eq!(app.active_thread_view_question().map(|q| q.prompt.as_str()), Some("Why is this separate?"));

    app.update_thread_view_metrics(20, 6);
    assert_eq!(app.thread_view_scroll(), 14);
    app.scroll_thread_view(-3);
    assert_eq!(app.thread_view_scroll(), 11);

    app.close_thread_viewer();
    assert_eq!(app.input_mode, InputMode::Normal);
    assert!(app.thread_view.is_none());
}

#[test]
fn thread_view_scrolling_stays_within_the_thread() {
    let mut app = single_file_app("one\ntwo\nthree\n", |packet| {
        packet.questions.push(question("main.rs", 2, "Why?"));
    });
    app.cursor_line = 2;
    assert!(app.open_current_thread_viewer());
    app.update_thread_view_metrics(10, 4);
    app.scroll_thread_view(100);
    assert_eq!(app.thread_view_scroll(), 6);
    app.thread_view_to_top();
    assert_eq!(app.thread_view_scroll(), 0);
    app.scroll_thread_view(-5);
    assert_eq!(app.thread_view_scroll(), 0);
}

#[test]
fn editing_question_targets_latest_user_follow_up() {
    let mut app = single_file_app("one\ntwo\nthree\n", |packet| {
        let mut q = question("main.rs", 2, "Why is this separate?");
        q.add_message(QuestionMessageRole::Agent, s("It separates setup from the hot path."));
        q.add_message(QuestionMessageRole::User, s("What invariant depends on that split?"));
        packet.questions.push(q);
    });
    app.cursor_line = 2;
    app.begin_edit_current_annotation(false);
    type_into_draft(&mut app, "Which invariant forces that split?");
    app.commit_draft();

    assert_eq!(app.packet.questions[0].prompt, "Why is this separate?");
    assert_eq!(app.packet.questions[0].conversation.len(), 2);
    assert_eq!(app.packet.questions[0].conversation[1].body, "Which invariant forces that split?");
}

#[test]
fn deleting_question_targets_latest_user_follow_up() {
    let mut app = single_file_app("one\ntwo\nthree\n", |packet| {
        let mut q = question("main.rs", 2, "Why is this separate?");
        q.add_message(QuestionMessageRole::Agent, s("It separates setup from the hot path."));
        q.add_message(QuestionMessageRole::User, s("What invariant depends on that split?"));
        q.add_message(QuestionMessageRole::Agent, s("The hot path assumes setup has already frozen the scheduler state."));
        packet.questions.push(q);
    });
    app.cursor_line = 2;
    assert!(app.delete_annotation_at_cursor());
    assert_eq!(app.packet.questions.len(), 1);
    assert_eq!(app.packet.questions[0].conversation.len(), 1);
    assert_eq!(app.packet.questions[0].conversation[0].role, QuestionMessageRole::Agent);
    assert_eq!(app.packet.questions[0].status, QuestionStatus::Answered);
}

#[test]
fn editing_user_follow_up_preserves_later_agent_reply() {
    let mut app = single_file_app("one\ntwo\nthree\n", |packet| {
        let mut q = question("main.rs", 2, "Why is this separate?");
        q.add_message(QuestionMessageRole::User, s("What invariant depends on that split?"));
        q.add_message(QuestionMessageRole::Agent, s("The scheduler is already frozen by then."));
        packet.questions.push(q);
    });
    app.cursor_line = 2;
    app.begin_edit_current_annotation(false);
    type_into_draft(&mut app, "Which invariant depends on that split?");
    app.commit_draft();

    assert_eq!(app.packet.questions[0].conversation.len(), 2);
    assert_eq!(app.packet.questions[0].conversation[0].body, "Which invariant depends on that split?");
    assert_eq!(app.packet.questions[0].conversation[1].body, "The scheduler is already frozen by then.");
}

#[test]
fn resolving_question_marks_it_answered() {
    let mut app = single_file_app("fn main() {}\n", |packet| {
        packet.questions.push(question("main.rs", 1, "Why is main empty?"));
    });
    assert!(app.resolve_current_question());
    assert_eq!(app.packet.questions[0].status, QuestionStatus::Answered);
}

#[test]
fn reopening_question_marks_it_open_again() {
    let mut app = single_file_app("fn main() {}\n", |packet| {
        let mut q = question("main.rs", 1, "Why is main empty?");
        q.status = QuestionStatus::Answered;
        packet.questions.push(q);
    });
    assert!(app.reopen_current_question());
    assert_eq!(app.packet.questions[0].status, QuestionStatus::Open);
}

#[test]
fn resolving_then_reopening_restores_an_open_thread() {
    let mut app = single_file_app("fn main() {}\n", |packet| {
        packet.questions.push(question("main.rs", 1, "Why?"));
    });
    assert!(app.resolve_current_question());
    assert!(!app.resolve_current_question());
    assert!(app.reopen_current_question());
    assert_eq!(app.packet.questions[0].status, QuestionStatus::Open);
    assert!(!app.reopen_current_question());
}

#[test]
fn next_annotation_wraps_back_to_the_head() {
    let mut app = single_file_app("one\ntwo\nthree\nfour\n", |_| {});
    app.view_metrics.annotation_lines = vec![2, 4];
    app.cursor_line = 4;
    app.jump_to_next_annotation();
    assert_eq!(app.cursor_line, 2);
}

#[test]
fn previous_annotation_wraps_back_to_the_tail() {
    let mut app = single_file_app("one\ntwo\nthree\nfour\n", |_| {});
    app.view_metrics.annotation_lines = vec![2, 4];
    app.cursor_line = 2;
    app.jump_to_previous_annotation();
    assert_eq!(app.cursor_line, 4);
}

#[test]
fn restoring_commit_selector_state_preserves_selected_range_and_cursor() {
    let previous = vec![CommitInfo::working_tree_entry(), fake_commit("c3"), fake_commit("c2"), fake_commit("c1")];
    let refreshed = vec![CommitInfo::working_tree_entry(), fake_commit("c4"), fake_commit("c3"), fake_commit("c2"), fake_commit("c1")];

    let (cursor, selection) = restore_commit_selector_state(&previous, 2, Some((0, 2)), &refreshed);

    assert_eq!(cursor, 3);
    assert_eq!(selection, Some((0, 3)));
}

#[test]
fn restoring_commit_selector_state_drops_missing_worktree_entry_but_keeps_commits() {
    let previous = vec![CommitInfo::working_tree_entry(), fake_commit("c3"), fake_commit("c2")];
    let refreshed = vec![fake_commit("c4"), fake_commit("c3"), fake_commit("c2")];

    let (cursor, selection) = restore_commit_selector_state(&previous, 0, Some((0, 2)), &refreshed);

    assert_eq!(cursor, 2);
    assert_eq!(selection, Some((1, 2)));
}

#[test]
fn export_without_open_questions_sets_message_instead_of_erroring() {
    let mut app = single_file_app("fn main() {}\n", |_| {});

    let copied = app.export_questions();

    assert!(copied.is_none());
    assert_eq!(app.message.as_deref(), Some("packet has no open questions waiting for an agent reply"));
    assert!(!app.should_quit);
    assert!(app.quit_export.is_none());
}

#[test]
fn export_with_a_waiting_thread_hands_out_the_text() {
    let mut app = single_file_app("fn main() {}\n", |packet| {
        packet.questions.push(question("main.rs", 1, "Why is main empty?"));
    });
    let copied = app.export_questions().expect("the export should be handed out for copying");
    assert!(copied.contains("Why is main empty?"));
}

#[test]
fn file_picker_filters_and_commits_the_selection() {
    let mut app = single_file_app("fn main() {}\n", |_| {});
    app.begin_file_picker(vec![s("main.rs"), s("src/lib.rs"), s("README.md")]);
    assert_eq!(app.input_mode, InputMode::FilePicker);
    let picker = app.file_picker.as_ref().unwrap();
    assert!(!picker.candidates.contains(&s("main.rs")));
    assert!(picker.candidates.contains(&s("src/lib.rs")));
    app.cancel_file_picker();
    assert_eq!(app.input_mode, InputMode::Normal);
    assert!(app.file_picker.is_none());
}

#[test]
fn quitting_with_unsaved_changes_asks_twice() {
    let mut app = single_file_app("fn main() {}\n", |_| {});
    app.dirty = true;
    app.request_quit();
    assert!(!app.should_quit);
    app.request_quit();
    assert!(app.should_quit);
}

#[test]
fn search_jumps_to_the_selected_annotation() {
    let mut app = source_app(&[("a.rs", "one\ntwo\nthree\n"), ("b.rs", "x\ny\n")], |packet| {
        packet.notes.push(note("b.rs", Anchor::new(2, None), "second file note", "body"));
    });
    app.begin_search();
    assert_eq!(app.input_mode, InputMode::Search);
    assert!(app.commit_search_selection());
    assert_eq!(app.current_path(), "b.rs");
    assert_eq!(app.cursor_line, 2);
    assert_eq!(app.input_mode, InputMode::Normal);
}
