use copanion::answer_plan::{apply_plan, AgentAnswer, AgentNote, AgentResponsePlan, ApplyError};
use copanion::cli::{build_packet, resolve_files, resolve_theme, run_mode, session_ref, Cli, RunMode};
use copanion::clipboard::osc52_sequence;
use copanion::config::{load_config, AppConfig, ConfigError};
use copanion::diff::{
    calculate_gap, changed_files, context_lines, hunk_header_text, line_origin, diff_line_runs, parse_commit_message, review_options, short_id, tip_branch_name,
    too_large_to_show, CommitInfo, DiffHunk, DiffSelection, LineOrigin, WORKING_TREE_SELECTION_ID,
};
use copanion::export::{generate_question_export, generate_review_question_export, ExportError, ReviewExportContext};
use copanion::model::{Anchor, Note, NoteKind, NoteSource, Packet, Question, QuestionMessageRole, QuestionStatus, TrackedFile, PACKET_VERSION};
use copanion::storage::{default_session_id, merge_files, normalize_repo_path, record_path, session_id_from_parts, SessionPaths};
use copanion::theme::{blend, rgb, Color, SyntaxTheme, ThemeName};
use copanion::syntax::{Highlighter, SegmentStyle, StyledSegments, SyntaxSource};
use copanion::tui::app::loaded_file;
use copanion::util::{human_title, slugify};

fn s(text: &str) -> String {
    text.to_string()
}

fn note(path: &str, anchor: Anchor, kind: NoteKind, title: &str, body: &str, author: Option<String>, source: NoteSource) -> Note {
    Note::new(s(path), anchor, kind, s(title), s(body), vec![], author, source)
}

fn question(path: &str, anchor: Option<Anchor>, prompt: &str, why: Option<String>, related: Vec<String>) -> Question {
    Question::new(s(path), anchor, s(prompt), why, related)
}

// ---------------------------------------------------------------------------
// util
// ---------------------------------------------------------------------------

#[test]
fn slugify_collapses_noise() {
    assert_eq!(slugify("Rust TUI / Source Notes"), "rust-tui-source-notes");
    assert_eq!(slugify("  "), "packet");
}

#[test]
fn human_title_expands_slug() {
    assert_eq!(human_title("guide-flow_map"), "Guide Flow Map");
}

#[test]
fn slugify_keeps_digits_and_trims_dashes() {
    assert_eq!(slugify("--Hello, World 42!--"), "hello-world-42");
    assert_eq!(slugify(""), "packet");
}

#[test]
fn human_title_of_blank_is_untitled() {
    assert_eq!(human_title("   "), "Untitled Packet");
    assert_eq!(human_title("__"), "");
}

// ---------------------------------------------------------------------------
// cli
// ---------------------------------------------------------------------------

#[test]
fn fresh_packet_preserves_existing_files() {
    let packet = Packet::new(s("tour-12345678"), s("Tour"), s("/repo"), vec![TrackedFile::new(s("src/main.rs"))]);
    let rebuilt = build_packet("/repo", None, true, Some(packet));
    assert_eq!(rebuilt.files.len(), 1);
    assert_eq!(rebuilt.files[0].path, "src/main.rs");
}

#[test]
fn title_override_updates_loaded_packet() {
    let packet = Packet::new(s("tour-12345678"), s("Old"), s("/repo"), vec![]);
    let rebuilt = build_packet("/repo", Some(s("New")), false, Some(packet));
    assert_eq!(rebuilt.title, "New");
}

#[test]
fn build_packet_upgrades_existing_metadata() {
    let mut packet = Packet::new(s("wrong"), s("Old"), s("/somewhere-else"), vec![]);
    packet.version = 1;
    let rebuilt = build_packet("/repo", None, false, Some(packet));
    assert_eq!(rebuilt.version, PACKET_VERSION);
    assert_eq!(rebuilt.workspace_root, "/repo");
    assert!(rebuilt.session_id.starts_with("repo-"));
}

#[test]
fn new_packet_is_titled_after_the_root() {
    let built = build_packet("/work/guide-flow_map", None, false, None);
    assert_eq!(built.title, "Guide Flow Map");
    assert!(built.files.is_empty());
}

#[test]
fn cli_theme_overrides_config_theme() {
    let config = AppConfig { theme: Some(s("light")) };
    assert_eq!(resolve_theme(Some(ThemeName::GruvboxDark), Some(&config)), ThemeName::GruvboxDark);
}

#[test]
fn config_theme_applies_when_cli_theme_missing() {
    let config = AppConfig { theme: Some(s("catppuccin-mocha")) };
    assert_eq!(resolve_theme(None, Some(&config)), ThemeName::CatppuccinMocha);
}

#[test]
fn default_theme_is_gruvbox_dark_when_nothing_overrides_it() {
    assert_eq!(resolve_theme(None, None), ThemeName::GruvboxDark);
}

#[test]
fn unknown_configured_theme_falls_back_to_default() {
    let config = AppConfig { theme: Some(s("no-such-theme")) };
    assert_eq!(resolve_theme(None, Some(&config)), ThemeName::GruvboxDark);
}

// ---------------------------------------------------------------------------
// config
// ---------------------------------------------------------------------------

#[test]
fn missing_config_is_not_an_error() {
    let outcome = load_config(None).unwrap();
    assert_eq!(outcome.config, None);
    assert!(outcome.warnings.is_empty());
}

#[test]
fn loads_theme_value() {
    let outcome = load_config(Some("theme = \"gruvbox-dark\"\n")).unwrap();
    assert_eq!(outcome.config.as_ref().and_then(|config| config.theme.as_deref()), Some("gruvbox-dark"));
    assert!(outcome.warnings.is_empty());
}

#[test]
fn warns_on_unknown_keys() {
    let outcome = load_config(Some("theme = \"dark\"\nextra = true\n")).unwrap();
    assert_eq!(outcome.warnings.len(), 1);
    assert_eq!(outcome.warnings[0], "Warning: Unknown config key 'extra', ignoring");
}

#[test]
fn invalid_toml_fails() {
    assert!(load_config(Some("theme =\n")).is_err());
}

#[test]
fn invalid_toml_is_a_parse_error() {
    assert!(matches!(load_config(Some("theme =\n")), Err(ConfigError::Parse(_))));
}

// ---------------------------------------------------------------------------
// storage
// ---------------------------------------------------------------------------

#[test]
fn session_path_lives_under_user_data_dir() {
    let paths = SessionPaths { data_dir: s("/tmp/data/copanion"), sessions_dir: s("/tmp/data/copanion/sessions") };
    let packet = paths.session_path("learning-pass");
    assert!(packet.ends_with("copanion/sessions/learning-pass.toml"));
}

#[test]
fn default_session_ids_are_stable_and_slugged() {
    let first = default_session_id("/workspace/copanion");
    let second = default_session_id("/workspace/copanion");
    assert_eq!(first, second);
    assert!(first.starts_with("copanion-"));
}

#[test]
fn session_ids_join_the_slugged_stem_and_the_low_hash_bits() {
    assert_eq!(session_id_from_parts(Some(s("My Repo")), 0x1234_5678_9abc_def0), "my-repo-9abcdef0");
    assert_eq!(session_id_from_parts(None, 0x2a), "session-0000002a");
    assert_eq!(session_id_from_parts(Some(s("")), 0xffff_ffff), "session-ffffffff");
}

#[test]
fn default_session_id_takes_the_last_component_and_eight_hex_digits() {
    let id = default_session_id("/workspace/My Project");
    assert!(id.starts_with("my-project-"));
    assert_eq!(id.len(), "my-project-".len() + 8);
    assert!(id["my-project-".len()..].chars().all(|c| c.is_ascii_hexdigit() && !c.is_ascii_uppercase()));
}

#[test]
fn recorded_paths_drop_the_root_and_use_forward_slashes() {
    assert_eq!(record_path("/repo/src/main.rs", true, Some(s("src/main.rs"))), "src/main.rs");
    assert_eq!(record_path("/elsewhere/a.rs", true, None), "/elsewhere/a.rs");
    assert_eq!(record_path("src\\lib.rs", false, None), "src/lib.rs");
}

#[test]
fn merge_files_adds_new_entries_once() {
    let mut packet = Packet::new(s("demo"), s("Demo"), s("/repo"), vec![]);
    let changed = merge_files(&mut packet, "/repo", &vec![s("src/main.rs")]);
    assert!(changed);
    assert_eq!(packet.files.len(), 1);
    let changed_again = merge_files(&mut packet, "/repo", &vec![s("src/main.rs")]);
    assert!(!changed_again);
}

#[test]
fn normalize_absolute_paths_against_root() {
    assert_eq!(normalize_repo_path("/repo/src/lib.rs", "/repo"), "src/lib.rs");
}

#[test]
fn normalize_keeps_relative_paths_and_paths_outside_the_root() {
    assert_eq!(normalize_repo_path("src/lib.rs", "/repo"), "src/lib.rs");
    assert_eq!(normalize_repo_path("/elsewhere/lib.rs", "/repo"), "/elsewhere/lib.rs");
}

#[test]
fn ensure_file_adds_a_path_once() {
    let mut packet = Packet::new(s("demo"), s("Demo"), s("/repo"), vec![]);
    assert!(packet.ensure_file(s("src/main.rs")));
    assert!(!packet.ensure_file(s("src/main.rs")));
    assert_eq!(packet.files.len(), 1);
}

// ---------------------------------------------------------------------------
// model
// ---------------------------------------------------------------------------

#[test]
fn anchors_display_as_a_line_or_a_range() {
    assert_eq!(Anchor::new(7, None).display(), "7");
    assert_eq!(Anchor::new(3, Some(5)).display(), "3-5");
    assert_eq!(Anchor::new(4, Some(4)).display(), "4");
}

#[test]
fn new_threads_are_open_and_wait_for_a_reply() {
    let mut q = question("src/main.rs", None, "Why?", None, vec![]);
    assert!(q.id.starts_with("question-"));
    assert_eq!(q.status, QuestionStatus::Open);
    assert!(q.needs_agent_reply());
    assert_eq!(q.turn_count(), 1);
    q.add_message(QuestionMessageRole::Agent, s("Because."));
    assert!(!q.needs_agent_reply());
    q.add_message(QuestionMessageRole::User, s("And then?"));
    assert!(q.needs_agent_reply());
    assert_eq!(q.turn_count(), 3);
}

// ---------------------------------------------------------------------------
// answer plans
// ---------------------------------------------------------------------------

#[test]
fn apply_plan_appends_agent_replies_and_notes() {
    let mut packet = Packet::new(s("demo"), s("Demo"), s("/repo"), vec![]);
    packet.questions.push(question("src/main.rs", None, "Why is this empty?", None, vec![]));
    let question_id = packet.questions[0].id.clone();

    let summary = apply_plan(
        &mut packet,
        "/repo",
        AgentResponsePlan {
            answers: vec![AgentAnswer { question_id, answer: s("It is a placeholder for future initialization.") }],
            notes: vec![AgentNote {
                path: s("/repo/src/main.rs"),
                start_line: 1,
                end_line: None,
                kind: None,
                title: s("placeholder"),
                body: s("The empty body is intentional here."),
                tags: vec![],
                author: None,
            }],
        },
    )
    .unwrap();

    assert_eq!(summary.answered_questions, 1);
    assert_eq!(summary.added_notes, 1);
    assert_eq!(packet.questions[0].conversation.len(), 1);
    assert_eq!(packet.questions[0].conversation[0].role, QuestionMessageRole::Agent);
    assert_eq!(packet.notes.len(), 1);
}

#[test]
fn apply_plan_rejects_answers_for_threads_not_waiting_for_reply() {
    let mut packet = Packet::new(s("demo"), s("Demo"), s("/repo"), vec![]);
    let mut q = question("src/main.rs", None, "Why is this empty?", None, vec![]);
    q.add_message(QuestionMessageRole::Agent, s("Already answered."));
    let question_id = q.id.clone();
    packet.questions.push(q);

    let error = apply_plan(
        &mut packet,
        "/repo",
        AgentResponsePlan { answers: vec![AgentAnswer { question_id, answer: s("Another answer") }], notes: vec![] },
    )
    .unwrap_err();

    assert!(error.message().contains("is not waiting for an agent reply"));
    assert_eq!(packet.questions[0].conversation.len(), 1);
}

#[test]
fn apply_plan_preserves_user_follow_ups_when_appending_agent_replies() {
    let mut packet = Packet::new(s("demo"), s("Demo"), s("/repo"), vec![]);
    let mut q = question("src/main.rs", None, "Why is this empty?", None, vec![]);
    q.add_message(QuestionMessageRole::Agent, s("The branch is a placeholder."));
    q.add_message(QuestionMessageRole::User, s("What invariant depends on leaving it empty?"));
    let question_id = q.id.clone();
    packet.questions.push(q);

    let summary = apply_plan(
        &mut packet,
        "/repo",
        AgentResponsePlan {
            answers: vec![AgentAnswer { question_id, answer: s("The fast path assumes the branch never allocates.") }],
            notes: vec![],
        },
    )
    .unwrap();

    assert_eq!(summary.answered_questions, 1);
    assert_eq!(packet.questions[0].conversation.len(), 3);
    assert_eq!(packet.questions[0].conversation[1].body, "What invariant depends on leaving it empty?");
    assert_eq!(packet.questions[0].conversation[2].role, QuestionMessageRole::Agent);
}

#[test]
fn apply_plan_rejects_inverted_note_ranges() {
    let mut packet = Packet::new(s("demo"), s("Demo"), s("/repo"), vec![]);

    let error = apply_plan(
        &mut packet,
        "/repo",
        AgentResponsePlan {
            answers: vec![],
            notes: vec![AgentNote {
                path: s("src/main.rs"),
                start_line: 5,
                end_line: Some(3),
                kind: None,
                title: s("broken"),
                body: s("bad range"),
                tags: vec![],
                author: None,
            }],
        },
    )
    .unwrap_err();

    assert!(error.message().contains("must not end before they start"));
    assert!(packet.notes.is_empty());
    assert!(packet.files.is_empty());
}

#[test]
fn apply_plan_keeps_what_came_before_a_refusal() {
    let mut packet = Packet::new(s("demo"), s("Demo"), s("/repo"), vec![]);
    let q = question("src/main.rs", None, "Why?", None, vec![]);
    let question_id = q.id.clone();
    packet.questions.push(q);
    let error = apply_plan(
        &mut packet,
        "/repo",
        AgentResponsePlan {
            answers: vec![
                AgentAnswer { question_id: question_id.clone(), answer: s("  Because.  ") },
                AgentAnswer { question_id: s("question-missing"), answer: s("Lost") },
            ],
            notes: vec![],
        },
    )
    .unwrap_err();
    assert!(error.message().contains("question-missing"));
    assert_eq!(packet.questions[0].conversation.len(), 1);
    assert_eq!(packet.questions[0].conversation[0].body, "Because.");

    let good = AgentNote {
        path: s("/repo/src/lib.rs"),
        start_line: 2,
        end_line: None,
        kind: None,
        title: s("kept"),
        body: s("recorded"),
        tags: vec![],
        author: None,
    };
    let bad = AgentNote {
        path: s("src/other.rs"),
        start_line: 0,
        end_line: None,
        kind: None,
        title: s("bad"),
        body: s("refused"),
        tags: vec![],
        author: None,
    };
    let error = apply_plan(&mut packet, "/repo", AgentResponsePlan { answers: vec![], notes: vec![good, bad] }).unwrap_err();
    assert!(matches!(error, ApplyError::ZeroStartLine));
    assert_eq!(packet.notes.len(), 1);
    assert_eq!(packet.notes[0].path, "src/lib.rs");
    assert_eq!(packet.files.len(), 1);
    assert_eq!(packet.files[0].path, "src/lib.rs");
}

#[test]
fn apply_plan_refusals_name_their_cause() {
    let mut packet = Packet::new(s("demo"), s("Demo"), s("/repo"), vec![]);
    let q = question("src/main.rs", None, "Why?", None, vec![]);
    let id = q.id.clone();
    packet.questions.push(q);

    let empty = apply_plan(&mut packet, "/repo", AgentResponsePlan { answers: vec![AgentAnswer { question_id: id.clone(), answer: s("   ") }], notes: vec![] });
    assert_eq!(empty.unwrap_err(), ApplyError::EmptyAnswer { question_id: id.clone() });

    let unknown = apply_plan(&mut packet, "/repo", AgentResponsePlan { answers: vec![AgentAnswer { question_id: s("question-x"), answer: s("hi") }], notes: vec![] });
    assert_eq!(unknown.unwrap_err().message(), "unknown question id question-x");

    let zero = apply_plan(
        &mut packet,
        "/repo",
        AgentResponsePlan {
            answers: vec![],
            notes: vec![AgentNote { path: s("a.rs"), start_line: 0, end_line: None, kind: None, title: s("t"), body: s("b"), tags: vec![], author: None }],
        },
    );
    assert_eq!(zero.unwrap_err(), ApplyError::ZeroStartLine);

    packet.questions[0].status = QuestionStatus::Archived;
    let archived = apply_plan(&mut packet, "/repo", AgentResponsePlan { answers: vec![AgentAnswer { question_id: id.clone(), answer: s("hi") }], notes: vec![] });
    assert_eq!(archived.unwrap_err(), ApplyError::ArchivedQuestion { question_id: id });
    assert!(packet.questions[0].conversation.is_empty());
}

#[test]
fn apply_plan_records_notes_relative_to_the_root_and_tracks_their_files() {
    let mut packet = Packet::new(s("demo"), s("Demo"), s("/repo"), vec![]);
    let summary = apply_plan(
        &mut packet,
        "/repo",
        AgentResponsePlan {
            answers: vec![],
            notes: vec![AgentNote {
                path: s("/repo/src/lib.rs"),
                start_line: 2,
                end_line: Some(4),
                kind: Some(NoteKind::Pitfall),
                title: s(" careful "),
                body: s("watch out"),
                tags: vec![s("t")],
                author: Some(s("codex")),
            }],
        },
    )
    .unwrap();
    assert_eq!(summary.added_notes, 1);
    assert_eq!(packet.notes[0].path, "src/lib.rs");
    assert_eq!(packet.notes[0].anchor, Anchor::new(2, Some(4)));
    assert_eq!(packet.notes[0].kind, NoteKind::Pitfall);
    assert_eq!(packet.notes[0].source, NoteSource::Agent);
    assert_eq!(packet.files.len(), 1);
    assert_eq!(packet.files[0].path, "src/lib.rs");
}

// ---------------------------------------------------------------------------
// exports
// ---------------------------------------------------------------------------

#[test]
fn export_requires_questions_waiting_for_reply() {
    let mut packet = Packet::new(s("test"), s("Test"), s("/repo"), vec![]);
    let mut q = question("src/main.rs", Some(Anchor::new(1, None)), "What is happening here?", None, vec![]);
    q.add_message(QuestionMessageRole::Agent, s("This is already answered and waiting on the user."));
    packet.questions.push(q);
    assert!(generate_question_export(&packet, "/tmp/packet.toml").is_err());
}

#[test]
fn export_error_names_the_missing_threads() {
    let packet = Packet::new(s("test"), s("Test"), s("/repo"), vec![]);
    let error = generate_question_export(&packet, "/tmp/packet.toml").unwrap_err();
    assert_eq!(error, ExportError::NoOpenQuestions);
    assert_eq!(error.message(), "packet has no open questions waiting for an agent reply");
}

#[test]
fn export_omits_notes_and_preserves_thread_order() {
    let mut packet = Packet::new(s("tour"), s("Tour"), s("/repo"), vec![]);
    packet.notes.push(note(
        "src/main.rs",
        Anchor::new(10, Some(12)),
        NoteKind::Flow,
        "Startup path",
        "Control reaches this branch after argument parsing.",
        Some(s("codex")),
        NoteSource::Agent,
    ));
    let mut q = question(
        "src/main.rs",
        Some(Anchor::new(11, None)),
        "Why is this branch separate from the fast path?",
        Some(s("The note explains the flow but not the design reason.")),
        vec![packet.notes[0].id.clone()],
    );
    q.add_message(QuestionMessageRole::Agent, s("The flow explains the setup, but not the design tradeoff."));
    q.add_message(QuestionMessageRole::User, s("I still do not understand the invariant behind the split."));
    let question_id = q.id.clone();
    packet.questions.push(q);

    let export = generate_question_export(&packet, "/tmp/packet.toml").unwrap();
    assert!(export.contains(&question_id));
    assert!(!export.contains("copanion --apply-agent-response -"));
    assert!(!export.contains("Existing guidance notes"));
    assert!(!export.contains("Startup path"));
    assert!(!export.contains("Control reaches this branch after argument parsing."));
    assert!(export.contains("Thread:"));
    assert!(export.contains("- user: Why is this branch separate from the fast path?"));
    assert!(export.contains("- agent: The flow explains the setup, but not the design tradeoff."));
    assert!(export.contains("- user: I still do not understand the invariant behind the split."));
}

fn review_commit() -> CommitInfo {
    CommitInfo {
        id: s("abc"),
        short_id: s("abc1234"),
        branch_name: None,
        summary: s("Refine scheduler"),
        body: None,
        author: s("Test User"),
        time: 0,
    }
}

#[test]
fn review_export_mentions_scope_and_filters_to_review_paths() {
    let mut packet = Packet::new(s("tour"), s("Tour"), s("/repo"), vec![]);
    packet.notes.push(note("src/main.rs", Anchor::new(10, None), NoteKind::Overview, "Looks risky", "Please double-check the branch condition.", None, NoteSource::Human));
    packet.notes.push(note("src/lib.rs", Anchor::new(3, None), NoteKind::Overview, "Ignore me", "This note is outside the current diff.", None, NoteSource::Human));
    let mut q = question("src/main.rs", Some(Anchor::new(11, None)), "Why is this branch separate?", None, vec![]);
    q.add_message(QuestionMessageRole::User, s("What invariant depends on it?"));
    packet.questions.push(q);

    let export = generate_review_question_export(
        &packet,
        "/tmp/packet.toml",
        &ReviewExportContext {
            selection: DiffSelection::WorkingTreeAndCommits(vec![s("abc")]),
            review_entries: vec![CommitInfo::working_tree_entry(), review_commit()],
            changed_paths: vec![s("src/main.rs")],
            visible_question_ids: vec![packet.questions[0].id.clone()],
        },
    )
    .unwrap();

    assert!(export.contains("Copanion Diff Review"));
    assert!(export.contains("working tree plus selected commits"));
    assert!(export.contains("Uncommitted changes"));
    assert!(export.contains("abc1234 Refine scheduler"));
    assert!(export.contains("Review comments:"));
    assert!(export.contains("Why is this branch separate?"));
    assert!(!export.contains("Review notes:"));
    assert!(!export.contains("Looks risky"));
    assert!(!export.contains("Ignore me"));
}

#[test]
fn review_export_only_includes_visible_diff_questions() {
    let mut packet = Packet::new(s("tour"), s("Tour"), s("/repo"), vec![]);
    let visible = question("src/main.rs", Some(Anchor::new(11, None)), "Visible diff comment", None, vec![]);
    let hidden = question("src/main.rs", Some(Anchor::new(99, None)), "Tracked-mode question outside current diff context", None, vec![]);
    let visible_id = visible.id.clone();
    packet.questions.push(visible);
    packet.questions.push(hidden);

    let export = generate_review_question_export(
        &packet,
        "/tmp/packet.toml",
        &ReviewExportContext {
            selection: DiffSelection::WorkingTree,
            review_entries: vec![CommitInfo::working_tree_entry()],
            changed_paths: vec![s("src/main.rs")],
            visible_question_ids: vec![visible_id],
        },
    )
    .unwrap();

    assert!(export.contains("Visible diff comment"));
    assert!(!export.contains("Tracked-mode question outside current diff context"));
}

#[test]
fn review_export_without_visible_threads_is_refused() {
    let mut packet = Packet::new(s("tour"), s("Tour"), s("/repo"), vec![]);
    packet.questions.push(question("src/main.rs", Some(Anchor::new(1, None)), "hidden", None, vec![]));
    let result = generate_review_question_export(
        &packet,
        "/tmp/packet.toml",
        &ReviewExportContext {
            selection: DiffSelection::WorkingTree,
            review_entries: vec![],
            changed_paths: vec![],
            visible_question_ids: vec![],
        },
    );
    assert_eq!(result.unwrap_err(), ExportError::NoOpenReviewComments);
}

// ---------------------------------------------------------------------------
// diffs
// ---------------------------------------------------------------------------

#[test]
fn working_tree_entry_uses_stable_sentinel() {
    let entry = CommitInfo::working_tree_entry();
    assert_eq!(entry.id, WORKING_TREE_SELECTION_ID);
    assert!(entry.is_working_tree());
}

fn hunk(new_start: usize, new_count: usize) -> DiffHunk {
    DiffHunk { header: s("@@"), lines: vec![], old_start: new_start, old_count: new_count, new_start, new_count }
}

#[test]
fn gaps_count_the_hidden_new_lines() {
    assert_eq!(calculate_gap(None, &hunk(5, 3)), 4);
    assert_eq!(calculate_gap(None, &hunk(1, 3)), 0);
    assert_eq!(calculate_gap(Some(&hunk(5, 3)), &hunk(12, 2)), 4);
    assert_eq!(calculate_gap(Some(&hunk(5, 3)), &hunk(7, 2)), 0);
}

#[test]
fn commit_messages_split_into_summary_and_body() {
    let (summary, body) = parse_commit_message("Fix it\n\nBecause.\n");
    assert_eq!(summary, "Fix it");
    assert_eq!(body.as_deref(), Some("Because."));
    let (summary, body) = parse_commit_message("Only a line");
    assert_eq!(summary, "Only a line");
    assert_eq!(body, None);
}

#[test]
fn short_ids_keep_seven_characters() {
    assert_eq!(short_id("0123456789abcdef"), "0123456");
    assert_eq!(short_id("abc"), "abc");
}

// ---------------------------------------------------------------------------
// themes
// ---------------------------------------------------------------------------

#[test]
fn gruvbox_dark_matches_tuicr_palette_and_theme_name() {
    let theme = ThemeName::GruvboxDark.theme();
    assert_eq!(theme.bg, rgb(40, 40, 40));
    assert_eq!(theme.panel, rgb(29, 32, 33));
    assert_eq!(theme.border_focus, rgb(142, 192, 124));
    assert_eq!(theme.note_border, rgb(131, 165, 152));
    assert_eq!(theme.syntect_theme, SyntaxTheme::GruvboxDark);
}

#[test]
fn gruvbox_light_uses_embedded_gruvbox_syntax_theme() {
    let theme = ThemeName::GruvboxLight.theme();
    assert_eq!(theme.syntect_theme, SyntaxTheme::GruvboxLight);
    assert_eq!(theme.question_border, rgb(181, 118, 20));
}

#[test]
fn theme_names_parse_from_configuration() {
    assert_eq!(ThemeName::parse_config("catppuccin-mocha"), Some(ThemeName::CatppuccinMocha));
    assert_eq!(ThemeName::parse_config("nope"), None);
    assert_eq!(ThemeName::GruvboxDark.label(), "gruvbox-dark");
}

#[test]
fn blending_mixes_each_channel_by_the_percentage() {
    assert_eq!(blend(rgb(0, 0, 0), rgb(100, 200, 50), 50), rgb(50, 100, 25));
    assert_eq!(blend(rgb(10, 20, 30), rgb(90, 80, 70), 0), rgb(10, 20, 30));
    assert_eq!(blend(rgb(10, 20, 30), rgb(90, 80, 70), 100), rgb(90, 80, 70));
    assert_eq!(blend(Color::White, rgb(1, 2, 3), 50), rgb(1, 2, 3));
}

// ---------------------------------------------------------------------------
// syntax
// ---------------------------------------------------------------------------

#[test]
fn supported_sources_receive_syntax_colors() {
    let highlighter = Highlighter::new();
    for (path, line) in [
        ("src/main.rs", "fn main() { println!(\"hi\"); }"),
        ("Cargo.toml", "version = \"0.1.0\""),
        ("tool.py", "def main():"),
        ("widget.ts", "export const x: number = 1;"),
    ] {
        let highlighted = highlighter.highlight_file(SyntaxTheme::Base16EightiesDark, path, &vec![line.to_string()]);
        assert_eq!(highlighted.len(), 1);
        assert!(highlighted[0].iter().any(|(style, _)| style.fg.is_some()), "expected syntax color for {path}");
    }
}

#[test]
fn syntax_detection_handles_case_tokens_and_fallbacks() {
    let highlighter = Highlighter::new();
    for path in [
        "SRC/MAIN.RS",
        "BUILD",
        "file.ts",
        "file.tsx",
        "file.mts",
        "file.cts",
        "file.mjs",
        "file.mustache",
        "file.mdx",
        "file.json5",
        "file.heex",
        "Containerfile",
        "justfile",
    ] {
        assert!(highlighter.find_syntax(path, None).is_some(), "should resolve syntax for {path}");
    }
}

#[test]
fn should_detect_syntax_from_shebang_when_extensionless() {
    let highlighter = Highlighter::new();
    let lines = vec!["#!/usr/bin/env python".to_string(), "print('hello')".to_string()];
    let found = highlighter.find_syntax("script", Some(lines[0].as_str()));
    assert!(found.is_some());
    assert_eq!(found.unwrap().source(), SyntaxSource::FirstLine);
    let highlighted = highlighter.highlight_file(SyntaxTheme::Base16EightiesDark, "script", &lines);
    assert_eq!(highlighted.len(), lines.len());
}

#[test]
fn toml_highlights_under_gruvbox_dark_theme() {
    let highlighter = Highlighter::new();
    let lines = vec!["version = \"0.1.0\"".to_string()];
    assert!(highlighter.find_syntax("Cargo.toml", Some(lines[0].as_str())).is_some());
    let highlighted = highlighter.highlight_file(SyntaxTheme::GruvboxDark, "Cargo.toml", &lines);
    assert!(highlighted[0].iter().any(|(style, _)| style.fg.is_some()));
}

#[test]
fn extension_lookup_ignores_case_and_comes_before_the_first_line() {
    let highlighter = Highlighter::new();
    let upper = highlighter.find_syntax("SRC/MAIN.RS", Some("#!/usr/bin/env python")).unwrap();
    assert_eq!(upper.source(), SyntaxSource::Extension);
    assert_eq!(upper.key(), "RS");
}

#[test]
fn files_without_a_syntax_stay_plain() {
    let highlighter = Highlighter::new();
    let lines = vec!["just words".to_string(), "more words".to_string()];
    assert!(highlighter.find_syntax("notes.unknownext", Some(lines[0].as_str())).is_none());
    let highlighted = highlighter.highlight_file(SyntaxTheme::GruvboxDark, "notes.unknownext", &lines);
    assert_eq!(highlighted.len(), 2);
    for (runs, line) in highlighted.iter().zip(lines.iter()) {
        assert_eq!(runs.len(), 1);
        assert_eq!(runs[0].0, SegmentStyle::default());
        assert_eq!(&runs[0].1, line);
    }
}

#[test]
fn hunk_lines_take_runs_from_their_side() {
    let highlighter = Highlighter::new();
    let lines = vec![s("fn a() {}"), s("fn b() {}"), s("fn c() {}")];
    let origins = vec![LineOrigin::Context, LineOrigin::Deletion, LineOrigin::Addition];
    let plain = diff_line_runs(&highlighter, SyntaxTheme::GruvboxDark, None, &lines, &origins);
    assert_eq!(plain.len(), 3);
    assert!(plain.iter().zip(lines.iter()).all(|(runs, line)| runs.len() == 1 && &runs[0].1 == line && runs[0].0.fg.is_none()));
    let coloured = diff_line_runs(&highlighter, SyntaxTheme::GruvboxDark, Some("src/lib.rs"), &lines, &origins);
    assert_eq!(coloured.len(), 3);
    for (runs, line) in coloured.iter().zip(lines.iter()) {
        let text: String = runs.iter().map(|(_, t)| t.as_str()).collect();
        assert_eq!(&text, line);
        assert!(runs.iter().any(|(style, _)| style.fg.is_some()));
    }
}

#[test]
fn context_lines_number_both_sides_and_stop_at_the_end_of_the_file() {
    let lines = vec![s("one"), s("two"), s("three")];
    let runs: Vec<StyledSegments> = vec![vec![(SegmentStyle::default(), s("one"))]];
    let shown = context_lines(&lines, &runs, 2, 10, false);
    assert_eq!(shown.len(), 2);
    assert_eq!(shown[0].content, "two");
    assert_eq!(shown[0].old_lineno, Some(2));
    assert_eq!(shown[0].new_lineno, Some(2));
    assert_eq!(shown[1].content, "three");
    assert_eq!(shown[1].segments.len(), 1);
    assert_eq!(shown[1].segments[0].1, "three");
    let deleted = context_lines(&lines, &runs, 1, 1, true);
    assert_eq!(deleted.len(), 1);
    assert_eq!(deleted[0].new_lineno, None);
    assert_eq!(deleted[0].segments[0].1, "one");
    assert!(context_lines(&lines, &runs, 0, 2, false).is_empty());
    assert!(context_lines(&lines, &runs, 3, 2, false).is_empty());
}

#[test]
fn untracked_files_over_ten_mebibytes_hide_their_lines() {
    assert!(too_large_to_show(true, 10 * 1024 * 1024 + 1));
    assert!(!too_large_to_show(true, 10 * 1024 * 1024));
    assert!(!too_large_to_show(false, u64::MAX));
}

#[test]
fn commits_show_the_smallest_branch_name_at_them() {
    assert_eq!(tip_branch_name(&vec![s("main"), s("develop"), s("feature")]), Some(s("develop")));
    assert_eq!(tip_branch_name(&vec![]), None);
}

#[test]
fn review_options_put_uncommitted_changes_first() {
    let commits = vec![review_commit()];
    let plain = review_options(false, commits.clone());
    assert_eq!(plain, commits);
    let with_tree = review_options(true, commits.clone());
    assert_eq!(with_tree.len(), 2);
    assert!(with_tree[0].is_working_tree());
    assert_eq!(with_tree[1], commits[0]);
}

#[test]
fn loaded_files_split_their_text_into_lines_or_keep_the_error() {
    let highlighter = Highlighter::new();
    let file = loaded_file(&highlighter, SyntaxTheme::GruvboxDark, s("notes.unknownext"), Ok(s("first\r\nsecond\n")));
    assert_eq!(file.lines, vec![s("first"), s("second")]);
    assert_eq!(file.highlighted_lines.len(), 2);
    assert_eq!(file.highlighted_lines[1][0].1, "second");
    assert!(file.load_error.is_none());
    let missing = loaded_file(&highlighter, SyntaxTheme::GruvboxDark, s("gone.rs"), Err(s("not found")));
    assert!(missing.lines.is_empty());
    assert!(missing.highlighted_lines.is_empty());
    assert_eq!(missing.load_error, Some(s("not found")));
}

// ---------------------------------------------------------------------------
// command line
// ---------------------------------------------------------------------------

fn plain_cli() -> Cli {
    Cli {
        files: vec![],
        session: None,
        title: None,
        fresh: false,
        print_packet_path: false,
        export: false,
        stdout: false,
        diff: false,
        apply_agent_response: None,
        theme: None,
    }
}

#[test]
fn applying_a_plan_needs_a_saved_packet() {
    let cli = Cli { apply_agent_response: Some(s("plan.json")), ..plain_cli() };
    assert_eq!(run_mode(&cli, "/repo", true), Ok(RunMode::ApplyPlan(s("plan.json"))));
    assert_eq!(
        run_mode(&cli, "/repo", false),
        Err(s("no copanion packet exists for /repo; run `copanion` there first"))
    );
}

#[test]
fn printing_the_path_comes_before_exporting_and_reviewing() {
    let cli = Cli { print_packet_path: true, export: true, ..plain_cli() };
    assert_eq!(run_mode(&cli, "/repo", false), Ok(RunMode::PrintPath));
    let export = Cli { export: true, stdout: true, ..plain_cli() };
    assert_eq!(run_mode(&export, "/repo", false), Ok(RunMode::Export { to_stdout: true }));
    let review = Cli { diff: true, ..plain_cli() };
    assert_eq!(run_mode(&review, "/repo", false), Ok(RunMode::Review { diff: true, to_stdout: false }));
}

#[test]
fn named_sessions_replace_the_project_default() {
    let named = Cli { session: Some(s("scheduler-tour")), ..plain_cli() };
    assert_eq!(session_ref(&named, "/workspace/copanion"), "scheduler-tour");
    assert_eq!(session_ref(&plain_cli(), "/workspace/copanion"), default_session_id("/workspace/copanion"));
}

#[test]
fn relative_files_resolve_under_the_working_directory() {
    let resolved = resolve_files("/repo", &vec![s("src/main.rs"), s("/elsewhere/lib.rs")]);
    assert_eq!(resolved, vec![s("/repo/src/main.rs"), s("/elsewhere/lib.rs")]);
}

#[test]
fn osc52_wraps_the_base64_text_in_the_clipboard_escape() {
    assert_eq!(osc52_sequence("hi"), "\x1b]52;c;aGk=\x07");
    assert_eq!(osc52_sequence(""), "\x1b]52;c;\x07");
}

#[test]
fn highlighted_runs_spell_their_lines() {
    let highlighter = Highlighter::new();
    let lines = vec![s("fn main() {"), s("    let x = 1;"), s("}")];
    let runs = highlighter.highlight_file(SyntaxTheme::GruvboxDark, "src/main.rs", &lines);
    assert_eq!(runs.len(), 3);
    for (line_runs, line) in runs.iter().zip(lines.iter()) {
        let text: String = line_runs.iter().map(|(_, t)| t.as_str()).collect();
        assert_eq!(&text, line);
        assert!(line_runs.iter().all(|(style, _)| style.fg.is_some()));
    }
}

#[test]
fn patch_lines_read_their_origin_and_headers_are_trimmed() {
    assert_eq!(line_origin('+'), LineOrigin::Addition);
    assert_eq!(line_origin('-'), LineOrigin::Deletion);
    assert_eq!(line_origin(' '), LineOrigin::Context);
    assert_eq!(line_origin('='), LineOrigin::Context);
    assert_eq!(hunk_header_text("@@ -1,2 +1,3 @@ fn main\n"), "@@ -1,2 +1,3 @@ fn main");
    assert_eq!(changed_files(vec![]).unwrap_err(), "no changes found for the selected diff");
}

#[test]
fn record_ids_are_version_4_uuids() {
    let n = note("src/main.rs", Anchor::new(1, None), NoteKind::Flow, "t", "b", None, NoteSource::Human);
    assert!(n.id.starts_with("note-"));
    let uuid: Vec<char> = n.id["note-".len()..].chars().collect();
    assert_eq!(uuid.len(), 32);
    assert!(uuid.iter().all(|c| c.is_ascii_hexdigit() && !c.is_ascii_uppercase()));
    assert_eq!(uuid[12], '4');
    assert!(matches!(uuid[16], '8' | '9' | 'a' | 'b'));
    let other = note("src/main.rs", Anchor::new(1, None), NoteKind::Flow, "t", "b", None, NoteSource::Human);
    assert_ne!(n.id, other.id);
}

#[test]
fn timestamps_count_nanoseconds_since_the_epoch() {
    let packet = Packet::new(s("demo"), s("Demo"), s("/repo"), vec![]);
    assert!(packet.created_at > 1_000_000_000_000_000_000);
    assert_eq!(packet.created_at, packet.updated_at);
}
