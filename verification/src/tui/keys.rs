//! What a key press does in each mode of the review screen: the command it
//! stands for, whether a first `d` is waiting for a second one, and whether
//! it leaves the help. The terminal loop reads the key and carries the
//! command out.

use vstd::prelude::*;

use crate::tui::app::{byte_count, byte_len, utf8_len, utf8_width, App, FocusPane, InputMode, TextBuffer};

verus! {

/// A key press as the terminal reports it; `Ctrl` is a letter typed with
/// Control held.
#[derive(Debug, Clone, Copy, PartialEq, Eq, Structural)]
pub enum Key {
    Char(char),
    Ctrl(char),
    Tab,
    Enter,
    Esc,
    Backspace,
    Up,
    Down,
    Left,
    Right,
    Home,
    End,
    PageUp,
    PageDown,
    Other,
}

/// A change to a text being typed.
#[derive(Debug, Clone, Copy, PartialEq, Eq, Structural)]
pub enum EditOp {
    Insert(char),
    Backspace,
    Left,
    Right,
    Home,
    End,
    Clear,
}

/// What a key asks of the review screen.
#[derive(Debug, Clone, Copy, PartialEq, Eq, Structural)]
pub enum Command {
    Nothing,
    ToggleFocus,
    ShowHelp,
    FocusSource,
    MoveFile(isize),
    MoveCursor(isize),
    FirstLine,
    LastLine,
    PreviousAnnotation,
    NextAnnotation,
    PageDown,
    PageUp,
    HalfPageDown,
    HalfPageUp,
    EnterVisual,
    ExitVisual,
    AskOrContinue,
    Ask,
    Note,
    Edit(bool),
    ResolveThread,
    ReopenThread,
    Search,
    ViewThread,
    ToggleContext,
    DeleteFile,
    DeleteAnnotation,
    ArmDelete,
    CommitDraft,
    CloseDraft,
    DiscardDraft,
    ResumeDraft,
    EditDraft(EditOp),
    ScrollThread(isize),
    HalfPageThread(bool),
    PageThread(bool),
    ThreadTop,
    ThreadBottom,
    CloseThread,
    CancelPicker,
    CommitPicker,
    MovePicker(isize),
    EditPicker(EditOp),
    CancelSearch,
    CommitSearch,
    MoveSearch(isize),
    EditSearch(EditOp),
    MoveCommitCursor(isize),
    ToggleCommit,
    ConfirmCommits,
    ReviewAndNext,
    Reload,
    Quit,
    /// Write the packet to its file.
    Save,
    /// Copy the export of the threads waiting for a reply.
    Export,
    /// Write the packet, copy the export, and quit.
    SaveAndQuit,
    /// List the workspace's files and open the file picker.
    OpenFilePicker,
    /// Edit the draft in the user's editor.
    OpenEditor,
    /// List the commits again and return to the commit selector.
    ReopenCommitSelector,
}

/// The outcome of a key press.
#[derive(Debug, Clone, Copy, PartialEq, Eq, Structural)]
pub struct Step {
    pub command: Command,
    /// A first `d` waits for a second one.
    pub pending_d: bool,
    /// The help closes first.
    pub leave_help: bool,
    /// The status message is cleared first.
    pub clear_message: bool,
}

pub open spec fn step(command: Command) -> Step {
    Step { command, pending_d: false, leave_help: false, clear_message: false }
}

/// The edit a key makes to a one-line query (`j` and `k` move instead).
pub open spec fn query_edit(key: Key) -> Option<EditOp> {
    match key {
        Key::Backspace => Some(EditOp::Backspace),
        Key::Home => Some(EditOp::Home),
        Key::End => Some(EditOp::End),
        Key::Ctrl('u') => Some(EditOp::Clear),
        Key::Char(c) => Some(EditOp::Insert(c)),
        _ => None,
    }
}

/// A key in normal mode. `thread_here` says whether a thread is under the
/// cursor (in diff mode Enter and Space view it, else open hidden context).
pub open spec fn normal_command(focus: FocusPane, diff: bool, thread_here: bool, key: Key) -> Command {
    let files = focus == FocusPane::Files;
    match key {
        Key::Tab => Command::ToggleFocus,
        Key::Char('?') => Command::ShowHelp,
        Key::Char('j') | Key::Down => if files { Command::MoveFile(1isize) } else { Command::MoveCursor(1isize) },
        Key::Char('k') | Key::Up => if files { Command::MoveFile(-1isize) } else { Command::MoveCursor(-1isize) },
        Key::Char('h') | Key::Left => if files { Command::Nothing } else { Command::MoveFile(-1isize) },
        Key::Char('l') | Key::Right => if files { Command::Nothing } else { Command::MoveFile(1isize) },
        Key::Enter | Key::Char(' ') => if files {
            if key == Key::Enter { Command::FocusSource } else { Command::Nothing }
        } else if diff && !thread_here {
            Command::ToggleContext
        } else {
            Command::ViewThread
        },
        Key::Char('g') => Command::FirstLine,
        Key::Char('G') => Command::LastLine,
        Key::Char('[') => Command::PreviousAnnotation,
        Key::Char(']') => Command::NextAnnotation,
        Key::PageDown => Command::PageDown,
        Key::PageUp => Command::PageUp,
        Key::Ctrl('d') => Command::HalfPageDown,
        Key::Ctrl('u') => Command::HalfPageUp,
        Key::Char('v') | Key::Char('V') => Command::EnterVisual,
        Key::Char('a') => Command::AskOrContinue,
        Key::Char('c') => Command::ResolveThread,
        Key::Char('o') => Command::ReopenThread,
        Key::Char('n') => Command::Note,
        Key::Char('i') => Command::Edit(false),
        Key::Char('I') => Command::Edit(true),
        Key::Char('/') => Command::Search,
        Key::Char('s') => Command::Save,
        Key::Char('y') => Command::Export,
        Key::Char('x') => Command::SaveAndQuit,
        Key::Char('q') => Command::Quit,
        Key::Char('f') => if diff { Command::Nothing } else { Command::OpenFilePicker },
        Key::Char('R') => if diff { Command::Nothing } else { Command::Reload },
        Key::Char('r') => if diff { Command::ReviewAndNext } else { Command::Nothing },
        Key::Char('m') | Key::Esc => if diff { Command::ReopenCommitSelector } else { Command::Nothing },
        _ => Command::Nothing,
    }
}

pub open spec fn visual_command(key: Key) -> Command {
    match key {
        Key::Char('j') | Key::Down => Command::MoveCursor(1isize),
        Key::Char('k') | Key::Up => Command::MoveCursor(-1isize),
        Key::PageDown => Command::PageDown,
        Key::PageUp => Command::PageUp,
        Key::Ctrl('d') => Command::HalfPageDown,
        Key::Ctrl('u') => Command::HalfPageUp,
        Key::Char('g') => Command::FirstLine,
        Key::Char('G') => Command::LastLine,
        Key::Char('a') => Command::Ask,
        Key::Char('n') => Command::Note,
        Key::Esc | Key::Char('v') | Key::Char('V') => Command::ExitVisual,
        _ => Command::Nothing,
    }
}

pub open spec fn draft_command(key: Key) -> Command {
    match key {
        Key::Ctrl('s') => Command::CommitDraft,
        Key::Ctrl('o') => Command::OpenEditor,
        Key::Esc => Command::CloseDraft,
        Key::Enter => Command::EditDraft(EditOp::Insert('\n')),
        Key::Backspace => Command::EditDraft(EditOp::Backspace),
        Key::Left => Command::EditDraft(EditOp::Left),
        Key::Right => Command::EditDraft(EditOp::Right),
        Key::Home => Command::EditDraft(EditOp::Home),
        Key::End => Command::EditDraft(EditOp::End),
        Key::Ctrl('u') => Command::EditDraft(EditOp::Clear),
        Key::Char(c) => Command::EditDraft(EditOp::Insert(c)),
        _ => Command::Nothing,
    }
}

pub open spec fn confirm_command(key: Key) -> Command {
    match key {
        Key::Char('y') => Command::CommitDraft,
        Key::Char('n') => Command::DiscardDraft,
        Key::Esc => Command::ResumeDraft,
        _ => Command::Nothing,
    }
}

pub open spec fn thread_command(key: Key) -> Command {
    match key {
        Key::Char('j') | Key::Down => Command::ScrollThread(1isize),
        Key::Char('k') | Key::Up => Command::ScrollThread(-1isize),
        Key::Ctrl('d') => Command::HalfPageThread(true),
        Key::Ctrl('u') => Command::HalfPageThread(false),
        Key::PageDown => Command::PageThread(true),
        Key::PageUp => Command::PageThread(false),
        Key::Char('g') => Command::ThreadTop,
        Key::Char('G') => Command::ThreadBottom,
        Key::Enter | Key::Esc | Key::Char('q') => Command::CloseThread,
        _ => Command::Nothing,
    }
}

pub open spec fn picker_command(key: Key) -> Command {
    match key {
        Key::Esc => Command::CancelPicker,
        Key::Enter => Command::CommitPicker,
        Key::Char('j') | Key::Down => Command::MovePicker(1isize),
        Key::Char('k') | Key::Up => Command::MovePicker(-1isize),
        _ => match query_edit(key) {
            Some(op) => Command::EditPicker(op),
            None => Command::Nothing,
        },
    }
}

pub open spec fn search_command(key: Key) -> Command {
    match key {
        Key::Esc => Command::CancelSearch,
        Key::Enter => Command::CommitSearch,
        Key::Char('j') | Key::Down => Command::MoveSearch(1isize),
        Key::Char('k') | Key::Up => Command::MoveSearch(-1isize),
        _ => match query_edit(key) {
            Some(op) => Command::EditSearch(op),
            None => Command::Nothing,
        },
    }
}

/// A key in the help: Esc, `?` and `q` close it; the keys it names for
/// asking, adding a file, searching, saving, copying and quitting close it
/// and do that.
pub open spec fn help_step(diff: bool, key: Key) -> Step {
    let leave = |c: Command| Step { command: c, pending_d: false, leave_help: true, clear_message: false };
    match key {
        Key::Esc | Key::Char('?') | Key::Char('q') => leave(Command::Nothing),
        Key::Char('a') => leave(Command::AskOrContinue),
        Key::Char('f') => leave(if diff { Command::Nothing } else { Command::OpenFilePicker }),
        Key::Char('/') => leave(Command::Search),
        Key::Char('x') => leave(Command::SaveAndQuit),
        Key::Char('s') => leave(Command::Save),
        Key::Char('y') => leave(Command::Export),
        _ => step(Command::Nothing),
    }
}

pub open spec fn commit_select_command(key: Key) -> Command {
    match key {
        Key::Char('j') | Key::Down => Command::MoveCommitCursor(1isize),
        Key::Char('k') | Key::Up => Command::MoveCommitCursor(-1isize),
        Key::Char(' ') => Command::ToggleCommit,
        Key::Enter => Command::ConfirmCommits,
        Key::Char('q') => Command::Quit,
        Key::Char('?') => Command::ShowHelp,
        _ => Command::Nothing,
    }
}

/// What a key does. In normal mode a `d` waits for a second `d`, which
/// deletes (the file when the file list has the focus, else the annotation
/// under the cursor); any other key drops the waiting `d` and clears the
/// status message before it acts.
pub open spec fn key_step(mode: InputMode, focus: FocusPane, diff: bool, pending_d: bool, thread_here: bool, key: Key) -> Step {
    match mode {
        InputMode::Normal => if key == Key::Char('d') {
            if pending_d {
                step(if focus == FocusPane::Files { Command::DeleteFile } else { Command::DeleteAnnotation })
            } else {
                Step { command: Command::ArmDelete, pending_d: true, leave_help: false, clear_message: false }
            }
        } else {
            Step { command: normal_command(focus, diff, thread_here, key), pending_d: false, leave_help: false, clear_message: true }
        },
        InputMode::Visual => step(visual_command(key)),
        InputMode::Draft => step(draft_command(key)),
        InputMode::DraftConfirm => step(confirm_command(key)),
        InputMode::ThreadView => step(thread_command(key)),
        InputMode::FilePicker => step(picker_command(key)),
        InputMode::Search => step(search_command(key)),
        InputMode::Help => help_step(diff, key),
        InputMode::CommitSelect => step(commit_select_command(key)),
    }
}


fn plain_step(command: Command) -> (r: Step)
    ensures
        r == step(command),
{
    Step { command, pending_d: false, leave_help: false, clear_message: false }
}

fn query_edit_for(key: Key) -> (r: Option<EditOp>)
    ensures
        r == query_edit(key),
{
    match key {
        Key::Backspace => Some(EditOp::Backspace),
        Key::Home => Some(EditOp::Home),
        Key::End => Some(EditOp::End),
        Key::Ctrl('u') => Some(EditOp::Clear),
        Key::Char(c) => Some(EditOp::Insert(c)),
        _ => None,
    }
}

fn normal_command_for(focus: FocusPane, diff: bool, thread_here: bool, key: Key) -> (r: Command)
    ensures
        r == normal_command(focus, diff, thread_here, key),
{
    let files = focus == FocusPane::Files;
    match key {
        Key::Tab => Command::ToggleFocus,
        Key::Char('?') => Command::ShowHelp,
        Key::Char('j') | Key::Down => if files { Command::MoveFile(1isize) } else { Command::MoveCursor(1isize) },
        Key::Char('k') | Key::Up => if files { Command::MoveFile(-1isize) } else { Command::MoveCursor(-1isize) },
        Key::Char('h') | Key::Left => if files { Command::Nothing } else { Command::MoveFile(-1isize) },
        Key::Char('l') | Key::Right => if files { Command::Nothing } else { Command::MoveFile(1isize) },
        Key::Enter | Key::Char(' ') => if files {
            if key == Key::Enter { Command::FocusSource } else { Command::Nothing }
        } else if diff && !thread_here {
            Command::ToggleContext
        } else {
            Command::ViewThread
        },
        Key::Char('g') => Command::FirstLine,
        Key::Char('G') => Command::LastLine,
        Key::Char('[') => Command::PreviousAnnotation,
        Key::Char(']') => Command::NextAnnotation,
        Key::PageDown => Command::PageDown,
        Key::PageUp => Command::PageUp,
        Key::Ctrl('d') => Command::HalfPageDown,
        Key::Ctrl('u') => Command::HalfPageUp,
        Key::Char('v') | Key::Char('V') => Command::EnterVisual,
        Key::Char('a') => Command::AskOrContinue,
        Key::Char('c') => Command::ResolveThread,
        Key::Char('o') => Command::ReopenThread,
        Key::Char('n') => Command::Note,
        Key::Char('i') => Command::Edit(false),
        Key::Char('I') => Command::Edit(true),
        Key::Char('/') => Command::Search,
        Key::Char('s') => Command::Save,
        Key::Char('y') => Command::Export,
        Key::Char('x') => Command::SaveAndQuit,
        Key::Char('q') => Command::Quit,
        Key::Char('f') => if diff { Command::Nothing } else { Command::OpenFilePicker },
        Key::Char('R') => if diff { Command::Nothing } else { Command::Reload },
        Key::Char('r') => if diff { Command::ReviewAndNext } else { Command::Nothing },
        Key::Char('m') | Key::Esc => if diff { Command::ReopenCommitSelector } else { Command::Nothing },
        _ => Command::Nothing,
    }
}

fn visual_command_for(key: Key) -> (r: Command)
    ensures
        r == visual_command(key),
{
    match key {
        Key::Char('j') | Key::Down => Command::MoveCursor(1isize),
        Key::Char('k') | Key::Up => Command::MoveCursor(-1isize),
        Key::PageDown => Command::PageDown,
        Key::PageUp => Command::PageUp,
        Key::Ctrl('d') => Command::HalfPageDown,
        Key::Ctrl('u') => Command::HalfPageUp,
        Key::Char('g') => Command::FirstLine,
        Key::Char('G') => Command::LastLine,
        Key::Char('a') => Command::Ask,
        Key::Char('n') => Command::Note,
        Key::Esc | Key::Char('v') | Key::Char('V') => Command::ExitVisual,
        _ => Command::Nothing,
    }
}

fn draft_command_for(key: Key) -> (r: Command)
    ensures
        r == draft_command(key),
{
    match key {
        Key::Ctrl('s') => Command::CommitDraft,
        Key::Ctrl('o') => Command::OpenEditor,
        Key::Esc => Command::CloseDraft,
        Key::Enter => Command::EditDraft(EditOp::Insert('\n')),
        Key::Backspace => Command::EditDraft(EditOp::Backspace),
        Key::Left => Command::EditDraft(EditOp::Left),
        Key::Right => Command::EditDraft(EditOp::Right),
        Key::Home => Command::EditDraft(EditOp::Home),
        Key::End => Command::EditDraft(EditOp::End),
        Key::Ctrl('u') => Command::EditDraft(EditOp::Clear),
        Key::Char(c) => Command::EditDraft(EditOp::Insert(c)),
        _ => Command::Nothing,
    }
}

fn confirm_command_for(key: Key) -> (r: Command)
    ensures
        r == confirm_command(key),
{
    match key {
        Key::Char('y') => Command::CommitDraft,
        Key::Char('n') => Command::DiscardDraft,
        Key::Esc => Command::ResumeDraft,
        _ => Command::Nothing,
    }
}

fn thread_command_for(key: Key) -> (r: Command)
    ensures
        r == thread_command(key),
{
    match key {
        Key::Char('j') | Key::Down => Command::ScrollThread(1isize),
        Key::Char('k') | Key::Up => Command::ScrollThread(-1isize),
        Key::Ctrl('d') => Command::HalfPageThread(true),
        Key::Ctrl('u') => Command::HalfPageThread(false),
        Key::PageDown => Command::PageThread(true),
        Key::PageUp => Command::PageThread(false),
        Key::Char('g') => Command::ThreadTop,
        Key::Char('G') => Command::ThreadBottom,
        Key::Enter | Key::Esc | Key::Char('q') => Command::CloseThread,
        _ => Command::Nothing,
    }
}

fn picker_command_for(key: Key) -> (r: Command)
    ensures
        r == picker_command(key),
{
    match key {
        Key::Esc => Command::CancelPicker,
        Key::Enter => Command::CommitPicker,
        Key::Char('j') | Key::Down => Command::MovePicker(1isize),
        Key::Char('k') | Key::Up => Command::MovePicker(-1isize),
        _ => match query_edit_for(key) {
            Some(op) => Command::EditPicker(op),
            None => Command::Nothing,
        },
    }
}

fn search_command_for(key: Key) -> (r: Command)
    ensures
        r == search_command(key),
{
    match key {
        Key::Esc => Command::CancelSearch,
        Key::Enter => Command::CommitSearch,
        Key::Char('j') | Key::Down => Command::MoveSearch(1isize),
        Key::Char('k') | Key::Up => Command::MoveSearch(-1isize),
        _ => match query_edit_for(key) {
            Some(op) => Command::EditSearch(op),
            None => Command::Nothing,
        },
    }
}

fn help_step_for(diff: bool, key: Key) -> (r: Step)
    ensures
        r == help_step(diff, key),
{
    let command = match key {
        Key::Esc | Key::Char('?') | Key::Char('q') => Command::Nothing,
        Key::Char('a') => Command::AskOrContinue,
        Key::Char('f') => if diff { Command::Nothing } else { Command::OpenFilePicker },
        Key::Char('/') => Command::Search,
        Key::Char('x') => Command::SaveAndQuit,
        Key::Char('s') => Command::Save,
        Key::Char('y') => Command::Export,
        _ => {
            return plain_step(Command::Nothing);
        },
    };
    Step { command, pending_d: false, leave_help: true, clear_message: false }
}

fn commit_select_command_for(key: Key) -> (r: Command)
    ensures
        r == commit_select_command(key),
{
    match key {
        Key::Char('j') | Key::Down => Command::MoveCommitCursor(1isize),
        Key::Char('k') | Key::Up => Command::MoveCommitCursor(-1isize),
        Key::Char(' ') => Command::ToggleCommit,
        Key::Enter => Command::ConfirmCommits,
        Key::Char('q') => Command::Quit,
        Key::Char('?') => Command::ShowHelp,
        _ => Command::Nothing,
    }
}

/// What a key does (see `key_step`).
pub fn step_for_key(mode: InputMode, focus: FocusPane, diff: bool, pending_d: bool, thread_here: bool, key: Key) -> (r: Step)
    ensures
        r == key_step(mode, focus, diff, pending_d, thread_here, key),
{
    match mode {
        InputMode::Normal => if key == Key::Char('d') {
            if pending_d {
                plain_step(if focus == FocusPane::Files { Command::DeleteFile } else { Command::DeleteAnnotation })
            } else {
                Step { command: Command::ArmDelete, pending_d: true, leave_help: false, clear_message: false }
            }
        } else {
            Step { command: normal_command_for(focus, diff, thread_here, key), pending_d: false, leave_help: false, clear_message: true }
        },
        InputMode::Visual => plain_step(visual_command_for(key)),
        InputMode::Draft => plain_step(draft_command_for(key)),
        InputMode::DraftConfirm => plain_step(confirm_command_for(key)),
        InputMode::ThreadView => plain_step(thread_command_for(key)),
        InputMode::FilePicker => plain_step(picker_command_for(key)),
        InputMode::Search => plain_step(search_command_for(key)),
        InputMode::Help => help_step_for(diff, key),
        InputMode::CommitSelect => plain_step(commit_select_command_for(key)),
    }
}

// ---------------------------------------------------------------------------
// Commands that only change the screen's state.
// ---------------------------------------------------------------------------

impl App {
    /// Shows the help.
    pub fn show_help(&mut self)
        ensures
            *final(self) == (App { input_mode: InputMode::Help, ..*old(self) }),
    {
        self.input_mode = InputMode::Help;
    }

    /// Closes the help, back to normal mode.
    pub fn hide_help(&mut self)
        ensures
            *final(self) == (App {
                input_mode: if old(self).input_mode == InputMode::Help { InputMode::Normal } else { old(self).input_mode },
                ..*old(self)
            }),
    {
        if self.input_mode == InputMode::Help {
            self.input_mode = InputMode::Normal;
        }
    }

    /// Gives the focus to the source (or diff) pane.
    pub fn focus_source(&mut self)
        ensures
            *final(self) == (App { focus: FocusPane::Source, ..*old(self) }),
    {
        self.focus = FocusPane::Source;
    }

    /// A first `d`: says what a second one would delete.
    pub fn arm_delete(&mut self)
        ensures
            *final(self) == (App { message: final(self).message, ..*old(self) }),
            final(self).message matches Some(m) && m@ == if old(self).focus == FocusPane::Files {
                "press d again to remove the selected file from this session"@
            } else {
                "press d again to delete the note or question at the current line"@
            },
    {
        let text = if self.focus == FocusPane::Files {
            "press d again to remove the selected file from this session"
        } else {
            "press d again to delete the note or question at the current line"
        };
        self.message = Some(text.to_string());
    }
}

// ---------------------------------------------------------------------------
// Editing a text.
// ---------------------------------------------------------------------------

/// Whether the cursor sits between two characters of the text (see
/// `TextBuffer::wf`).
pub fn cursor_on_boundary(b: &TextBuffer) -> (r: bool)
    ensures
        r == b.wf(),
{
    let cs = crate::text::chars_of(b.text.as_str());
    let total = byte_count(b.text.as_str());
    let ghost t = b.text@;
    let mut off: usize = 0;
    let mut k: usize = 0;
    assert(t.take(0) =~= Seq::<char>::empty());
    while k < cs.len()
        invariant
            k <= t.len(),
            cs@ == t,
            t == b.text@,
            total == byte_len(t),
            off == byte_len(t.take(k as int)),
            forall|j: int| 0 <= j < k ==> byte_len(#[trigger] t.take(j)) != b.cursor,
        decreases cs.len() - k,
    {
        if off == b.cursor {
            assert(0 <= k <= t.len() && byte_len(t.take(k as int)) == b.cursor);
            return true;
        }
        proof {
            crate::tui::app::lemma_byte_len_step(t, k as int);
            crate::tui::app::lemma_prefix_fits(t, k + 1);
        }
        off = off + utf8_width(cs[k]);
        k = k + 1;
    }
    assert(t.take(t.len() as int) =~= t);
    if off == b.cursor {
        assert(0 <= k <= t.len() && byte_len(t.take(k as int)) == b.cursor);
        true
    } else {
        assert forall|j: int| 0 <= j <= t.len() implies byte_len(#[trigger] t.take(j)) != b.cursor by {
            if j == t.len() {
                assert(t.take(j) =~= t);
            }
        }
        false
    }
}

/// Whether an edit changes the text (and not only the cursor).
pub fn changes_text(op: EditOp) -> (r: bool)
    ensures
        r == (op is Insert || op is Backspace || op is Clear),
{
    match op {
        EditOp::Insert(_) | EditOp::Backspace | EditOp::Clear => true,
        _ => false,
    }
}

/// An edit of a buffer whose cursor is on a boundary (one that is not is left
/// alone; so is one too long to take another character).
pub fn edit_text(b: &mut TextBuffer, op: EditOp)
    ensures
        !old(b).wf() ==> *final(b) == *old(b),
        old(b).wf() ==> final(b).wf(),
        old(b).wf() ==> match op {
            EditOp::Insert(c) => if byte_len(old(b).text@) + 4 <= usize::MAX {
                &&& final(b).text@ == old(b).text@.take(old(b).column()).push(c) + old(b).text@.skip(old(b).column())
                &&& final(b).cursor == old(b).cursor + utf8_len(c)
            } else {
                *final(b) == *old(b)
            },
            EditOp::Backspace => {
                &&& old(b).cursor == 0 ==> *final(b) == *old(b)
                &&& old(b).cursor > 0 ==> final(b).text@ == old(b).text@.remove(old(b).column() - 1) && final(b).column()
                    == old(b).column() - 1
            },
            EditOp::Left => {
                &&& final(b).text == old(b).text
                &&& old(b).cursor == 0 ==> final(b).cursor == 0
                &&& old(b).cursor > 0 ==> final(b).column() == old(b).column() - 1
            },
            EditOp::Right => {
                &&& final(b).text == old(b).text
                &&& old(b).column() == old(b).text@.len() ==> final(b).cursor == old(b).cursor
                &&& old(b).column() < old(b).text@.len() ==> final(b).column() == old(b).column() + 1
            },
            EditOp::Home => final(b).text == old(b).text && final(b).cursor == 0,
            EditOp::End => final(b).text == old(b).text && final(b).column() == old(b).text@.len(),
            EditOp::Clear => final(b).text@.len() == 0 && final(b).cursor == 0,
        },
{
    if !cursor_on_boundary(b) {
        return;
    }
    match op {
        EditOp::Insert(c) => {
            let total = byte_count(b.text.as_str());
            if total <= usize::MAX - 4 {
                b.insert(c);
            }
        },
        EditOp::Backspace => b.backspace(),
        EditOp::Left => b.move_left(),
        EditOp::Right => b.move_right(),
        EditOp::Home => b.move_home(),
        EditOp::End => b.move_end(),
        EditOp::Clear => b.clear(),
    }
}

} // verus!
