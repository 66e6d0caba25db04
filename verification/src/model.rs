//! The learning packet: tracked files, guidance notes anchored to lines, and
//! question threads between the reader and an agent.
//!
//! Timestamps are nanoseconds since the Unix epoch (UTC).

use vstd::prelude::*;

use crate::stamp::{fresh_id, is_simple_uuid, now_nanos};
use crate::text::{decimal, push_char, push_decimal};

verus! {

pub const PACKET_VERSION: u32 = 2;

/// A line anchor: one line, or an inclusive range ending at `end_line`.
#[derive(Debug, Clone, Copy, PartialEq, Eq, Structural)]
pub struct Anchor {
    pub start_line: usize,
    pub end_line: Option<usize>,
}

#[derive(Debug, Clone, Copy, PartialEq, Eq, Structural, PartialOrd, Ord, Hash)]
pub enum NoteKind {
    Overview,
    Flow,
    Pitfall,
    Reference,
}

#[derive(Debug, Clone, Copy, PartialEq, Eq, Structural, PartialOrd, Ord, Hash)]
pub enum NoteSource {
    Agent,
    Human,
    Imported,
}

#[derive(Debug, Clone, Copy, PartialEq, Eq, Structural, PartialOrd, Ord, Hash)]
pub enum QuestionStatus {
    Open,
    Answered,
    Archived,
}

#[derive(Debug, Clone, Copy, PartialEq, Eq, Structural, PartialOrd, Ord, Hash)]
pub enum QuestionMessageRole {
    User,
    Agent,
}

#[derive(Debug, Clone, Copy, PartialEq, Eq, Structural)]
pub enum QuestionTurnKind {
    Prompt,
    UserFollowUp,
    AgentReply,
}

impl Default for NoteKind {
    fn default() -> (r: Self)
        ensures
            r == NoteKind::Overview,
    {
        NoteKind::Overview
    }
}

impl Default for NoteSource {
    fn default() -> (r: Self)
        ensures
            r == NoteSource::Agent,
    {
        NoteSource::Agent
    }
}

impl Default for QuestionStatus {
    fn default() -> (r: Self)
        ensures
            r == QuestionStatus::Open,
    {
        QuestionStatus::Open
    }
}

#[derive(Debug)]
pub struct TrackedFile {
    pub path: String,
    pub label: Option<String>,
    pub purpose: Option<String>,
}

#[derive(Debug)]
pub struct Note {
    pub id: String,
    pub path: String,
    pub anchor: Anchor,
    pub kind: NoteKind,
    pub title: String,
    pub body: String,
    pub tags: Vec<String>,
    pub author: Option<String>,
    pub source: NoteSource,
    pub created_at: i64,
    pub updated_at: i64,
}

#[derive(Debug)]
pub struct QuestionMessage {
    pub id: String,
    pub role: QuestionMessageRole,
    pub body: String,
    pub created_at: i64,
    pub updated_at: i64,
}

#[derive(Debug)]
pub struct Question {
    pub id: String,
    pub path: String,
    pub anchor: Option<Anchor>,
    pub prompt: String,
    pub why: Option<String>,
    pub related_note_ids: Vec<String>,
    pub conversation: Vec<QuestionMessage>,
    pub status: QuestionStatus,
    pub created_at: i64,
    pub updated_at: i64,
}

#[derive(Debug)]
pub struct Packet {
    pub version: u32,
    pub session_id: String,
    pub title: String,
    pub workspace_root: String,
    pub files: Vec<TrackedFile>,
    pub notes: Vec<Note>,
    pub questions: Vec<Question>,
    pub created_at: i64,
    pub updated_at: i64,
}

/// One turn of a question thread: the opening prompt or a later message.
#[derive(Debug, Clone, Copy)]
pub struct QuestionTurnRef<'a> {
    pub kind: QuestionTurnKind,
    pub body: &'a str,
}

// ---------------------------------------------------------------------------
// Mathematical views.
// ---------------------------------------------------------------------------

pub struct TrackedFileView {
    pub path: Seq<char>,
    pub label: Option<Seq<char>>,
    pub purpose: Option<Seq<char>>,
}

pub struct NoteView {
    pub id: Seq<char>,
    pub path: Seq<char>,
    pub anchor: Anchor,
    pub kind: NoteKind,
    pub title: Seq<char>,
    pub body: Seq<char>,
    pub tags: Seq<Seq<char>>,
    pub author: Option<Seq<char>>,
    pub source: NoteSource,
    pub created_at: i64,
    pub updated_at: i64,
}

pub struct MessageView {
    pub id: Seq<char>,
    pub role: QuestionMessageRole,
    pub body: Seq<char>,
    pub created_at: i64,
    pub updated_at: i64,
}

pub struct QuestionView {
    pub id: Seq<char>,
    pub path: Seq<char>,
    pub anchor: Option<Anchor>,
    pub prompt: Seq<char>,
    pub why: Option<Seq<char>>,
    pub related_note_ids: Seq<Seq<char>>,
    pub conversation: Seq<MessageView>,
    pub status: QuestionStatus,
    pub created_at: i64,
    pub updated_at: i64,
}

pub struct PacketView {
    pub version: u32,
    pub session_id: Seq<char>,
    pub title: Seq<char>,
    pub workspace_root: Seq<char>,
    pub files: Seq<TrackedFileView>,
    pub notes: Seq<NoteView>,
    pub questions: Seq<QuestionView>,
    pub created_at: i64,
    pub updated_at: i64,
}

impl View for TrackedFile {
    type V = TrackedFileView;

    open spec fn view(&self) -> TrackedFileView {
        TrackedFileView {
            path: self.path@,
            label: self.label.deep_view(),
            purpose: self.purpose.deep_view(),
        }
    }
}

impl View for Note {
    type V = NoteView;

    open spec fn view(&self) -> NoteView {
        NoteView {
            id: self.id@,
            path: self.path@,
            anchor: self.anchor,
            kind: self.kind,
            title: self.title@,
            body: self.body@,
            tags: self.tags.deep_view(),
            author: self.author.deep_view(),
            source: self.source,
            created_at: self.created_at,
            updated_at: self.updated_at,
        }
    }
}

impl View for QuestionMessage {
    type V = MessageView;

    open spec fn view(&self) -> MessageView {
        MessageView {
            id: self.id@,
            role: self.role,
            body: self.body@,
            created_at: self.created_at,
            updated_at: self.updated_at,
        }
    }
}

pub open spec fn messages_view(v: Seq<QuestionMessage>) -> Seq<MessageView> {
    v.map_values(|m: QuestionMessage| m@)
}

impl View for Question {
    type V = QuestionView;

    open spec fn view(&self) -> QuestionView {
        QuestionView {
            id: self.id@,
            path: self.path@,
            anchor: self.anchor,
            prompt: self.prompt@,
            why: self.why.deep_view(),
            related_note_ids: self.related_note_ids.deep_view(),
            conversation: messages_view(self.conversation@),
            status: self.status,
            created_at: self.created_at,
            updated_at: self.updated_at,
        }
    }
}

pub open spec fn files_view(v: Seq<TrackedFile>) -> Seq<TrackedFileView> {
    v.map_values(|f: TrackedFile| f@)
}

pub open spec fn notes_view(v: Seq<Note>) -> Seq<NoteView> {
    v.map_values(|n: Note| n@)
}

pub open spec fn questions_view(v: Seq<Question>) -> Seq<QuestionView> {
    v.map_values(|q: Question| q@)
}

impl View for Packet {
    type V = PacketView;

    open spec fn view(&self) -> PacketView {
        PacketView {
            version: self.version,
            session_id: self.session_id@,
            title: self.title@,
            workspace_root: self.workspace_root@,
            files: files_view(self.files@),
            notes: notes_view(self.notes@),
            questions: questions_view(self.questions@),
            created_at: self.created_at,
            updated_at: self.updated_at,
        }
    }
}

// ---------------------------------------------------------------------------
// Spec vocabulary.
// ---------------------------------------------------------------------------

/// Whether a thread waits for an agent reply: it is open and either has no
/// messages yet or its latest message is the user's.
pub open spec fn needs_reply(q: QuestionView) -> bool {
    q.status == QuestionStatus::Open && (q.conversation.len() == 0
        || q.conversation.last().role == QuestionMessageRole::User)
}

pub open spec fn is_open(q: QuestionView) -> bool {
    q.status == QuestionStatus::Open
}

/// The open threads, in packet order.
pub open spec fn open_threads(qs: Seq<QuestionView>) -> Seq<QuestionView> {
    qs.filter(|q: QuestionView| is_open(q))
}

/// The threads waiting for an agent reply, in packet order.
pub open spec fn awaiting_reply(qs: Seq<QuestionView>) -> Seq<QuestionView> {
    qs.filter(|q: QuestionView| needs_reply(q))
}

pub open spec fn tracks_path(files: Seq<TrackedFileView>, path: Seq<char>) -> bool {
    exists|i: int| 0 <= i < files.len() && #[trigger] files[i].path == path
}

pub open spec fn bare_file(path: Seq<char>) -> TrackedFileView {
    TrackedFileView { path, label: None, purpose: None }
}

/// `path` added to the tracked files unless some file already has it.
pub open spec fn files_with(files: Seq<TrackedFileView>, path: Seq<char>) -> Seq<TrackedFileView> {
    if tracks_path(files, path) {
        files
    } else {
        files.push(bare_file(path))
    }
}

pub open spec fn has_id_with_prefix(id: Seq<char>, prefix: Seq<char>) -> bool {
    &&& id.len() == prefix.len() + 32
    &&& id.take(prefix.len() as int) == prefix
    &&& is_simple_uuid(id.skip(prefix.len() as int))
}

/// The text of an anchor: `start` for a single line, `start-end` for a range
/// whose end differs from its start.
pub open spec fn anchor_text(a: Anchor) -> Seq<char> {
    match a.end_line {
        Some(end) if end != a.start_line => decimal(a.start_line as nat).push('-') + decimal(
            end as nat,
        ),
        _ => decimal(a.start_line as nat),
    }
}

pub open spec fn turn_kind_of(role: QuestionMessageRole) -> QuestionTurnKind {
    match role {
        QuestionMessageRole::User => QuestionTurnKind::UserFollowUp,
        QuestionMessageRole::Agent => QuestionTurnKind::AgentReply,
    }
}

pub open spec fn role_label(role: QuestionMessageRole) -> Seq<char> {
    match role {
        QuestionMessageRole::User => "Follow-up"@,
        QuestionMessageRole::Agent => "Agent Reply"@,
    }
}

// ---------------------------------------------------------------------------
// Operations.
// ---------------------------------------------------------------------------

impl Packet {
    pub fn new(session_id: String, title: String, workspace_root: String, files: Vec<TrackedFile>) -> (r:
        Self)
        ensures
            r@.version == PACKET_VERSION,
            r@.session_id == session_id@,
            r@.title == title@,
            r@.workspace_root == workspace_root@,
            r@.files == files_view(files@),
            r@.notes.len() == 0,
            r@.questions.len() == 0,
            r@.created_at == r@.updated_at,
    {
        let now = now_nanos();
        let r = Packet {
            version: PACKET_VERSION,
            session_id,
            title,
            workspace_root,
            files,
            notes: Vec::new(),
            questions: Vec::new(),
            created_at: now,
            updated_at: now,
        };
        assert(r@.notes =~= Seq::empty());
        assert(r@.questions =~= Seq::empty());
        r
    }

    /// Stamps the packet as updated now; nothing else changes.
    pub fn touch(&mut self)
        ensures
            final(self)@ == (PacketView { updated_at: final(self)@.updated_at, ..old(self)@ }),
    {
        self.updated_at = now_nanos();
    }

    /// Adds `path` to the tracked files unless it is already tracked; says
    /// whether it was added.
    pub fn ensure_file(&mut self, path: String) -> (added: bool)
        ensures
            added == !tracks_path(old(self)@.files, path@),
            final(self)@ == (PacketView { files: files_with(old(self)@.files, path@), ..old(self)@ }),
    {
        let mut i: usize = 0;
        while i < self.files.len()
            invariant
                i <= self.files@.len(),
                forall|k: int| 0 <= k < i ==> self@.files[k].path != path@,
            decreases self.files.len() - i,
        {
            if self.files[i].path == path {
                assert(self@.files[i as int].path == path@);
                return false;
            }
            i = i + 1;
        }
        let ghost old_files = self@.files;
        let ghost p = path@;
        self.files.push(TrackedFile { path, label: None, purpose: None });
        proof {
            assert(!tracks_path(old_files, p));
            assert(self@.files =~= old_files.push(bare_file(p)));
        }
        true
    }

    /// The open question threads, in packet order.
    pub fn open_questions(&self) -> (r: Vec<&Question>)
        ensures
            r@.map_values(|q: &Question| q@) == open_threads(self@.questions),
    {
        let ghost qs = self@.questions;
        let ghost p = |q: QuestionView| is_open(q);
        let mut r: Vec<&Question> = Vec::new();
        let mut i: usize = 0;
        while i < self.questions.len()
            invariant
                i <= self.questions@.len(),
                qs == self@.questions,
                p == (|q: QuestionView| is_open(q)),
                r@.map_values(|q: &Question| q@) == qs.take(i as int).filter(p),
            decreases self.questions.len() - i,
        {
            proof {
                assert(qs.take(i + 1) =~= qs.take(i as int).push(qs[i as int]));
                qs.take(i as int).lemma_filter_push(qs[i as int], p);
            }
            if self.questions[i].status == QuestionStatus::Open {
                r.push(&self.questions[i]);
            }
            proof {
                assert(r@.map_values(|q: &Question| q@) =~= qs.take(i + 1).filter(p));
            }
            i = i + 1;
        }
        assert(qs.take(qs.len() as int) =~= qs);
        r
    }

    /// The open threads waiting for an agent reply, in packet order.
    pub fn questions_requiring_reply(&self) -> (r: Vec<&Question>)
        ensures
            r@.map_values(|q: &Question| q@) == awaiting_reply(self@.questions),
    {
        let ghost qs = self@.questions;
        let ghost p = |q: QuestionView| needs_reply(q);
        let mut r: Vec<&Question> = Vec::new();
        let mut i: usize = 0;
        while i < self.questions.len()
            invariant
                i <= self.questions@.len(),
                qs == self@.questions,
                p == (|q: QuestionView| needs_reply(q)),
                r@.map_values(|q: &Question| q@) == qs.take(i as int).filter(p),
            decreases self.questions.len() - i,
        {
            proof {
                assert(qs.take(i + 1) =~= qs.take(i as int).push(qs[i as int]));
                qs.take(i as int).lemma_filter_push(qs[i as int], p);
            }
            if self.questions[i].needs_agent_reply() {
                r.push(&self.questions[i]);
            }
            proof {
                assert(r@.map_values(|q: &Question| q@) =~= qs.take(i + 1).filter(p));
            }
            i = i + 1;
        }
        assert(qs.take(qs.len() as int) =~= qs);
        r
    }
}

impl TrackedFile {
    pub fn new(path: String) -> (r: Self)
        ensures
            r@ == bare_file(path@),
    {
        TrackedFile { path, label: None, purpose: None }
    }
}

impl Note {
    /// A new note with a fresh `note-` identifier, created and updated now.
    pub fn new(
        path: String,
        anchor: Anchor,
        kind: NoteKind,
        title: String,
        body: String,
        tags: Vec<String>,
        author: Option<String>,
        source: NoteSource,
    ) -> (r: Self)
        ensures
            has_id_with_prefix(r@.id, "note-"@),
            r@.path == path@,
            r@.anchor == anchor,
            r@.kind == kind,
            r@.title == title@,
            r@.body == body@,
            r@.tags == tags.deep_view(),
            r@.author == author.deep_view(),
            r@.source == source,
            r@.created_at == r@.updated_at,
    {
        let now = now_nanos();
        let id = fresh_id("note-");
        Note {
            id,
            path,
            anchor,
            kind,
            title,
            body,
            tags,
            author,
            source,
            created_at: now,
            updated_at: now,
        }
    }
}

impl Question {
    /// A new open thread with no messages and a fresh `question-` identifier.
    pub fn new(
        path: String,
        anchor: Option<Anchor>,
        prompt: String,
        why: Option<String>,
        related_note_ids: Vec<String>,
    ) -> (r: Self)
        ensures
            has_id_with_prefix(r@.id, "question-"@),
            r@.path == path@,
            r@.anchor == anchor,
            r@.prompt == prompt@,
            r@.why == why.deep_view(),
            r@.related_note_ids == related_note_ids.deep_view(),
            r@.conversation.len() == 0,
            r@.status == QuestionStatus::Open,
            r@.created_at == r@.updated_at,
    {
        let now = now_nanos();
        let id = fresh_id("question-");
        let r = Question {
            id,
            path,
            anchor,
            prompt,
            why,
            related_note_ids,
            conversation: Vec::new(),
            status: QuestionStatus::Open,
            created_at: now,
            updated_at: now,
        };
        assert(r@.conversation =~= Seq::empty());
        r
    }

    /// Appends a message by `role` and stamps the thread as updated.
    pub fn add_message(&mut self, role: QuestionMessageRole, body: String)
        ensures
            final(self)@.conversation.len() == old(self)@.conversation.len() + 1,
            final(self)@.conversation.drop_last() == old(self)@.conversation,
            final(self)@.conversation.last().role == role,
            final(self)@.conversation.last().body == body@,
            has_id_with_prefix(final(self)@.conversation.last().id, "question-message-"@),
            final(self)@ == (QuestionView {
                conversation: final(self)@.conversation,
                updated_at: final(self)@.updated_at,
                ..old(self)@
            }),
    {
        let m = QuestionMessage::new(role, body);
        let ghost before = self.conversation@;
        self.conversation.push(m);
        self.updated_at = now_nanos();
        assert(messages_view(self.conversation@).drop_last() =~= messages_view(before));
    }

    /// The number of turns: the prompt plus every message.
    pub fn turn_count(&self) -> (r: usize)
        requires
            self.conversation@.len() < usize::MAX,
        ensures
            r == 1 + self@.conversation.len(),
    {
        1 + self.conversation.len()
    }

    /// The turns in order: the prompt, then each message as a user follow-up
    /// or an agent reply.
    pub fn turns(&self) -> (r: Vec<QuestionTurnRef<'_>>)
        ensures
            r@.len() == 1 + self@.conversation.len(),
            r@[0].kind == QuestionTurnKind::Prompt,
            r@[0].body@ == self@.prompt,
            forall|i: int|
                0 <= i < self@.conversation.len() ==> (#[trigger] r@[i + 1]).kind == turn_kind_of(
                    self@.conversation[i].role,
                ) && r@[i + 1].body@ == self@.conversation[i].body,
    {
        let mut r: Vec<QuestionTurnRef<'_>> = Vec::new();
        r.push(QuestionTurnRef { kind: QuestionTurnKind::Prompt, body: self.prompt.as_str() });
        let mut i: usize = 0;
        while i < self.conversation.len()
            invariant
                i <= self.conversation@.len(),
                r@.len() == 1 + i,
                r@[0].kind == QuestionTurnKind::Prompt,
                r@[0].body@ == self@.prompt,
                forall|k: int|
                    0 <= k < i ==> (#[trigger] r@[k + 1]).kind == turn_kind_of(
                        self@.conversation[k].role,
                    ) && r@[k + 1].body@ == self@.conversation[k].body,
            decreases self.conversation.len() - i,
        {
            let message = &self.conversation[i];
            let kind = match message.role {
                QuestionMessageRole::User => QuestionTurnKind::UserFollowUp,
                QuestionMessageRole::Agent => QuestionTurnKind::AgentReply,
            };
            r.push(QuestionTurnRef { kind, body: message.body.as_str() });
            i = i + 1;
        }
        r
    }

    pub fn needs_agent_reply(&self) -> (r: bool)
        ensures
            r == needs_reply(self@),
    {
        if self.status != QuestionStatus::Open {
            return false;
        }
        let n = self.conversation.len();
        if n == 0 {
            true
        } else {
            self.conversation[n - 1].role == QuestionMessageRole::User
        }
    }
}

impl QuestionMessage {
    /// A new message with a fresh `question-message-` identifier.
    pub fn new(role: QuestionMessageRole, body: String) -> (r: Self)
        ensures
            r@.role == role,
            r@.body == body@,
            has_id_with_prefix(r@.id, "question-message-"@),
            r@.created_at == r@.updated_at,
    {
        let now = now_nanos();
        let id = fresh_id("question-message-");
        QuestionMessage { id, role, body, created_at: now, updated_at: now }
    }
}

impl Anchor {
    pub fn new(start_line: usize, end_line: Option<usize>) -> (r: Self)
        ensures
            r == (Anchor { start_line, end_line }),
    {
        Anchor { start_line, end_line }
    }

    /// `start` or `start-end`; see `anchor_text`.
    pub fn display(self) -> (r: String)
        ensures
            r@ == anchor_text(self),
    {
        let mut out = String::new();
        push_decimal(&mut out, self.start_line);
        match self.end_line {
            Some(end) => {
                if end != self.start_line {
                    push_char(&mut out, '-');
                    push_decimal(&mut out, end);
                }
            },
            None => {},
        }
        assert(out@ =~= anchor_text(self));
        out
    }
}

impl QuestionMessageRole {
    pub fn label(self) -> (r: &'static str)
        ensures
            r@ == role_label(self),
    {
        match self {
            QuestionMessageRole::User => "Follow-up",
            QuestionMessageRole::Agent => "Agent Reply",
        }
    }
}

} // verus!
