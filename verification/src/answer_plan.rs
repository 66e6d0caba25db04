//! Writing an agent's response back into the packet: replies to waiting
//! threads and new guidance notes.

use vstd::prelude::*;

use crate::model::{
    has_id_with_prefix, messages_view, needs_reply, Anchor, MessageView, Note, NoteKind,
    NoteSource, NoteView, Packet, PacketView, QuestionMessageRole, QuestionStatus, QuestionView,
};
use crate::storage::{merged_files, normalize_repo_path, normalized_path};
use crate::text::{decimal, push_decimal, push_str, str_eq, trim, trim_string};

verus! {

#[derive(Debug, Default)]
pub struct AgentResponsePlan {
    pub answers: Vec<AgentAnswer>,
    pub notes: Vec<AgentNote>,
}

#[derive(Debug)]
pub struct AgentAnswer {
    pub question_id: String,
    pub answer: String,
}

#[derive(Debug)]
pub struct AgentNote {
    pub path: String,
    pub start_line: usize,
    pub end_line: Option<usize>,
    pub kind: Option<NoteKind>,
    pub title: String,
    pub body: String,
    pub tags: Vec<String>,
    pub author: Option<String>,
}

#[derive(Debug, Default, Clone, Copy, PartialEq, Eq, Structural)]
pub struct ApplySummary {
    pub answered_questions: usize,
    pub added_notes: usize,
}

/// Why a response plan was refused.
#[derive(Debug, Clone, PartialEq, Eq)]
pub enum ApplyError {
    EmptyAnswer { question_id: String },
    UnknownQuestion { question_id: String },
    ArchivedQuestion { question_id: String },
    NotWaiting { question_id: String },
    ZeroStartLine,
    InvertedRange { start_line: usize, end_line: usize },
}

/// The refusals, with identifiers as text.
pub enum Refusal {
    EmptyAnswer(Seq<char>),
    UnknownQuestion(Seq<char>),
    ArchivedQuestion(Seq<char>),
    NotWaiting(Seq<char>),
    ZeroStartLine,
    InvertedRange(usize, usize),
}

impl View for ApplyError {
    type V = Refusal;

    open spec fn view(&self) -> Refusal {
        match self {
            ApplyError::EmptyAnswer { question_id } => Refusal::EmptyAnswer(question_id@),
            ApplyError::UnknownQuestion { question_id } => Refusal::UnknownQuestion(question_id@),
            ApplyError::ArchivedQuestion { question_id } => Refusal::ArchivedQuestion(question_id@),
            ApplyError::NotWaiting { question_id } => Refusal::NotWaiting(question_id@),
            ApplyError::ZeroStartLine => Refusal::ZeroStartLine,
            ApplyError::InvertedRange { start_line, end_line } => Refusal::InvertedRange(
                *start_line,
                *end_line,
            ),
        }
    }
}

pub open spec fn refusal_text(r: Refusal) -> Seq<char> {
    match r {
        Refusal::EmptyAnswer(id) => "agent answers must be non-empty (question "@ + id + ")"@,
        Refusal::UnknownQuestion(id) => "unknown question id "@ + id,
        Refusal::ArchivedQuestion(id) => "cannot append an answer to archived question "@ + id,
        Refusal::NotWaiting(id) => "question "@ + id + " is not waiting for an agent reply"@,
        Refusal::ZeroStartLine => "note anchors must start at line 1 or later"@,
        Refusal::InvertedRange(start, end) => "note anchors must not end before they start ("@
            + decimal(start as nat) + "..Some("@ + decimal(end as nat) + "))"@,
    }
}

impl ApplyError {
    pub fn message(&self) -> (r: String)
        ensures
            r@ == refusal_text(self@),
    {
        match self {
            ApplyError::EmptyAnswer { question_id } => {
                let mut s = "agent answers must be non-empty (question ".to_string();
                push_str(&mut s, question_id.as_str());
                push_str(&mut s, ")");
                s
            },
            ApplyError::UnknownQuestion { question_id } => {
                let mut s = "unknown question id ".to_string();
                push_str(&mut s, question_id.as_str());
                s
            },
            ApplyError::ArchivedQuestion { question_id } => {
                let mut s = "cannot append an answer to archived question ".to_string();
                push_str(&mut s, question_id.as_str());
                s
            },
            ApplyError::NotWaiting { question_id } => {
                let mut s = "question ".to_string();
                push_str(&mut s, question_id.as_str());
                push_str(&mut s, " is not waiting for an agent reply");
                s
            },
            ApplyError::ZeroStartLine => "note anchors must start at line 1 or later".to_string(),
            ApplyError::InvertedRange { start_line, end_line } => {
                let mut s = "note anchors must not end before they start (".to_string();
                push_decimal(&mut s, *start_line);
                push_str(&mut s, "..Some(");
                push_decimal(&mut s, *end_line);
                push_str(&mut s, "))");
                s
            },
        }
    }
}

// ---------------------------------------------------------------------------
// What a plan does, specified.
// ---------------------------------------------------------------------------

/// A conversation as who said what, in order.
pub open spec fn said(ms: Seq<MessageView>) -> Seq<(QuestionMessageRole, Seq<char>)> {
    ms.map_values(|m: MessageView| (m.role, m.body))
}

pub open spec fn conversations(qs: Seq<QuestionView>) -> Seq<Seq<(QuestionMessageRole, Seq<char>)>> {
    qs.map_values(|q: QuestionView| said(q.conversation))
}

/// Whether a thread with this status and conversation waits for a reply.
pub open spec fn waiting(status: QuestionStatus, conv: Seq<(QuestionMessageRole, Seq<char>)>) -> bool {
    status == QuestionStatus::Open && (conv.len() == 0 || conv.last().0 == QuestionMessageRole::User)
}

pub open spec fn thread_ids(qs: Seq<QuestionView>) -> Seq<Seq<char>> {
    qs.map_values(|q: QuestionView| q.id)
}

pub open spec fn thread_statuses(qs: Seq<QuestionView>) -> Seq<QuestionStatus> {
    qs.map_values(|q: QuestionView| q.status)
}

/// The index of the first id equal to `id`.
pub open spec fn first_index(ids: Seq<Seq<char>>, id: Seq<char>) -> Option<int>
    decreases ids.len(),
{
    if ids.len() == 0 {
        None
    } else if ids[0] == id {
        Some(0)
    } else {
        match first_index(ids.drop_first(), id) {
            Some(i) => Some(i + 1),
            None => None,
        }
    }
}

pub open spec fn answer_pairs(answers: Seq<AgentAnswer>) -> Seq<(Seq<char>, Seq<char>)> {
    answers.map_values(|a: AgentAnswer| (a.question_id@, a.answer@))
}

/// One answer taken: it is trimmed, must not be blank, and goes to the first
/// thread with its id, which must exist, not be archived, and wait for a reply.
pub open spec fn answer_step(
    ids: Seq<Seq<char>>,
    statuses: Seq<QuestionStatus>,
    convs: Seq<Seq<(QuestionMessageRole, Seq<char>)>>,
    answer: (Seq<char>, Seq<char>),
) -> Result<Seq<Seq<(QuestionMessageRole, Seq<char>)>>, Refusal> {
    let id = answer.0;
    let body = trim(answer.1);
    if body.len() == 0 {
        Err(Refusal::EmptyAnswer(id))
    } else {
        match first_index(ids, id) {
            None => Err(Refusal::UnknownQuestion(id)),
            Some(i) => if statuses[i] == QuestionStatus::Archived {
                Err(Refusal::ArchivedQuestion(id))
            } else if !waiting(statuses[i], convs[i]) {
                Err(Refusal::NotWaiting(id))
            } else {
                Ok(convs.update(i, convs[i].push((QuestionMessageRole::Agent, body))))
            },
        }
    }
}

/// The threads' conversations after the answers, taken in order; or the first
/// refusal.
pub open spec fn answered(
    qs: Seq<QuestionView>,
    answers: Seq<(Seq<char>, Seq<char>)>,
) -> Result<Seq<Seq<(QuestionMessageRole, Seq<char>)>>, Refusal>
    decreases answers.len(),
{
    if answers.len() == 0 {
        Ok(conversations(qs))
    } else {
        match answered(qs, answers.drop_last()) {
            Err(e) => Err(e),
            Ok(convs) => answer_step(thread_ids(qs), thread_statuses(qs), convs, answers.last()),
        }
    }
}

pub struct AgentNoteView {
    pub path: Seq<char>,
    pub start_line: usize,
    pub end_line: Option<usize>,
    pub kind: Option<NoteKind>,
    pub title: Seq<char>,
    pub body: Seq<char>,
    pub tags: Seq<Seq<char>>,
    pub author: Option<Seq<char>>,
}

impl View for AgentNote {
    type V = AgentNoteView;

    open spec fn view(&self) -> AgentNoteView {
        AgentNoteView {
            path: self.path@,
            start_line: self.start_line,
            end_line: self.end_line,
            kind: self.kind,
            title: self.title@,
            body: self.body@,
            tags: self.tags.deep_view(),
            author: self.author.deep_view(),
        }
    }
}

/// Why a proposed note is refused, if it is.
pub open spec fn note_refusal(n: AgentNoteView) -> Option<Refusal> {
    if n.start_line == 0 {
        Some(Refusal::ZeroStartLine)
    } else {
        match n.end_line {
            Some(end) if end < n.start_line => Some(Refusal::InvertedRange(n.start_line, end)),
            _ => None,
        }
    }
}

/// The first refusal among the proposed notes.
pub open spec fn first_note_refusal(ns: Seq<AgentNoteView>) -> Option<Refusal>
    decreases ns.len(),
{
    if ns.len() == 0 {
        None
    } else {
        match first_note_refusal(ns.drop_last()) {
            Some(e) => Some(e),
            None => note_refusal(ns.last()),
        }
    }
}

/// The note recorded for a proposed one: the path normalized against the
/// root, the anchor as given, kind `reference` unless given, written by the
/// agent, with a fresh identifier.
pub open spec fn note_recorded(n: NoteView, a: AgentNoteView, root: Seq<char>) -> bool {
    &&& has_id_with_prefix(n.id, "note-"@)
    &&& n.path == normalized_path(a.path, root)
    &&& n.anchor == (Anchor { start_line: a.start_line, end_line: a.end_line })
    &&& n.kind == match a.kind {
        Some(k) => k,
        None => NoteKind::Reference,
    }
    &&& n.title == a.title
    &&& n.body == a.body
    &&& n.tags == a.tags
    &&& n.author == a.author
    &&& n.source == NoteSource::Agent
}

/// A proposed note that gives no kind is recorded as a reference note; one
/// that gives a kind keeps it.
pub proof fn lemma_recorded_note_kind(n: NoteView, a: AgentNoteView, root: Seq<char>)
    requires
        note_recorded(n, a, root),
    ensures
        a.kind is None ==> n.kind == NoteKind::Reference,
        a.kind matches Some(k) ==> n.kind == k,
        n.kind != NoteKind::Reference ==> a.kind == Some(n.kind),
{
}

pub open spec fn plan_notes(plan: AgentResponsePlan) -> Seq<AgentNoteView> {
    plan.notes@.map_values(|n: AgentNote| n@)
}

/// The refusal a plan meets, if any: the first refused answer, else the first
/// refused note.
pub open spec fn plan_refusal(qs: Seq<QuestionView>, plan: AgentResponsePlan) -> Option<Refusal> {
    match answered(qs, answer_pairs(plan.answers@)) {
        Err(e) => Some(e),
        Ok(_) => first_note_refusal(plan_notes(plan)),
    }
}

/// Everything about the threads but their conversations and update times.
pub open spec fn same_thread(a: QuestionView, b: QuestionView) -> bool {
    &&& a.id == b.id
    &&& a.path == b.path
    &&& a.anchor == b.anchor
    &&& a.prompt == b.prompt
    &&& a.why == b.why
    &&& a.related_note_ids == b.related_note_ids
    &&& a.status == b.status
    &&& a.created_at == b.created_at
}

pub open spec fn same_threads(a: Seq<QuestionView>, b: Seq<QuestionView>) -> bool {
    a.len() == b.len() && forall|i: int| 0 <= i < a.len() ==> same_thread(#[trigger] a[i], b[i])
}

// ---------------------------------------------------------------------------
// Applying a plan.
// ---------------------------------------------------------------------------

pub proof fn lemma_first_index(ids: Seq<Seq<char>>, id: Seq<char>, j: int)
    requires
        0 <= j <= ids.len(),
        forall|k: int| 0 <= k < j ==> ids[k] != id,
        j < ids.len() ==> ids[j] == id,
    ensures
        j < ids.len() ==> first_index(ids, id) == Some(j),
        j == ids.len() ==> first_index(ids, id) is None,
    decreases j,
{
    if ids.len() > 0 && j > 0 {
        lemma_first_index(ids.drop_first(), id, j - 1);
    }
}

proof fn lemma_same_threads(a: Seq<QuestionView>, b: Seq<QuestionView>)
    requires
        same_threads(a, b),
    ensures
        thread_ids(a) == thread_ids(b),
        thread_statuses(a) == thread_statuses(b),
{
    assert forall|i: int| 0 <= i < a.len() implies thread_ids(a)[i] == thread_ids(b)[i] by {
        assert(same_thread(a[i], b[i]));
    }
    assert forall|i: int| 0 <= i < a.len() implies thread_statuses(a)[i] == thread_statuses(b)[i] by {
        assert(same_thread(a[i], b[i]));
    }
    assert(thread_ids(a) =~= thread_ids(b));
    assert(thread_statuses(a) =~= thread_statuses(b));
}

pub open spec fn with_questions(p: PacketView, qs: Seq<QuestionView>) -> PacketView {
    PacketView { questions: qs, ..p }
}

pub open spec fn agent_notes(v: Seq<AgentNote>) -> Seq<AgentNoteView> {
    v.map_values(|n: AgentNote| n@)
}

/// The answers taken before the first refused one, at index `k`: the
/// conversations they leave are `convs`.
pub open spec fn answers_taken_until(
    qs: Seq<QuestionView>,
    pairs: Seq<(Seq<char>, Seq<char>)>,
    k: int,
    convs: Seq<Seq<(QuestionMessageRole, Seq<char>)>>,
) -> bool {
    &&& 0 <= k < pairs.len()
    &&& answered(qs, pairs.take(k)) == Ok::<Seq<Seq<(QuestionMessageRole, Seq<char>)>>, Refusal>(convs)
    &&& answered(qs, pairs.take(k + 1)) is Err
}

/// The notes recorded before the first refused one, at index `k`: `after` is
/// `before` with those notes added and their files tracked, and nothing else
/// changed.
pub open spec fn notes_recorded_until(
    before: PacketView,
    after: PacketView,
    ns: Seq<AgentNoteView>,
    root: Seq<char>,
    k: int,
) -> bool {
    &&& 0 <= k < ns.len()
    &&& first_note_refusal(ns.take(k)) is None
    &&& note_refusal(ns[k]) is Some
    &&& after.files == merged_files(before.files, ns.take(k).map_values(|a: AgentNoteView| normalized_path(a.path, root)))
    &&& after.notes.len() == before.notes.len() + k
    &&& after.notes.take(before.notes.len() as int) == before.notes
    &&& forall|m: int| 0 <= m < k ==> note_recorded(#[trigger] after.notes[before.notes.len() + m], ns[m], root)
    &&& after == (PacketView { files: after.files, notes: after.notes, ..before })
}

/// Takes one answer (see `answer_step`); on a refusal the packet is unchanged.
fn apply_answer(packet: &mut Packet, answer: &AgentAnswer) -> (r: Result<(), ApplyError>)
    ensures
        match answer_step(
            thread_ids(old(packet)@.questions),
            thread_statuses(old(packet)@.questions),
            conversations(old(packet)@.questions),
            (answer.question_id@, answer.answer@),
        ) {
            Err(e) => (r matches Err(err) && err@ == e) && final(packet)@ == old(packet)@,
            Ok(convs) => r is Ok && conversations(final(packet)@.questions) == convs,
        },
        same_threads(final(packet)@.questions, old(packet)@.questions),
        final(packet)@ == (PacketView { questions: final(packet)@.questions, ..old(packet)@ }),
{
    let ghost qs = packet@.questions;
    let ghost convs = conversations(qs);
    let ghost ids = thread_ids(qs);
    proof {
        assert forall|i: int| 0 <= i < qs.len() implies same_thread(#[trigger] qs[i], qs[i]) by {}
    }
    let body = trim_string(answer.answer.as_str());
    if body.as_str().is_empty() {
        return Err(ApplyError::EmptyAnswer { question_id: answer.question_id.clone() });
    }
    let mut j: usize = 0;
    while j < packet.questions.len() && !str_eq(
        packet.questions[j].id.as_str(),
        answer.question_id.as_str(),
    )
        invariant
            j <= packet.questions@.len(),
            qs == packet@.questions,
            ids == thread_ids(qs),
            forall|k: int| 0 <= k < j ==> ids[k] != answer.question_id@,
        decreases packet.questions.len() - j,
    {
        j = j + 1;
    }
    proof {
        lemma_first_index(ids, answer.question_id@, j as int);
    }
    if j == packet.questions.len() {
        return Err(ApplyError::UnknownQuestion { question_id: answer.question_id.clone() });
    }
    assert(said(qs[j as int].conversation) == convs[j as int]);
    if packet.questions[j].status == QuestionStatus::Archived {
        return Err(ApplyError::ArchivedQuestion { question_id: answer.question_id.clone() });
    }
    if !packet.questions[j].needs_agent_reply() {
        return Err(ApplyError::NotWaiting { question_id: answer.question_id.clone() });
    }
    let ghost bv = body@;
    packet.questions[j].add_message(QuestionMessageRole::Agent, body);
    proof {
        let nq = packet@.questions;
        assert(nq =~= qs.update(j as int, nq[j as int]));
        assert forall|k: int| 0 <= k < nq.len() implies same_thread(#[trigger] nq[k], qs[k]) by {}
        assert(said(nq[j as int].conversation) =~= said(qs[j as int].conversation).push(
            (QuestionMessageRole::Agent, bv),
        ));
        assert(conversations(nq) =~= convs.update(
            j as int,
            convs[j as int].push((QuestionMessageRole::Agent, bv)),
        ));
    }
    Ok(())
}

/// Takes the answers in order (see `answered`).
fn apply_answers(packet: &mut Packet, answers: &Vec<AgentAnswer>) -> (r: Result<(), ApplyError>)
    ensures
        match answered(old(packet)@.questions, answer_pairs(answers@)) {
            Err(e) => (r matches Err(err) && err@ == e) && exists|k: int|
                #[trigger] answers_taken_until(
                    old(packet)@.questions,
                    answer_pairs(answers@),
                    k,
                    conversations(final(packet)@.questions),
                ),
            Ok(convs) => r is Ok && conversations(final(packet)@.questions) == convs,
        },
        same_threads(final(packet)@.questions, old(packet)@.questions),
        final(packet)@ == (PacketView { questions: final(packet)@.questions, ..old(packet)@ }),
{
    let ghost start = packet@;
    let ghost pairs = answer_pairs(answers@);
    proof {
        assert forall|i: int| 0 <= i < start.questions.len() implies same_thread(
            #[trigger] start.questions[i],
            start.questions[i],
        ) by {}
    }
    let mut i: usize = 0;
    while i < answers.len()
        invariant
            i <= answers@.len(),
            start == old(packet)@,
            pairs == answer_pairs(answers@),
            answered(start.questions, pairs.take(i as int)) == Ok::<
                Seq<Seq<(QuestionMessageRole, Seq<char>)>>,
                Refusal,
            >(conversations(packet@.questions)),
            same_threads(packet@.questions, start.questions),
            packet@ == (PacketView { questions: packet@.questions, ..start }),
        decreases answers.len() - i,
    {
        proof {
            assert(pairs.take(i + 1).drop_last() =~= pairs.take(i as int));
            assert(pairs.take(i + 1).last() == pairs[i as int]);
            lemma_same_threads(packet@.questions, start.questions);
        }
        let ghost mid = packet@;
        match apply_answer(packet, &answers[i]) {
            Err(e) => {
                proof {
                    assert(packet@ == mid);
                    lemma_answered_refusal_stays(start.questions, pairs, i + 1);
                    assert(answers_taken_until(start.questions, pairs, i as int, conversations(packet@.questions)));
                }
                return Err(e);
            },
            Ok(()) => {},
        }
        proof {
            assert forall|k: int| 0 <= k < packet@.questions.len() implies same_thread(
                #[trigger] packet@.questions[k],
                start.questions[k],
            ) by {
                assert(same_thread(packet@.questions[k], mid.questions[k]));
                assert(same_thread(mid.questions[k], start.questions[k]));
            }
        }
        i = i + 1;
    }
    assert(pairs.take(pairs.len() as int) =~= pairs);
    Ok(())
}

/// Records the proposed notes in order (see `note_recorded`), tracking each
/// note's file; the first refused note stops the run.
fn record_notes(packet: &mut Packet, notes: Vec<AgentNote>, repo_root: &str) -> (r: Result<
    usize,
    ApplyError,
>)
    requires
        old(packet)@.notes.len() + notes@.len() <= usize::MAX,
    ensures
        match first_note_refusal(notes@.map_values(|n: AgentNote| n@)) {
            Some(e) => (r matches Err(err) && err@ == e),
            None => r == Ok::<usize, ApplyError>(notes@.len() as usize),
        },
        r is Err ==> exists|k: int|
            #[trigger] notes_recorded_until(old(packet)@, final(packet)@, agent_notes(notes@), repo_root@, k),
        r is Ok ==> {
            &&& final(packet)@.files == merged_files(
                old(packet)@.files,
                notes@.map_values(|n: AgentNote| n@).map_values(
                    |a: AgentNoteView| normalized_path(a.path, repo_root@),
                ),
            )
            &&& final(packet)@.notes.len() == old(packet)@.notes.len() + notes@.len()
            &&& final(packet)@.notes.take(old(packet)@.notes.len() as int) == old(packet)@.notes
            &&& forall|k: int|
                0 <= k < notes@.len() ==> note_recorded(
                    #[trigger] final(packet)@.notes[old(packet)@.notes.len() + k],
                    notes@[k]@,
                    repo_root@,
                )
        },
        final(packet)@.questions == old(packet)@.questions,
        final(packet)@.version == old(packet)@.version,
        final(packet)@.session_id == old(packet)@.session_id,
        final(packet)@.title == old(packet)@.title,
        final(packet)@.workspace_root == old(packet)@.workspace_root,
        final(packet)@.created_at == old(packet)@.created_at,
        final(packet)@.updated_at == old(packet)@.updated_at,
{
    let ghost start = packet@;
    let ghost notes_in = notes@.map_values(|n: AgentNote| n@);
    let ghost targets = notes_in.map_values(|a: AgentNoteView| normalized_path(a.path, repo_root@));
    let mut pending = notes;
    let mut k: usize = 0;
    assert(notes_in.skip(0) =~= notes_in);
    assert(start.notes.take(start.notes.len() as int) =~= start.notes);
    while pending.len() > 0
        invariant
            k + pending@.len() == notes_in.len(),
            start == old(packet)@,
            notes_in == notes@.map_values(|n: AgentNote| n@),
            pending@.map_values(|n: AgentNote| n@) == notes_in.skip(k as int),
            targets == notes_in.map_values(|a: AgentNoteView| normalized_path(a.path, repo_root@)),
            first_note_refusal(notes_in.take(k as int)) is None,
            start.notes.len() + notes_in.len() <= usize::MAX,
            packet@.files == merged_files(start.files, targets.take(k as int)),
            packet@.notes.len() == start.notes.len() + k,
            packet@.notes.take(start.notes.len() as int) == start.notes,
            forall|m: int|
                0 <= m < k ==> note_recorded(
                    #[trigger] packet@.notes[start.notes.len() + m],
                    notes_in[m],
                    repo_root@,
                ),
            packet@ == (PacketView { files: packet@.files, notes: packet@.notes, ..start }),
        decreases pending.len(),
    {
        let ghost old_pending = pending@;
        let note = pending.remove(0);
        proof {
            assert(old_pending.map_values(|n: AgentNote| n@)[0] == notes_in.skip(k as int)[0]);
            assert(note@ == notes_in[k as int]);
            assert(notes_in.take(k + 1).drop_last() =~= notes_in.take(k as int));
            assert(notes_in.take(k + 1).last() == notes_in[k as int]);
            assert(pending@ =~= old_pending.subrange(1, old_pending.len() as int));
            let pv = pending@.map_values(|n: AgentNote| n@);
            let ov = old_pending.map_values(|n: AgentNote| n@);
            let rest = notes_in.skip(k + 1);
            assert forall|j: int| 0 <= j < pv.len() implies #[trigger] pv[j] == rest[j] by {
                assert(pending@[j] == old_pending[j + 1]);
                assert(ov[j + 1] == notes_in.skip(k as int)[j + 1]);
            }
            assert(pv =~= rest);
            assert(pending@.map_values(|n: AgentNote| n@) =~= notes_in.skip(k + 1));
        }
        if note.start_line == 0 {
            proof {
                lemma_first_refusal_prefix(notes_in, k as int);
                assert(targets.take(k as int) =~= notes_in.take(k as int).map_values(
                    |a: AgentNoteView| normalized_path(a.path, repo_root@),
                ));
                assert(notes_in == agent_notes(notes@));
                assert(notes_recorded_until(start, packet@, notes_in, repo_root@, k as int));
            }
            return Err(ApplyError::ZeroStartLine);
        }
        if let Some(end_line) = note.end_line {
            if end_line < note.start_line {
                proof {
                    lemma_first_refusal_prefix(notes_in, k as int);
                    assert(targets.take(k as int) =~= notes_in.take(k as int).map_values(
                        |a: AgentNoteView| normalized_path(a.path, repo_root@),
                    ));
                    assert(notes_in == agent_notes(notes@));
                assert(notes_recorded_until(start, packet@, notes_in, repo_root@, k as int));
                }
                return Err(ApplyError::InvertedRange { start_line: note.start_line, end_line });
            }
        }
        let path = normalize_repo_path(note.path.as_str(), repo_root);
        let file_path = path.clone();
        let _ = packet.ensure_file(file_path);
        let kind = match note.kind {
            Some(k) => k,
            None => NoteKind::Reference,
        };
        let ghost before_notes = packet@.notes;
        let recorded = Note::new(
            path,
            Anchor::new(note.start_line, note.end_line),
            kind,
            note.title,
            note.body,
            note.tags,
            note.author,
            NoteSource::Agent,
        );
        let ghost rv = recorded@;
        packet.notes.push(recorded);
        proof {
            assert(targets.take(k + 1).drop_last() =~= targets.take(k as int));
            assert(targets.take(k + 1).last() == targets[k as int]);
            assert(packet@.notes =~= before_notes.push(rv));
            assert(packet@.notes.take(start.notes.len() as int) =~= start.notes);
            assert forall|m: int| 0 <= m < k + 1 implies note_recorded(
                #[trigger] packet@.notes[start.notes.len() + m],
                notes_in[m],
                repo_root@,
            ) by {
                if m < k {
                    assert(packet@.notes[start.notes.len() + m] == before_notes[start.notes.len()
                        + m]);
                }
            }
        }
        k = k + 1;
    }
    assert(notes_in.take(notes_in.len() as int) =~= notes_in);
    assert(targets.take(targets.len() as int) =~= targets);
    Ok(k)
}

proof fn lemma_first_refusal_prefix(ns: Seq<AgentNoteView>, k: int)
    requires
        0 <= k < ns.len(),
        first_note_refusal(ns.take(k)) is None,
        note_refusal(ns[k]) is Some,
    ensures
        first_note_refusal(ns) == note_refusal(ns[k]),
    decreases ns.len() - k,
{
    if k + 1 == ns.len() {
        assert(ns.drop_last() =~= ns.take(k));
    } else {
        assert(ns.drop_last().take(k) =~= ns.take(k));
        assert(ns.drop_last()[k] == ns[k]);
        lemma_first_refusal_prefix(ns.drop_last(), k);
    }
}

/// Once a prefix of the answers is refused, every longer run is refused the same way.
proof fn lemma_answered_refusal_stays(
    qs: Seq<QuestionView>,
    pairs: Seq<(Seq<char>, Seq<char>)>,
    n: int,
)
    requires
        0 <= n <= pairs.len(),
        answered(qs, pairs.take(n)) is Err,
    ensures
        answered(qs, pairs) == answered(qs, pairs.take(n)),
    decreases pairs.len() - n,
{
    if n == pairs.len() {
        assert(pairs.take(n) =~= pairs);
    } else {
        assert(pairs.drop_last().take(n) =~= pairs.take(n));
        lemma_answered_refusal_stays(qs, pairs.drop_last(), n);
    }
}

/// Applies an agent's response: each answer is appended, trimmed, to the thread
/// it names, then each note is recorded (its file tracked if it was not). The
/// first refused answer or note stops the run with that refusal.
pub fn apply_plan(packet: &mut Packet, repo_root: &str, plan: AgentResponsePlan) -> (r: Result<
    ApplySummary,
    ApplyError,
>)
    requires
        old(packet)@.notes.len() + plan.notes@.len() <= usize::MAX,
    ensures
        match plan_refusal(old(packet)@.questions, plan) {
            Some(e) => (r matches Err(err) && err@ == e),
            None => r is Ok,
        },
        r matches Ok(summary) ==> {
            &&& summary.answered_questions == plan.answers@.len()
            &&& summary.added_notes == plan.notes@.len()
            &&& same_threads(final(packet)@.questions, old(packet)@.questions)
            &&& answered(old(packet)@.questions, answer_pairs(plan.answers@)) == Ok::<
                Seq<Seq<(QuestionMessageRole, Seq<char>)>>,
                Refusal,
            >(conversations(final(packet)@.questions))
            &&& final(packet)@.files == merged_files(
                old(packet)@.files,
                plan_notes(plan).map_values(|a: AgentNoteView| normalized_path(a.path, repo_root@)),
            )
            &&& final(packet)@.notes.len() == old(packet)@.notes.len() + plan.notes@.len()
            &&& final(packet)@.notes.take(old(packet)@.notes.len() as int) == old(packet)@.notes
            &&& forall|k: int|
                0 <= k < plan.notes@.len() ==> note_recorded(
                    #[trigger] final(packet)@.notes[old(packet)@.notes.len() + k],
                    plan_notes(plan)[k],
                    repo_root@,
                )
            &&& final(packet)@.version == old(packet)@.version
            &&& final(packet)@.session_id == old(packet)@.session_id
            &&& final(packet)@.title == old(packet)@.title
            &&& final(packet)@.workspace_root == old(packet)@.workspace_root
            &&& final(packet)@.created_at == old(packet)@.created_at
        },
        r is Err ==> {
            &&& same_threads(final(packet)@.questions, old(packet)@.questions)
            &&& match answered(old(packet)@.questions, answer_pairs(plan.answers@)) {
                Err(_) => {
                    &&& final(packet)@ == (PacketView { questions: final(packet)@.questions, ..old(packet)@ })
                    &&& exists|k: int|
                        #[trigger] answers_taken_until(
                            old(packet)@.questions,
                            answer_pairs(plan.answers@),
                            k,
                            conversations(final(packet)@.questions),
                        )
                },
                Ok(convs) => {
                    &&& conversations(final(packet)@.questions) == convs
                    &&& exists|k: int|
                        #[trigger] notes_recorded_until(
                            with_questions(old(packet)@, final(packet)@.questions),
                            final(packet)@,
                            plan_notes(plan),
                            repo_root@,
                            k,
                        )
                },
            }
        },
{
    let ghost start = packet@;
    let answered_questions = plan.answers.len();
    match apply_answers(packet, &plan.answers) {
        Err(e) => {
            return Err(e);
        },
        Ok(()) => {},
    }
    let ghost mid = packet@;
    let ghost pn = plan_notes(plan);
    proof {
        assert(pn =~= agent_notes(plan.notes@));
        assert(mid == with_questions(start, mid.questions));
    }
    let added_notes = match record_notes(packet, plan.notes, repo_root) {
        Err(e) => {
            proof {
                let k = choose|k: int| notes_recorded_until(mid, packet@, pn, repo_root@, k);
                assert(notes_recorded_until(with_questions(start, packet@.questions), packet@, pn, repo_root@, k));
            }
            return Err(e);
        },
        Ok(n) => n,
    };
    if answered_questions > 0 || added_notes > 0 {
        packet.touch();
    }
    Ok(ApplySummary { answered_questions, added_notes })
}


// ---------------------------------------------------------------------------
// Laws.
// ---------------------------------------------------------------------------

/// Answers only append: when a plan's answers are taken, each thread keeps
/// its conversation as it was (user follow-ups included) and gains only
/// agent replies after it.
pub proof fn lemma_answers_only_append(
    qs: Seq<QuestionView>,
    answers: Seq<(Seq<char>, Seq<char>)>,
    convs: Seq<Seq<(QuestionMessageRole, Seq<char>)>>,
)
    requires
        answered(qs, answers) == Ok::<Seq<Seq<(QuestionMessageRole, Seq<char>)>>, Refusal>(convs),
    ensures
        convs.len() == qs.len(),
        forall|i: int|
            0 <= i < qs.len() ==> #[trigger] convs[i].len() >= said(qs[i].conversation).len() && convs[i].take(
                said(qs[i].conversation).len() as int,
            ) == said(qs[i].conversation),
        forall|i: int, j: int|
            0 <= i < qs.len() && said(qs[i].conversation).len() <= j < convs[i].len() ==> (#[trigger] convs[i][j]).0
                == QuestionMessageRole::Agent,
    decreases answers.len(),
{
    if answers.len() == 0 {
        assert forall|i: int| 0 <= i < qs.len() implies #[trigger] convs[i].len() >= said(qs[i].conversation).len()
            && convs[i].take(said(qs[i].conversation).len() as int) == said(qs[i].conversation) by {
            assert(convs[i] == said(qs[i].conversation));
            assert(convs[i].take(convs[i].len() as int) =~= convs[i]);
        }
    } else {
        let prev = answered(qs, answers.drop_last())->Ok_0;
        lemma_answers_only_append(qs, answers.drop_last(), prev);
        let ids = thread_ids(qs);
        let statuses = thread_statuses(qs);
        let last = answers.last();
        let body = trim(last.1);
        let k = first_index(ids, last.0)->0;
        lemma_first_index_bounds(ids, last.0);
        assert(convs == prev.update(k, prev[k].push((QuestionMessageRole::Agent, body))));
        assert forall|i: int| 0 <= i < qs.len() implies #[trigger] convs[i].len() >= said(qs[i].conversation).len()
            && convs[i].take(said(qs[i].conversation).len() as int) == said(qs[i].conversation) by {
            if i == k {
                assert(prev[i].len() >= said(qs[i].conversation).len());
                assert(convs[i].take(said(qs[i].conversation).len() as int) =~= prev[i].take(said(qs[i].conversation).len() as int));
            }
        }
        assert forall|i: int, j: int|
            0 <= i < qs.len() && said(qs[i].conversation).len() <= j < convs[i].len() implies (#[trigger] convs[i][j]).0
                == QuestionMessageRole::Agent by {
            if i == k && j < prev[i].len() {
                assert(convs[i][j] == prev[i][j]);
            }
        }
    }
}

proof fn lemma_first_index_bounds(ids: Seq<Seq<char>>, id: Seq<char>)
    ensures
        first_index(ids, id) matches Some(i) ==> 0 <= i < ids.len(),
    decreases ids.len(),
{
    if ids.len() > 0 && ids[0] != id {
        lemma_first_index_bounds(ids.drop_first(), id);
    }
}

/// After a plan's answers are taken, each thread an answer names ends with an
/// agent reply.
proof fn lemma_answered_threads_end_with_agent(
    qs: Seq<QuestionView>,
    answers: Seq<(Seq<char>, Seq<char>)>,
    convs: Seq<Seq<(QuestionMessageRole, Seq<char>)>>,
)
    requires
        answered(qs, answers) == Ok::<Seq<Seq<(QuestionMessageRole, Seq<char>)>>, Refusal>(convs),
    ensures
        convs.len() == qs.len(),
        forall|k: int|
            0 <= k < answers.len() ==> (first_index(thread_ids(qs), #[trigger] answers[k].0) matches Some(i)
                && 0 <= i < qs.len() && convs[i].len() > 0 && convs[i].last().0 == QuestionMessageRole::Agent),
    decreases answers.len(),
{
    if answers.len() > 0 {
        let prev = answered(qs, answers.drop_last())->Ok_0;
        lemma_answered_threads_end_with_agent(qs, answers.drop_last(), prev);
        let ids = thread_ids(qs);
        let last = answers.last();
        let k = first_index(ids, last.0)->0;
        lemma_first_index_bounds(ids, last.0);
        assert(convs == prev.update(k, prev[k].push((QuestionMessageRole::Agent, trim(last.1)))));
        assert forall|j: int| 0 <= j < answers.len() implies (first_index(thread_ids(qs), #[trigger] answers[j].0) matches Some(i)
            && 0 <= i < qs.len() && convs[i].len() > 0 && convs[i].last().0 == QuestionMessageRole::Agent) by {
            if j < answers.len() - 1 {
                assert(answers.drop_last()[j] == answers[j]);
                lemma_first_index_bounds(ids, answers[j].0);
            }
        }
    }
}

/// An answered thread leaves the follow-up export: once a plan's answers are
/// taken, every thread an answer names ends with the agent's reply, so it no
/// longer waits for one.
pub proof fn lemma_answered_threads_stop_waiting(
    before: Seq<QuestionView>,
    after: Seq<QuestionView>,
    answers: Seq<(Seq<char>, Seq<char>)>,
)
    requires
        same_threads(after, before),
        answered(before, answers) == Ok::<Seq<Seq<(QuestionMessageRole, Seq<char>)>>, Refusal>(
            conversations(after),
        ),
    ensures
        forall|k: int|
            0 <= k < answers.len() ==> (first_index(thread_ids(after), #[trigger] answers[k].0) matches Some(i)
                && 0 <= i < after.len() && !needs_reply(after[i])),
{
    lemma_same_threads(after, before);
    lemma_answered_threads_end_with_agent(before, answers, conversations(after));
    assert forall|k: int| 0 <= k < answers.len() implies (first_index(thread_ids(after), #[trigger] answers[k].0) matches Some(i)
        && 0 <= i < after.len() && !needs_reply(after[i])) by {
        let i = first_index(thread_ids(before), answers[k].0)->0;
        assert(conversations(after)[i] == said(after[i].conversation));
        assert(said(after[i].conversation).len() == after[i].conversation.len());
        assert(said(after[i].conversation).last().0 == after[i].conversation.last().role);
    }
}

} // verus!
