//! The follow-up prompt handed back to an agent: the open threads that wait
//! for a reply, each with its whole conversation.

use vstd::prelude::*;

use crate::diff::{working_tree_id, CommitInfo, DiffSelection};
use crate::model::{
    anchor_text, awaiting_reply, Anchor, MessageView, Packet, PacketView, Question,
    QuestionTurnKind, QuestionView, turn_kind_of,
};
use crate::text::{decimal, push_decimal, push_str, replace_all, replace_char, str_eq};

verus! {

/// What a review export covers: the selection, the revisions shown, the
/// changed paths, and the ids of the threads visible in the diff.
#[derive(Debug, Clone)]
pub struct ReviewExportContext {
    pub selection: DiffSelection,
    pub review_entries: Vec<CommitInfo>,
    pub changed_paths: Vec<String>,
    pub visible_question_ids: Vec<String>,
}

/// Why nothing was exported.
#[derive(Debug, Clone, Copy, PartialEq, Eq, Structural)]
pub enum ExportError {
    /// No thread of the packet waits for an agent reply.
    NoOpenQuestions,
    /// No thread visible in the current diff waits for an agent reply.
    NoOpenReviewComments,
}

pub open spec fn export_error_text(e: ExportError) -> Seq<char> {
    match e {
        ExportError::NoOpenQuestions => "packet has no open questions waiting for an agent reply"@,
        ExportError::NoOpenReviewComments =>
            "the current diff review has no open comment threads waiting for an agent reply"@,
    }
}

impl ExportError {
    pub fn message(self) -> (r: &'static str)
        ensures
            r@ == export_error_text(self),
    {
        match self {
            ExportError::NoOpenQuestions => "packet has no open questions waiting for an agent reply",
            ExportError::NoOpenReviewComments =>
                "the current diff review has no open comment threads waiting for an agent reply",
        }
    }
}

// ---------------------------------------------------------------------------
// The text, specified.
// ---------------------------------------------------------------------------

pub open spec fn header_text(
    heading: Seq<char>,
    intro: Seq<char>,
    p: PacketView,
    packet_path: Seq<char>,
) -> Seq<char> {
    heading + "\n\n"@ + intro + "\n\n"@ + "Packet: "@ + p.title + "\n"@ + "Canonical packet path: "@
        + packet_path + "\n"@ + "Project root: "@ + p.workspace_root + "\n\n"@
}

pub open spec fn bullet_items(items: Seq<Seq<char>>) -> Seq<char>
    decreases items.len(),
{
    if items.len() == 0 {
        Seq::empty()
    } else {
        bullet_items(items.drop_last()) + "- "@ + items.last() + "\n"@
    }
}

/// A titled list, one `- item` per line, `- none` when empty.
pub open spec fn path_section_text(title: Seq<char>, items: Seq<Seq<char>>) -> Seq<char> {
    title + ":\n"@ + (if items.len() == 0 {
        "- none\n"@
    } else {
        bullet_items(items)
    }) + "\n"@
}

/// Who speaks in a turn, as the export names it.
pub open spec fn turn_label(kind: QuestionTurnKind) -> Seq<char> {
    match kind {
        QuestionTurnKind::Prompt => "user"@,
        QuestionTurnKind::UserFollowUp => "user"@,
        QuestionTurnKind::AgentReply => "agent"@,
    }
}

/// One turn; continuation lines of the body are indented under it.
pub open spec fn turn_line(label: Seq<char>, body: Seq<char>) -> Seq<char> {
    "   - "@ + label + ": "@ + replace_char(body, '\n', "\n     "@) + "\n"@
}

pub open spec fn message_lines(ms: Seq<MessageView>) -> Seq<char>
    decreases ms.len(),
{
    if ms.len() == 0 {
        Seq::empty()
    } else {
        message_lines(ms.drop_last()) + turn_line(
            turn_label(turn_kind_of(ms.last().role)),
            ms.last().body,
        )
    }
}

/// The whole conversation, opening prompt first.
pub open spec fn thread_text(q: QuestionView) -> Seq<char> {
    "   Thread:\n"@ + turn_line(turn_label(QuestionTurnKind::Prompt), q.prompt) + message_lines(
        q.conversation,
    )
}

pub open spec fn anchor_suffix(a: Option<Anchor>) -> Seq<char> {
    match a {
        Some(a) => ":"@ + anchor_text(a),
        None => Seq::empty(),
    }
}

/// The first line of a numbered thread: its id, location and turn count.
pub open spec fn question_head(index: nat, q: QuestionView) -> Seq<char> {
    let turns = 1 + q.conversation.len();
    decimal(index) + ". id="@ + q.id + " ["@ + q.path + anchor_suffix(q.anchor) + "] "@ + decimal(
        turns as nat,
    ) + " turn"@ + (if turns == 1 {
        Seq::empty()
    } else {
        "s"@
    }) + "\n"@
}

/// Where a thread sits, written as in a compiler message: the path, and for
/// an anchored thread a colon and the line it starts on, or `start-end` when
/// it covers a range.
pub open spec fn thread_location(path: Seq<char>, anchor: Option<Anchor>) -> Seq<char> {
    match anchor {
        None => path,
        Some(a) => path + ":"@ + decimal(a.start_line as nat) + match a.end_line {
            Some(end) if end != a.start_line => "-"@ + decimal(end as nat),
            _ => Seq::empty(),
        },
    }
}

/// The head line of an exported thread names the thread and then, in
/// brackets, where it sits: its path, and for an anchored thread the line or
/// range of lines it is about.
pub proof fn lemma_head_shows_location(index: nat, q: QuestionView)
    ensures
        (decimal(index) + ". id="@ + q.id + " ["@ + thread_location(q.path, q.anchor) + "] "@).is_prefix_of(
            question_head(index, q),
        ),
{
    reveal_strlit("-");
    let turns = 1 + q.conversation.len();
    let tail = decimal(turns as nat) + " turn"@ + (if turns == 1 {
        Seq::empty()
    } else {
        "s"@
    }) + "\n"@;
    let loc = thread_location(q.path, q.anchor);
    match q.anchor {
        None => {
            assert(q.path + anchor_suffix(q.anchor) =~= loc);
        },
        Some(a) => {
            match a.end_line {
                Some(end) => {
                    if end != a.start_line {
                        assert(anchor_text(a) =~= decimal(a.start_line as nat) + "-"@ + decimal(end as nat));
                    }
                },
                None => {},
            }
            assert(q.path + anchor_suffix(q.anchor) =~= loc);
        },
    }
    let pre = decimal(index) + ". id="@ + q.id + " ["@ + loc + "] "@;
    assert(question_head(index, q) =~= pre + tail);
    assert((pre + tail).subrange(0, pre.len() as int) =~= pre);
}

pub open spec fn why_line(q: QuestionView, include_why: bool) -> Seq<char> {
    if include_why && q.why is Some {
        "   Why unclear: "@ + q.why->0 + "\n"@
    } else {
        Seq::empty()
    }
}

/// One numbered thread: its head line, optionally why it was unclear, then
/// the conversation.
pub open spec fn question_text(index: nat, q: QuestionView, include_why: bool) -> Seq<char> {
    question_head(index, q) + why_line(q, include_why) + thread_text(q)
}

pub open spec fn question_blocks(qs: Seq<QuestionView>, include_why: bool) -> Seq<char>
    decreases qs.len(),
{
    if qs.len() == 0 {
        Seq::empty()
    } else {
        question_blocks(qs.drop_last(), include_why) + question_text(
            qs.len(),
            qs.last(),
            include_why,
        )
    }
}

pub open spec fn questions_section_text(
    title: Seq<char>,
    qs: Seq<QuestionView>,
    include_why: bool,
) -> Seq<char> {
    title + ":\n"@ + question_blocks(qs, include_why) + "\n"@
}

pub open spec fn file_paths(p: PacketView) -> Seq<Seq<char>> {
    p.files.map_values(|f: crate::model::TrackedFileView| f.path)
}

/// The follow-up export of a packet with threads waiting for a reply.
pub open spec fn question_export_text(p: PacketView, packet_path: Seq<char>) -> Seq<char> {
    header_text(
        "# Copanion Follow-up"@,
        "Please answer the open question threads below."@,
        p,
        packet_path,
    ) + path_section_text("Files in focus"@, file_paths(p)) + questions_section_text(
        "Questions"@,
        awaiting_reply(p.questions),
        true,
    )
}

pub open spec fn scope_label(s: DiffSelection) -> Seq<char> {
    match s {
        DiffSelection::WorkingTree => "working tree"@,
        DiffSelection::CommitRange(_) => "selected commits"@,
        DiffSelection::WorkingTreeAndCommits(_) => "working tree plus selected commits"@,
    }
}

pub open spec fn entry_label(c: CommitInfo) -> Seq<char> {
    if c.id@ == working_tree_id() {
        "Uncommitted changes"@
    } else {
        c.short_id@ + " "@ + c.summary@
    }
}

/// The threads waiting for a reply whose ids are visible in the review.
pub open spec fn visible_awaiting(qs: Seq<QuestionView>, ids: Seq<Seq<char>>) -> Seq<QuestionView> {
    awaiting_reply(qs).filter(|q: QuestionView| ids.contains(q.id))
}

/// The export of a diff review with visible threads waiting for a reply: the
/// scope's label, the labels of the revisions reviewed, the changed files, and
/// the visible threads' ids.
pub open spec fn review_export_text(
    p: PacketView,
    packet_path: Seq<char>,
    scope: Seq<char>,
    revisions: Seq<Seq<char>>,
    changed: Seq<Seq<char>>,
    ids: Seq<Seq<char>>,
) -> Seq<char> {
    header_text(
        "# Copanion Diff Review"@,
        "Please answer the review comments below. Any review notes are listed separately."@,
        p,
        packet_path,
    ) + "Review scope: "@ + scope + "\n\n"@ + path_section_text("Selected revisions"@, revisions)
        + path_section_text("Files under review"@, changed) + questions_section_text(
        "Review comments"@,
        visible_awaiting(p.questions, ids),
        false,
    )
}

/// The review export of `review`.
pub open spec fn review_text_of(p: PacketView, packet_path: Seq<char>, review: ReviewExportContext) -> Seq<char> {
    review_export_text(
        p,
        packet_path,
        scope_label(review.selection),
        review.review_entries@.map_values(|c: CommitInfo| entry_label(c)),
        review.changed_paths.deep_view(),
        review.visible_question_ids.deep_view(),
    )
}

pub open spec fn turns_fit(p: PacketView) -> bool {
    forall|i: int| 0 <= i < p.questions.len() ==> (#[trigger] p.questions[i]).conversation.len()
        < usize::MAX
}

// ---------------------------------------------------------------------------
// Writers.
// ---------------------------------------------------------------------------

pub fn format_anchor(anchor: Option<Anchor>) -> (r: String)
    ensures
        r@ == anchor_suffix(anchor),
{
    match anchor {
        Some(a) => {
            let mut s = ":".to_string();
            let d = a.display();
            push_str(&mut s, d.as_str());
            proof {
                reveal_strlit(":");
            }
            s
        },
        None => String::new(),
    }
}

pub fn thread_turn_label(kind: QuestionTurnKind) -> (r: &'static str)
    ensures
        r@ == turn_label(kind),
{
    match kind {
        QuestionTurnKind::Prompt => "user",
        QuestionTurnKind::UserFollowUp => "user",
        QuestionTurnKind::AgentReply => "agent",
    }
}

pub fn review_scope_label(selection: &DiffSelection) -> (r: &'static str)
    ensures
        r@ == scope_label(*selection),
{
    match selection {
        DiffSelection::WorkingTree => "working tree",
        DiffSelection::CommitRange(_) => "selected commits",
        DiffSelection::WorkingTreeAndCommits(_) => "working tree plus selected commits",
    }
}

pub fn review_entry_label(entry: &CommitInfo) -> (r: String)
    ensures
        r@ == entry_label(*entry),
{
    if entry.is_working_tree() {
        "Uncommitted changes".to_string()
    } else {
        let mut s = entry.short_id.clone();
        push_str(&mut s, " ");
        push_str(&mut s, entry.summary.as_str());
        s
    }
}

fn write_header(out: &mut String, heading: &str, intro: &str, packet: &Packet, packet_path: &str)
    ensures
        final(out)@ == old(out)@ + header_text(heading@, intro@, packet@, packet_path@),
{
    let ghost start = out@;
    push_str(out, heading);
    push_str(out, "\n\n");
    push_str(out, intro);
    push_str(out, "\n\n");
    push_str(out, "Packet: ");
    push_str(out, packet.title.as_str());
    push_str(out, "\n");
    push_str(out, "Canonical packet path: ");
    push_str(out, packet_path);
    push_str(out, "\n");
    push_str(out, "Project root: ");
    push_str(out, packet.workspace_root.as_str());
    push_str(out, "\n\n");
    assert(out@ =~= start + header_text(heading@, intro@, packet@, packet_path@));
}

pub fn write_path_section(out: &mut String, title: &str, items: &Vec<String>)
    ensures
        final(out)@ == old(out)@ + path_section_text(title@, items.deep_view()),
{
    let ghost start = out@;
    let ghost iv = items.deep_view();
    push_str(out, title);
    push_str(out, ":\n");
    let ghost mid = out@;
    let mut i: usize = 0;
    while i < items.len()
        invariant
            i <= items@.len(),
            iv == items.deep_view(),
            out@ == mid + bullet_items(iv.take(i as int)),
        decreases items.len() - i,
    {
        assert(iv.take(i + 1).drop_last() =~= iv.take(i as int));
        assert(iv[i as int] == items@[i as int]@);
        push_str(out, "- ");
        push_str(out, items[i].as_str());
        push_str(out, "\n");
        assert(out@ =~= mid + bullet_items(iv.take(i + 1)));
        i = i + 1;
    }
    assert(iv.take(iv.len() as int) =~= iv);
    if items.len() == 0 {
        push_str(out, "- none\n");
    }
    push_str(out, "\n");
    assert(out@ =~= start + path_section_text(title@, iv));
}

fn write_thread(out: &mut String, question: &Question)
    ensures
        final(out)@ == old(out)@ + thread_text(question@),
{
    let ghost start = out@;
    let ghost q = question@;
    push_str(out, "   Thread:\n");
    let turns = question.turns();
    let mut i: usize = 0;
    while i < turns.len()
        invariant
            i <= turns@.len() == 1 + q.conversation.len(),
            q == question@,
            turns@[0].kind == QuestionTurnKind::Prompt,
            turns@[0].body@ == q.prompt,
            forall|k: int|
                0 <= k < q.conversation.len() ==> (#[trigger] turns@[k + 1]).kind == turn_kind_of(
                    q.conversation[k].role,
                ) && turns@[k + 1].body@ == q.conversation[k].body,
            i == 0 ==> out@ == start + "   Thread:\n"@,
            i > 0 ==> out@ == start + "   Thread:\n"@ + turn_line(turn_label(QuestionTurnKind::Prompt), q.prompt)
                + message_lines(q.conversation.take(i - 1)),
        decreases turns.len() - i,
    {
        let turn = turns[i];
        let ghost before = out@;
        push_str(out, "   - ");
        push_str(out, thread_turn_label(turn.kind));
        push_str(out, ": ");
        let body = replace_all(turn.body, '\n', "\n     ");
        push_str(out, body.as_str());
        push_str(out, "\n");
        proof {
            assert(out@ =~= before + turn_line(turn_label(turn.kind), turn.body@));
            if i == 0 {
                assert(q.conversation.take(0) =~= Seq::<MessageView>::empty());
                assert(out@ =~= start + "   Thread:\n"@ + turn_line(turn_label(QuestionTurnKind::Prompt), q.prompt)
                    + message_lines(q.conversation.take(0)));
            } else {
                let k = i - 1;
                assert(turns@[k + 1] == turn);
                assert(q.conversation.take(k + 1).drop_last() =~= q.conversation.take(k as int));
                assert(q.conversation.take(k + 1).last() == q.conversation[k as int]);
                assert(out@ =~= start + "   Thread:\n"@ + turn_line(turn_label(QuestionTurnKind::Prompt), q.prompt)
                    + message_lines(q.conversation.take(k + 1)));
            }
        }
        i = i + 1;
    }
    assert(q.conversation.take(q.conversation.len() as int) =~= q.conversation);
}

fn write_question(out: &mut String, index: usize, question: &Question, include_why: bool)
    requires
        question@.conversation.len() < usize::MAX,
    ensures
        final(out)@ == old(out)@ + question_text(index as nat, question@, include_why),
{
    let ghost start = out@;
    let ghost q = question@;
    push_decimal(out, index);
    push_str(out, ". id=");
    push_str(out, question.id.as_str());
    push_str(out, " [");
    push_str(out, question.path.as_str());
    let anchor = format_anchor(question.anchor);
    push_str(out, anchor.as_str());
    push_str(out, "] ");
    let turns = question.turn_count();
    push_decimal(out, turns);
    push_str(out, " turn");
    if turns != 1 {
        push_str(out, "s");
    }
    push_str(out, "\n");
    assert(out@ =~= start + question_head(index as nat, q));
    let ghost before_why = out@;
    if include_why {
        if let Some(why) = &question.why {
            push_str(out, "   Why unclear: ");
            push_str(out, why.as_str());
            push_str(out, "\n");
        }
    }
    assert(out@ =~= before_why + why_line(q, include_why));
    let ghost before_thread = out@;
    write_thread(out, question);
    assert(out@ =~= start + question_text(index as nat, q, include_why));
}

fn write_questions_section(
    out: &mut String,
    title: &str,
    questions: &Vec<&Question>,
    include_why: bool,
)
    requires
        forall|i: int| 0 <= i < questions@.len() ==> (#[trigger] questions@[i])@.conversation.len()
            < usize::MAX,
    ensures
        final(out)@ == old(out)@ + questions_section_text(
            title@,
            questions@.map_values(|q: &Question| q@),
            include_why,
        ),
{
    let ghost start = out@;
    let ghost qs = questions@.map_values(|q: &Question| q@);
    push_str(out, title);
    push_str(out, ":\n");
    let ghost mid = out@;
    let mut i: usize = 0;
    while i < questions.len()
        invariant
            i <= questions@.len(),
            qs == questions@.map_values(|q: &Question| q@),
            forall|i: int| 0 <= i < questions@.len() ==> (#[trigger] questions@[i])@.conversation.len()
                < usize::MAX,
            out@ == mid + question_blocks(qs.take(i as int), include_why),
        decreases questions.len() - i,
    {
        assert(qs.take(i + 1).drop_last() =~= qs.take(i as int));
        assert(qs.take(i + 1).last() == questions@[i as int]@);
        write_question(out, i + 1, questions[i], include_why);
        assert(out@ =~= mid + question_blocks(qs.take(i + 1), include_why));
        i = i + 1;
    }
    assert(qs.take(qs.len() as int) =~= qs);
    push_str(out, "\n");
    assert(out@ =~= start + questions_section_text(title@, qs, include_why));
}

proof fn lemma_filter_keeps_fit(p: PacketView, qs: Seq<QuestionView>, pred: spec_fn(QuestionView) -> bool)
    requires
        turns_fit(p),
        qs == p.questions.filter(pred),
    ensures
        forall|i: int| 0 <= i < qs.len() ==> (#[trigger] qs[i]).conversation.len() < usize::MAX,
{
    assert forall|i: int| 0 <= i < qs.len() implies (#[trigger] qs[i]).conversation.len() < usize::MAX by {
        p.questions.lemma_filter_contains_rev(pred, qs[i]);
        assert(qs.contains(qs[i]));
        p.questions.lemma_filter_pred(pred, i);
        let j = choose|j: int| 0 <= j < p.questions.len() && p.questions[j] == qs[i];
        assert(p.questions[j].conversation.len() < usize::MAX);
    }
}

/// The follow-up export: every thread waiting for an agent reply, with the
/// tracked files; refused when no thread waits.
pub fn generate_question_export(packet: &Packet, packet_path: &str) -> (r: Result<String, ExportError>)
    requires
        turns_fit(packet@),
    ensures
        awaiting_reply(packet@.questions).len() == 0 ==> r == Err::<String, ExportError>(
            ExportError::NoOpenQuestions,
        ),
        awaiting_reply(packet@.questions).len() > 0 ==> (r matches Ok(s) && s@ == question_export_text(
            packet@,
            packet_path@,
        )),
{
    let open_questions = packet.questions_requiring_reply();
    if open_questions.len() == 0 {
        return Err(ExportError::NoOpenQuestions);
    }
    let mut output = String::new();
    write_header(
        &mut output,
        "# Copanion Follow-up",
        "Please answer the open question threads below.",
        packet,
        packet_path,
    );
    let mut paths: Vec<String> = Vec::new();
    let mut i: usize = 0;
    while i < packet.files.len()
        invariant
            i <= packet.files@.len(),
            paths.deep_view() == file_paths(packet@).take(i as int),
        decreases packet.files.len() - i,
    {
        let ghost before = paths.deep_view();
        paths.push(packet.files[i].path.clone());
        assert(paths.deep_view() =~= before.push(packet.files@[i as int].path@));
        assert(file_paths(packet@).take(i + 1) =~= file_paths(packet@).take(i as int).push(
            packet.files@[i as int].path@,
        ));
        i = i + 1;
    }
    assert(file_paths(packet@).take(packet.files@.len() as int) =~= file_paths(packet@));
    write_path_section(&mut output, "Files in focus", &paths);
    proof {
        lemma_filter_keeps_fit(
            packet@,
            awaiting_reply(packet@.questions),
            |q: QuestionView| crate::model::needs_reply(q),
        );
        assert forall|i: int| 0 <= i < open_questions@.len() implies (#[trigger] open_questions@[i])@.conversation.len()
            < usize::MAX by {
            assert(open_questions@.map_values(|q: &Question| q@)[i] == open_questions@[i]@);
        }
    }
    write_questions_section(&mut output, "Questions", &open_questions, true);
    Ok(output)
}

pub fn contains_id(ids: &Vec<String>, id: &str) -> (r: bool)
    ensures
        r == ids.deep_view().contains(id@),
{
    let ghost v = ids.deep_view();
    let mut i: usize = 0;
    while i < ids.len()
        invariant
            i <= ids@.len(),
            v == ids.deep_view(),
            forall|k: int| 0 <= k < i ==> v[k] != id@,
        decreases ids.len() - i,
    {
        if str_eq(ids[i].as_str(), id) {
            assert(v[i as int] == id@);
            return true;
        }
        i = i + 1;
    }
    false
}

/// The review export: the threads visible in the diff that wait for an agent
/// reply, with the review's scope, revisions and files; refused when none
/// waits.
pub fn generate_review_question_export(
    packet: &Packet,
    packet_path: &str,
    review: &ReviewExportContext,
) -> (r: Result<String, ExportError>)
    requires
        turns_fit(packet@),
    ensures
        visible_awaiting(packet@.questions, review.visible_question_ids.deep_view()).len() == 0
            ==> r == Err::<String, ExportError>(ExportError::NoOpenReviewComments),
        visible_awaiting(packet@.questions, review.visible_question_ids.deep_view()).len() > 0
            ==> (r matches Ok(s) && s@ == review_text_of(packet@, packet_path@, *review)),
{
    let ghost ids = review.visible_question_ids.deep_view();
    let ghost pred = |q: QuestionView| ids.contains(q.id);
    let waiting = packet.questions_requiring_reply();
    let ghost wv = waiting@.map_values(|q: &Question| q@);
    let mut open_questions: Vec<&Question> = Vec::new();
    let mut i: usize = 0;
    while i < waiting.len()
        invariant
            i <= waiting@.len(),
            wv == waiting@.map_values(|q: &Question| q@),
            ids == review.visible_question_ids.deep_view(),
            pred == (|q: QuestionView| ids.contains(q.id)),
            open_questions@.map_values(|q: &Question| q@) == wv.take(i as int).filter(pred),
            forall|k: int| 0 <= k < open_questions@.len() ==> exists|j: int| 0 <= j < waiting@.len() && #[trigger] open_questions@[k] == waiting@[j],
        decreases waiting.len() - i,
    {
        proof {
            assert(wv.take(i + 1) =~= wv.take(i as int).push(wv[i as int]));
            wv.take(i as int).lemma_filter_push(wv[i as int], pred);
        }
        let q = waiting[i];
        if contains_id(&review.visible_question_ids, q.id.as_str()) {
            let ghost before = open_questions@;
            open_questions.push(q);
            proof {
                assert forall|k: int| 0 <= k < open_questions@.len() implies exists|j: int| 0 <= j < waiting@.len() && #[trigger] open_questions@[k] == waiting@[j] by {
                    if k == before.len() {
                        assert(open_questions@[k] == waiting@[i as int]);
                    } else {
                        assert(open_questions@[k] == before[k]);
                    }
                }
            }
        }
        assert(open_questions@.map_values(|q: &Question| q@) =~= wv.take(i + 1).filter(pred));
        i = i + 1;
    }
    assert(wv.take(wv.len() as int) =~= wv);
    if open_questions.len() == 0 {
        return Err(ExportError::NoOpenReviewComments);
    }
    let mut output = String::new();
    write_header(
        &mut output,
        "# Copanion Diff Review",
        "Please answer the review comments below. Any review notes are listed separately.",
        packet,
        packet_path,
    );
    push_str(&mut output, "Review scope: ");
    push_str(&mut output, review_scope_label(&review.selection));
    push_str(&mut output, "\n\n");
    let mut labels: Vec<String> = Vec::new();
    let mut k: usize = 0;
    while k < review.review_entries.len()
        invariant
            k <= review.review_entries@.len(),
            labels.deep_view() == review.review_entries@.map_values(|c: CommitInfo| entry_label(c)).take(
                k as int,
            ),
        decreases review.review_entries.len() - k,
    {
        let ghost before = labels.deep_view();
        let l = review_entry_label(&review.review_entries[k]);
        let ghost lv = l@;
        labels.push(l);
        assert(labels.deep_view() =~= before.push(lv));
        assert(review.review_entries@.map_values(|c: CommitInfo| entry_label(c)).take(k + 1)
            =~= review.review_entries@.map_values(|c: CommitInfo| entry_label(c)).take(k as int).push(lv));
        k = k + 1;
    }
    assert(review.review_entries@.map_values(|c: CommitInfo| entry_label(c)).take(
        review.review_entries@.len() as int,
    ) =~= review.review_entries@.map_values(|c: CommitInfo| entry_label(c)));
    write_path_section(&mut output, "Selected revisions", &labels);
    write_path_section(&mut output, "Files under review", &review.changed_paths);
    proof {
        lemma_filter_keeps_fit(
            packet@,
            awaiting_reply(packet@.questions),
            |q: QuestionView| crate::model::needs_reply(q),
        );
        assert forall|i: int| 0 <= i < open_questions@.len() implies (#[trigger] open_questions@[i])@.conversation.len()
            < usize::MAX by {
            let j = choose|j: int| 0 <= j < waiting@.len() && open_questions@[i] == waiting@[j];
            assert(wv[j] == waiting@[j]@);
        }
    }
    write_questions_section(&mut output, "Review comments", &open_questions, false);
    Ok(output)
}

} // verus!
