//! What the review screen shows, as lines of styled text: the source and diff
//! views with their note and thread cards, and the status line. Drawing the
//! lines in the terminal is left to the caller.

use vstd::prelude::*;

use crate::diff::DiffFile;
use crate::model::{NoteKind, NoteSource, QuestionStatus, QuestionTurnKind};
use crate::text::{chars_of, decimal, is_ws, lines, push_char, push_str, split_lines, string_from, trim};
use crate::model::{anchor_text, Note, NoteView, Question, QuestionView};
use crate::text::join;
use crate::theme::{blend, spec_blend, Color, Theme};
use crate::tui::app::{is_diff, App, DraftKind, DraftTarget, FocusPane, InputMode, PromptDraft};

verus! {

// ---------------------------------------------------------------------------
// Display widths.
// ---------------------------------------------------------------------------

/// The display width of a character, `None` for a control character, as
/// `unicode_width::UnicodeWidthChar::width` gives it.
pub uninterp spec fn char_width(c: char) -> Option<usize>;

/// The display width of a text, as `unicode_width::UnicodeWidthStr::width`
/// gives it (which looks at neighbouring characters, so it is not the sum of
/// the characters' widths).
pub uninterp spec fn text_width(s: Seq<char>) -> nat;

/// `unicode_width::UnicodeWidthChar::width`: named `char_width`; the crate's
/// rules give no character a width above 3.
#[verifier::external_body]
pub(crate) fn width_of_char(c: char) -> (r: Option<usize>)
    ensures
        r == char_width(c),
        r matches Some(w) ==> w <= 3,
{
    unicode_width::UnicodeWidthChar::width(c)
}

/// `unicode_width::UnicodeWidthStr::width`: named `text_width`; the empty text
/// is 0 wide.
#[verifier::external_body]
pub(crate) fn width_of_text(s: &str) -> (r: usize)
    ensures
        r == text_width(s@),
        s@.len() == 0 ==> r == 0,
{
    unicode_width::UnicodeWidthStr::width(s)
}

// ---------------------------------------------------------------------------
// Wrapping text to a width.
// ---------------------------------------------------------------------------

/// One character of a word added to the chunks being cut: a chunk is closed
/// when the next character would make it wider than `max_width`.
pub open spec fn chunk_step(state: (Seq<Seq<char>>, Seq<char>), c: char, max_width: nat) -> (Seq<Seq<char>>, Seq<char>) {
    let (done, current) = state;
    let pending = current.push(c);
    if text_width(pending) > max_width && current.len() > 0 {
        (done.push(current), seq![c])
    } else {
        (done, pending)
    }
}

pub open spec fn chunk_fold(word: Seq<char>, max_width: nat) -> (Seq<Seq<char>>, Seq<char>)
    decreases word.len(),
{
    if word.len() == 0 {
        (Seq::empty(), Seq::empty())
    } else {
        chunk_step(chunk_fold(word.drop_last(), max_width), word.last(), max_width)
    }
}

/// A word too wide for a line cut into chunks no wider than `max_width`
/// (a single character wider than that is a chunk of its own).
pub open spec fn chunks_of(word: Seq<char>, max_width: nat) -> Seq<Seq<char>> {
    let (done, current) = chunk_fold(word, max_width);
    if current.len() > 0 {
        done.push(current)
    } else {
        done
    }
}

pub fn hard_wrap_word(word: &str, max_width: usize) -> (r: Vec<String>)
    ensures
        r.deep_view() == chunks_of(word@, max_width as nat),
{
    let cs = chars_of(word);
    let mut done: Vec<String> = Vec::new();
    let mut current = String::new();
    let mut i: usize = 0;
    assert(word@.take(0) =~= Seq::<char>::empty());
    while i < cs.len()
        invariant
            i <= cs@.len(),
            cs@ == word@,
            chunk_fold(word@.take(i as int), max_width as nat) == (done.deep_view(), current@),
        decreases cs.len() - i,
    {
        assert(word@.take(i + 1).drop_last() =~= word@.take(i as int));
        assert(word@.take(i + 1).last() == word@[i as int]);
        let mut pending = current.clone();
        push_char(&mut pending, cs[i]);
        if width_of_text(pending.as_str()) > max_width && !current.as_str().is_empty() {
            let ghost before = done.deep_view();
            let ghost cv = current@;
            done.push(current);
            assert(done.deep_view() =~= before.push(cv));
            current = String::new();
            push_char(&mut current, cs[i]);
            assert(current@ =~= seq![cs@[i as int]]);
        } else {
            current = pending;
        }
        i = i + 1;
    }
    assert(word@.take(i as int) =~= word@);
    if !current.as_str().is_empty() {
        let ghost before = done.deep_view();
        let ghost cv = current@;
        done.push(current);
        assert(done.deep_view() =~= before.push(cv));
    }
    done
}

/// The words of a paragraph: the runs of non-white-space characters.
pub open spec fn words_of(s: Seq<char>) -> Seq<Seq<char>> {
    crate::text::split_by(s, |c: char| is_ws(c)).filter(|w: Seq<char>| w.len() > 0)
}

/// One word added to the lines being filled: it joins the current line when
/// it fits; a too-wide word is cut into chunks on lines of their own.
pub open spec fn wrap_step(state: (Seq<Seq<char>>, Seq<char>), word: Seq<char>, max_width: nat) -> (Seq<Seq<char>>, Seq<char>) {
    let (done, current) = state;
    let pending = if current.len() == 0 { word } else { current + seq![' '] + word };
    if text_width(pending) > max_width && current.len() > 0 {
        (done.push(current), word)
    } else if text_width(word) > max_width {
        let flushed = if current.len() > 0 { done.push(current) } else { done };
        (flushed + chunks_of(word, max_width), Seq::empty())
    } else {
        (done, pending)
    }
}

pub open spec fn wrap_fold(words: Seq<Seq<char>>, max_width: nat) -> (Seq<Seq<char>>, Seq<char>)
    decreases words.len(),
{
    if words.len() == 0 {
        (Seq::empty(), Seq::empty())
    } else {
        wrap_step(wrap_fold(words.drop_last(), max_width), words.last(), max_width)
    }
}

/// The lines one paragraph wraps to: one empty line for a blank paragraph.
pub open spec fn wrap_paragraph(p: Seq<char>, max_width: nat) -> Seq<Seq<char>> {
    if trim(p).len() == 0 {
        seq![Seq::<char>::empty()]
    } else {
        let (done, current) = wrap_fold(words_of(p), max_width);
        if current.len() > 0 {
            done.push(current)
        } else {
            done
        }
    }
}

pub open spec fn wrap_paragraphs(ps: Seq<Seq<char>>, max_width: nat) -> Seq<Seq<char>>
    decreases ps.len(),
{
    if ps.len() == 0 {
        Seq::empty()
    } else {
        wrap_paragraphs(ps.drop_last(), max_width) + wrap_paragraph(ps.last(), max_width)
    }
}

/// A text wrapped to `max_width` columns, paragraph by paragraph, words kept
/// whole where they fit; never no line at all.
pub open spec fn wrapped(text: Seq<char>, max_width: nat) -> Seq<Seq<char>> {
    if max_width == 0 {
        seq![Seq::<char>::empty()]
    } else {
        let all = wrap_paragraphs(lines(text), max_width);
        if all.len() == 0 {
            seq![Seq::<char>::empty()]
        } else {
            all
        }
    }
}

/// The words of `s`, split at white space.
pub fn split_words(s: &str) -> (r: Vec<String>)
    ensures
        r.deep_view() == words_of(s@),
{
    let cs = chars_of(s);
    let ghost sep = |c: char| is_ws(c);
    let ghost nonempty = |w: Seq<char>| w.len() > 0;
    let mut out: Vec<String> = Vec::new();
    let mut current: Vec<char> = Vec::new();
    let mut i: usize = 0;
    proof {
        reveal(Seq::filter);
    }
    assert(s@.take(0) =~= Seq::<char>::empty());
    assert(seq![Seq::<char>::empty()].drop_last() =~= Seq::<Seq<char>>::empty());
    while i < cs.len()
        invariant
            i <= cs@.len(),
            cs@ == s@,
            sep == (|c: char| is_ws(c)),
            nonempty == (|w: Seq<char>| w.len() > 0),
            crate::text::split_by(s@.take(i as int), sep).last() == current@,
            crate::text::split_by(s@.take(i as int), sep).drop_last().filter(nonempty) == out.deep_view(),
            crate::text::split_by(s@.take(i as int), sep).len() >= 1,
        decreases cs.len() - i,
    {
        let ghost f0 = crate::text::split_by(s@.take(i as int), sep);
        assert(s@.take(i + 1).drop_last() =~= s@.take(i as int));
        assert(s@.take(i + 1).last() == s@[i as int]);
        let c = cs[i];
        if crate::text::whitespace(c) {
            let ghost f1 = f0.push(Seq::<char>::empty());
            assert(f1.drop_last() =~= f0);
            assert(f0 =~= f0.drop_last().push(f0.last()));
            proof {
                reveal(Seq::filter);
            }
            if current.len() > 0 {
                let ghost before = out.deep_view();
                let piece = string_from(&current);
                out.push(piece);
                assert(out.deep_view() =~= before.push(current@));
            }
            current = Vec::new();
        } else {
            let ghost f1 = f0.update(f0.len() - 1, f0.last().push(c));
            assert(f1.drop_last() =~= f0.drop_last());
            current.push(c);
        }
        i = i + 1;
    }
    assert(s@.take(i as int) =~= s@);
    let ghost f = crate::text::split_by(s@, sep);
    proof {
        reveal(Seq::filter);
        assert(f =~= f.drop_last().push(f.last()));
    }
    if current.len() > 0 {
        let ghost before = out.deep_view();
        let piece = string_from(&current);
        out.push(piece);
        assert(out.deep_view() =~= before.push(current@));
    }
    out
}

fn append_strings(out: &mut Vec<String>, more: Vec<String>)
    ensures
        final(out).deep_view() == old(out).deep_view() + more.deep_view(),
{
    let ghost start = out.deep_view();
    let mut i: usize = 0;
    while i < more.len()
        invariant
            i <= more@.len(),
            out.deep_view() == start + more.deep_view().take(i as int),
        decreases more.len() - i,
    {
        let ghost before = out.deep_view();
        out.push(more[i].clone());
        assert(out.deep_view() =~= before.push(more.deep_view()[i as int]));
        assert(more.deep_view().take(i + 1) =~= more.deep_view().take(i as int).push(more.deep_view()[i as int]));
        i = i + 1;
    }
    assert(more.deep_view().take(i as int) =~= more.deep_view());
}

/// The text wrapped to `max_width` columns (see `wrapped`).
pub fn wrap_text(text: &str, max_width: usize) -> (r: Vec<String>)
    ensures
        r.deep_view() == wrapped(text@, max_width as nat),
{
    if max_width == 0 {
        let mut v: Vec<String> = Vec::new();
        v.push(String::new());
        assert(v.deep_view() =~= seq![Seq::<char>::empty()]);
        return v;
    }
    let paragraphs = split_lines(text);
    let ghost ps = paragraphs.deep_view();
    let mut out: Vec<String> = Vec::new();
    let mut p: usize = 0;
    assert(ps.take(0) =~= Seq::<Seq<char>>::empty());
    while p < paragraphs.len()
        invariant
            p <= ps.len(),
            ps == paragraphs.deep_view(),
            ps == lines(text@),
            out.deep_view() == wrap_paragraphs(ps.take(p as int), max_width as nat),
        decreases paragraphs.len() - p,
    {
        assert(ps.take(p + 1).drop_last() =~= ps.take(p as int));
        assert(ps.take(p + 1).last() == ps[p as int]);
        let paragraph = paragraphs[p].as_str();
        let ghost start = out.deep_view();
        if crate::text::is_blank(paragraph) {
            out.push(String::new());
            assert(out.deep_view() =~= start + seq![Seq::<char>::empty()]);
        } else {
            let words = split_words(paragraph);
            let ghost ws = words.deep_view();
            let mut done: Vec<String> = Vec::new();
            let mut current = String::new();
            let mut k: usize = 0;
            assert(ws.take(0) =~= Seq::<Seq<char>>::empty());
            while k < words.len()
                invariant
                    k <= ws.len(),
                    ws == words.deep_view(),
                    wrap_fold(ws.take(k as int), max_width as nat) == (done.deep_view(), current@),
                decreases words.len() - k,
            {
                assert(ws.take(k + 1).drop_last() =~= ws.take(k as int));
                assert(ws.take(k + 1).last() == ws[k as int]);
                let word = words[k].as_str();
                let pending = if current.as_str().is_empty() {
                    word.to_string()
                } else {
                    let mut t = current.clone();
                    push_char(&mut t, ' ');
                    push_str(&mut t, word);
                    assert(t@ =~= current@ + seq![' '] + word@);
                    t
                };
                if width_of_text(pending.as_str()) > max_width && !current.as_str().is_empty() {
                    let ghost before = done.deep_view();
                    let ghost cv = current@;
                    done.push(current);
                    assert(done.deep_view() =~= before.push(cv));
                    current = word.to_string();
                } else if width_of_text(word) > max_width {
                    if !current.as_str().is_empty() {
                        let ghost before = done.deep_view();
                        let ghost cv = current@;
                        done.push(current);
                        assert(done.deep_view() =~= before.push(cv));
                        current = String::new();
                    }
                    let chunks = hard_wrap_word(word, max_width);
                    append_strings(&mut done, chunks);
                    current = String::new();
                } else {
                    current = pending;
                }
                k = k + 1;
            }
            assert(ws.take(k as int) =~= ws);
            if !current.as_str().is_empty() {
                let ghost before = done.deep_view();
                let ghost cv = current@;
                done.push(current);
                assert(done.deep_view() =~= before.push(cv));
            }
            append_strings(&mut out, done);
        }
        p = p + 1;
    }
    assert(ps.take(p as int) =~= ps);
    if out.len() == 0 {
        out.push(String::new());
        assert(out.deep_view() =~= seq![Seq::<char>::empty()]);
    }
    out
}

// ---------------------------------------------------------------------------
// Positions and cutting to a width.
// ---------------------------------------------------------------------------

/// The line and column of byte offset `b` in `s`, counting from `line` and
/// `col`: each character starting before `b` moves to the next line (a line
/// break) or right by its width (1 for a control character).
pub open spec fn line_col_from(s: Seq<char>, b: int, line: int, col: int) -> (int, int)
    decreases s.len(),
{
    if s.len() == 0 || b <= 0 {
        (line, col)
    } else {
        let c = s[0];
        let next = if c == '\n' {
            (line + 1, 0int)
        } else {
            (line, col + match char_width(c) {
                Some(w) => w as int,
                None => 1int,
            })
        };
        line_col_from(s.drop_first(), b - crate::tui::app::utf8_len(c), next.0, next.1)
    }
}

/// The line and column of the cursor at byte offset `cursor`, both from 0.
pub fn line_col_at(text: &str, cursor: usize) -> (r: (usize, usize))
    requires
        text@.len() * 3 < usize::MAX,
    ensures
        (r.0 as int, r.1 as int) == line_col_from(text@, cursor as int, 0, 0),
{
    let cs = chars_of(text);
    let ghost s = text@;
    let mut line: usize = 0;
    let mut column: usize = 0;
    let mut off: usize = 0;
    let mut i: usize = 0;
    assert(s.skip(0) =~= s);
    while i < cs.len() && off < cursor
        invariant
            i <= cs@.len(),
            cs@ == s,
            s.len() * 3 < usize::MAX,
            line <= i,
            column <= 3 * i,
            line_col_from(s, cursor as int, 0, 0) == line_col_from(s.skip(i as int), cursor - off, line as int, column as int),
        decreases cs.len() - i,
    {
        let c = cs[i];
        assert(s.skip(i as int)[0] == c);
        assert(s.skip(i as int).drop_first() =~= s.skip(i + 1));
        let w = crate::tui::app::utf8_width(c);
        if c == '\n' {
            line = line + 1;
            column = 0;
        } else {
            let add = match width_of_char(c) {
                Some(w) => w,
                None => 1,
            };
            column = column + add;
        }
        proof {
            if w > cursor - off {
                assert(line_col_from(s.skip(i + 1), cursor - off - w, line as int, column as int) == (line as int, column as int));
                assert(line_col_from(s.skip(i + 1), 0, line as int, column as int) == (line as int, column as int));
            }
        }
        if w <= cursor - off {
            off = off + w;
        } else {
            off = cursor;
        }
        i = i + 1;
    }
    proof {
        if i < cs.len() {
            assert(s.skip(i as int).len() > 0);
        } else {
            assert(s.skip(i as int).len() == 0);
        }
    }
    (line, column)
}

pub open spec fn ellipsis() -> Seq<char> {
    seq!['…']
}

/// The text shortened to `max_width` characters by keeping its end behind
/// "..." (kept whole when it fits, or when the width is 0).
pub open spec fn truncated_start(path: Seq<char>, max_width: usize) -> Seq<char> {
    if max_width == 0 || path.len() <= max_width {
        path
    } else {
        let tail = if max_width >= 3 { max_width - 3 } else { 0 };
        "..."@ + path.skip(path.len() - tail)
    }
}

/// A path cut from its start fits `max_width` characters (when at least
/// three fit) and keeps its end: it is the path itself, or `...` and the
/// path's last characters.
pub proof fn lemma_truncated_start_fits(path: Seq<char>, max_width: usize)
    requires
        max_width >= 3,
    ensures
        truncated_start(path, max_width).len() <= max_width,
        truncated_start(path, max_width) == path || truncated_start(path, max_width) == "..."@ + path.skip(
            path.len() - (max_width - 3),
        ),
{
    reveal_strlit("...");
}

pub fn truncate_from_start(path: &str, max_width: usize) -> (r: String)
    ensures
        r@ == truncated_start(path@, max_width),
{
    let cs = chars_of(path);
    if max_width == 0 || cs.len() <= max_width {
        return path.to_string();
    }
    let tail = if max_width >= 3 { max_width - 3 } else { 0 };
    let mut out = "...".to_string();
    let mut i: usize = cs.len() - tail;
    let ghost start = cs.len() - tail;
    while i < cs.len()
        invariant
            0 <= start <= i <= cs@.len(),
            start == cs@.len() - tail,
            out@ == "..."@ + cs@.subrange(start as int, i as int),
        decreases cs.len() - i,
    {
        push_char(&mut out, cs[i]);
        assert(cs@.subrange(start as int, i + 1) =~= cs@.subrange(start as int, i as int).push(cs@[i as int]));
        i = i + 1;
    }
    assert(cs@.subrange(start as int, cs@.len() as int) =~= cs@.skip(start as int));
    out
}

/// How many leading characters fit in `budget` columns, counting control
/// characters as 0 wide.
pub open spec fn fitting_prefix(s: Seq<char>, budget: int) -> int
    decreases s.len(),
{
    if s.len() == 0 {
        0
    } else {
        let w = match char_width(s[0]) {
            Some(w) => w as int,
            None => 0int,
        };
        if w > budget {
            0
        } else {
            1 + fitting_prefix(s.drop_first(), budget - w)
        }
    }
}

/// The text cut at its end to `max_width` columns, an ellipsis marking the cut.
pub open spec fn truncated_end(text: Seq<char>, max_width: usize) -> Seq<char> {
    if max_width == 0 {
        Seq::empty()
    } else if text_width(text) <= max_width {
        text
    } else if max_width == 1 {
        ellipsis()
    } else {
        let target = if max_width >= text_width(ellipsis()) { max_width - text_width(ellipsis()) } else { 0 };
        text.take(fitting_prefix(text, target)) + ellipsis()
    }
}

proof fn lemma_fitting_prefix_bounds(s: Seq<char>, budget: int)
    ensures
        0 <= fitting_prefix(s, budget) <= s.len(),
    decreases s.len(),
{
    if s.len() > 0 {
        lemma_fitting_prefix_bounds(s.drop_first(), budget - match char_width(s[0]) {
            Some(w) => w as int,
            None => 0int,
        });
    }
}

pub fn truncate_to_width_end(text: &str, max_width: usize) -> (r: String)
    ensures
        r@ == truncated_end(text@, max_width),
{
    proof {
        reveal_strlit("…");
    }
    assert("…"@ =~= ellipsis());
    if max_width == 0 {
        return String::new();
    }
    if width_of_text(text) <= max_width {
        return text.to_string();
    }
    if max_width == 1 {
        return "…".to_string();
    }
    let mark = "…";
    proof {
        reveal_strlit("…");
    }
    let mark_width = width_of_text(mark);
    let target = if max_width >= mark_width { max_width - mark_width } else { 0 };
    let cs = chars_of(text);
    let ghost s = text@;
    let mut out = String::new();
    let mut used: usize = 0;
    let mut i: usize = 0;
    let mut stop = false;
    assert(s.skip(0) =~= s);
    while i < cs.len() && !stop
        invariant
            i <= cs@.len(),
            cs@ == s,
            used <= target,
            out@ == s.take(i as int),
            !stop ==> fitting_prefix(s, target as int) == i + fitting_prefix(s.skip(i as int), target - used),
            stop ==> fitting_prefix(s, target as int) == i,
        decreases cs.len() - i, if stop { 0int } else { 1int },
    {
        let c = cs[i];
        assert(s.skip(i as int)[0] == c);
        assert(s.skip(i as int).drop_first() =~= s.skip(i + 1));
        let w = match width_of_char(c) {
            Some(w) => w,
            None => 0,
        };
        if w > target - used {
            stop = true;
        } else {
            push_char(&mut out, c);
            assert(s.take(i + 1) =~= s.take(i as int).push(c));
            used = used + w;
            i = i + 1;
        }
    }
    proof {
        if !stop {
            assert(s.skip(i as int).len() == 0);
            assert(fitting_prefix(s.skip(i as int), target - used) == 0);
        }
        assert(fitting_prefix(s, target as int) == i);
    }
    push_str(&mut out, mark);
    out
}

// ---------------------------------------------------------------------------
// Labels.
// ---------------------------------------------------------------------------

pub open spec fn kind_word(kind: NoteKind) -> Seq<char> {
    match kind {
        NoteKind::Overview => "overview"@,
        NoteKind::Flow => "flow"@,
        NoteKind::Pitfall => "pitfall"@,
        NoteKind::Reference => "reference"@,
    }
}

pub fn note_kind_label(kind: NoteKind) -> (r: &'static str)
    ensures
        r@ == kind_word(kind),
{
    match kind {
        NoteKind::Overview => "overview",
        NoteKind::Flow => "flow",
        NoteKind::Pitfall => "pitfall",
        NoteKind::Reference => "reference",
    }
}

pub open spec fn status_header(status: QuestionStatus, comment_mode: bool) -> Seq<char> {
    if comment_mode {
        match status {
            QuestionStatus::Open => "Open Comment Thread"@,
            QuestionStatus::Answered => "Closed Comment Thread"@,
            QuestionStatus::Archived => "Archived Comment Thread"@,
        }
    } else {
        match status {
            QuestionStatus::Open => "Open Question"@,
            QuestionStatus::Answered => "Closed Conversation"@,
            QuestionStatus::Archived => "Archived Conversation"@,
        }
    }
}

pub fn question_status_header(status: QuestionStatus, comment_mode: bool) -> (r: &'static str)
    ensures
        r@ == status_header(status, comment_mode),
{
    if comment_mode {
        return match status {
            QuestionStatus::Open => "Open Comment Thread",
            QuestionStatus::Answered => "Closed Comment Thread",
            QuestionStatus::Archived => "Archived Comment Thread",
        };
    }
    match status {
        QuestionStatus::Open => "Open Question",
        QuestionStatus::Answered => "Closed Conversation",
        QuestionStatus::Archived => "Archived Conversation",
    }
}

/// A thread's status as the cards show it: an answered thread is closed.
pub open spec fn card_status_word(status: QuestionStatus) -> Seq<char> {
    match status {
        QuestionStatus::Open => "open"@,
        QuestionStatus::Answered => "closed"@,
        QuestionStatus::Archived => "archived"@,
    }
}

pub fn question_status_label(status: QuestionStatus) -> (r: &'static str)
    ensures
        r@ == card_status_word(status),
{
    match status {
        QuestionStatus::Open => "open",
        QuestionStatus::Answered => "closed",
        QuestionStatus::Archived => "archived",
    }
}

pub open spec fn turn_word(kind: QuestionTurnKind, comment_mode: bool) -> Seq<char> {
    match (kind, comment_mode) {
        (QuestionTurnKind::Prompt, true) => "Comment"@,
        (QuestionTurnKind::Prompt, false) => "Question"@,
        (QuestionTurnKind::UserFollowUp, true) => "Reply"@,
        (QuestionTurnKind::UserFollowUp, false) => "Follow-up"@,
        (QuestionTurnKind::AgentReply, _) => "Agent Reply"@,
    }
}

pub fn question_turn_label(kind: QuestionTurnKind, comment_mode: bool) -> (r: &'static str)
    ensures
        r@ == turn_word(kind, comment_mode),
{
    match (kind, comment_mode) {
        (QuestionTurnKind::Prompt, true) => "Comment",
        (QuestionTurnKind::Prompt, false) => "Question",
        (QuestionTurnKind::UserFollowUp, true) => "Reply",
        (QuestionTurnKind::UserFollowUp, false) => "Follow-up",
        (QuestionTurnKind::AgentReply, _) => "Agent Reply",
    }
}

pub open spec fn turn_subtitle(kind: QuestionTurnKind, comment_mode: bool) -> Seq<char> {
    match (kind, comment_mode) {
        (QuestionTurnKind::Prompt, true) => "original comment"@,
        (QuestionTurnKind::Prompt, false) => "original question"@,
        (QuestionTurnKind::UserFollowUp, true) => "comment reply"@,
        (QuestionTurnKind::UserFollowUp, false) => "user follow-up"@,
        (QuestionTurnKind::AgentReply, true) => "agent reply"@,
        (QuestionTurnKind::AgentReply, false) => "agent answer"@,
    }
}

pub fn question_turn_subtitle(kind: QuestionTurnKind, comment_mode: bool) -> (r: &'static str)
    ensures
        r@ == turn_subtitle(kind, comment_mode),
{
    match (kind, comment_mode) {
        (QuestionTurnKind::Prompt, true) => "original comment",
        (QuestionTurnKind::Prompt, false) => "original question",
        (QuestionTurnKind::UserFollowUp, true) => "comment reply",
        (QuestionTurnKind::UserFollowUp, false) => "user follow-up",
        (QuestionTurnKind::AgentReply, true) => "agent reply",
        (QuestionTurnKind::AgentReply, false) => "agent answer",
    }
}

pub open spec fn source_word(source: NoteSource) -> Seq<char> {
    match source {
        NoteSource::Agent => "agent"@,
        NoteSource::Human => "human"@,
        NoteSource::Imported => "imported"@,
    }
}

pub fn note_source_label(source: NoteSource) -> (r: &'static str)
    ensures
        r@ == source_word(source),
{
    match source {
        NoteSource::Agent => "agent",
        NoteSource::Human => "human",
        NoteSource::Imported => "imported",
    }
}

/// What a draft does and to what: "new", "continue" or "edit", then
/// "question" ("comment" in a diff) or "note".
pub open spec fn draft_words(kind: DraftKind, target: DraftTarget, diff_mode: bool) -> Seq<char> {
    let action = match target {
        DraftTarget::New => "new"@,
        DraftTarget::ContinueQuestion { .. } => "continue"@,
        _ => "edit"@,
    };
    action + " "@ + match kind {
        DraftKind::Question => if diff_mode { "comment"@ } else { "question"@ },
        DraftKind::Note => "note"@,
    }
}

pub fn draft_mode_label(draft: &PromptDraft, diff_mode: bool) -> (r: String)
    ensures
        r@ == draft_words(draft.kind, draft.target, diff_mode),
{
    let mut out = match draft.target {
        DraftTarget::New => "new".to_string(),
        DraftTarget::ContinueQuestion { .. } => "continue".to_string(),
        _ => "edit".to_string(),
    };
    push_str(&mut out, " ");
    push_str(
        &mut out,
        match draft.kind {
            DraftKind::Question => if diff_mode { "comment" } else { "question" },
            DraftKind::Note => "note",
        },
    );
    out
}

/// The badge of the status line: what the keys act on.
pub open spec fn mode_words(a: App) -> Seq<char> {
    let diff = is_diff(a);
    match a.input_mode {
        InputMode::Normal => match a.focus {
            FocusPane::Files => if diff { "changed"@ } else { "files"@ },
            FocusPane::Source => if diff { "diff"@ } else { "source"@ },
        },
        InputMode::Visual => "visual"@,
        InputMode::Draft | InputMode::DraftConfirm => match a.draft {
            Some(d) => match d.kind {
                DraftKind::Question => if diff { "comment"@ } else { "question"@ },
                DraftKind::Note => "note"@,
            },
            None => "draft"@,
        },
        InputMode::ThreadView => if diff { "thread"@ } else { "question"@ },
        InputMode::FilePicker => "files"@,
        InputMode::Search => "search"@,
        InputMode::Help => "help"@,
        InputMode::CommitSelect => "commits"@,
    }
}

pub fn status_mode_label(app: &App) -> (r: String)
    ensures
        r@ == mode_words(*app),
{
    let diff = app.is_diff_mode();
    let word = match app.input_mode {
        InputMode::Normal => match app.focus {
            FocusPane::Files => if diff { "changed" } else { "files" },
            FocusPane::Source => if diff { "diff" } else { "source" },
        },
        InputMode::Visual => "visual",
        InputMode::Draft | InputMode::DraftConfirm => match &app.draft {
            Some(d) => match d.kind {
                DraftKind::Question => if diff { "comment" } else { "question" },
                DraftKind::Note => "note",
            },
            None => "draft",
        },
        InputMode::ThreadView => if diff { "thread" } else { "question" },
        InputMode::FilePicker => "files",
        InputMode::Search => "search",
        InputMode::Help => "help",
        InputMode::CommitSelect => "commits",
    };
    word.to_string()
}

// ---------------------------------------------------------------------------
// The status line's parts.
// ---------------------------------------------------------------------------

/// The status line cut to a width: the badge, a gap, the meta text, a gap and
/// the message.
pub struct StatusSegments {
    pub badge: String,
    pub between_badge_and_meta: String,
    pub meta: String,
    pub between_meta_and_message: String,
    pub message: String,
}

pub open spec fn sat(a: int, b: int) -> int {
    if a >= b { a - b } else { 0 }
}

/// How the status line's parts share `total_width` columns: the badge first;
/// the message keeps at least 12 columns (or all there are) ahead of the meta
/// text; each part is cut at its end.
pub open spec fn fitted_status(badge: Seq<char>, meta: Seq<char>, message: Seq<char>, total_width: usize) -> (Seq<char>, Seq<char>, Seq<char>, Seq<char>, Seq<char>) {
    let b = truncated_end(badge, total_width);
    let after_badge = sat(total_width as int, text_width(b) as int);
    let remaining = sat(after_badge, text_width(" "@) as int);
    if after_badge == 0 || remaining == 0 {
        (b, Seq::empty(), Seq::empty(), Seq::empty(), Seq::empty())
    } else {
        let wants = message.len() > 0;
        let separator = if wants { 2int } else { 0int };
        let least = if wants { if remaining < 12 { remaining } else { 12 } } else { 0int };
        let budget = if wants { sat(remaining, least + separator) } else { remaining };
        let m = truncated_end(meta, budget as usize);
        let width = if wants { sat(sat(remaining, text_width(m) as int), separator) } else { 0int };
        if width > 0 {
            (b, " "@, m, "  "@, truncated_end(message, width as usize))
        } else {
            (b, " "@, m, Seq::empty(), Seq::empty())
        }
    }
}

pub fn fit_status_segments(badge: &str, meta: &str, message: &str, total_width: usize) -> (r: StatusSegments)
    ensures
        (r.badge@, r.between_badge_and_meta@, r.meta@, r.between_meta_and_message@, r.message@) == fitted_status(
            badge@,
            meta@,
            message@,
            total_width,
        ),
{
    let badge = truncate_to_width_end(badge, total_width);
    let badge_width = width_of_text(badge.as_str());
    let after_badge = if total_width >= badge_width { total_width - badge_width } else { 0 };
    let gap = " ";
    let gap_width = width_of_text(gap);
    let remaining = if after_badge >= gap_width { after_badge - gap_width } else { 0 };
    if after_badge == 0 || remaining == 0 {
        return StatusSegments {
            badge,
            between_badge_and_meta: String::new(),
            meta: String::new(),
            between_meta_and_message: String::new(),
            message: String::new(),
        };
    }
    let wants_message = !message.is_empty();
    let separator: usize = if wants_message { 2 } else { 0 };
    let least: usize = if wants_message { if remaining < 12 { remaining } else { 12 } } else { 0 };
    let budget = if wants_message {
        if remaining >= least + separator { remaining - (least + separator) } else { 0 }
    } else {
        remaining
    };
    let meta = truncate_to_width_end(meta, budget);
    let meta_width = width_of_text(meta.as_str());
    let width = if wants_message {
        let left = if remaining >= meta_width { remaining - meta_width } else { 0 };
        if left >= separator { left - separator } else { 0 }
    } else {
        0
    };
    if width > 0 {
        StatusSegments {
            badge,
            between_badge_and_meta: gap.to_string(),
            meta,
            between_meta_and_message: "  ".to_string(),
            message: truncate_to_width_end(message, width),
        }
    } else {
        StatusSegments {
            badge,
            between_badge_and_meta: gap.to_string(),
            meta,
            between_meta_and_message: String::new(),
            message: String::new(),
        }
    }
}

// ---------------------------------------------------------------------------
// Number columns.
// ---------------------------------------------------------------------------

/// The number of decimal digits of `n`.
pub fn decimal_len(n: usize) -> (r: usize)
    ensures
        r == decimal(n as nat).len(),
        r >= 1,
{
    let s = crate::text::decimal_string(n);
    let ghost v = s@;
    let cs = chars_of(s.as_str());
    proof {
        crate::tui::render::lemma_decimal_nonempty(n as nat);
    }
    cs.len()
}

pub proof fn lemma_decimal_nonempty(n: nat)
    ensures
        decimal(n).len() >= 1,
    decreases n,
{
    if n >= 10 {
        lemma_decimal_nonempty(n / 10);
    }
}

pub open spec fn max_opt(a: Option<usize>, b: Option<usize>) -> Option<usize> {
    match (a, b) {
        (Some(x), Some(y)) => Some(if x >= y { x } else { y }),
        (Some(x), None) => Some(x),
        (None, y) => y,
    }
}

/// The largest line number (old or new) among the lines.
pub open spec fn lines_max(ls: Seq<crate::diff::DiffLine>) -> Option<usize>
    decreases ls.len(),
{
    if ls.len() == 0 {
        None
    } else {
        max_opt(max_opt(lines_max(ls.drop_last()), ls.last().old_lineno), ls.last().new_lineno)
    }
}

/// The largest line number (old or new) in the hunks.
pub open spec fn hunks_max(hs: Seq<crate::diff::DiffHunk>) -> Option<usize>
    decreases hs.len(),
{
    if hs.len() == 0 {
        None
    } else {
        max_opt(hunks_max(hs.drop_last()), lines_max(hs.last().lines@))
    }
}

/// The width of a diff file's number columns: the digits of its largest line
/// number (of 1 when it has none).
pub open spec fn number_digits(f: DiffFile) -> nat {
    decimal(match hunks_max(f.hunks@) {
        Some(m) => m as nat,
        None => 1,
    }).len()
}

pub fn diff_line_digits(file: &DiffFile) -> (r: usize)
    ensures
        r == number_digits(*file),
        r >= 1,
{
    let mut best: Option<usize> = None;
    let mut h: usize = 0;
    assert(file.hunks@.take(0) =~= Seq::<crate::diff::DiffHunk>::empty());
    while h < file.hunks.len()
        invariant
            h <= file.hunks@.len(),
            best == hunks_max(file.hunks@.take(h as int)),
        decreases file.hunks.len() - h,
    {
        let ls = &file.hunks[h].lines;
        let mut inner: Option<usize> = None;
        let mut k: usize = 0;
        assert(ls@.take(0) =~= Seq::<crate::diff::DiffLine>::empty());
        while k < ls.len()
            invariant
                k <= ls@.len(),
                inner == lines_max(ls@.take(k as int)),
            decreases ls.len() - k,
        {
            assert(ls@.take(k + 1).drop_last() =~= ls@.take(k as int));
            assert(ls@.take(k + 1).last() == ls@[k as int]);
            inner = max_of(max_of(inner, ls[k].old_lineno), ls[k].new_lineno);
            k = k + 1;
        }
        assert(ls@.take(k as int) =~= ls@);
        assert(file.hunks@.take(h + 1).drop_last() =~= file.hunks@.take(h as int));
        assert(file.hunks@.take(h + 1).last() == file.hunks@[h as int]);
        best = max_of(best, inner);
        h = h + 1;
    }
    assert(file.hunks@.take(h as int) =~= file.hunks@);
    decimal_len(match best {
        Some(m) => m,
        None => 1,
    })
}

fn max_of(a: Option<usize>, b: Option<usize>) -> (r: Option<usize>)
    ensures
        r == max_opt(a, b),
{
    match (a, b) {
        (Some(x), Some(y)) => Some(if x >= y { x } else { y }),
        (Some(x), None) => Some(x),
        (None, y) => y,
    }
}

// ---------------------------------------------------------------------------
// Styled lines.
// ---------------------------------------------------------------------------

/// How a run of text is drawn: colours and font flags.
#[derive(Debug, Clone, Copy, PartialEq, Eq, Structural)]
pub struct SpanStyle {
    pub fg: Option<Color>,
    pub bg: Option<Color>,
    pub bold: bool,
    pub italic: bool,
    pub underline: bool,
}

/// A run of text in one style.
#[derive(Debug, Clone)]
pub struct StyledSpan {
    pub text: String,
    pub style: SpanStyle,
}

/// One line of the screen, as its runs.
pub type StyledLine = Vec<StyledSpan>;

pub open spec fn style_of(fg: Option<Color>, bg: Option<Color>, bold: bool) -> SpanStyle {
    SpanStyle { fg, bg, bold, italic: false, underline: false }
}

pub open spec fn line_view(l: StyledLine) -> Seq<(Seq<char>, SpanStyle)> {
    l@.map_values(|s: StyledSpan| (s.text@, s.style))
}

pub open spec fn lines_view(ls: Seq<StyledLine>) -> Seq<Seq<(Seq<char>, SpanStyle)>> {
    ls.map_values(|l: StyledLine| line_view(l))
}

/// The text a line shows.
pub open spec fn line_text(l: Seq<(Seq<char>, SpanStyle)>) -> Seq<char>
    decreases l.len(),
{
    if l.len() == 0 {
        Seq::empty()
    } else {
        line_text(l.drop_last()) + l.last().0
    }
}

pub fn span(text: String, fg: Option<Color>, bg: Option<Color>, bold: bool) -> (r: StyledSpan)
    ensures
        r.text@ == text@,
        r.style == style_of(fg, bg, bold),
{
    StyledSpan { text, style: SpanStyle { fg, bg, bold, italic: false, underline: false } }
}

pub fn span_str(text: &str, fg: Option<Color>, bg: Option<Color>, bold: bool) -> (r: StyledSpan)
    ensures
        r.text@ == text@,
        r.style == style_of(fg, bg, bold),
{
    span(text.to_string(), fg, bg, bold)
}

pub open spec fn spans3(a: (Seq<char>, SpanStyle), b: (Seq<char>, SpanStyle), c: (Seq<char>, SpanStyle)) -> Seq<(Seq<char>, SpanStyle)> {
    seq![a, b, c]
}

pub fn line_of3(a: StyledSpan, b: StyledSpan, c: StyledSpan) -> (r: StyledLine)
    ensures
        line_view(r) == seq![(a.text@, a.style), (b.text@, b.style), (c.text@, c.style)],
{
    let mut v: Vec<StyledSpan> = Vec::new();
    v.push(a);
    v.push(b);
    v.push(c);
    assert(line_view(v) =~= seq![(a.text@, a.style), (b.text@, b.style), (c.text@, c.style)]);
    v
}

pub fn line_of4(a: StyledSpan, b: StyledSpan, c: StyledSpan, d: StyledSpan) -> (r: StyledLine)
    ensures
        line_view(r) == seq![(a.text@, a.style), (b.text@, b.style), (c.text@, c.style), (d.text@, d.style)],
{
    let mut v: Vec<StyledSpan> = Vec::new();
    v.push(a);
    v.push(b);
    v.push(c);
    v.push(d);
    assert(line_view(v) =~= seq![(a.text@, a.style), (b.text@, b.style), (c.text@, c.style), (d.text@, d.style)]);
    v
}

pub fn line_of1(a: StyledSpan) -> (r: StyledLine)
    ensures
        line_view(r) == seq![(a.text@, a.style)],
{
    let mut v: Vec<StyledSpan> = Vec::new();
    v.push(a);
    assert(line_view(v) =~= seq![(a.text@, a.style)]);
    v
}

pub fn append_lines(out: &mut Vec<StyledLine>, more: Vec<StyledLine>)
    ensures
        lines_view(final(out)@) == lines_view(old(out)@) + lines_view(more@),
{
    let ghost start = lines_view(out@);
    let ghost mv = lines_view(more@);
    let mut rest = more;
    let ghost mut taken: int = 0;
    let ghost total = mv.len();
    while rest.len() > 0
        invariant
            0 <= taken <= total,
            total == mv.len(),
            lines_view(rest@) == mv.skip(taken),
            lines_view(out@) == start + mv.take(taken),
        decreases rest.len(),
    {
        let ghost before = lines_view(rest@);
        let l = rest.remove(0);
        proof {
            assert(before.len() == total - taken);
            assert(line_view(l) == before[0]);
            assert(lines_view(rest@) =~= before.drop_first());
            assert(before.drop_first() =~= mv.skip(taken + 1));
            assert(mv.take(taken + 1) =~= mv.take(taken).push(mv[taken]));
        }
        let ghost o = lines_view(out@);
        out.push(l);
        assert(lines_view(out@) =~= o.push(mv[taken]));
        proof {
            taken = taken + 1;
        }
    }
    assert(mv.take(taken) =~= mv);
}

// ---------------------------------------------------------------------------
// Cards.
// ---------------------------------------------------------------------------

/// The width the text of a card wraps to: 8 columns less than the view, at
/// least 18.
pub open spec fn card_inner_width(width: usize) -> nat {
    let w = sat(width as int, 8);
    if w >= 18 { w as nat } else { 18 }
}

/// A card's lines: its body wrapped behind a border, its tags when it has
/// any, and a closing line naming it.
pub open spec fn card_lines(
    label: Seq<char>,
    subtitle: Seq<char>,
    body: Seq<char>,
    tags: Seq<Seq<char>>,
    width: usize,
    border: Color,
    background: Color,
    t: Theme,
) -> Seq<Seq<(Seq<char>, SpanStyle)>> {
    let lead = ("  "@, style_of(None, Some(t.panel), false));
    let bar = ("│ "@, style_of(Some(border), Some(background), false));
    let body_lines = wrapped(body, card_inner_width(width)).map_values(
        |w: Seq<char>| seq![lead, bar, (w, style_of(Some(t.text), Some(background), false))],
    );
    let tag_lines = if tags.len() > 0 {
        seq![seq![lead, bar, ("Linked: "@ + join(tags, ", "@), style_of(Some(t.muted), Some(background), false))]]
    } else {
        Seq::empty()
    };
    body_lines + tag_lines + seq![
        seq![
            lead,
            ("╰─ "@, style_of(Some(border), Some(background), false)),
            (label + " · "@ + subtitle, style_of(Some(t.muted), Some(background), false)),
        ],
    ]
}

pub fn render_card(
    label: &str,
    subtitle: &str,
    body: &str,
    tags: &Vec<String>,
    width: usize,
    border: Color,
    background: Color,
    theme: &Theme,
) -> (r: Vec<StyledLine>)
    ensures
        lines_view(r@) == card_lines(label@, subtitle@, body@, tags.deep_view(), width, border, background, *theme),
{
    let inner = if width >= 8 { width - 8 } else { 0 };
    let inner_width = if inner >= 18 { inner } else { 18 };
    let wrapped_body = wrap_text(body, inner_width);
    let ghost wv = wrapped_body.deep_view();
    let ghost lead = ("  "@, style_of(None, Some(theme.panel), false));
    let ghost bar = ("│ "@, style_of(Some(border), Some(background), false));
    let ghost mk = |w: Seq<char>| seq![lead, bar, (w, style_of(Some(theme.text), Some(background), false))];
    proof {
        reveal_strlit("  ");
        reveal_strlit("│ ");
    }
    let mut out: Vec<StyledLine> = Vec::new();
    let mut i: usize = 0;
    while i < wrapped_body.len()
        invariant
            i <= wv.len(),
            wv == wrapped_body.deep_view(),
            mk == (|w: Seq<char>| seq![lead, bar, (w, style_of(Some(theme.text), Some(background), false))]),
            lead == ("  "@, style_of(None, Some(theme.panel), false)),
            bar == ("│ "@, style_of(Some(border), Some(background), false)),
            lines_view(out@) == wv.take(i as int).map_values(mk),
        decreases wrapped_body.len() - i,
    {
        let l = line_of3(
            span_str("  ", None, Some(theme.panel), false),
            span_str("│ ", Some(border), Some(background), false),
            span(wrapped_body[i].clone(), Some(theme.text), Some(background), false),
        );
        let ghost before = lines_view(out@);
        out.push(l);
        assert(lines_view(out@) =~= before.push(mk(wv[i as int])));
        assert(wv.take(i + 1).map_values(mk) =~= wv.take(i as int).map_values(mk).push(mk(wv[i as int])));
        i = i + 1;
    }
    assert(wv.take(i as int) =~= wv);
    if tags.len() > 0 {
        let mut linked = "Linked: ".to_string();
        let joined = crate::text::join_strings(tags, ", ");
        push_str(&mut linked, joined.as_str());
        let l = line_of3(
            span_str("  ", None, Some(theme.panel), false),
            span_str("│ ", Some(border), Some(background), false),
            span(linked, Some(theme.muted), Some(background), false),
        );
        let ghost before = lines_view(out@);
        out.push(l);
        assert(lines_view(out@) =~= before.push(line_view(l)));
    }
    let mut closing = label.to_string();
    push_str(&mut closing, " · ");
    push_str(&mut closing, subtitle);
    let l = line_of3(
        span_str("  ", None, Some(theme.panel), false),
        span_str("╰─ ", Some(border), Some(background), false),
        span(closing, Some(theme.muted), Some(background), false),
    );
    let ghost before = lines_view(out@);
    out.push(l);
    assert(lines_view(out@) =~= before.push(line_view(l)));
    out
}

/// The lines of a note's card: a heading with its title, kind, author and
/// lines, then the card.
pub open spec fn note_card_lines(n: NoteView, width: usize, t: Theme) -> Seq<Seq<(Seq<char>, SpanStyle)>> {
    let title = kind_word(n.kind) + " note · "@ + source_word(n.source) + " · lines "@ + anchor_text(n.anchor);
    seq![
        seq![
            ("  "@, style_of(None, Some(t.panel), false)),
            ("╭─ "@, style_of(Some(t.note_border), Some(t.note_bg), false)),
            (n.title, style_of(Some(t.text), Some(t.note_bg), true)),
            ("  "@ + title, style_of(Some(t.muted), Some(t.note_bg), false)),
        ],
    ] + card_lines(n.title, title, n.body, n.tags, width, t.note_border, t.note_bg, t)
}

pub fn render_note_card(note: &Note, width: usize, theme: &Theme) -> (r: Vec<StyledLine>)
    ensures
        lines_view(r@) == note_card_lines(note@, width, *theme),
{
    let mut title = note_kind_label(note.kind).to_string();
    push_str(&mut title, " note · ");
    push_str(&mut title, note_source_label(note.source));
    push_str(&mut title, " · lines ");
    let anchor = note.anchor.display();
    push_str(&mut title, anchor.as_str());
    let card = render_card(note.title.as_str(), title.as_str(), note.body.as_str(), &note.tags, width, theme.note_border, theme.note_bg, theme);
    let mut heading_text = "  ".to_string();
    push_str(&mut heading_text, title.as_str());
    let heading = line_of4(
        span_str("  ", None, Some(theme.panel), false),
        span_str("╭─ ", Some(theme.note_border), Some(theme.note_bg), false),
        span(note.title.clone(), Some(theme.text), Some(theme.note_bg), true),
        span(heading_text, Some(theme.muted), Some(theme.note_bg), false),
    );
    let mut out: Vec<StyledLine> = Vec::new();
    out.push(heading);
    assert(lines_view(out@) =~= seq![line_view(heading)]);
    append_lines(&mut out, card);
    out
}

/// A note's card shows its explanation: after the heading, every line that
/// the note's body wraps to stands, in order, as a row of its own behind the
/// card's border.
pub proof fn lemma_note_card_shows_body(n: NoteView, width: usize, t: Theme)
    ensures
        note_card_lines(n, width, t).len() >= wrapped(n.body, card_inner_width(width)).len() + 2,
        note_card_lines(n, width, t)[0].len() == 4 && note_card_lines(n, width, t)[0][2].0 == n.title,
        forall|i: int| 0 <= i < wrapped(n.body, card_inner_width(width)).len() ==> {
            let row = #[trigger] note_card_lines(n, width, t)[1 + i];
            &&& row.len() == 3
            &&& row[1].0 == "│ "@
            &&& row[2].0 == wrapped(n.body, card_inner_width(width))[i]
        },
{
    let body = wrapped(n.body, card_inner_width(width));
    let rows = note_card_lines(n, width, t);
    assert forall|i: int| 0 <= i < body.len() implies {
        let row = #[trigger] rows[1 + i];
        &&& row.len() == 3
        &&& row[1].0 == "│ "@
        &&& row[2].0 == body[i]
    } by {
        assert(rows[1 + i] == seq![
            ("  "@, style_of(None, Some(t.panel), false)),
            ("│ "@, style_of(Some(t.note_border), Some(t.note_bg), false)),
            (body[i], style_of(Some(t.text), Some(t.note_bg), false)),
        ]);
    }
}

/// The border and background of a thread's card by its status.
pub open spec fn status_colors(status: QuestionStatus, t: Theme) -> (Color, Color) {
    match status {
        QuestionStatus::Open => (t.question_border, t.question_bg),
        QuestionStatus::Answered => (t.note_border, t.note_bg),
        QuestionStatus::Archived => (t.border, spec_blend(t.panel, t.border, 10)),
    }
}

pub fn question_status_style(status: QuestionStatus, theme: &Theme) -> (r: (Color, Color))
    ensures
        r == status_colors(status, *theme),
{
    match status {
        QuestionStatus::Open => (theme.question_border, theme.question_bg),
        QuestionStatus::Answered => (theme.note_border, theme.note_bg),
        QuestionStatus::Archived => (theme.border, blend(theme.panel, theme.border, 10)),
    }
}

/// The border and background of a turn's card: the prompt's follow the
/// thread's status; follow-ups and replies have their own.
pub open spec fn turn_colors(kind: QuestionTurnKind, status: QuestionStatus, t: Theme) -> (Color, Color) {
    match kind {
        QuestionTurnKind::Prompt => status_colors(status, t),
        QuestionTurnKind::UserFollowUp => (t.border_focus, spec_blend(t.panel, t.border_focus, 12)),
        QuestionTurnKind::AgentReply => (t.accent, spec_blend(t.panel, t.accent, 12)),
    }
}

pub fn question_turn_style(kind: QuestionTurnKind, status: QuestionStatus, theme: &Theme) -> (r: (Color, Color))
    ensures
        r == turn_colors(kind, status, *theme),
{
    match kind {
        QuestionTurnKind::Prompt => question_status_style(status, theme),
        QuestionTurnKind::UserFollowUp => (theme.border_focus, blend(theme.panel, theme.border_focus, 12)),
        QuestionTurnKind::AgentReply => (theme.accent, blend(theme.panel, theme.accent, 12)),
    }
}

/// The card of one turn of a thread.
pub open spec fn turn_card_lines(kind: QuestionTurnKind, body: Seq<char>, status: QuestionStatus, width: usize, comment_mode: bool, t: Theme) -> Seq<Seq<(Seq<char>, SpanStyle)>> {
    card_lines(
        turn_word(kind, comment_mode),
        turn_subtitle(kind, comment_mode),
        body,
        Seq::empty(),
        width,
        turn_colors(kind, status, t).0,
        turn_colors(kind, status, t).1,
        t,
    )
}

/// The cards of the thread's messages, in order.
pub open spec fn message_cards(ms: Seq<crate::model::MessageView>, status: QuestionStatus, width: usize, comment_mode: bool, t: Theme) -> Seq<Seq<(Seq<char>, SpanStyle)>>
    decreases ms.len(),
{
    if ms.len() == 0 {
        Seq::empty()
    } else {
        message_cards(ms.drop_last(), status, width, comment_mode, t) + turn_card_lines(
            crate::model::turn_kind_of(ms.last().role),
            ms.last().body,
            status,
            width,
            comment_mode,
            t,
        )
    }
}

/// The heading of a thread's card: status and kind, and for an anchored
/// thread its line and number of turns.
pub open spec fn thread_title(q: QuestionView, comment_mode: bool) -> Seq<char> {
    let kind = if comment_mode { "comment thread"@ } else { "question thread"@ };
    let turns = q.conversation.len() + 1;
    match q.anchor {
        Some(a) => card_status_word(q.status) + " "@ + kind + " · line "@ + anchor_text(a) + " · "@ + decimal(turns as nat)
            + " turn"@ + if turns == 1 { ""@ } else { "s"@ },
        None => card_status_word(q.status) + " "@ + kind,
    }
}

pub open spec fn meta_line(border: Color, background: Color, text: Seq<char>, t: Theme) -> Seq<(Seq<char>, SpanStyle)> {
    seq![
        ("  "@, style_of(None, Some(t.panel), false)),
        ("│ "@, style_of(Some(border), Some(background), false)),
        (text, style_of(Some(t.muted), Some(background), false)),
    ]
}

/// The top of a thread's card: its heading, then why it was asked and its
/// linked notes when it has them.
pub open spec fn thread_head(q: QuestionView, comment_mode: bool, t: Theme) -> Seq<Seq<(Seq<char>, SpanStyle)>> {
    let (border, background) = status_colors(q.status, t);
    let heading = seq![
        ("  "@, style_of(None, Some(t.panel), false)),
        ("╭─ "@, style_of(Some(border), Some(background), false)),
        (status_header(q.status, comment_mode), style_of(Some(t.text), Some(background), true)),
        ("  "@ + thread_title(q, comment_mode), style_of(Some(t.muted), Some(background), false)),
    ];
    let why = match q.why {
        Some(w) => seq![meta_line(border, background, "Why unclear: "@ + w, t)],
        None => Seq::empty(),
    };
    let linked = if q.related_note_ids.len() > 0 {
        seq![meta_line(border, background, "Linked notes: "@ + join(q.related_note_ids, ", "@), t)]
    } else {
        Seq::empty()
    };
    seq![heading] + why + linked
}

/// The cards of a thread's turns: the prompt, then each message.
pub open spec fn thread_turns(q: QuestionView, width: usize, comment_mode: bool, t: Theme) -> Seq<Seq<(Seq<char>, SpanStyle)>> {
    turn_card_lines(QuestionTurnKind::Prompt, q.prompt, q.status, width, comment_mode, t) + message_cards(
        q.conversation,
        q.status,
        width,
        comment_mode,
        t,
    )
}

/// The line of actions a thread offers: continue or close an open one,
/// reopen one that is not.
pub open spec fn thread_actions(q: QuestionView, comment_mode: bool, show_actions: bool, t: Theme) -> Seq<Seq<(Seq<char>, SpanStyle)>> {
    if show_actions && q.status == QuestionStatus::Open {
        seq![seq![
            ("  "@, style_of(None, Some(t.panel), false)),
            ("↳ "@, style_of(Some(t.question_border), Some(t.panel), false)),
            (if comment_mode { "Actions: a reply  c close thread"@ } else { "Actions: a continue thread  c close thread"@ }, style_of(Some(t.muted), Some(t.panel), false)),
        ]]
    } else if show_actions {
        seq![seq![
            ("  "@, style_of(None, Some(t.panel), false)),
            ("↳ "@, style_of(Some(t.note_border), Some(t.panel), false)),
            ("Actions: o reopen thread"@, style_of(Some(t.muted), Some(t.panel), false)),
        ]]
    } else {
        Seq::empty()
    }
}

/// A thread's card: its top, a card per turn, and (when asked for) the
/// actions it offers.
pub open spec fn thread_lines(q: QuestionView, width: usize, comment_mode: bool, show_actions: bool, t: Theme) -> Seq<Seq<(Seq<char>, SpanStyle)>> {
    thread_head(q, comment_mode, t) + thread_turns(q, width, comment_mode, t) + thread_actions(q, comment_mode, show_actions, t)
}

fn render_thread_meta_line(border: Color, background: Color, text: String, theme: &Theme) -> (r: StyledLine)
    ensures
        line_view(r) == meta_line(border, background, text@, *theme),
{
    proof {
        reveal_strlit("  ");
        reveal_strlit("│ ");
    }
    line_of3(
        span_str("  ", None, Some(theme.panel), false),
        span_str("│ ", Some(border), Some(background), false),
        span(text, Some(theme.muted), Some(background), false),
    )
}

fn render_question_turn_card(kind: QuestionTurnKind, body: &str, status: QuestionStatus, width: usize, comment_mode: bool, theme: &Theme) -> (r: Vec<StyledLine>)
    ensures
        lines_view(r@) == turn_card_lines(kind, body@, status, width, comment_mode, *theme),
{
    let (border, background) = question_turn_style(kind, status, theme);
    let no_tags: Vec<String> = Vec::new();
    assert(no_tags.deep_view() =~= Seq::<Seq<char>>::empty());
    render_card(
        question_turn_label(kind, comment_mode),
        question_turn_subtitle(kind, comment_mode),
        body,
        &no_tags,
        width,
        border,
        background,
        theme,
    )
}

fn thread_title_text(question: &Question, comment_mode: bool) -> (r: String)
    requires
        question@.conversation.len() < usize::MAX,
    ensures
        r@ == thread_title(question@, comment_mode),
{
    let turn_count = question.turn_count();
    let mut title = question_status_label(question.status).to_string();
    push_str(&mut title, " ");
    push_str(&mut title, if comment_mode { "comment thread" } else { "question thread" });
    match question.anchor {
        Some(a) => {
            push_str(&mut title, " · line ");
            let at = a.display();
            push_str(&mut title, at.as_str());
            push_str(&mut title, " · ");
            crate::text::push_decimal(&mut title, turn_count);
            push_str(&mut title, " turn");
            push_str(&mut title, if turn_count == 1 { "" } else { "s" });
        },
        None => {},
    }
    title
}

fn render_thread_head(question: &Question, comment_mode: bool, theme: &Theme) -> (r: Vec<StyledLine>)
    requires
        question@.conversation.len() < usize::MAX,
    ensures
        lines_view(r@) == thread_head(question@, comment_mode, *theme),
{
    let (border, background) = question_status_style(question.status, theme);
    let title = thread_title_text(question, comment_mode);
    let mut heading_text = "  ".to_string();
    push_str(&mut heading_text, title.as_str());
    let heading = line_of4(
        span_str("  ", None, Some(theme.panel), false),
        span_str("╭─ ", Some(border), Some(background), false),
        span_str(question_status_header(question.status, comment_mode), Some(theme.text), Some(background), true),
        span(heading_text, Some(theme.muted), Some(background), false),
    );
    let mut out: Vec<StyledLine> = Vec::new();
    out.push(heading);
    assert(lines_view(out@) =~= seq![line_view(heading)]);
    match &question.why {
        Some(w) => {
            let mut text = "Why unclear: ".to_string();
            push_str(&mut text, w.as_str());
            let l = render_thread_meta_line(border, background, text, theme);
            let ghost before = lines_view(out@);
            out.push(l);
            assert(lines_view(out@) =~= before + seq![line_view(l)]);
        },
        None => {},
    }
    if question.related_note_ids.len() > 0 {
        let mut text = "Linked notes: ".to_string();
        let joined = crate::text::join_strings(&question.related_note_ids, ", ");
        push_str(&mut text, joined.as_str());
        let l = render_thread_meta_line(border, background, text, theme);
        let ghost before = lines_view(out@);
        out.push(l);
        assert(lines_view(out@) =~= before + seq![line_view(l)]);
    }
    out
}

fn render_thread_turns(question: &Question, width: usize, comment_mode: bool, theme: &Theme) -> (r: Vec<StyledLine>)
    ensures
        lines_view(r@) == thread_turns(question@, width, comment_mode, *theme),
{
    let ghost q = question@;
    let mut out = render_question_turn_card(QuestionTurnKind::Prompt, question.prompt.as_str(), question.status, width, comment_mode, theme);
    let ghost after_prompt = lines_view(out@);
    let mut i: usize = 0;
    assert(q.conversation.take(0) =~= Seq::<crate::model::MessageView>::empty());
    while i < question.conversation.len()
        invariant
            i <= q.conversation.len(),
            q == question@,
            after_prompt == turn_card_lines(QuestionTurnKind::Prompt, q.prompt, q.status, width, comment_mode, *theme),
            lines_view(out@) == after_prompt + message_cards(q.conversation.take(i as int), q.status, width, comment_mode, *theme),
        decreases question.conversation.len() - i,
    {
        let m = &question.conversation[i];
        let kind = match m.role {
            crate::model::QuestionMessageRole::User => QuestionTurnKind::UserFollowUp,
            crate::model::QuestionMessageRole::Agent => QuestionTurnKind::AgentReply,
        };
        let card = render_question_turn_card(kind, m.body.as_str(), question.status, width, comment_mode, theme);
        assert(q.conversation.take(i + 1).drop_last() =~= q.conversation.take(i as int));
        assert(q.conversation.take(i + 1).last() == q.conversation[i as int]);
        append_lines(&mut out, card);
        i = i + 1;
    }
    assert(q.conversation.take(i as int) =~= q.conversation);
    out
}

fn render_thread_actions(question: &Question, comment_mode: bool, show_actions: bool, theme: &Theme) -> (r: Vec<StyledLine>)
    ensures
        lines_view(r@) == thread_actions(question@, comment_mode, show_actions, *theme),
{
    proof {
        reveal_strlit("  ");
        reveal_strlit("↳ ");
    }
    let mut out: Vec<StyledLine> = Vec::new();
    if show_actions && question.status == crate::model::QuestionStatus::Open {
        let l = line_of3(
            span_str("  ", None, Some(theme.panel), false),
            span_str("↳ ", Some(theme.question_border), Some(theme.panel), false),
            span_str(
                if comment_mode { "Actions: a reply  c close thread" } else { "Actions: a continue thread  c close thread" },
                Some(theme.muted),
                Some(theme.panel),
                false,
            ),
        );
        out.push(l);
        assert(lines_view(out@) =~= seq![line_view(l)]);
    } else if show_actions {
        let l = line_of3(
            span_str("  ", None, Some(theme.panel), false),
            span_str("↳ ", Some(theme.note_border), Some(theme.panel), false),
            span_str("Actions: o reopen thread", Some(theme.muted), Some(theme.panel), false),
        );
        out.push(l);
        assert(lines_view(out@) =~= seq![line_view(l)]);
    } else {
        assert(lines_view(out@) =~= Seq::<Seq<(Seq<char>, SpanStyle)>>::empty());
    }
    out
}

/// The lines of a thread's card (see `thread_lines`).
pub fn render_question_thread(question: &Question, width: usize, comment_mode: bool, show_actions: bool, theme: &Theme) -> (r: Vec<StyledLine>)
    requires
        question@.conversation.len() < usize::MAX,
    ensures
        lines_view(r@) == thread_lines(question@, width, comment_mode, show_actions, *theme),
{
    let mut out = render_thread_head(question, comment_mode, theme);
    let turns = render_thread_turns(question, width, comment_mode, theme);
    append_lines(&mut out, turns);
    let actions = render_thread_actions(question, comment_mode, show_actions, theme);
    append_lines(&mut out, actions);
    out
}

} // verus!
