//! The review session's state: tracked files and a cursor over them, drafts of
//! notes and questions, the pickers, the thread viewer and the diff browser,
//! and every decision the keys lead to. The terminal loop performs what the
//! state asks for (reading files, the clipboard, git) and hands the results back.

use vstd::prelude::*;

use crate::answer_plan::first_index;
use crate::diff::{CommitInfo, DiffFile, DiffLine, DiffSelection};
use crate::model::{
    Anchor, MessageView, Note, NoteKind, NoteSource, NoteView, Packet, PacketView, Question,
    QuestionMessageRole, QuestionStatus, QuestionView,
};
use crate::syntax::{file_runs, run_text, runs_view, segments_view, Highlighter, StyledSegments};
use crate::theme::SyntaxTheme;
use crate::text::{
    chars_of, lines, push_char, push_str, split_lines, str_eq, string_from, trim, trim_chars,
    trim_string,
};

verus! {

// ---------------------------------------------------------------------------
// Anchors and lines.
// ---------------------------------------------------------------------------

/// The last line an anchor covers.
pub open spec fn anchor_end(a: Anchor) -> usize {
    match a.end_line {
        Some(end) => end,
        None => a.start_line,
    }
}

/// Whether `line` lies in the anchor's range, ends included.
pub open spec fn covers(a: Anchor, line: int) -> bool {
    a.start_line <= line <= anchor_end(a)
}

pub fn anchor_contains_line(anchor: Anchor, line: usize) -> (r: bool)
    ensures
        r == covers(anchor, line as int),
{
    let end = match anchor.end_line {
        Some(end) => end,
        None => anchor.start_line,
    };
    line >= anchor.start_line && line <= end
}

/// Whether the two ranges share a line (for ranges that do not end before they
/// start).
pub fn anchors_overlap(left: Anchor, right: Anchor) -> (r: bool)
    ensures
        r == (left.start_line <= anchor_end(right) && right.start_line <= anchor_end(left)),
{
    let left_end = match left.end_line {
        Some(end) => end,
        None => left.start_line,
    };
    let right_end = match right.end_line {
        Some(end) => end,
        None => right.start_line,
    };
    left.start_line <= right_end && right.start_line <= left_end
}

pub open spec fn min_line(a: usize, b: usize) -> usize {
    if a <= b { a } else { b }
}

pub open spec fn max_line(a: usize, b: usize) -> usize {
    if a <= b { b } else { a }
}

/// The anchor spanning two lines given in either order, never before line 1;
/// a single line has no end.
pub open spec fn spec_anchor_from_lines(start: usize, end: usize) -> Anchor {
    let first = max_line(min_line(start, end), 1);
    let last = max_line(max_line(start, end), 1);
    Anchor { start_line: first, end_line: if last != first { Some(last) } else { None } }
}

pub fn anchor_from_lines(start: usize, end: usize) -> (r: Anchor)
    ensures
        r == spec_anchor_from_lines(start, end),
{
    let low = if start <= end { start } else { end };
    let high = if start <= end { end } else { start };
    let start_line = if low >= 1 { low } else { 1 };
    let end_line = if high >= 1 { high } else { 1 };
    let maybe_end = if end_line != start_line { Some(end_line) } else { None };
    Anchor::new(start_line, maybe_end)
}

/// The line under which an anchor's card is shown: its last line.
pub fn anchor_display_line(anchor: Anchor) -> (r: usize)
    ensures
        r == anchor_end(anchor),
{
    match anchor.end_line {
        Some(end) => end,
        None => anchor.start_line,
    }
}

/// Two anchors overlap exactly when some line lies in both.
pub proof fn lemma_overlap_means_shared_line(left: Anchor, right: Anchor)
    requires
        left.start_line <= anchor_end(left),
        right.start_line <= anchor_end(right),
    ensures
        (left.start_line <= anchor_end(right) && right.start_line <= anchor_end(left)) <==> (exists|
            line: int,
        | covers(left, line) && covers(right, line)),
{
    if left.start_line <= anchor_end(right) && right.start_line <= anchor_end(left) {
        let line = max_line(left.start_line, right.start_line) as int;
        assert(covers(left, line) && covers(right, line));
    }
}

/// The anchor made from two lines covers exactly the lines between them (and
/// line 1 when both are 0), and shows its card under the later one.
pub proof fn lemma_anchor_from_lines_covers(start: usize, end: usize, line: int)
    ensures
        covers(spec_anchor_from_lines(start, end), line) <==> (max_line(
            min_line(start, end),
            1,
        ) <= line <= max_line(max_line(start, end), 1)),
        anchor_end(spec_anchor_from_lines(start, end)) == max_line(max_line(start, end), 1),
{
}

// ---------------------------------------------------------------------------
// Labels.
// ---------------------------------------------------------------------------

/// The first line that is not blank, trimmed; "Note" when there is none.
pub open spec fn first_text_line(ls: Seq<Seq<char>>) -> Seq<char>
    decreases ls.len(),
{
    if ls.len() == 0 {
        "Note"@
    } else if trim(ls[0]).len() != 0 {
        trim(ls[0])
    } else {
        first_text_line(ls.drop_first())
    }
}

/// A note's title: its first non-blank line, trimmed, cut to 45 characters
/// and an ellipsis when it is longer than 48.
pub open spec fn title_from_text(text: Seq<char>) -> Seq<char> {
    let compact = trim(first_text_line(lines(text)));
    if compact.len() <= 48 {
        compact
    } else {
        compact.take(45) + "..."@
    }
}

pub fn note_title_from_text(text: &str) -> (r: String)
    ensures
        r@ == title_from_text(text@),
{
    let ls = split_lines(text);
    let ghost lv = ls.deep_view();
    let mut i: usize = 0;
    assert(lv.skip(0) =~= lv);
    while i < ls.len() && crate::text::is_blank(ls[i].as_str())
        invariant
            i <= ls@.len(),
            lv == ls.deep_view(),
            lv == lines(text@),
            first_text_line(lv) == first_text_line(lv.skip(i as int)),
        decreases ls.len() - i,
    {
        assert(lv.skip(i as int)[0] == lv[i as int]);
        assert(lv.skip(i as int).drop_first() =~= lv.skip(i + 1));
        i = i + 1;
    }
    let first: Vec<char> = if i < ls.len() {
        assert(lv.skip(i as int)[0] == lv[i as int]);
        let v = chars_of(ls[i].as_str());
        trim_chars(&v)
    } else {
        assert(lv.skip(i as int).len() == 0);
        proof {
            reveal_strlit("Note");
        }
        chars_of("Note")
    };
    assert(first@ == first_text_line(lv));
    let compact = trim_chars(&first);
    if compact.len() <= 48 {
        string_from(&compact)
    } else {
        let mut out = String::new();
        let mut k: usize = 0;
        while k < 45
            invariant
                k <= 45 < compact@.len(),
                out@ == compact@.take(k as int),
            decreases 45 - k,
        {
            push_char(&mut out, compact[k]);
            assert(compact@.take(k + 1) =~= compact@.take(k as int).push(compact@[k as int]));
            k = k + 1;
        }
        push_str(&mut out, "...");
        out
    }
}

// ---------------------------------------------------------------------------
// The text being typed, with a cursor counted in UTF-8 bytes.
// ---------------------------------------------------------------------------

/// The number of bytes UTF-8 takes for `c`.
pub open spec fn utf8_len(c: char) -> nat {
    if (c as u32) < 0x80 {
        1
    } else if (c as u32) < 0x800 {
        2
    } else if (c as u32) < 0x10000 {
        3
    } else {
        4
    }
}

/// The number of bytes UTF-8 takes for `s`.
pub open spec fn byte_len(s: Seq<char>) -> nat
    decreases s.len(),
{
    if s.len() == 0 {
        0
    } else {
        byte_len(s.drop_last()) + utf8_len(s.last())
    }
}

/// Whether byte offset `b` falls between two characters of `s` (or at an end).
pub open spec fn is_boundary(s: Seq<char>, b: int) -> bool {
    exists|k: int| 0 <= k <= s.len() && #[trigger] byte_len(s.take(k)) == b
}

/// The number of characters before the boundary at byte offset `b`.
pub open spec fn index_at(s: Seq<char>, b: int) -> int {
    choose|k: int| 0 <= k <= s.len() && #[trigger] byte_len(s.take(k)) == b
}

pub proof fn lemma_byte_len_step(s: Seq<char>, k: int)
    requires
        0 <= k < s.len(),
    ensures
        byte_len(s.take(k + 1)) == byte_len(s.take(k)) + utf8_len(s[k]),
{
    assert(s.take(k + 1).drop_last() =~= s.take(k));
}

/// Longer prefixes take strictly more bytes.
pub proof fn lemma_byte_len_grows(s: Seq<char>, i: int, j: int)
    requires
        0 <= i < j <= s.len(),
    ensures
        byte_len(s.take(i)) < byte_len(s.take(j)),
    decreases j - i,
{
    lemma_byte_len_step(s, j - 1);
    if i < j - 1 {
        lemma_byte_len_grows(s, i, j - 1);
    }
}

pub proof fn lemma_index_at(s: Seq<char>, k: int)
    requires
        0 <= k <= s.len(),
    ensures
        is_boundary(s, byte_len(s.take(k)) as int),
        index_at(s, byte_len(s.take(k)) as int) == k,
{
    let b = byte_len(s.take(k)) as int;
    assert(0 <= k <= s.len() && byte_len(s.take(k)) == b);
    let j = index_at(s, b);
    if j < k {
        lemma_byte_len_grows(s, j, k);
    } else if k < j {
        lemma_byte_len_grows(s, k, j);
    }
}

pub proof fn lemma_prefix_fits(s: Seq<char>, k: int)
    requires
        0 <= k <= s.len(),
    ensures
        byte_len(s.take(k)) <= byte_len(s),
{
    assert(s.take(s.len() as int) =~= s);
    if k < s.len() {
        lemma_byte_len_grows(s, k, s.len() as int);
    }
}

/// `char::len_utf8`.
pub fn utf8_width(c: char) -> (n: usize)
    ensures
        n == utf8_len(c),
{
    let code = c as u32;
    if code < 0x80 {
        1
    } else if code < 0x800 {
        2
    } else if code < 0x10000 {
        3
    } else {
        4
    }
}

/// `str::len`: the length of the text in UTF-8 bytes.
#[verifier::external_body]
pub(crate) fn byte_count(s: &str) -> (n: usize)
    ensures
        n == byte_len(s@),
{
    s.len()
}

#[derive(Debug, Clone)]
pub struct TextBuffer {
    pub text: String,
    pub cursor: usize,
}

impl Default for TextBuffer {
    fn default() -> (r: Self)
        ensures
            r.text@.len() == 0,
            r.cursor == 0,
    {
        TextBuffer { text: String::new(), cursor: 0 }
    }
}

impl TextBuffer {
    /// The cursor sits between two characters of the text, or at an end.
    pub open spec fn wf(&self) -> bool {
        is_boundary(self.text@, self.cursor as int)
    }

    /// The number of characters before the cursor.
    pub open spec fn column(&self) -> int {
        index_at(self.text@, self.cursor as int)
    }

    /// Types `ch` at the cursor and moves past it.
    pub fn insert(&mut self, ch: char)
        requires
            old(self).wf(),
            byte_len(old(self).text@) + 4 <= usize::MAX,
        ensures
            final(self).wf(),
            final(self).text@ == old(self).text@.take(old(self).column()).push(ch) + old(
                self,
            ).text@.skip(old(self).column()),
            final(self).cursor == old(self).cursor + utf8_len(ch),
            final(self).column() == old(self).column() + 1,
    {
        let ghost t = self.text@;
        let ghost k = self.column();
        let v = chars_of(self.text.as_str());
        proof {
            lemma_index_at(t, k);
            lemma_prefix_fits(t, k);
        }
        let mut out = String::new();
        let mut i: usize = 0;
        let mut off: usize = 0;
        while off < self.cursor
            invariant
                v@ == t,
                t.len() == v.len(),
                t == self.text@,
                0 <= k <= t.len(),
                byte_len(t.take(k)) == self.cursor,
                i <= k,
                off == byte_len(t.take(i as int)),
                out@ == t.take(i as int),
            decreases k - i,
        {
            assert(i < k);
            proof {
                lemma_byte_len_step(t, i as int);
                if i + 1 < k {
                    lemma_byte_len_grows(t, i + 1, k);
                }
            }
            let w = utf8_width(v[i]);
            push_char(&mut out, v[i]);
            assert(t.take(i + 1) =~= t.take(i as int).push(t[i as int]));
            off = off + w;
            i = i + 1;
        }
        proof {
            if i < k {
                lemma_byte_len_grows(t, i as int, k);
            }
        }
        assert(i == k);
        push_char(&mut out, ch);
        let mut j: usize = i;
        while j < v.len()
            invariant
                v@ == t,
                0 <= k <= j <= t.len(),
                out@ == t.take(k).push(ch) + t.subrange(k, j as int),
            decreases v.len() - j,
        {
            push_char(&mut out, v[j]);
            assert(t.subrange(k, j + 1) =~= t.subrange(k, j as int).push(t[j as int]));
            j = j + 1;
        }
        assert(t.subrange(k, t.len() as int) =~= t.skip(k));
        let w = utf8_width(ch);
        let ghost nt = out@;
        proof {
            assert(nt.take(k + 1) =~= t.take(k).push(ch));
            lemma_byte_len_step(nt, k);
            assert(nt.take(k) =~= t.take(k));
            lemma_index_at(nt, k + 1);
        }
        self.text = out;
        self.cursor = self.cursor + w;
    }

    /// Deletes the character before the cursor, if there is one.
    pub fn backspace(&mut self)
        requires
            old(self).wf(),
        ensures
            final(self).wf(),
            old(self).cursor == 0 ==> *final(self) == *old(self),
            old(self).cursor > 0 ==> {
                &&& final(self).text@ == old(self).text@.remove(old(self).column() - 1)
                &&& final(self).column() == old(self).column() - 1
                &&& final(self).cursor == byte_len(old(self).text@.take(old(self).column() - 1))
            },
    {
        if self.cursor == 0 {
            return;
        }
        let ghost t = self.text@;
        let ghost k = self.column();
        let v = chars_of(self.text.as_str());
        proof {
            lemma_index_at(t, k);
            assert(t.take(0) =~= Seq::<char>::empty());
            if k == 0 {
                assert(false);
            }
            lemma_byte_len_step(t, k - 1);
        }
        let mut i: usize = 0;
        let mut off: usize = 0;
        let mut previous: usize = 0;
        while off < self.cursor
            invariant
                v@ == t,
                t.len() == v.len(),
                t == self.text@,
                1 <= k <= t.len(),
                byte_len(t.take(k)) == self.cursor,
                i <= k,
                off == byte_len(t.take(i as int)),
                i > 0 ==> previous == byte_len(t.take(i - 1)),
            decreases k - i,
        {
            assert(i < k);
            proof {
                lemma_byte_len_step(t, i as int);
                if i + 1 < k {
                    lemma_byte_len_grows(t, i + 1, k);
                }
            }
            previous = off;
            off = off + utf8_width(v[i]);
            i = i + 1;
        }
        proof {
            if i < k {
                lemma_byte_len_grows(t, i as int, k);
            }
            if i == 0 {
                lemma_byte_len_grows(t, 0, k);
            }
        }
        assert(i == k);
        let mut out = String::new();
        let mut j: usize = 0;
        while j + 1 < i
            invariant
                v@ == t,
                1 <= k <= t.len(),
                i == k,
                j <= k - 1,
                out@ == t.take(j as int),
            decreases i - j,
        {
            push_char(&mut out, v[j]);
            assert(t.take(j + 1) =~= t.take(j as int).push(t[j as int]));
            j = j + 1;
        }
        j = i;
        while j < v.len()
            invariant
                v@ == t,
                1 <= k <= j <= t.len(),
                out@ == t.take(k - 1) + t.subrange(k, j as int),
            decreases v.len() - j,
        {
            push_char(&mut out, v[j]);
            assert(t.subrange(k, j + 1) =~= t.subrange(k, j as int).push(t[j as int]));
            j = j + 1;
        }
        let ghost nt = out@;
        proof {
            assert(nt =~= t.remove(k - 1));
            assert(nt.take(k - 1) =~= t.take(k - 1));
            lemma_index_at(nt, k - 1);
        }
        self.text = out;
        self.cursor = previous;
    }

    /// Moves the cursor one character to the left, if it can.
    pub fn move_left(&mut self)
        requires
            old(self).wf(),
        ensures
            final(self).wf(),
            final(self).text == old(self).text,
            old(self).cursor == 0 ==> final(self).cursor == 0,
            old(self).cursor > 0 ==> final(self).column() == old(self).column() - 1,
    {
        if self.cursor == 0 {
            return;
        }
        let ghost t = self.text@;
        let ghost k = self.column();
        let v = chars_of(self.text.as_str());
        proof {
            lemma_index_at(t, k);
            assert(t.take(0) =~= Seq::<char>::empty());
            if k == 0 {
                assert(false);
            }
            lemma_byte_len_step(t, k - 1);
        }
        let mut i: usize = 0;
        let mut off: usize = 0;
        let mut previous: usize = 0;
        while off < self.cursor
            invariant
                v@ == t,
                t.len() == v.len(),
                t == self.text@,
                1 <= k <= t.len(),
                byte_len(t.take(k)) == self.cursor,
                i <= k,
                off == byte_len(t.take(i as int)),
                i > 0 ==> previous == byte_len(t.take(i - 1)),
            decreases k - i,
        {
            assert(i < k);
            proof {
                lemma_byte_len_step(t, i as int);
                if i + 1 < k {
                    lemma_byte_len_grows(t, i + 1, k);
                }
            }
            previous = off;
            off = off + utf8_width(v[i]);
            i = i + 1;
        }
        proof {
            if i < k {
                lemma_byte_len_grows(t, i as int, k);
            }
            if i == 0 {
                lemma_byte_len_grows(t, 0, k);
            }
            lemma_index_at(t, k - 1);
        }
        self.cursor = previous;
    }

    /// Moves the cursor one character to the right, if it can.
    pub fn move_right(&mut self)
        requires
            old(self).wf(),
        ensures
            final(self).wf(),
            final(self).text == old(self).text,
            old(self).column() == old(self).text@.len() ==> final(self).cursor == old(self).cursor,
            old(self).column() < old(self).text@.len() ==> final(self).column() == old(
                self,
            ).column() + 1,
    {
        let ghost t = self.text@;
        let ghost k = self.column();
        proof {
            lemma_index_at(t, k);
        }
        let n = byte_count(self.text.as_str());
        if self.cursor >= n {
            proof {
                assert(t.take(t.len() as int) =~= t);
                if k < t.len() {
                    lemma_byte_len_grows(t, k, t.len() as int);
                }
            }
            return;
        }
        let v = chars_of(self.text.as_str());
        proof {
            if k == t.len() {
                assert(t.take(t.len() as int) =~= t);
            }
        }
        let mut i: usize = 0;
        let mut off: usize = 0;
        while off < self.cursor
            invariant
                v@ == t,
                t.len() == v.len(),
                t == self.text@,
                0 <= k < t.len(),
                byte_len(t.take(k)) == self.cursor,
                i <= k,
                off == byte_len(t.take(i as int)),
            decreases k - i,
        {
            assert(i < k);
            proof {
                lemma_byte_len_step(t, i as int);
                if i + 1 < k {
                    lemma_byte_len_grows(t, i + 1, k);
                }
            }
            off = off + utf8_width(v[i]);
            i = i + 1;
        }
        proof {
            if i < k {
                lemma_byte_len_grows(t, i as int, k);
            }
        }
        proof {
            lemma_byte_len_step(t, k);
            lemma_prefix_fits(t, k + 1);
            lemma_index_at(t, k + 1);
        }
        self.cursor = self.cursor + utf8_width(v[i]);
    }

    pub fn move_home(&mut self)
        requires
            old(self).wf(),
        ensures
            final(self).wf(),
            final(self).text == old(self).text,
            final(self).cursor == 0,
            final(self).column() == 0,
    {
        proof {
            assert(self.text@.take(0) =~= Seq::<char>::empty());
            lemma_index_at(self.text@, 0);
        }
        self.cursor = 0;
    }

    pub fn move_end(&mut self)
        requires
            old(self).wf(),
        ensures
            final(self).wf(),
            final(self).text == old(self).text,
            final(self).cursor == byte_len(old(self).text@),
            final(self).column() == old(self).text@.len(),
    {
        proof {
            assert(self.text@.take(self.text@.len() as int) =~= self.text@);
            lemma_index_at(self.text@, self.text@.len() as int);
        }
        self.cursor = byte_count(self.text.as_str());
    }

    pub fn clear(&mut self)
        ensures
            final(self).wf(),
            final(self).text@.len() == 0,
            final(self).cursor == 0,
    {
        self.text = String::new();
        self.cursor = 0;
        proof {
            assert(self.text@.take(0) =~= Seq::<char>::empty());
            lemma_index_at(self.text@, 0);
        }
    }

    /// The text with the cursor at its end.
    pub fn from_text(text: String) -> (r: Self)
        ensures
            r.wf(),
            r.text == text,
            r.cursor == byte_len(text@),
            r.column() == text@.len(),
    {
        let cursor = byte_count(text.as_str());
        proof {
            assert(text@.take(text@.len() as int) =~= text@);
            lemma_index_at(text@, text@.len() as int);
        }
        TextBuffer { text, cursor }
    }
}

// ---------------------------------------------------------------------------
// Session state.
// ---------------------------------------------------------------------------

/// Backspace undoes a typed character: from a well-formed buffer, typing
/// `ch` (as `insert` leaves the buffer) and then deleting the character
/// before the cursor (as `backspace` leaves it) gives back the same text with
/// the cursor where it was.
pub proof fn lemma_backspace_undoes_insert(b0: TextBuffer, ch: char, b1: TextBuffer, b2: TextBuffer)
    requires
        b0.wf(),
        b1.wf(),
        b1.text@ == b0.text@.take(b0.column()).push(ch) + b0.text@.skip(b0.column()),
        b1.cursor == b0.cursor + utf8_len(ch),
        b1.column() == b0.column() + 1,
        b2.wf(),
        b1.cursor == 0 ==> b2 == b1,
        b1.cursor > 0 ==> {
            &&& b2.text@ == b1.text@.remove(b1.column() - 1)
            &&& b2.column() == b1.column() - 1
            &&& b2.cursor == byte_len(b1.text@.take(b1.column() - 1))
        },
    ensures
        b2.text@ == b0.text@,
        b2.cursor == b0.cursor,
{
    let t = b0.text@;
    let k = b0.column();
    assert(0 <= k <= t.len() && byte_len(t.take(k)) == b0.cursor);
    assert(b1.text@.remove(k) =~= t);
    assert(b1.text@.take(k) =~= t.take(k));
}

/// Moving the cursor one character left and then one right puts it back
/// where it was, unless it started at the very beginning.
pub proof fn lemma_move_right_undoes_move_left(b0: TextBuffer, b1: TextBuffer, b2: TextBuffer)
    requires
        b0.wf(),
        b0.cursor > 0,
        b1.wf(),
        b1.text == b0.text,
        b1.column() == b0.column() - 1,
        b2.wf(),
        b2.text == b1.text,
        b1.column() == b1.text@.len() ==> b2.cursor == b1.cursor,
        b1.column() < b1.text@.len() ==> b2.column() == b1.column() + 1,
    ensures
        b2.cursor == b0.cursor,
{
    let t = b0.text@;
    let k0 = choose|k: int| 0 <= k <= t.len() && #[trigger] byte_len(t.take(k)) == b0.cursor as int;
    lemma_index_at(t, k0);
    assert(t.take(0) =~= Seq::<char>::empty());
    let k2 = choose|k: int| 0 <= k <= t.len() && #[trigger] byte_len(t.take(k)) == b2.cursor as int;
    lemma_index_at(t, k2);
}

#[derive(Debug, Clone, Copy, PartialEq, Eq, Structural)]
pub enum FocusPane {
    Files,
    Source,
}

#[derive(Debug, Clone, Copy, PartialEq, Eq, Structural)]
pub enum InputMode {
    Normal,
    Visual,
    Draft,
    DraftConfirm,
    ThreadView,
    FilePicker,
    Search,
    Help,
    CommitSelect,
}

#[derive(Debug, Clone, Copy, PartialEq, Eq, Structural)]
pub enum DraftKind {
    Question,
    Note,
}

/// What a draft will change when it is committed.
#[derive(Debug, Clone, Copy, PartialEq, Eq, Structural)]
pub enum DraftTarget {
    New,
    EditNote { index: usize },
    EditQuestionPrompt { index: usize },
    EditQuestionMessage { question_index: usize, message_index: usize },
    ContinueQuestion { index: usize },
}

#[derive(Debug, Clone)]
pub struct PromptDraft {
    pub kind: DraftKind,
    pub target: DraftTarget,
    pub path: String,
    pub anchor: Anchor,
    pub related_note_ids: Vec<String>,
    pub buffer: TextBuffer,
    pub original_text: String,
}

impl PromptDraft {
    /// Whether the text differs from what the draft started with, ignoring
    /// surrounding white space.
    pub fn is_dirty(&self) -> (r: bool)
        ensures
            r == (trim(self.buffer.text@) != trim(self.original_text@)),
    {
        let now = trim_string(self.buffer.text.as_str());
        let before = trim_string(self.original_text.as_str());
        !str_eq(now.as_str(), before.as_str())
    }
}

#[derive(Debug, Clone)]
pub struct FilePickerState {
    pub query: TextBuffer,
    pub candidates: Vec<String>,
    pub matches: Vec<String>,
    pub selected: usize,
}

#[derive(Debug, Clone)]
pub struct SearchMatch {
    pub path: String,
    pub line: usize,
    pub label: String,
    pub preview: String,
}

#[derive(Debug, Clone)]
pub struct SearchState {
    pub query: TextBuffer,
    pub candidates: Vec<SearchMatch>,
    pub matches: Vec<SearchMatch>,
    pub selected: usize,
}

#[derive(Debug, Clone, Copy, PartialEq, Eq, Structural)]
pub struct ThreadViewState {
    pub question_index: usize,
    pub scroll: usize,
    pub total_rows: usize,
    pub viewport_height: usize,
}

/// Where the rows of the source view fall: the first row of each source line,
/// the lines that carry cards, and the sizes.
#[derive(Debug, Clone)]
pub struct ViewMetrics {
    pub line_to_row: Vec<usize>,
    pub annotation_lines: Vec<usize>,
    pub total_rows: usize,
    pub viewport_height: usize,
}

impl Default for ViewMetrics {
    fn default() -> (r: Self)
        ensures
            r.line_to_row@.len() == 0,
            r.annotation_lines@.len() == 0,
            r.total_rows == 0,
            r.viewport_height == 0,
    {
        ViewMetrics {
            line_to_row: Vec::new(),
            annotation_lines: Vec::new(),
            total_rows: 0,
            viewport_height: 0,
        }
    }
}

#[derive(Debug, Clone)]
pub struct DiffViewMetrics {
    pub file_rows: Vec<usize>,
    pub annotation_rows: Vec<usize>,
    pub rows: Vec<DiffRow>,
    pub total_rows: usize,
    pub viewport_height: usize,
}

impl Default for DiffViewMetrics {
    fn default() -> (r: Self)
        ensures
            r.file_rows@.len() == 0,
            r.annotation_rows@.len() == 0,
            r.rows@.len() == 0,
            r.total_rows == 0,
            r.viewport_height == 0,
    {
        DiffViewMetrics {
            file_rows: Vec::new(),
            annotation_rows: Vec::new(),
            rows: Vec::new(),
            total_rows: 0,
            viewport_height: 0,
        }
    }
}

/// A tracked file as read from the workspace: its lines and their
/// highlighting, or why it could not be read.
#[derive(Debug, Clone)]
pub struct LoadedFile {
    pub path: String,
    pub lines: Vec<String>,
    pub highlighted_lines: Vec<StyledSegments>,
    pub load_error: Option<String>,
}

#[derive(Debug, Clone, Copy, PartialEq, Eq, Structural)]
pub enum BrowserMode {
    Source,
    Diff,
}

/// A hidden stretch of unchanged lines before a hunk.
#[derive(Debug, Clone, Copy, PartialEq, Eq, Structural, Hash)]
pub struct GapId {
    pub file_idx: usize,
    pub hunk_idx: usize,
}

/// What a row of the diff view shows.
#[derive(Debug, Clone)]
pub enum DiffRow {
    FileHeader,
    GapExpander { gap_id: GapId },
    ExpandedContext { file_idx: usize, gap_id: GapId, context_idx: usize },
    HunkHeader,
    DiffLine { file_idx: usize, hunk_idx: usize, line_idx: usize },
    Annotation { path: String, line_no: usize },
    FileEnd,
}

/// The diff browser: the commits offered, the range chosen, the files of the
/// diff and a cursor over its rows, the gaps opened, and the files reviewed.
pub struct DiffBrowserState {
    pub commit_options: Vec<CommitInfo>,
    pub active_review_entries: Vec<CommitInfo>,
    pub commit_cursor: usize,
    pub commit_selection_range: Option<(usize, usize)>,
    pub selection: Option<DiffSelection>,
    pub files: Vec<DiffFile>,
    pub current_file: usize,
    pub cursor_row: usize,
    pub scroll: usize,
    pub view_metrics: DiffViewMetrics,
    /// The gaps opened, each with the lines shown in it; no gap twice.
    pub expanded: Vec<(GapId, Vec<DiffLine>)>,
    /// The paths marked reviewed; none twice.
    pub reviewed_paths: Vec<String>,
    pub visual_anchor_row: Option<usize>,
}

/// Outside work the session waits for. The terminal loop performs it and
/// hands the result to the method named.
pub enum Pending {
    /// Read the files `tracked_paths` lists, in that order, and hand them to
    /// `files_loaded`.
    Reload(AfterReload),
    /// List the workspace's files and hand them to `begin_file_picker`; the
    /// message, if any, replaces the picker's own once it opens.
    ListWorkspace(Option<String>),
    /// Compute the diff of the selection and hand its files to `diff_loaded`.
    Diff(DiffSelection, AfterDiff),
    /// Read lines `start_line..=end_line` (new side) of the file of the gap
    /// and hand them to `context_loaded`.
    Context { gap_id: GapId, start_line: usize, end_line: usize },
}

/// What finishes once a diff has been computed.
pub enum AfterDiff {
    /// A range was just chosen in the commit selector.
    Confirmed,
    /// The diff was computed again on request.
    Reloaded,
}

/// What finishes once the tracked files have been read again.
pub enum AfterReload {
    /// The session was just opened.
    Opened,
    /// A file was added from the picker.
    Picked(String),
    /// A file was removed, with the counts of notes and questions purged.
    Removed { path: String, notes: usize, questions: usize },
    /// The sources were refreshed on request.
    Refreshed,
    /// A diff review was opened; the files are only kept.
    Background,
}

pub struct App {
    pub root: String,
    pub packet_path: String,
    pub packet: Packet,
    pub output_to_stdout: bool,
    pub files: Vec<LoadedFile>,
    pub current_file: usize,
    pub cursor_line: usize,
    pub scroll: usize,
    pub focus: FocusPane,
    pub input_mode: InputMode,
    pub draft: Option<PromptDraft>,
    pub file_picker: Option<FilePickerState>,
    pub search: Option<SearchState>,
    pub thread_view: Option<ThreadViewState>,
    pub visual_anchor: Option<usize>,
    pub view_metrics: ViewMetrics,
    pub browser_mode: BrowserMode,
    pub diff_browser: Option<DiffBrowserState>,
    pub message: Option<String>,
    pub should_quit: bool,
    pub dirty: bool,
    pub discard_guard: bool,
    pub quit_notice: Option<String>,
    pub quit_export: Option<String>,
    pub composer_cursor_screen_pos: Option<(u16, u16)>,
    pub pending: Option<Pending>,
}

/// Whether the message shown is `text`.
pub open spec fn says(message: Option<String>, text: Seq<char>) -> bool {
    message matches Some(m) && m@ == text
}

/// The path of file `i`, or the empty text when there is no such file.
pub open spec fn path_at(files: Seq<LoadedFile>, i: int) -> Seq<char> {
    if 0 <= i < files.len() {
        files[i].path@
    } else {
        Seq::empty()
    }
}

/// The last line of file `i` the cursor may reach: its line count, at least 1.
pub open spec fn last_line_of(files: Seq<LoadedFile>, i: int) -> int {
    if 0 <= i < files.len() && files[i].lines@.len() > 1 {
        files[i].lines@.len() as int
    } else {
        1
    }
}

pub open spec fn clamp(x: int, low: int, high: int) -> int {
    if x < low {
        low
    } else if x > high {
        high
    } else {
        x
    }
}

pub open spec fn sat_sub(a: int, b: int) -> int {
    if a >= b {
        a - b
    } else {
        0
    }
}

/// The scroll offset after bringing `row` into a viewport of `viewport_height`
/// rows (at least 1) that starts at `scroll`, never past the last full page.
pub open spec fn scroll_to_show(row: int, scroll: int, viewport_height: int, total_rows: int) -> int {
    let height = if viewport_height < 1 {
        1
    } else {
        viewport_height
    };
    let moved = if row < scroll {
        row
    } else if row >= scroll + height {
        sat_sub(row + 1, height)
    } else {
        scroll
    };
    let most = sat_sub(total_rows, height);
    if moved < most {
        moved
    } else {
        most
    }
}

/// The first row of source line `line` (the last known row past the end).
pub open spec fn row_of_line(line_to_row: Seq<usize>, line: int) -> int {
    let index = sat_sub(line, 1);
    if index < line_to_row.len() {
        line_to_row[index] as int
    } else {
        line_to_row.last() as int
    }
}

/// The source view's scroll offset once the cursor line is shown.
pub open spec fn source_scroll(m: ViewMetrics, line: int, scroll: int) -> int {
    if m.line_to_row@.len() == 0 {
        0
    } else {
        scroll_to_show(row_of_line(m.line_to_row@, line), scroll, m.viewport_height as int, m.total_rows as int)
    }
}

/// The index of the last element with the property, if any.
pub open spec fn last_index_where<T>(s: Seq<T>, p: spec_fn(T) -> bool) -> Option<int>
    decreases s.len(),
{
    if s.len() == 0 {
        None
    } else if p(s.last()) {
        Some(s.len() - 1)
    } else {
        last_index_where(s.drop_last(), p)
    }
}

pub proof fn lemma_last_index_where<T>(s: Seq<T>, p: spec_fn(T) -> bool, j: int)
    requires
        0 <= j <= s.len(),
        forall|k: int| j <= k < s.len() ==> !p(#[trigger] s[k]),
    ensures
        last_index_where(s, p) == last_index_where(s.take(j), p),
    decreases s.len() - j,
{
    if j < s.len() {
        assert(s.drop_last() =~= s.take(s.len() - 1));
        lemma_last_index_where(s.take(s.len() - 1), p, j);
        assert(s.take(s.len() - 1).take(j) =~= s.take(j));
    } else {
        assert(s.take(j) =~= s);
    }
}

pub proof fn lemma_last_index_where_found<T>(s: Seq<T>, p: spec_fn(T) -> bool, j: int)
    requires
        0 <= j < s.len(),
        p(s[j]),
        forall|k: int| j < k < s.len() ==> !p(#[trigger] s[k]),
    ensures
        last_index_where(s, p) == Some(j),
{
    lemma_last_index_where(s, p, j + 1);
    assert(s.take(j + 1).last() == s[j]);
}

pub open spec fn note_at(path: Seq<char>, line: int) -> spec_fn(NoteView) -> bool {
    |n: NoteView| n.path == path && covers(n.anchor, line)
}

pub open spec fn question_at(path: Seq<char>, line: int) -> spec_fn(QuestionView) -> bool {
    |q: QuestionView| q.path == path && (q.anchor matches Some(a) && covers(a, line))
}

pub open spec fn open_question_at(path: Seq<char>, line: int) -> spec_fn(QuestionView) -> bool {
    |q: QuestionView|
        q.path == path && q.status == QuestionStatus::Open && (q.anchor matches Some(a) && covers(
            a,
            line,
        ))
}

pub open spec fn user_message() -> spec_fn(MessageView) -> bool {
    |m: MessageView| m.role == QuestionMessageRole::User
}

/// The index of the thread's latest follow-up from the user, if any.
pub fn latest_user_message_index(question: &Question) -> (r: Option<usize>)
    ensures
        r == match last_index_where(question@.conversation, user_message()) {
            Some(i) => Some(i as usize),
            None => None::<usize>,
        },
{
    let ghost ms = question@.conversation;
    let mut j: usize = question.conversation.len();
    while j > 0
        invariant
            j <= ms.len(),
            ms == question@.conversation,
            forall|k: int| j <= k < ms.len() ==> !user_message()(#[trigger] ms[k]),
        decreases j,
    {
        if question.conversation[j - 1].role == QuestionMessageRole::User {
            proof {
                lemma_last_index_where_found(ms, user_message(), j - 1);
            }
            return Some(j - 1);
        }
        j = j - 1;
    }
    proof {
        lemma_last_index_where(ms, user_message(), 0);
        assert(ms.take(0).len() == 0);
    }
    None
}

/// The label a thread's status gets in the search list.
pub open spec fn status_word(status: QuestionStatus) -> Seq<char> {
    match status {
        QuestionStatus::Open => "open"@,
        QuestionStatus::Answered => "answered"@,
        QuestionStatus::Archived => "archived"@,
    }
}

pub fn question_status_label(status: QuestionStatus) -> (r: &'static str)
    ensures
        r@ == status_word(status),
{
    match status {
        QuestionStatus::Open => "open",
        QuestionStatus::Answered => "answered",
        QuestionStatus::Archived => "archived",
    }
}

// ---------------------------------------------------------------------------
// The commit selector across a refresh.
// ---------------------------------------------------------------------------

pub open spec fn commit_ids(s: Seq<CommitInfo>) -> Seq<Seq<char>> {
    s.map_values(|c: CommitInfo| c.id@)
}

/// The positions in `refreshed` of the ids in `wanted` that it still has, in
/// the order of `wanted`.
pub open spec fn found_positions(wanted: Seq<Seq<char>>, refreshed: Seq<Seq<char>>) -> Seq<int>
    decreases wanted.len(),
{
    if wanted.len() == 0 {
        Seq::empty()
    } else {
        let rest = found_positions(wanted.drop_last(), refreshed);
        match first_index(refreshed, wanted.last()) {
            Some(i) => rest.push(i),
            None => rest,
        }
    }
}

pub open spec fn seq_min(s: Seq<int>) -> int
    decreases s.len(),
{
    if s.len() <= 1 {
        s[0]
    } else {
        let m = seq_min(s.drop_last());
        if s.last() < m { s.last() } else { m }
    }
}

pub open spec fn seq_max(s: Seq<int>) -> int
    decreases s.len(),
{
    if s.len() <= 1 {
        s[0]
    } else {
        let m = seq_max(s.drop_last());
        if s.last() > m { s.last() } else { m }
    }
}

/// The entries `start..=end` selected before, when that range is valid.
pub open spec fn selected_entries(previous: Seq<CommitInfo>, selection: Option<(usize, usize)>) -> Option<Seq<CommitInfo>> {
    match selection {
        Some((start, end)) => if start <= end + 1 <= previous.len() {
            Some(previous.subrange(start as int, end + 1))
        } else {
            None
        },
        None => None,
    }
}

/// The cursor and selection of the commit selector after its entries are
/// fetched again: the selection becomes the span of the selected entries still
/// offered, the cursor follows its entry, else goes to the selection's end,
/// else to the top.
pub open spec fn restored_selector(
    previous: Seq<CommitInfo>,
    previous_cursor: usize,
    previous_selection: Option<(usize, usize)>,
    refreshed: Seq<CommitInfo>,
) -> (int, Option<(int, int)>) {
    if refreshed.len() == 0 {
        (0, None)
    } else {
        let found = match selected_entries(previous, previous_selection) {
            Some(entries) => found_positions(commit_ids(entries), commit_ids(refreshed)),
            None => Seq::empty(),
        };
        let selection = if found.len() == 0 {
            None
        } else {
            Some((seq_min(found), seq_max(found)))
        };
        let followed = if previous_cursor < previous.len() {
            first_index(commit_ids(refreshed), previous[previous_cursor as int].id@)
        } else {
            None
        };
        let cursor = match followed {
            Some(i) => i,
            None => match selection {
                Some((_, end)) => end,
                None => 0,
            },
        };
        (cursor, selection)
    }
}

proof fn lemma_first_index_bounds(ids: Seq<Seq<char>>, id: Seq<char>)
    ensures
        first_index(ids, id) matches Some(i) ==> 0 <= i < ids.len() && ids[i] == id,
    decreases ids.len(),
{
    if ids.len() > 0 {
        lemma_first_index_bounds(ids.drop_first(), id);
    }
}

/// The position of the first entry with this id.
fn position_of_id(entries: &Vec<CommitInfo>, id: &str) -> (r: Option<usize>)
    ensures
        match r {
            Some(j) => first_index(commit_ids(entries@), id@) == Some(j as int),
            None => first_index(commit_ids(entries@), id@) is None,
        },
{
    let ghost ids = commit_ids(entries@);
    let mut j: usize = 0;
    while j < entries.len()
        invariant
            j <= entries@.len(),
            ids == commit_ids(entries@),
            forall|k: int| 0 <= k < j ==> ids[k] != id@,
        decreases entries.len() - j,
    {
        if str_eq(entries[j].id.as_str(), id) {
            proof {
                crate::answer_plan::lemma_first_index(ids, id@, j as int);
            }
            return Some(j);
        }
        j = j + 1;
    }
    proof {
        crate::answer_plan::lemma_first_index(ids, id@, j as int);
    }
    None
}

pub fn restore_commit_selector_state(
    previous_options: &Vec<CommitInfo>,
    previous_cursor: usize,
    previous_selection: Option<(usize, usize)>,
    refreshed_options: &Vec<CommitInfo>,
) -> (r: (usize, Option<(usize, usize)>))
    ensures
        r.0 as int == restored_selector(previous_options@, previous_cursor, previous_selection, refreshed_options@).0,
        match restored_selector(previous_options@, previous_cursor, previous_selection, refreshed_options@).1 {
            Some((a, b)) => r.1 == Some((a as usize, b as usize)),
            None => r.1 is None,
        },
{
    if refreshed_options.len() == 0 {
        return (0, None);
    }
    let ghost refreshed_ids = commit_ids(refreshed_options@);
    let ghost found = match selected_entries(previous_options@, previous_selection) {
        Some(entries) => found_positions(commit_ids(entries), refreshed_ids),
        None => Seq::<int>::empty(),
    };
    let mut low: usize = 0;
    let mut high: usize = 0;
    let mut any = false;
    match previous_selection {
        Some((start, end)) => {
            if start <= end && end < previous_options.len() || (end < usize::MAX && start == end + 1 && end + 1 <= previous_options.len()) {
                let ghost entries = previous_options@.subrange(start as int, end + 1);
                let ghost wanted = commit_ids(entries);
                let mut i: usize = start;
                while i <= end && i < previous_options.len()
                    invariant
                        start <= i,
                        start <= end + 1 <= previous_options@.len(),
                        i <= end + 1,
                        entries == previous_options@.subrange(start as int, end + 1),
                        wanted == commit_ids(entries),
                        refreshed_ids == commit_ids(refreshed_options@),
                        any == (found_positions(wanted.take(i - start), refreshed_ids).len() > 0),
                        any ==> low == seq_min(found_positions(wanted.take(i - start), refreshed_ids)),
                        any ==> high == seq_max(found_positions(wanted.take(i - start), refreshed_ids)),
                        forall|q: int| 0 <= q < found_positions(wanted.take(i - start), refreshed_ids).len() ==> 0 <= #[trigger] found_positions(wanted.take(i - start), refreshed_ids)[q] < refreshed_ids.len(),
                    decreases end + 1 - i,
                {
                    let ghost before = found_positions(wanted.take(i - start), refreshed_ids);
                    assert(wanted.take(i - start + 1).drop_last() =~= wanted.take(i - start));
                    assert(wanted.take(i - start + 1).last() == previous_options@[i as int].id@);
                    proof {
                        lemma_first_index_bounds(refreshed_ids, previous_options@[i as int].id@);
                    }
                    let ghost after = found_positions(wanted.take(i - start + 1), refreshed_ids);
                    match position_of_id(refreshed_options, previous_options[i].id.as_str()) {
                        Some(p) => {
                            assert(first_index(refreshed_ids, previous_options@[i as int].id@) == Some(p as int));
                            assert(after == before.push(p as int));
                            assert(after.drop_last() =~= before);
                            if !any {
                                low = p;
                                high = p;
                                any = true;
                            } else {
                                if p < low {
                                    low = p;
                                }
                                if p > high {
                                    high = p;
                                }
                            }
                            assert(forall|q: int| 0 <= q < after.len() ==> 0 <= #[trigger] after[q] < refreshed_ids.len());
                        },
                        None => {
                            assert(after == before);
                        },
                    }
                    i = i + 1;
                }
                assert(wanted.take(i - start) =~= wanted);
                assert(found == found_positions(wanted, refreshed_ids));
            } else {
                assert(found.len() == 0);
            }
        },
        None => {},
    }
    assert(any == (found.len() > 0));
    let selection = if any {
        Some((low, high))
    } else {
        None
    };
    let followed = if previous_cursor < previous_options.len() {
        position_of_id(refreshed_options, previous_options[previous_cursor].id.as_str())
    } else {
        None
    };
    let cursor = match followed {
        Some(i) => i,
        None => match selection {
            Some((_, end)) => end,
            None => 0,
        },
    };
    (cursor, selection)
}

// ---------------------------------------------------------------------------
// Opening a session, and the files it shows.
// ---------------------------------------------------------------------------

/// The paths that occur, each once, in order of first occurrence.
pub open spec fn first_occurrences(paths: Seq<Seq<char>>) -> Seq<Seq<char>>
    decreases paths.len(),
{
    if paths.len() == 0 {
        Seq::empty()
    } else {
        let rest = first_occurrences(paths.drop_last());
        if rest.contains(paths.last()) {
            rest
        } else {
            rest.push(paths.last())
        }
    }
}

/// Every path the packet mentions: tracked files, then notes, then questions.
pub open spec fn mentioned_paths(p: PacketView) -> Seq<Seq<char>> {
    p.files.map_values(|f: crate::model::TrackedFileView| f.path) + p.notes.map_values(
        |n: NoteView| n.path,
    ) + p.questions.map_values(|q: QuestionView| q.path)
}

proof fn lemma_first_occurrences_step(paths: Seq<Seq<char>>, i: int)
    requires
        0 <= i < paths.len(),
    ensures
        first_occurrences(paths.take(i + 1)) == ({
            let rest = first_occurrences(paths.take(i));
            if rest.contains(paths[i]) {
                rest
            } else {
                rest.push(paths[i])
            }
        }),
{
    assert(paths.take(i + 1).drop_last() =~= paths.take(i));
}

/// Whether `v` holds a string equal to `s`.
pub fn contains_str(v: &Vec<String>, s: &str) -> (r: bool)
    ensures
        r == v.deep_view().contains(s@),
{
    let mut i: usize = 0;
    while i < v.len()
        invariant
            i <= v@.len(),
            forall|k: int| 0 <= k < i ==> v.deep_view()[k] != s@,
        decreases v.len() - i,
    {
        if str_eq(v[i].as_str(), s) {
            assert(v.deep_view()[i as int] == s@);
            return true;
        }
        i = i + 1;
    }
    false
}

/// Appends `path` unless it is already there.
fn push_new_path(out: &mut Vec<String>, path: &String)
    ensures
        final(out).deep_view() == if old(out).deep_view().contains(path@) {
            old(out).deep_view()
        } else {
            old(out).deep_view().push(path@)
        },
{
    if !contains_str(out, path.as_str()) {
        let ghost before = out.deep_view();
        out.push(path.clone());
        assert(out.deep_view() =~= before.push(path@));
    }
}

/// The files a session shows, in order: each path the packet mentions, once.
pub fn tracked_paths(packet: &Packet) -> (r: Vec<String>)
    ensures
        r.deep_view() == first_occurrences(mentioned_paths(packet@)),
{
    let ghost all = mentioned_paths(packet@);
    let ghost nf = packet.files@.len() as int;
    let ghost nn = packet.notes@.len() as int;
    let mut out: Vec<String> = Vec::new();
    let mut i: usize = 0;
    assert(all.take(0) =~= Seq::<Seq<char>>::empty());
    while i < packet.files.len()
        invariant
            i <= packet.files@.len(),
            all == mentioned_paths(packet@),
            nf == packet.files@.len(),
            out.deep_view() == first_occurrences(all.take(i as int)),
        decreases packet.files.len() - i,
    {
        proof {
            lemma_first_occurrences_step(all, i as int);
        }
        push_new_path(&mut out, &packet.files[i].path);
        i = i + 1;
    }
    let mut j: usize = 0;
    while j < packet.notes.len()
        invariant
            j <= packet.notes@.len(),
            all == mentioned_paths(packet@),
            nf == packet.files@.len(),
            out.deep_view() == first_occurrences(all.take(nf + j)),
        decreases packet.notes.len() - j,
    {
        proof {
            lemma_first_occurrences_step(all, nf + j);
        }
        push_new_path(&mut out, &packet.notes[j].path);
        j = j + 1;
    }
    let mut k: usize = 0;
    while k < packet.questions.len()
        invariant
            k <= packet.questions@.len(),
            all == mentioned_paths(packet@),
            nf == packet.files@.len(),
            nn == packet.notes@.len(),
            out.deep_view() == first_occurrences(all.take(nf + nn + k)),
        decreases packet.questions.len() - k,
    {
        proof {
            lemma_first_occurrences_step(all, nf + nn + k);
        }
        push_new_path(&mut out, &packet.questions[k].path);
        k = k + 1;
    }
    assert(all.take(nf + nn + k) =~= all);
    out
}

/// A tracked file as the session shows it: its text split into lines
/// (`str::lines`) and highlighted (see `Highlighter::highlight_file`), or,
/// when it could not be read, no lines and the reason.
pub fn loaded_file(highlighter: &Highlighter, theme: SyntaxTheme, path: String, contents: Result<String, String>) -> (r: LoadedFile)
    ensures
        r.path@ == path@,
        match contents {
            Ok(text) => {
                &&& r.lines.deep_view() == crate::text::lines(text@)
                &&& r.highlighted_lines@.len() == r.lines@.len()
                &&& r.load_error is None
                &&& runs_view(r.highlighted_lines@) == file_runs(path@, theme, r.lines.deep_view())
                &&& forall|i: int|
                    0 <= i < r.lines@.len() ==> run_text(segments_view(#[trigger] r.highlighted_lines@[i])) == r.lines@[i]@
            },
            Err(e) => {
                &&& r.lines@.len() == 0
                &&& r.highlighted_lines@.len() == 0
                &&& r.load_error matches Some(m) && m@ == e@
            },
        },
{
    match contents {
        Ok(text) => {
            let lines = crate::text::split_lines(text.as_str());
            let highlighted_lines = highlighter.highlight_file(theme, path.as_str(), &lines);
            LoadedFile { path, lines, highlighted_lines, load_error: None }
        },
        Err(e) => LoadedFile { path, lines: Vec::new(), highlighted_lines: Vec::new(), load_error: Some(e) },
    }
}

/// The session with its source view scrolled to show the cursor line.
pub open spec fn source_shown(a: App) -> App {
    App { scroll: source_scroll(a.view_metrics, a.cursor_line as int, a.scroll as int) as usize, ..a }
}

/// The session with `f` applied to its diff browser, if it has one.
pub open spec fn with_browser(a: App, f: spec_fn(DiffBrowserState) -> DiffBrowserState) -> App {
    App {
        diff_browser: match a.diff_browser {
            Some(b) => Some(f(b)),
            None => None,
        },
        ..a
    }
}

impl App {
    /// A session over `packet` in source mode, waiting for its tracked files
    /// to be read (`files_loaded`).
    pub fn new(packet_path: String, packet: Packet, output_to_stdout: bool) -> (r: Self)
        ensures
            r.root@ == packet@.workspace_root,
            r.packet_path == packet_path,
            r.packet == packet,
            r.output_to_stdout == output_to_stdout,
            r.files@.len() == 0,
            r.current_file == 0,
            r.cursor_line == 1,
            r.scroll == 0,
            r.focus == FocusPane::Files,
            r.input_mode == InputMode::Normal,
            r.draft is None,
            r.file_picker is None,
            r.search is None,
            r.thread_view is None,
            r.visual_anchor is None,
            r.view_metrics.line_to_row@.len() == 0,
            r.view_metrics.annotation_lines@.len() == 0,
            r.browser_mode == BrowserMode::Source,
            r.diff_browser is None,
            r.message is None,
            !r.should_quit,
            !r.dirty,
            !r.discard_guard,
            r.pending == Some(Pending::Reload(AfterReload::Opened)),
    {
        let root = packet.workspace_root.clone();
        App {
            root,
            packet_path,
            packet,
            output_to_stdout,
            files: Vec::new(),
            current_file: 0,
            cursor_line: 1,
            scroll: 0,
            focus: FocusPane::Files,
            input_mode: InputMode::Normal,
            draft: None,
            file_picker: None,
            search: None,
            thread_view: None,
            visual_anchor: None,
            view_metrics: ViewMetrics::default(),
            browser_mode: BrowserMode::Source,
            diff_browser: None,
            message: None,
            should_quit: false,
            dirty: false,
            discard_guard: false,
            quit_notice: None,
            quit_export: None,
            composer_cursor_screen_pos: None,
            pending: Some(Pending::Reload(AfterReload::Opened)),
        }
    }

    pub fn clear_message(&mut self)
        ensures
            final(self).message is None,
    {
        self.message = None;
    }

    pub fn is_diff_mode(&self) -> (r: bool)
        ensures
            r == (self.browser_mode == BrowserMode::Diff),
    {
        self.browser_mode == BrowserMode::Diff
    }

    /// The path of the file shown, or the empty text when there is none.
    pub fn current_path(&self) -> (r: &str)
        ensures
            r@ == path_at(self.files@, self.current_file as int),
    {
        if self.current_file < self.files.len() {
            self.files[self.current_file].path.as_str()
        } else {
            proof {
                reveal_strlit("");
            }
            ""
        }
    }

    /// The last line the cursor may reach in the file shown.
    pub fn max_source_line(&self) -> (r: usize)
        ensures
            r == last_line_of(self.files@, self.current_file as int),
    {
        if self.current_file < self.files.len() {
            let n = self.files[self.current_file].lines.len();
            if n > 1 {
                n
            } else {
                1
            }
        } else {
            1
        }
    }


    /// Scrolls the source view so that the cursor line is shown.
    fn ensure_source_cursor_visible(&mut self)
        ensures
            *final(self) == source_shown(*old(self)),
    {
        let n = self.view_metrics.line_to_row.len();
        if n == 0 {
            self.scroll = 0;
            return;
        }
        let index = if self.cursor_line >= 1 {
            self.cursor_line - 1
        } else {
            0
        };
        let row = if index < n {
            self.view_metrics.line_to_row[index]
        } else {
            self.view_metrics.line_to_row[n - 1]
        };
        let height = if self.view_metrics.viewport_height >= 1 {
            self.view_metrics.viewport_height
        } else {
            1
        };
        let mut scroll = self.scroll;
        if row < scroll {
            scroll = row;
        } else if row - scroll >= height {
            scroll = if row < usize::MAX {
                row + 1 - height
            } else {
                row - height + 1
            };
        }
        let most = if self.view_metrics.total_rows >= height {
            self.view_metrics.total_rows - height
        } else {
            0
        };
        if scroll > most {
            scroll = most;
        }
        self.scroll = scroll;
    }
}

/// Once the cursor row is brought into view, it lies within the viewport.
pub proof fn lemma_scroll_shows_row(row: int, scroll: int, viewport_height: int, total_rows: int)
    requires
        0 <= row < total_rows,
        0 <= scroll,
    ensures
        ({
            let s = scroll_to_show(row, scroll, viewport_height, total_rows);
            let height = if viewport_height < 1 { 1 } else { viewport_height };
            0 <= s <= row < s + height
        }),
{
}

// ---------------------------------------------------------------------------
// Moving through the diff.
// ---------------------------------------------------------------------------

pub open spec fn row_at_most(row: int) -> spec_fn(usize) -> bool {
    |r: usize| r <= row
}

/// The file whose rows contain `row`: the last file starting at or before it.
pub open spec fn file_under(file_rows: Seq<usize>, row: int) -> int {
    match last_index_where(file_rows, row_at_most(row)) {
        Some(i) => i,
        None => 0,
    }
}

pub open spec fn row_after(row: int) -> spec_fn(usize) -> bool {
    |r: usize| r > row
}

pub open spec fn row_before(row: int) -> spec_fn(usize) -> bool {
    |r: usize| r < row
}

/// The index of the first element with the property, if any.
pub open spec fn first_index_where<T>(s: Seq<T>, p: spec_fn(T) -> bool) -> Option<int>
    decreases s.len(),
{
    if s.len() == 0 {
        None
    } else if p(s[0]) {
        Some(0)
    } else {
        match first_index_where(s.drop_first(), p) {
            Some(i) => Some(i + 1),
            None => None,
        }
    }
}

pub proof fn lemma_first_index_where<T>(s: Seq<T>, p: spec_fn(T) -> bool, j: int)
    requires
        0 <= j <= s.len(),
        forall|k: int| 0 <= k < j ==> !p(#[trigger] s[k]),
        j < s.len() ==> p(s[j]),
    ensures
        j < s.len() ==> first_index_where(s, p) == Some(j),
        j == s.len() ==> first_index_where(s, p) is None,
    decreases j,
{
    if s.len() > 0 && j > 0 {
        lemma_first_index_where(s.drop_first(), p, j - 1);
    }
}

/// The next marked position after `at`, wrapping to the first.
pub open spec fn next_wrapping(marks: Seq<usize>, at: int) -> Option<usize> {
    match first_index_where(marks, row_after(at)) {
        Some(i) => Some(marks[i]),
        None => if marks.len() > 0 {
            Some(marks[0])
        } else {
            None
        },
    }
}

/// The previous marked position before `at`, wrapping to the last.
pub open spec fn previous_wrapping(marks: Seq<usize>, at: int) -> Option<usize> {
    match last_index_where(marks, row_before(at)) {
        Some(i) => Some(marks[i]),
        None => if marks.len() > 0 {
            Some(marks.last())
        } else {
            None
        },
    }
}

pub open spec fn strictly_increasing(s: Seq<usize>) -> bool {
    forall|i: int, j: int| 0 <= i < j < s.len() ==> s[i] < s[j]
}

proof fn lemma_no_mark_before_first(marks: Seq<usize>)
    requires
        strictly_increasing(marks),
        marks.len() > 0,
    ensures
        last_index_where(marks, row_before(marks[0] as int)) is None,
{
    assert forall|k: int| 0 <= k < marks.len() implies !row_before(marks[0] as int)(#[trigger] marks[k]) by {
        if k > 0 {
            assert(marks[0] < marks[k]);
        }
    }
    lemma_last_index_where(marks, row_before(marks[0] as int), 0);
    assert(marks.take(0).len() == 0);
}

proof fn lemma_mark_after(marks: Seq<usize>, k: int)
    requires
        strictly_increasing(marks),
        0 <= k < marks.len(),
    ensures
        k + 1 < marks.len() ==> next_wrapping(marks, marks[k] as int) == Some(marks[k + 1]),
        k + 1 == marks.len() ==> next_wrapping(marks, marks[k] as int) == Some(marks[0]),
{
    let j = k + 1;
    assert forall|i: int| 0 <= i < j implies !row_after(marks[k] as int)(#[trigger] marks[i]) by {
        if i < k {
            assert(marks[i] < marks[k]);
        }
    }
    if j < marks.len() {
        assert(marks[k] < marks[j]);
        assert(row_after(marks[k] as int)(marks[j]));
    }
    lemma_first_index_where(marks, row_after(marks[k] as int), j);
}

proof fn lemma_mark_before(marks: Seq<usize>, k: int)
    requires
        strictly_increasing(marks),
        0 <= k < marks.len(),
    ensures
        k > 0 ==> previous_wrapping(marks, marks[k] as int) == Some(marks[k - 1]),
        k == 0 ==> previous_wrapping(marks, marks[k] as int) == Some(marks.last()),
{
    if k > 0 {
        assert(marks[k - 1] < marks[k]);
        assert(row_before(marks[k] as int)(marks[k - 1]));
        assert forall|i: int| k - 1 < i < marks.len() implies !row_before(marks[k] as int)(#[trigger] marks[i]) by {
            if i > k {
                assert(marks[k] < marks[i]);
            }
        }
        lemma_last_index_where_found(marks, row_before(marks[k] as int), k - 1);
    } else {
        lemma_no_mark_before_first(marks);
    }
}

/// Jumping to the next annotated line and then back to the previous one
/// returns to the line one started on, and so does the reverse, wrapping
/// around at either end: from any of a strictly increasing run of marks.
pub proof fn lemma_next_and_previous_annotation_undo(marks: Seq<usize>, k: int)
    requires
        strictly_increasing(marks),
        0 <= k < marks.len(),
    ensures
        next_wrapping(marks, marks[k] as int) matches Some(n) && previous_wrapping(marks, n as int) == Some(
            marks[k],
        ),
        previous_wrapping(marks, marks[k] as int) matches Some(p) && next_wrapping(marks, p as int) == Some(
            marks[k],
        ),
{
    let len = marks.len() as int;
    lemma_mark_after(marks, k);
    lemma_mark_before(marks, k);
    if k + 1 < len {
        lemma_mark_before(marks, k + 1);
    } else {
        lemma_mark_before(marks, 0);
    }
    if k > 0 {
        lemma_mark_after(marks, k - 1);
    } else {
        lemma_mark_after(marks, len - 1);
    }
}

pub fn next_mark(marks: &Vec<usize>, at: usize) -> (r: Option<usize>)
    ensures
        r == next_wrapping(marks@, at as int),
{
    let mut i: usize = 0;
    while i < marks.len()
        invariant
            i <= marks@.len(),
            forall|k: int| 0 <= k < i ==> !row_after(at as int)(#[trigger] marks@[k]),
        decreases marks.len() - i,
    {
        if marks[i] > at {
            proof {
                lemma_first_index_where(marks@, row_after(at as int), i as int);
            }
            return Some(marks[i]);
        }
        i = i + 1;
    }
    proof {
        lemma_first_index_where(marks@, row_after(at as int), i as int);
    }
    if marks.len() > 0 {
        Some(marks[0])
    } else {
        None
    }
}

pub fn previous_mark(marks: &Vec<usize>, at: usize) -> (r: Option<usize>)
    ensures
        r == previous_wrapping(marks@, at as int),
{
    let mut j: usize = marks.len();
    while j > 0
        invariant
            j <= marks@.len(),
            forall|k: int| j <= k < marks@.len() ==> !row_before(at as int)(#[trigger] marks@[k]),
        decreases j,
    {
        if marks[j - 1] < at {
            proof {
                lemma_last_index_where_found(marks@, row_before(at as int), j - 1);
            }
            return Some(marks[j - 1]);
        }
        j = j - 1;
    }
    proof {
        lemma_last_index_where(marks@, row_before(at as int), 0);
    }
    if marks.len() > 0 {
        Some(marks[marks.len() - 1])
    } else {
        None
    }
}

/// `x + delta` kept within `low..=high`.
pub fn clamp_step(x: usize, delta: i128, low: usize, high: usize) -> (r: usize)
    requires
        low <= high,
        -0x1_0000_0000_0000_0000_0000_0000 < delta < 0x1_0000_0000_0000_0000_0000_0000,
    ensures
        r == clamp(x + delta, low as int, high as int),
{
    let next: i128 = x as i128 + delta;
    if next < low as i128 {
        low
    } else if next > high as i128 {
        high
    } else {
        next as usize
    }
}

impl DiffBrowserState {
    pub open spec fn scroll_now(&self) -> int {
        if self.view_metrics.total_rows == 0 {
            0
        } else {
            scroll_to_show(
                self.cursor_row as int,
                self.scroll as int,
                self.view_metrics.viewport_height as int,
                self.view_metrics.total_rows as int,
            )
        }
    }
}

/// The browser scrolled so that its cursor row is shown.
pub open spec fn shown(b: DiffBrowserState) -> DiffBrowserState {
    DiffBrowserState { scroll: b.scroll_now() as usize, ..b }
}

/// The browser with the file under its cursor row made current.
pub open spec fn followed(b: DiffBrowserState) -> DiffBrowserState {
    DiffBrowserState {
        current_file: file_under(b.view_metrics.file_rows@, b.cursor_row as int) as usize,
        ..b
    }
}

/// The cursor put on `row`, shown, and its file made current.
pub open spec fn at_row(b: DiffBrowserState, row: usize) -> DiffBrowserState {
    followed(shown(DiffBrowserState { cursor_row: row, ..b }))
}

/// The cursor moved `delta` rows within the rows there are.
pub open spec fn moved(b: DiffBrowserState, delta: int) -> DiffBrowserState {
    if b.view_metrics.total_rows == 0 {
        DiffBrowserState { cursor_row: 0, scroll: 0, ..b }
    } else {
        at_row(b, clamp(b.cursor_row + delta, 0, b.view_metrics.total_rows - 1) as usize)
    }
}

/// File `index` (or the last) made current with the cursor on its header.
pub open spec fn on_file(b: DiffBrowserState, index: usize) -> DiffBrowserState {
    if b.files@.len() == 0 {
        DiffBrowserState { current_file: 0, cursor_row: 0, scroll: 0, ..b }
    } else {
        let current = if index < b.files@.len() - 1 { index as int } else { b.files@.len() - 1 };
        shown(DiffBrowserState {
            current_file: current as usize,
            cursor_row: if current < b.view_metrics.file_rows@.len() {
                b.view_metrics.file_rows@[current]
            } else {
                0
            },
            ..b
        })
    }
}

proof fn lemma_file_under_bounds(rows: Seq<usize>, row: int)
    ensures
        0 <= file_under(rows, row),
        rows.len() > 0 ==> file_under(rows, row) < rows.len(),
    decreases rows.len(),
{
    if rows.len() > 0 {
        if !row_at_most(row)(rows.last()) {
            lemma_file_under_bounds(rows.drop_last(), row);
        }
    }
}

impl DiffBrowserState {
    fn ensure_cursor_visible(&mut self)
        ensures
            *final(self) == shown(*old(self)),
    {
        if self.view_metrics.total_rows == 0 {
            self.scroll = 0;
            return;
        }
        let row = self.cursor_row;
        let height = if self.view_metrics.viewport_height >= 1 {
            self.view_metrics.viewport_height
        } else {
            1
        };
        let mut scroll = self.scroll;
        if row < scroll {
            scroll = row;
        } else if row - scroll >= height {
            scroll = if row < usize::MAX {
                row + 1 - height
            } else {
                row - height + 1
            };
        }
        let most = if self.view_metrics.total_rows >= height {
            self.view_metrics.total_rows - height
        } else {
            0
        };
        if scroll > most {
            scroll = most;
        }
        self.scroll = scroll;
    }

    fn follow_cursor_file(&mut self)
        ensures
            *final(self) == followed(*old(self)),
    {
        let ghost rows = self.view_metrics.file_rows@;
        let ghost p = row_at_most(self.cursor_row as int);
        proof {
            lemma_file_under_bounds(rows, self.cursor_row as int);
        }
        let mut j: usize = self.view_metrics.file_rows.len();
        while j > 0
            invariant
                j <= rows.len(),
                *self == *old(self),
                rows == self.view_metrics.file_rows@,
                p == row_at_most(self.cursor_row as int),
                forall|k: int| j <= k < rows.len() ==> !p(#[trigger] rows[k]),
            decreases j,
        {
            if self.view_metrics.file_rows[j - 1] <= self.cursor_row {
                proof {
                    lemma_last_index_where_found(rows, p, j - 1);
                }
                self.current_file = j - 1;
                return;
            }
            j = j - 1;
        }
        proof {
            lemma_last_index_where(rows, p, 0);
        }
        self.current_file = 0;
    }

    fn move_cursor(&mut self, delta: i128)
        requires
            -0x1_0000_0000_0000_0000_0000_0000 < delta < 0x1_0000_0000_0000_0000_0000_0000,
        ensures
            *final(self) == moved(*old(self), delta as int),
    {
        if self.view_metrics.total_rows == 0 {
            self.cursor_row = 0;
            self.scroll = 0;
            return;
        }
        self.cursor_row = clamp_step(self.cursor_row, delta, 0, self.view_metrics.total_rows - 1);
        self.ensure_cursor_visible();
        self.follow_cursor_file();
    }

    fn go_to_row(&mut self, row: usize)
        ensures
            *final(self) == at_row(*old(self), row),
    {
        self.cursor_row = row;
        self.ensure_cursor_visible();
        self.follow_cursor_file();
    }

    fn select_file(&mut self, index: usize)
        ensures
            *final(self) == on_file(*old(self), index),
    {
        if self.files.len() == 0 {
            self.current_file = 0;
            self.cursor_row = 0;
            self.scroll = 0;
            return;
        }
        let last = self.files.len() - 1;
        self.current_file = if index < last { index } else { last };
        self.cursor_row = if self.current_file < self.view_metrics.file_rows.len() {
            self.view_metrics.file_rows[self.current_file]
        } else {
            0
        };
        self.ensure_cursor_visible();
    }
}

// ---------------------------------------------------------------------------
// Moving through the source.
// ---------------------------------------------------------------------------

pub open spec fn is_diff(a: App) -> bool {
    a.browser_mode == BrowserMode::Diff
}

/// The cursor moved `delta` lines (rows in the diff), within the file.
pub open spec fn after_move(a: App, delta: int) -> App {
    if is_diff(a) {
        with_browser(a, |b: DiffBrowserState| moved(b, delta))
    } else {
        source_shown(
            App {
                discard_guard: false,
                cursor_line: clamp(a.cursor_line + delta, 1, last_line_of(a.files@, a.current_file as int)) as usize,
                ..a
            },
        )
    }
}

/// How far a page (divisor 1) or half a page (divisor 2) moves: at least one.
pub open spec fn page_step(a: App, divisor: int) -> int {
    let height = if is_diff(a) {
        match a.diff_browser {
            Some(b) => b.view_metrics.viewport_height as int,
            None => 0,
        }
    } else {
        a.view_metrics.viewport_height as int
    };
    if is_diff(a) && a.diff_browser is None {
        1
    } else if height / divisor >= 1 {
        height / divisor
    } else {
        1
    }
}


/// The session after Tab: the focus moves between the file list and the
/// source (or diff) view when there are files to list, and stays otherwise.
pub open spec fn toggled_focus(a: App) -> App {
    let has_files = if is_diff(a) {
        match a.diff_browser {
            Some(b) => b.files@.len() > 0,
            None => false,
        }
    } else {
        a.files@.len() > 0
    };
    App {
        discard_guard: false,
        focus: if !has_files {
            a.focus
        } else if a.focus == FocusPane::Files {
            FocusPane::Source
        } else {
            FocusPane::Files
        },
        ..a
    }
}

/// Tab twice gives back the focus one started with, leaving the rest of the
/// session as it was (but for the discard guard, which any key clears).
pub proof fn lemma_toggle_focus_twice(a: App)
    ensures
        toggled_focus(toggled_focus(a)) == (App { discard_guard: false, ..a }),
{
}

impl App {
    /// Scrolls so that the cursor is shown.
    fn ensure_cursor_visible(&mut self)
        ensures
            *final(self) == if is_diff(*old(self)) {
                with_browser(*old(self), |b: DiffBrowserState| shown(b))
            } else {
                source_shown(*old(self))
            },
    {
        if self.is_diff_mode() {
            if let Some(mut b) = self.diff_browser.take() {
                b.ensure_cursor_visible();
                self.diff_browser = Some(b);
            }
            return;
        }
        self.ensure_source_cursor_visible();
    }

    fn move_by(&mut self, delta: i128)
        requires
            -0x1_0000_0000_0000_0000_0000_0000 < delta < 0x1_0000_0000_0000_0000_0000_0000,
        ensures
            *final(self) == after_move(*old(self), delta as int),
    {
        if self.is_diff_mode() {
            if let Some(mut b) = self.diff_browser.take() {
                b.move_cursor(delta);
                self.diff_browser = Some(b);
            }
            return;
        }
        self.discard_guard = false;
        let max_line = self.max_source_line();
        self.cursor_line = clamp_step(self.cursor_line, delta, 1, max_line);
        self.ensure_source_cursor_visible();
    }

    /// Moves the cursor `delta` lines in the file shown (rows in the diff).
    pub fn move_cursor(&mut self, delta: isize)
        ensures
            *final(self) == after_move(*old(self), delta as int),
    {
        self.move_by(delta as i128);
    }

    pub fn go_to_first_line(&mut self)
        ensures
            *final(self) == if is_diff(*old(self)) {
                with_browser(*old(self), |b: DiffBrowserState| at_row(b, 0))
            } else {
                source_shown(App { discard_guard: false, cursor_line: 1, ..*old(self) })
            },
    {
        if self.is_diff_mode() {
            if let Some(mut b) = self.diff_browser.take() {
                b.go_to_row(0);
                self.diff_browser = Some(b);
            }
            return;
        }
        self.discard_guard = false;
        self.cursor_line = 1;
        self.ensure_source_cursor_visible();
    }

    pub fn go_to_last_line(&mut self)
        ensures
            *final(self) == if is_diff(*old(self)) {
                with_browser(
                    *old(self),
                    |b: DiffBrowserState| at_row(b, sat_sub(b.view_metrics.total_rows as int, 1) as usize),
                )
            } else {
                source_shown(
                    App {
                        discard_guard: false,
                        cursor_line: last_line_of(old(self).files@, old(self).current_file as int) as usize,
                        ..*old(self)
                    },
                )
            },
    {
        if self.is_diff_mode() {
            if let Some(mut b) = self.diff_browser.take() {
                let last = if b.view_metrics.total_rows >= 1 {
                    b.view_metrics.total_rows - 1
                } else {
                    0
                };
                b.go_to_row(last);
                self.diff_browser = Some(b);
            }
            return;
        }
        self.discard_guard = false;
        self.cursor_line = self.max_source_line();
        self.ensure_source_cursor_visible();
    }

    fn viewport_step(&self, divisor: usize) -> (r: usize)
        requires
            divisor >= 1,
        ensures
            r == page_step(*self, divisor as int),
            r >= 1,
    {
        let height = if self.is_diff_mode() {
            match &self.diff_browser {
                Some(b) => b.view_metrics.viewport_height,
                None => {
                    return 1;
                },
            }
        } else {
            self.view_metrics.viewport_height
        };
        let step = height / divisor;
        if step >= 1 {
            step
        } else {
            1
        }
    }

    pub fn page_down(&mut self)
        ensures
            *final(self) == after_move(*old(self), page_step(*old(self), 1)),
    {
        let step = self.viewport_step(1);
        self.move_by(step as i128);
    }

    pub fn page_up(&mut self)
        ensures
            *final(self) == after_move(*old(self), -page_step(*old(self), 1)),
    {
        let step = self.viewport_step(1);
        self.move_by(-(step as i128));
    }

    pub fn half_page_down(&mut self)
        ensures
            *final(self) == after_move(*old(self), page_step(*old(self), 2)),
    {
        let step = self.viewport_step(2);
        self.move_by(step as i128);
    }

    pub fn half_page_up(&mut self)
        ensures
            *final(self) == after_move(*old(self), -page_step(*old(self), 2)),
    {
        let step = self.viewport_step(2);
        self.move_by(-(step as i128));
    }

    /// Shows file `index` (or the last one) from its first line.
    pub fn select_file(&mut self, index: usize)
        ensures
            *final(self) == if is_diff(*old(self)) {
                with_browser(*old(self), |b: DiffBrowserState| on_file(b, index))
            } else {
                source_shown(
                    App {
                        current_file: if index as int <= sat_sub(old(self).files@.len() as int, 1) {
                            index
                        } else {
                            sat_sub(old(self).files@.len() as int, 1) as usize
                        },
                        cursor_line: 1,
                        scroll: 0,
                        ..*old(self)
                    },
                )
            },
    {
        if self.is_diff_mode() {
            if let Some(mut b) = self.diff_browser.take() {
                b.select_file(index);
                self.diff_browser = Some(b);
            }
            return;
        }
        let last = if self.files.len() >= 1 {
            self.files.len() - 1
        } else {
            0
        };
        self.current_file = if index <= last { index } else { last };
        self.cursor_line = 1;
        self.scroll = 0;
        self.ensure_source_cursor_visible();
    }

    /// Moves `delta` files through the list, within it.
    pub fn move_file(&mut self, delta: isize)
        ensures
            is_diff(*old(self)) ==> *final(self) == with_browser(
                App { discard_guard: false, ..*old(self) },
                |b: DiffBrowserState|
                    if b.files@.len() == 0 {
                        b
                    } else {
                        on_file(b, clamp(b.current_file + delta, 0, b.files@.len() - 1) as usize)
                    },
            ),
            !is_diff(*old(self)) && old(self).files@.len() == 0 ==> *final(self) == (App {
                discard_guard: false,
                ..*old(self)
            }),
            !is_diff(*old(self)) && old(self).files@.len() > 0 ==> *final(self) == source_shown(
                App {
                    discard_guard: false,
                    current_file: clamp(old(self).current_file + delta, 0, old(self).files@.len() - 1) as usize,
                    cursor_line: 1,
                    scroll: 0,
                    ..*old(self)
                },
            ),
    {
        self.discard_guard = false;
        if self.is_diff_mode() {
            if let Some(mut b) = self.diff_browser.take() {
                if b.files.len() > 0 {
                    let next = clamp_step(b.current_file, delta as i128, 0, b.files.len() - 1);
                    b.select_file(next);
                }
                self.diff_browser = Some(b);
            }
            return;
        }
        if self.files.len() == 0 {
            return;
        }
        let next = clamp_step(self.current_file, delta as i128, 0, self.files.len() - 1);
        self.select_file(next);
    }

    /// Jumps to the next line with a card, wrapping to the first.
    pub fn jump_to_next_annotation(&mut self)
        ensures
            is_diff(*old(self)) ==> match old(self).diff_browser {
                None => *final(self) == *old(self),
                Some(b) => match next_wrapping(b.view_metrics.annotation_rows@, b.cursor_row as int) {
                    Some(row) => *final(self) == App { diff_browser: Some(at_row(b, row)), ..*old(self) },
                    None => *final(self) == App { message: final(self).message, ..*old(self) }
                        && says(final(self).message, "there are no notes or comment threads in this diff"@),
                },
            },
            !is_diff(*old(self)) ==> match next_wrapping(old(self).view_metrics.annotation_lines@, old(self).cursor_line as int) {
                Some(line) => *final(self) == source_shown(App { discard_guard: false, cursor_line: line, ..*old(self) }),
                None => *final(self) == App { discard_guard: false, ..*old(self) },
            },
    {
        if self.is_diff_mode() {
            if let Some(mut b) = self.diff_browser.take() {
                match next_mark(&b.view_metrics.annotation_rows, b.cursor_row) {
                    Some(row) => {
                        b.go_to_row(row);
                        self.diff_browser = Some(b);
                    },
                    None => {
                        self.diff_browser = Some(b);
                        self.message = Some("there are no notes or comment threads in this diff".to_string());
                    },
                }
            }
            return;
        }
        self.discard_guard = false;
        if let Some(line) = next_mark(&self.view_metrics.annotation_lines, self.cursor_line) {
            self.cursor_line = line;
            self.ensure_source_cursor_visible();
        }
    }

    /// Jumps to the previous line with a card, wrapping to the last.
    pub fn jump_to_previous_annotation(&mut self)
        ensures
            is_diff(*old(self)) ==> match old(self).diff_browser {
                None => *final(self) == *old(self),
                Some(b) => match previous_wrapping(b.view_metrics.annotation_rows@, b.cursor_row as int) {
                    Some(row) => *final(self) == App { diff_browser: Some(at_row(b, row)), ..*old(self) },
                    None => *final(self) == App { message: final(self).message, ..*old(self) }
                        && says(final(self).message, "there are no notes or comment threads in this diff"@),
                },
            },
            !is_diff(*old(self)) ==> match previous_wrapping(old(self).view_metrics.annotation_lines@, old(self).cursor_line as int) {
                Some(line) => *final(self) == source_shown(App { discard_guard: false, cursor_line: line, ..*old(self) }),
                None => *final(self) == App { discard_guard: false, ..*old(self) },
            },
    {
        if self.is_diff_mode() {
            if let Some(mut b) = self.diff_browser.take() {
                match previous_mark(&b.view_metrics.annotation_rows, b.cursor_row) {
                    Some(row) => {
                        b.go_to_row(row);
                        self.diff_browser = Some(b);
                    },
                    None => {
                        self.diff_browser = Some(b);
                        self.message = Some("there are no notes or comment threads in this diff".to_string());
                    },
                }
            }
            return;
        }
        self.discard_guard = false;
        if let Some(line) = previous_mark(&self.view_metrics.annotation_lines, self.cursor_line) {
            self.cursor_line = line;
            self.ensure_source_cursor_visible();
        }
    }

    /// Switches focus between the file list and the view, when there are files.
    pub fn toggle_focus(&mut self)
        ensures
            *final(self) == toggled_focus(*old(self)),
    {
        self.discard_guard = false;
        let has_files = if self.is_diff_mode() {
            match &self.diff_browser {
                Some(b) => b.files.len() > 0,
                None => false,
            }
        } else {
            self.files.len() > 0
        };
        if !has_files {
            return;
        }
        self.focus = match self.focus {
            FocusPane::Files => FocusPane::Source,
            FocusPane::Source => FocusPane::Files,
        };
    }
}

// ---------------------------------------------------------------------------
// What the cursor is on.
// ---------------------------------------------------------------------------

/// The lines shown in an opened gap, if it is open.
pub open spec fn expanded_lines(e: Seq<(GapId, Vec<DiffLine>)>, g: GapId) -> Option<Seq<DiffLine>>
    decreases e.len(),
{
    if e.len() == 0 {
        None
    } else if e[0].0 == g {
        Some(e[0].1@)
    } else {
        expanded_lines(e.drop_first(), g)
    }
}

/// The position of an opened gap in the list, if it is open.
pub open spec fn gap_position(e: Seq<(GapId, Vec<DiffLine>)>, g: GapId) -> Option<int>
    decreases e.len(),
{
    if e.len() == 0 {
        None
    } else if e[0].0 == g {
        Some(0)
    } else {
        match gap_position(e.drop_first(), g) {
            Some(i) => Some(i + 1),
            None => None,
        }
    }
}

proof fn lemma_gap_position(e: Seq<(GapId, Vec<DiffLine>)>, g: GapId, j: int)
    requires
        0 <= j <= e.len(),
        forall|k: int| 0 <= k < j ==> (#[trigger] e[k]).0 != g,
        j < e.len() ==> e[j].0 == g,
    ensures
        j < e.len() ==> gap_position(e, g) == Some(j) && expanded_lines(e, g) == Some(e[j].1@),
        j == e.len() ==> gap_position(e, g) is None && expanded_lines(e, g) is None,
    decreases j,
{
    if e.len() > 0 && j > 0 {
        lemma_gap_position(e.drop_first(), g, j - 1);
    }
}

/// Where an opened gap sits in the list.
pub fn find_gap(expanded: &Vec<(GapId, Vec<DiffLine>)>, gap_id: GapId) -> (r: Option<usize>)
    ensures
        match r {
            Some(i) => gap_position(expanded@, gap_id) == Some(i as int) && i < expanded@.len()
                && expanded_lines(expanded@, gap_id) == Some(expanded@[i as int].1@),
            None => gap_position(expanded@, gap_id) is None && expanded_lines(expanded@, gap_id) is None,
        },
{
    let mut j: usize = 0;
    while j < expanded.len()
        invariant
            j <= expanded@.len(),
            forall|k: int| 0 <= k < j ==> (#[trigger] expanded@[k]).0 != gap_id,
        decreases expanded.len() - j,
    {
        if expanded[j].0 == gap_id {
            proof {
                lemma_gap_position(expanded@, gap_id, j as int);
            }
            return Some(j);
        }
        j = j + 1;
    }
    proof {
        lemma_gap_position(expanded@, gap_id, j as int);
    }
    None
}

/// The file and line a diff row lets one annotate: a line of the new side of
/// a file that has one, or the line a card belongs to.
pub open spec fn diff_row_target(b: DiffBrowserState, row: DiffRow) -> Option<(Seq<char>, int)> {
    match row {
        DiffRow::ExpandedContext { file_idx, gap_id, context_idx } => {
            if file_idx < b.files@.len() && b.files@[file_idx as int].new_path is Some {
                match expanded_lines(b.expanded@, gap_id) {
                    Some(ls) => if context_idx < ls.len() {
                        match ls[context_idx as int].new_lineno {
                            Some(n) => Some((b.files@[file_idx as int].new_path->0@, n as int)),
                            None => None,
                        }
                    } else {
                        None
                    },
                    None => None,
                }
            } else {
                None
            }
        },
        DiffRow::DiffLine { file_idx, hunk_idx, line_idx } => {
            if file_idx < b.files@.len() && b.files@[file_idx as int].new_path is Some && hunk_idx
                < b.files@[file_idx as int].hunks@.len() && line_idx < b.files@[file_idx as int].hunks@[hunk_idx as int].lines@.len() {
                match b.files@[file_idx as int].hunks@[hunk_idx as int].lines@[line_idx as int].new_lineno {
                    Some(n) => Some((b.files@[file_idx as int].new_path->0@, n as int)),
                    None => None,
                }
            } else {
                None
            }
        },
        DiffRow::Annotation { path, line_no } => Some((path@, line_no as int)),
        _ => None,
    }
}

/// The row under the diff cursor, if the rows reach it.
pub open spec fn cursor_row_kind(b: DiffBrowserState) -> Option<DiffRow> {
    if b.cursor_row < b.view_metrics.rows@.len() {
        Some(b.view_metrics.rows@[b.cursor_row as int])
    } else {
        None
    }
}

/// The file and line a new annotation attaches to.
pub open spec fn annotation_target(a: App) -> Option<(Seq<char>, int)> {
    if !is_diff(a) {
        let p = path_at(a.files@, a.current_file as int);
        if p.len() == 0 {
            None
        } else {
            Some((p, a.cursor_line as int))
        }
    } else {
        match a.diff_browser {
            Some(b) => match cursor_row_kind(b) {
                Some(row) => diff_row_target(b, row),
                None => None,
            },
            None => None,
        }
    }
}

/// Whether there is anything to annotate: tracked files (files of the diff).
pub open spec fn has_context(a: App) -> bool {
    if is_diff(a) {
        match a.diff_browser {
            Some(b) => b.files@.len() > 0,
            None => false,
        }
    } else {
        a.files@.len() > 0
    }
}

pub open spec fn target_view(t: Option<(String, usize)>) -> Option<(Seq<char>, int)> {
    match t {
        Some((p, l)) => Some((p@, l as int)),
        None => None,
    }
}

impl DiffBrowserState {
    fn row_target(&self, row: &DiffRow) -> (r: Option<(String, usize)>)
        ensures
            target_view(r) == diff_row_target(*self, *row),
    {
        match row {
            DiffRow::ExpandedContext { file_idx, gap_id, context_idx } => {
                if *file_idx >= self.files.len() {
                    return None;
                }
                let file = &self.files[*file_idx];
                let path = match &file.new_path {
                    Some(p) => p,
                    None => {
                        return None;
                    },
                };
                match find_gap(&self.expanded, *gap_id) {
                    Some(i) => {
                        let ls = &self.expanded[i].1;
                        if *context_idx >= ls.len() {
                            return None;
                        }
                        match ls[*context_idx].new_lineno {
                            Some(n) => Some((path.clone(), n)),
                            None => None,
                        }
                    },
                    None => None,
                }
            },
            DiffRow::DiffLine { file_idx, hunk_idx, line_idx } => {
                if *file_idx >= self.files.len() {
                    return None;
                }
                let file = &self.files[*file_idx];
                let path = match &file.new_path {
                    Some(p) => p,
                    None => {
                        return None;
                    },
                };
                if *hunk_idx >= file.hunks.len() {
                    return None;
                }
                let hunk = &file.hunks[*hunk_idx];
                if *line_idx >= hunk.lines.len() {
                    return None;
                }
                match hunk.lines[*line_idx].new_lineno {
                    Some(n) => Some((path.clone(), n)),
                    None => None,
                }
            },
            DiffRow::Annotation { path, line_no } => Some((path.clone(), *line_no)),
            _ => None,
        }
    }
}

impl App {
    fn current_annotation_target(&self) -> (r: Option<(String, usize)>)
        ensures
            target_view(r) == annotation_target(*self),
    {
        if !self.is_diff_mode() {
            let path = self.current_path();
            if path.is_empty() {
                return None;
            }
            return Some((path.to_string(), self.cursor_line));
        }
        match &self.diff_browser {
            Some(b) => {
                if b.cursor_row < b.view_metrics.rows.len() {
                    b.row_target(&b.view_metrics.rows[b.cursor_row])
                } else {
                    None
                }
            },
            None => None,
        }
    }

    /// Whether there is anything to annotate: tracked files (files of the diff).
    fn has_annotation_context(&self) -> (r: bool)
        ensures
            r == has_context(*self),
    {
        if self.is_diff_mode() {
            match &self.diff_browser {
                Some(b) => b.files.len() > 0,
                None => false,
            }
        } else {
            self.files.len() > 0
        }
    }
}

pub open spec fn index_view(r: Option<usize>) -> Option<int> {
    match r {
        Some(i) => Some(i as int),
        None => None,
    }
}

/// Whether two anchors share a line.
pub open spec fn overlap(a: Anchor, b: Anchor) -> bool {
    a.start_line <= anchor_end(b) && b.start_line <= anchor_end(a)
}

/// The ids of the notes on `path` whose anchors overlap `anchor`, in order.
pub open spec fn overlapping_ids(ns: Seq<NoteView>, path: Seq<char>, anchor: Anchor) -> Seq<Seq<char>>
    decreases ns.len(),
{
    if ns.len() == 0 {
        Seq::empty()
    } else {
        let rest = overlapping_ids(ns.drop_last(), path, anchor);
        if ns.last().path == path && overlap(ns.last().anchor, anchor) {
            rest.push(ns.last().id)
        } else {
            rest
        }
    }
}

/// The diff's visual selection: the range between the anchor row and the
/// cursor row, when both are annotatable lines of the same file.
pub open spec fn diff_visual(a: App) -> Option<(Seq<char>, Anchor)> {
    match a.diff_browser {
        None => None,
        Some(b) => match b.visual_anchor_row {
            None => None,
            Some(start_row) => if start_row < b.view_metrics.rows@.len() && b.cursor_row
                < b.view_metrics.rows@.len() {
                match diff_row_target(b, b.view_metrics.rows@[start_row as int]) {
                    Some(first) => match diff_row_target(b, b.view_metrics.rows@[b.cursor_row as int]) {
                        Some(last) => if first.0 == last.0 {
                            Some((first.0, spec_anchor_from_lines(first.1 as usize, last.1 as usize)))
                        } else {
                            None
                        },
                        None => None,
                    },
                    None => None,
                }
            } else {
                None
            },
        },
    }
}

/// The range selected in visual mode, if any.
pub open spec fn visual_range(a: App) -> Option<Anchor> {
    if a.input_mode != InputMode::Visual {
        None
    } else if is_diff(a) {
        match diff_visual(a) {
            Some((_, anchor)) => Some(anchor),
            None => None,
        }
    } else {
        match a.visual_anchor {
            Some(v) => Some(spec_anchor_from_lines(v, a.cursor_line)),
            None => None,
        }
    }
}

/// Where a new note or question goes: the visual selection, else the line
/// under the cursor.
pub open spec fn draft_place(a: App) -> Option<(Seq<char>, Anchor)> {
    if !is_diff(a) {
        Some(
            (
                path_at(a.files@, a.current_file as int),
                match visual_range(a) {
                    Some(anchor) => anchor,
                    None => Anchor { start_line: a.cursor_line, end_line: None },
                },
            ),
        )
    } else if a.input_mode == InputMode::Visual && diff_visual(a) is Some {
        diff_visual(a)
    } else {
        match annotation_target(a) {
            Some((p, line)) => Some((p, Anchor { start_line: line as usize, end_line: None })),
            None => None,
        }
    }
}

/// The session with no visual selection started.
pub open spec fn cleared_visual(a: App) -> App {
    with_browser(
        App { visual_anchor: None, ..a },
        |b: DiffBrowserState| DiffBrowserState { visual_anchor_row: None, ..b },
    )
}

/// A draft with an empty text, as a new one starts.
pub open spec fn fresh_draft(
    d: Option<PromptDraft>,
    kind: DraftKind,
    target: DraftTarget,
    path: Seq<char>,
    anchor: Anchor,
    related: Seq<Seq<char>>,
) -> bool {
    d matches Some(x) && x.kind == kind && x.target == target && x.path@ == path && x.anchor == anchor
        && x.related_note_ids.deep_view() == related && x.buffer.text@.len() == 0 && x.buffer.cursor
        == 0 && x.original_text@.len() == 0
}

pub open spec fn new_draft_message(diff: bool, kind: DraftKind) -> Seq<char> {
    match (diff, kind) {
        (true, DraftKind::Question) => "compose the review comment; Ctrl-S saves, Ctrl-O opens the external editor"@,
        (true, DraftKind::Note) => "write the review note; Ctrl-S saves, Ctrl-O opens the external editor"@,
        (false, DraftKind::Question) => "compose the follow-up question; Ctrl-S saves, Ctrl-O opens the external editor"@,
        (false, DraftKind::Note) => "write the note body; Ctrl-S saves, Ctrl-O opens the external editor"@,
    }
}

/// What starting a new note or question does: it needs a tracked file and a
/// place; it starts an empty draft there, with the ids of the notes it
/// overlaps for a question, and leaves visual mode's selection behind.
pub open spec fn began_draft(before: App, after: App, kind: DraftKind) -> bool {
    if !has_context(before) {
        after == (App { message: after.message, ..before }) && says(
            after.message,
            "add a tracked file before creating annotations"@,
        )
    } else {
        match draft_place(before) {
            None => after == (App { message: after.message, ..before }) && says(
                after.message,
                "move to a context, added, or unchanged line in the diff before annotating"@,
            ),
            Some((path, anchor)) => {
                &&& after == (App {
                    draft: after.draft,
                    message: after.message,
                    ..cleared_visual(App { discard_guard: false, input_mode: InputMode::Draft, ..before })
                })
                &&& fresh_draft(
                    after.draft,
                    kind,
                    DraftTarget::New,
                    path,
                    anchor,
                    if kind == DraftKind::Question {
                        overlapping_ids(before.packet@.notes, path, anchor)
                    } else {
                        Seq::empty()
                    },
                )
                &&& says(after.message, new_draft_message(is_diff(before), kind))
            },
        }
    }
}

impl App {
    fn current_note_index(&self) -> (r: Option<usize>)
        ensures
            match annotation_target(*self) {
                None => r is None,
                Some((path, line)) => index_view(r) == last_index_where(self.packet@.notes, note_at(path, line)),
            },
    {
        let (path, line) = match self.current_annotation_target() {
            Some(t) => t,
            None => {
                return None;
            },
        };
        let ghost ns = self.packet@.notes;
        let ghost p = note_at(path@, line as int);
        let mut j: usize = self.packet.notes.len();
        while j > 0
            invariant
                j <= ns.len(),
                annotation_target(*self) == Some((path@, line as int)),
                ns == self.packet@.notes,
                p == note_at(path@, line as int),
                forall|k: int| j <= k < ns.len() ==> !p(#[trigger] ns[k]),
            decreases j,
        {
            let note = &self.packet.notes[j - 1];
            if str_eq(note.path.as_str(), path.as_str()) && anchor_contains_line(note.anchor, line) {
                proof {
                    lemma_last_index_where_found(ns, p, j - 1);
                }
                return Some(j - 1);
            }
            j = j - 1;
        }
        proof {
            lemma_last_index_where(ns, p, 0);
        }
        None
    }

    fn current_question_index(&self) -> (r: Option<usize>)
        ensures
            match annotation_target(*self) {
                None => r is None,
                Some((path, line)) => index_view(r) == last_index_where(self.packet@.questions, question_at(path, line)),
            },
    {
        let (path, line) = match self.current_annotation_target() {
            Some(t) => t,
            None => {
                return None;
            },
        };
        let ghost qs = self.packet@.questions;
        let ghost p = question_at(path@, line as int);
        let mut j: usize = self.packet.questions.len();
        while j > 0
            invariant
                j <= qs.len(),
                annotation_target(*self) == Some((path@, line as int)),
                qs == self.packet@.questions,
                p == question_at(path@, line as int),
                forall|k: int| j <= k < qs.len() ==> !p(#[trigger] qs[k]),
            decreases j,
        {
            let question = &self.packet.questions[j - 1];
            let covered = match question.anchor {
                Some(a) => anchor_contains_line(a, line),
                None => false,
            };
            if str_eq(question.path.as_str(), path.as_str()) && covered {
                proof {
                    lemma_last_index_where_found(qs, p, j - 1);
                }
                return Some(j - 1);
            }
            j = j - 1;
        }
        proof {
            lemma_last_index_where(qs, p, 0);
        }
        None
    }

    fn current_open_question_index(&self) -> (r: Option<usize>)
        ensures
            match annotation_target(*self) {
                None => r is None,
                Some((path, line)) => index_view(r) == last_index_where(self.packet@.questions, open_question_at(path, line)),
            },
    {
        let (path, line) = match self.current_annotation_target() {
            Some(t) => t,
            None => {
                return None;
            },
        };
        let ghost qs = self.packet@.questions;
        let ghost p = open_question_at(path@, line as int);
        let mut j: usize = self.packet.questions.len();
        while j > 0
            invariant
                j <= qs.len(),
                annotation_target(*self) == Some((path@, line as int)),
                qs == self.packet@.questions,
                p == open_question_at(path@, line as int),
                forall|k: int| j <= k < qs.len() ==> !p(#[trigger] qs[k]),
            decreases j,
        {
            let question = &self.packet.questions[j - 1];
            let covered = match question.anchor {
                Some(a) => anchor_contains_line(a, line),
                None => false,
            };
            if str_eq(question.path.as_str(), path.as_str()) && question.status
                == QuestionStatus::Open && covered {
                proof {
                    lemma_last_index_where_found(qs, p, j - 1);
                }
                return Some(j - 1);
            }
            j = j - 1;
        }
        proof {
            lemma_last_index_where(qs, p, 0);
        }
        None
    }

    /// The ids of the notes on `path` whose anchors overlap `anchor`.
    fn related_note_ids_for_anchor(&self, path: &str, anchor: Anchor) -> (r: Vec<String>)
        ensures
            r.deep_view() == overlapping_ids(self.packet@.notes, path@, anchor),
    {
        let ghost ns = self.packet@.notes;
        let mut out: Vec<String> = Vec::new();
        let mut i: usize = 0;
        assert(ns.take(0) =~= Seq::<NoteView>::empty());
        while i < self.packet.notes.len()
            invariant
                i <= ns.len(),
                ns == self.packet@.notes,
                out.deep_view() == overlapping_ids(ns.take(i as int), path@, anchor),
            decreases self.packet.notes.len() - i,
        {
            let note = &self.packet.notes[i];
            assert(ns.take(i + 1).drop_last() =~= ns.take(i as int));
            assert(ns.take(i + 1).last() == ns[i as int]);
            if str_eq(note.path.as_str(), path) && anchors_overlap(note.anchor, anchor) {
                let ghost before = out.deep_view();
                out.push(note.id.clone());
                assert(out.deep_view() =~= before.push(ns[i as int].id));
            }
            i = i + 1;
        }
        assert(ns.take(i as int) =~= ns);
        out
    }

    fn diff_visual_selection(&self) -> (r: Option<(String, Anchor)>)
        ensures
            match r {
                Some((p, a)) => diff_visual(*self) == Some((p@, a)),
                None => diff_visual(*self) is None,
            },
    {
        let b = match &self.diff_browser {
            Some(b) => b,
            None => {
                return None;
            },
        };
        let start_row = match b.visual_anchor_row {
            Some(r) => r,
            None => {
                return None;
            },
        };
        if start_row >= b.view_metrics.rows.len() || b.cursor_row >= b.view_metrics.rows.len() {
            return None;
        }
        let first = match b.row_target(&b.view_metrics.rows[start_row]) {
            Some(t) => t,
            None => {
                return None;
            },
        };
        let last = match b.row_target(&b.view_metrics.rows[b.cursor_row]) {
            Some(t) => t,
            None => {
                return None;
            },
        };
        if !str_eq(first.0.as_str(), last.0.as_str()) {
            return None;
        }
        Some((first.0, anchor_from_lines(first.1, last.1)))
    }

    /// The range selected in visual mode, if any.
    pub fn visual_selection(&self) -> (r: Option<Anchor>)
        ensures
            r == visual_range(*self),
    {
        if self.input_mode != InputMode::Visual {
            return None;
        }
        if self.is_diff_mode() {
            return match self.diff_visual_selection() {
                Some((_, anchor)) => Some(anchor),
                None => None,
            };
        }
        match self.visual_anchor {
            Some(v) => Some(anchor_from_lines(v, self.cursor_line)),
            None => None,
        }
    }

    /// Whether source line `line` is in the visual selection.
    pub fn is_line_in_visual_selection(&self, line: usize) -> (r: bool)
        ensures
            r == (!is_diff(*self) && (visual_range(*self) matches Some(a) && covers(a, line as int))),
    {
        if self.is_diff_mode() {
            return false;
        }
        match self.visual_selection() {
            Some(anchor) => anchor_contains_line(anchor, line),
            None => false,
        }
    }

    /// Whether diff row `row` lies between the visual anchor row and the cursor.
    pub fn is_diff_row_in_visual_selection(&self, row: usize) -> (r: bool)
        ensures
            r == (is_diff(*self) && self.input_mode == InputMode::Visual && (self.diff_browser matches Some(b)
                && (b.visual_anchor_row matches Some(a) && min_line(a, b.cursor_row) <= row <= max_line(a, b.cursor_row)))),
    {
        if !self.is_diff_mode() || self.input_mode != InputMode::Visual {
            return false;
        }
        let b = match &self.diff_browser {
            Some(b) => b,
            None => {
                return false;
            },
        };
        let anchor_row = match b.visual_anchor_row {
            Some(a) => a,
            None => {
                return false;
            },
        };
        let start = if anchor_row <= b.cursor_row { anchor_row } else { b.cursor_row };
        let end = if anchor_row <= b.cursor_row { b.cursor_row } else { anchor_row };
        row >= start && row <= end
    }

    fn selected_draft_target(&self) -> (r: Option<(String, Anchor)>)
        ensures
            match r {
                Some((p, a)) => draft_place(*self) == Some((p@, a)),
                None => draft_place(*self) is None,
            },
    {
        if !self.is_diff_mode() {
            let anchor = match self.visual_selection() {
                Some(a) => a,
                None => Anchor::new(self.cursor_line, None),
            };
            return Some((self.current_path().to_string(), anchor));
        }
        if self.input_mode == InputMode::Visual {
            if let Some((path, anchor)) = self.diff_visual_selection() {
                return Some((path, anchor));
            }
        }
        match self.current_annotation_target() {
            Some((path, line)) => Some((path, Anchor::new(line, None))),
            None => None,
        }
    }

    fn clear_visual_selection_state(&mut self)
        ensures
            *final(self) == cleared_visual(*old(self)),
    {
        self.visual_anchor = None;
        if let Some(mut b) = self.diff_browser.take() {
            b.visual_anchor_row = None;
            self.diff_browser = Some(b);
        }
    }

    fn current_annotation_line(&self) -> (r: usize)
        ensures
            r == match annotation_target(*self) {
                Some((_, line)) => line as usize,
                None => self.cursor_line,
            },
    {
        match self.current_annotation_target() {
            Some((_, line)) => line,
            None => self.cursor_line,
        }
    }

    fn begin_new_draft(&mut self, kind: DraftKind)
        ensures
            began_draft(*old(self), *final(self), kind),
    {
        if !self.has_annotation_context() {
            self.message = Some("add a tracked file before creating annotations".to_string());
            return;
        }
        let (path, anchor) = match self.selected_draft_target() {
            Some(t) => t,
            None => {
                self.message = Some(
                    "move to a context, added, or unchanged line in the diff before annotating".to_string(),
                );
                return;
            },
        };
        self.discard_guard = false;
        let related_note_ids = if kind == DraftKind::Question {
            self.related_note_ids_for_anchor(path.as_str(), anchor)
        } else {
            let v: Vec<String> = Vec::new();
            assert(v.deep_view() =~= Seq::<Seq<char>>::empty());
            v
        };
        self.clear_visual_selection_state();
        self.draft = Some(
            PromptDraft {
                kind,
                target: DraftTarget::New,
                path,
                anchor,
                related_note_ids,
                buffer: TextBuffer::default(),
                original_text: String::new(),
            },
        );
        self.input_mode = InputMode::Draft;
        let diff = self.is_diff_mode();
        self.message = Some(
            match (diff, kind) {
                (true, DraftKind::Question) => "compose the review comment; Ctrl-S saves, Ctrl-O opens the external editor",
                (true, DraftKind::Note) => "write the review note; Ctrl-S saves, Ctrl-O opens the external editor",
                (false, DraftKind::Question) => "compose the follow-up question; Ctrl-S saves, Ctrl-O opens the external editor",
                (false, DraftKind::Note) => "write the note body; Ctrl-S saves, Ctrl-O opens the external editor",
            }.to_string(),
        );
    }

    /// Starts a question on the line (or selection) under the cursor.
    pub fn begin_question(&mut self)
        ensures
            began_draft(*old(self), *final(self), DraftKind::Question),
    {
        self.begin_new_draft(DraftKind::Question);
    }

    /// Starts a note on the line (or selection) under the cursor.
    pub fn begin_note(&mut self)
        ensures
            began_draft(*old(self), *final(self), DraftKind::Note),
    {
        self.begin_new_draft(DraftKind::Note);
    }
}

// ---------------------------------------------------------------------------
// Committing a draft.
// ---------------------------------------------------------------------------

/// A copy of a list of strings.
pub fn copy_strings(v: &Vec<String>) -> (r: Vec<String>)
    ensures
        r.deep_view() == v.deep_view(),
{
    let mut out: Vec<String> = Vec::new();
    let mut i: usize = 0;
    while i < v.len()
        invariant
            i <= v@.len(),
            out.deep_view() == v.deep_view().take(i as int),
        decreases v.len() - i,
    {
        let ghost before = out.deep_view();
        out.push(v[i].clone());
        assert(out.deep_view() =~= before.push(v.deep_view()[i as int]));
        assert(v.deep_view().take(i + 1) =~= v.deep_view().take(i as int).push(v.deep_view()[i as int]));
        i = i + 1;
    }
    assert(v.deep_view().take(i as int) =~= v.deep_view());
    out
}

/// Everything about a thread but what an edit of it may change: its path,
/// anchor, prompt, why, related notes, status and update time.
pub open spec fn same_identity(a: QuestionView, b: QuestionView) -> bool {
    a.id == b.id && a.created_at == b.created_at
}

/// What committing a draft with (trimmed, non-empty) `text` does to the
/// packet `p` (whose files already include the draft's path): see each target.
pub open spec fn draft_applied(p: PacketView, q: PacketView, d: PromptDraft, text: Seq<char>) -> bool {
    let path = d.path@;
    let anchor = d.anchor;
    let related = d.related_note_ids.deep_view();
    &&& q.version == p.version && q.session_id == p.session_id && q.title == p.title
    &&& q.workspace_root == p.workspace_root && q.files == p.files && q.created_at == p.created_at
    &&& match d.target {
        DraftTarget::New => match d.kind {
            // A new open thread at the end.
            DraftKind::Question => {
                &&& q.notes == p.notes
                &&& q.questions.len() == p.questions.len() + 1
                &&& q.questions.drop_last() == p.questions
                &&& crate::model::has_id_with_prefix(q.questions.last().id, "question-"@)
                &&& q.questions.last().path == path
                &&& q.questions.last().anchor == Some(anchor)
                &&& q.questions.last().prompt == text
                &&& q.questions.last().why is None
                &&& q.questions.last().related_note_ids == related
                &&& q.questions.last().conversation.len() == 0
                &&& q.questions.last().status == QuestionStatus::Open
            },
            // A new overview note by the reader at the end, titled from its text.
            DraftKind::Note => {
                &&& q.questions == p.questions
                &&& q.notes.len() == p.notes.len() + 1
                &&& q.notes.drop_last() == p.notes
                &&& crate::model::has_id_with_prefix(q.notes.last().id, "note-"@)
                &&& q.notes.last().path == path
                &&& q.notes.last().anchor == anchor
                &&& q.notes.last().kind == NoteKind::Overview
                &&& q.notes.last().title == title_from_text(text)
                &&& q.notes.last().body == text
                &&& q.notes.last().tags.len() == 0
                &&& q.notes.last().author is None
                &&& q.notes.last().source == NoteSource::Human
            },
        },
        // The reader's follow-up appended; the thread is open again.
        DraftTarget::ContinueQuestion { index } => {
            &&& q.notes == p.notes
            &&& q.questions.len() == p.questions.len()
            &&& forall|k: int| 0 <= k < p.questions.len() && k != index ==> q.questions[k] == p.questions[k]
            &&& index < p.questions.len() ==> {
                let before = p.questions[index as int];
                let after = q.questions[index as int];
                &&& after == (QuestionView {
                    conversation: after.conversation,
                    status: QuestionStatus::Open,
                    updated_at: after.updated_at,
                    ..before
                })
                &&& after.conversation.drop_last() == before.conversation
                &&& after.conversation.len() == before.conversation.len() + 1
                &&& after.conversation.last().role == QuestionMessageRole::User
                &&& after.conversation.last().body == text
            }
        },
        // The note moved to the draft's place, its body and title replaced.
        DraftTarget::EditNote { index } => {
            &&& q.questions == p.questions
            &&& q.notes.len() == p.notes.len()
            &&& forall|k: int| 0 <= k < p.notes.len() && k != index ==> q.notes[k] == p.notes[k]
            &&& index < p.notes.len() ==> q.notes[index as int] == (NoteView {
                path,
                anchor,
                title: title_from_text(text),
                body: text,
                updated_at: q.notes[index as int].updated_at,
                ..p.notes[index as int]
            })
        },
        // The thread's prompt replaced, its why dropped, and it is open again.
        DraftTarget::EditQuestionPrompt { index } => {
            &&& q.notes == p.notes
            &&& q.questions.len() == p.questions.len()
            &&& forall|k: int| 0 <= k < p.questions.len() && k != index ==> q.questions[k] == p.questions[k]
            &&& index < p.questions.len() ==> q.questions[index as int] == (QuestionView {
                path,
                anchor: Some(anchor),
                prompt: text,
                why: None,
                related_note_ids: related,
                status: QuestionStatus::Open,
                updated_at: q.questions[index as int].updated_at,
                ..p.questions[index as int]
            })
        },
        // One follow-up's text replaced (the replies after it kept); open again.
        DraftTarget::EditQuestionMessage { question_index, message_index } => {
            &&& q.notes == p.notes
            &&& q.questions.len() == p.questions.len()
            &&& forall|k: int| 0 <= k < p.questions.len() && k != question_index ==> q.questions[k] == p.questions[k]
            &&& question_index < p.questions.len() ==> {
                let before = p.questions[question_index as int];
                let after = q.questions[question_index as int];
                &&& after == (QuestionView {
                    path,
                    anchor: Some(anchor),
                    related_note_ids: related,
                    conversation: after.conversation,
                    status: QuestionStatus::Open,
                    updated_at: after.updated_at,
                    ..before
                })
                &&& after.conversation.len() == before.conversation.len()
                &&& forall|m: int| 0 <= m < before.conversation.len() && m != message_index ==> after.conversation[m] == before.conversation[m]
                &&& message_index < before.conversation.len() ==> after.conversation[message_index as int] == (MessageView {
                    body: text,
                    updated_at: after.conversation[message_index as int].updated_at,
                    ..before.conversation[message_index as int]
                })
            }
        },
    }
}

impl App {
    fn apply_new_draft(&mut self, draft: &PromptDraft, text: String)
        requires
            draft.target == DraftTarget::New,
        ensures
            draft_applied(old(self).packet@, final(self).packet@, *draft, text@),
            *final(self) == (App { packet: final(self).packet, ..*old(self) }),
    {
        match draft.kind {
            DraftKind::Question => {
                let q = Question::new(
                    draft.path.clone(),
                    Some(draft.anchor),
                    text,
                    None,
                    copy_strings(&draft.related_note_ids),
                );
                let ghost before = self.packet@.questions;
                let ghost qv = q@;
                self.packet.questions.push(q);
                assert(self.packet@.questions =~= before.push(qv));
                assert(before.push(qv).drop_last() =~= before);
            },
            DraftKind::Note => {
                let title = note_title_from_text(text.as_str());
                let n = Note::new(
                    draft.path.clone(),
                    draft.anchor,
                    NoteKind::Overview,
                    title,
                    text,
                    Vec::new(),
                    None,
                    NoteSource::Human,
                );
                let ghost before = self.packet@.notes;
                let ghost nv = n@;
                self.packet.notes.push(n);
                assert(self.packet@.notes =~= before.push(nv));
                assert(before.push(nv).drop_last() =~= before);
            },
        }
    }
}

pub open spec fn commit_message(diff: bool, kind: DraftKind, target: DraftTarget) -> Seq<char> {
    if diff {
        match (kind, target) {
            (DraftKind::Question, DraftTarget::New) => "comment staged; press s to save or y/x to export the review"@,
            (DraftKind::Question, DraftTarget::ContinueQuestion { .. }) => "comment reply staged; press s to save or y/x to export the review"@,
            (DraftKind::Question, _) => "comment updated; press s to save or y/x to export the review"@,
            (DraftKind::Note, DraftTarget::New) => "review note staged; press s to save or keep reading"@,
            (DraftKind::Note, _) => "review note updated; press s to save or keep reading"@,
        }
    } else {
        match (kind, target) {
            (DraftKind::Question, DraftTarget::New) => "question staged; press s to save or x to save and export"@,
            (DraftKind::Question, DraftTarget::ContinueQuestion { .. }) => "follow-up staged; press s to save or x to save and export"@,
            (DraftKind::Question, _) => "question updated; press s to save or x to save and export"@,
            (DraftKind::Note, DraftTarget::New) => "note staged; press s to save or keep reading"@,
            (DraftKind::Note, _) => "note updated; press s to save or keep reading"@,
        }
    }
}

/// What committing the draft does: an empty text keeps the draft open with a
/// message; otherwise the draft's file is tracked, the draft applied
/// (`draft_applied`), the packet stamped and marked dirty, and the draft closed.
pub open spec fn committed(before: App, after: App) -> bool {
    match before.draft {
        None => after == before,
        Some(d) => if trim(d.buffer.text@).len() == 0 {
            after == (App { message: after.message, ..before }) && says(after.message, "the draft cannot be empty"@)
        } else {
            &&& after == (App {
                packet: after.packet,
                draft: None,
                dirty: true,
                input_mode: InputMode::Normal,
                message: after.message,
                ..before
            })
            &&& draft_applied(
                PacketView { files: crate::model::files_with(before.packet@.files, d.path@), ..before.packet@ },
                after.packet@,
                d,
                trim(d.buffer.text@),
            )
            &&& says(after.message, commit_message(is_diff(before), d.kind, d.target))
        },
    }
}

impl App {
    fn continue_question(&mut self, draft: &PromptDraft, text: String)
        requires
            draft.target is ContinueQuestion,
        ensures
            draft_applied(old(self).packet@, final(self).packet@, *draft, text@),
            *final(self) == (App { packet: final(self).packet, ..*old(self) }),
    {
        let ghost p = self.packet@;
        let index = match draft.target {
            DraftTarget::ContinueQuestion { index } => index,
            _ => {
                return;
            },
        };
        if index < self.packet.questions.len() {
            self.packet.questions[index].add_message(QuestionMessageRole::User, text);
            self.packet.questions[index].status = QuestionStatus::Open;
            proof {
                assert forall|k: int| 0 <= k < p.questions.len() && k != index implies self.packet@.questions[k] == p.questions[k] by {}
            }
        }
    }

    #[verifier::rlimit(30)]
    fn edit_note(&mut self, draft: &PromptDraft, text: String)
        requires
            draft.target is EditNote,
        ensures
            draft_applied(old(self).packet@, final(self).packet@, *draft, text@),
            *final(self) == (App { packet: final(self).packet, ..*old(self) }),
    {
        let ghost p = self.packet@;
        let index = match draft.target {
            DraftTarget::EditNote { index } => index,
            _ => {
                return;
            },
        };
        if index < self.packet.notes.len() {
            let title = note_title_from_text(text.as_str());
            self.packet.notes[index].path = draft.path.clone();
            self.packet.notes[index].anchor = draft.anchor;
            self.packet.notes[index].title = title;
            self.packet.notes[index].body = text;
            self.packet.notes[index].updated_at = crate::stamp::now_nanos();
            proof {
                assert forall|k: int| 0 <= k < p.notes.len() && k != index implies self.packet@.notes[k] == p.notes[k] by {}
            }
        }
    }

    #[verifier::rlimit(30)]
    fn edit_prompt(&mut self, draft: &PromptDraft, text: String)
        requires
            draft.target is EditQuestionPrompt,
        ensures
            draft_applied(old(self).packet@, final(self).packet@, *draft, text@),
            *final(self) == (App { packet: final(self).packet, ..*old(self) }),
    {
        let ghost p = self.packet@;
        let index = match draft.target {
            DraftTarget::EditQuestionPrompt { index } => index,
            _ => {
                return;
            },
        };
        if index < self.packet.questions.len() {
            self.packet.questions[index].path = draft.path.clone();
            self.packet.questions[index].anchor = Some(draft.anchor);
            self.packet.questions[index].prompt = text;
            self.packet.questions[index].why = None;
            self.packet.questions[index].related_note_ids = copy_strings(&draft.related_note_ids);
            self.packet.questions[index].status = QuestionStatus::Open;
            self.packet.questions[index].updated_at = crate::stamp::now_nanos();
            proof {
                assert forall|k: int| 0 <= k < p.questions.len() && k != index implies self.packet@.questions[k] == p.questions[k] by {}
            }
        }
    }

    #[verifier::rlimit(40)]
    fn edit_message(&mut self, draft: &PromptDraft, text: String)
        requires
            draft.target is EditQuestionMessage,
        ensures
            draft_applied(old(self).packet@, final(self).packet@, *draft, text@),
            *final(self) == (App { packet: final(self).packet, ..*old(self) }),
    {
        let ghost p = self.packet@;
        let (question_index, message_index) = match draft.target {
            DraftTarget::EditQuestionMessage { question_index, message_index } => (question_index, message_index),
            _ => {
                return;
            },
        };
        if question_index < self.packet.questions.len() {
            let ghost before = p.questions[question_index as int];
            self.packet.questions[question_index].path = draft.path.clone();
            self.packet.questions[question_index].anchor = Some(draft.anchor);
            self.packet.questions[question_index].related_note_ids = copy_strings(&draft.related_note_ids);
            if message_index < self.packet.questions[question_index].conversation.len() {
                self.packet.questions[question_index].conversation[message_index].body = text;
                self.packet.questions[question_index].conversation[message_index].updated_at = crate::stamp::now_nanos();
            }
            self.packet.questions[question_index].status = QuestionStatus::Open;
            self.packet.questions[question_index].updated_at = crate::stamp::now_nanos();
            proof {
                let after = self.packet@.questions[question_index as int];
                assert forall|m: int| 0 <= m < before.conversation.len() && m != message_index implies after.conversation[m] == before.conversation[m] by {}
                assert forall|k: int| 0 <= k < p.questions.len() && k != question_index implies self.packet@.questions[k] == p.questions[k] by {}
            }
        }
    }

    fn apply_draft(&mut self, draft: &PromptDraft, text: String)
        ensures
            draft_applied(
                PacketView { files: crate::model::files_with(old(self).packet@.files, draft.path@), ..old(self).packet@ },
                final(self).packet@,
                *draft,
                text@,
            ),
            *final(self) == (App { packet: final(self).packet, ..*old(self) }),
    {
        let _ = self.packet.ensure_file(draft.path.clone());
        match draft.target {
            DraftTarget::New => self.apply_new_draft(draft, text),
            DraftTarget::ContinueQuestion { .. } => self.continue_question(draft, text),
            DraftTarget::EditNote { .. } => self.edit_note(draft, text),
            DraftTarget::EditQuestionPrompt { .. } => self.edit_prompt(draft, text),
            DraftTarget::EditQuestionMessage { .. } => self.edit_message(draft, text),
        }
    }

    /// Commits the draft being written (see `committed`).
    pub fn commit_draft(&mut self)
        ensures
            committed(*old(self), *final(self)),
    {
        let draft = match self.draft.take() {
            Some(d) => d,
            None => {
                return;
            },
        };
        let text = trim_string(draft.buffer.text.as_str());
        if text.as_str().is_empty() {
            self.draft = Some(draft);
            self.message = Some("the draft cannot be empty".to_string());
            return;
        }
        self.apply_draft(&draft, text);
        self.packet.touch();
        self.dirty = true;
        self.input_mode = InputMode::Normal;
        let diff = self.is_diff_mode();
        let message = if diff {
            match (draft.kind, draft.target) {
                (DraftKind::Question, DraftTarget::New) => "comment staged; press s to save or y/x to export the review",
                (DraftKind::Question, DraftTarget::ContinueQuestion { .. }) => "comment reply staged; press s to save or y/x to export the review",
                (DraftKind::Question, _) => "comment updated; press s to save or y/x to export the review",
                (DraftKind::Note, DraftTarget::New) => "review note staged; press s to save or keep reading",
                (DraftKind::Note, _) => "review note updated; press s to save or keep reading",
            }
        } else {
            match (draft.kind, draft.target) {
                (DraftKind::Question, DraftTarget::New) => "question staged; press s to save or x to save and export",
                (DraftKind::Question, DraftTarget::ContinueQuestion { .. }) => "follow-up staged; press s to save or x to save and export",
                (DraftKind::Question, _) => "question updated; press s to save or x to save and export",
                (DraftKind::Note, DraftTarget::New) => "note staged; press s to save or keep reading",
                (DraftKind::Note, _) => "note updated; press s to save or keep reading",
            }
        };
        self.message = Some(message.to_string());
    }
}

// ---------------------------------------------------------------------------
// Threads and notes under the cursor.
// ---------------------------------------------------------------------------

pub proof fn lemma_last_index_where_bounds<T>(s: Seq<T>, p: spec_fn(T) -> bool)
    ensures
        last_index_where(s, p) matches Some(i) ==> 0 <= i < s.len() && p(s[i]),
    decreases s.len(),
{
    if s.len() > 0 && !p(s.last()) {
        lemma_last_index_where_bounds(s.drop_last(), p);
    }
}

/// The open thread under the cursor, if any.
pub open spec fn open_thread_here(a: App) -> Option<int> {
    match annotation_target(a) {
        Some((path, line)) => last_index_where(a.packet@.questions, open_question_at(path, line)),
        None => None,
    }
}

/// The thread under the cursor, if any.
pub open spec fn thread_here(a: App) -> Option<int> {
    match annotation_target(a) {
        Some((path, line)) => last_index_where(a.packet@.questions, question_at(path, line)),
        None => None,
    }
}

/// The note under the cursor, if any.
pub open spec fn note_here(a: App) -> Option<int> {
    match annotation_target(a) {
        Some((path, line)) => last_index_where(a.packet@.notes, note_at(path, line)),
        None => None,
    }
}

/// The line annotations are made at: the target's line, else the cursor line.
pub open spec fn annotation_line(a: App) -> usize {
    match annotation_target(a) {
        Some((_, line)) => line as usize,
        None => a.cursor_line,
    }
}

pub open spec fn pick(diff: bool, in_diff: Seq<char>, in_source: Seq<char>) -> Seq<char> {
    if diff {
        in_diff
    } else {
        in_source
    }
}

/// A draft holding `text` to begin with, cursor at its end.
pub open spec fn draft_holding(
    d: Option<PromptDraft>,
    kind: DraftKind,
    target: DraftTarget,
    path: Seq<char>,
    anchor: Anchor,
    related: Seq<Seq<char>>,
    text: Seq<char>,
) -> bool {
    d matches Some(x) && x.kind == kind && x.target == target && x.path@ == path && x.anchor == anchor
        && x.related_note_ids.deep_view() == related && x.buffer.text@ == text && x.buffer.wf()
        && x.buffer.column() == text.len() && x.original_text@ == text
}

/// The anchor a thread's draft uses: the thread's own, else the given line.
pub open spec fn thread_anchor(q: QuestionView, line: usize) -> Anchor {
    match q.anchor {
        Some(a) => a,
        None => Anchor { start_line: line, end_line: None },
    }
}

/// What continuing the thread under the cursor does: it needs a tracked file
/// and an open thread there; it starts an empty follow-up draft on it.
pub open spec fn began_follow_up(before: App, after: App) -> bool {
    let diff = is_diff(before);
    if !has_context(before) {
        after == (App { message: after.message, ..before }) && says(
            after.message,
            pick(diff, "add a tracked file before continuing a comment"@, "add a tracked file before continuing a question"@),
        )
    } else {
        match open_thread_here(before) {
            None => after == (App { message: after.message, ..before }) && says(
                after.message,
                pick(
                    diff,
                    "there is no open comment thread on the current line to continue"@,
                    "there is no open question thread on the current line to continue"@,
                ),
            ),
            Some(index) => {
                let q = before.packet@.questions[index];
                &&& after == (App {
                    draft: after.draft,
                    message: after.message,
                    ..cleared_visual(App { discard_guard: false, input_mode: InputMode::Draft, ..before })
                })
                &&& fresh_draft(
                    after.draft,
                    DraftKind::Question,
                    DraftTarget::ContinueQuestion { index: index as usize },
                    q.path,
                    thread_anchor(q, annotation_line(before)),
                    q.related_note_ids,
                )
                &&& says(
                    after.message,
                    pick(
                        diff,
                        "continue the comment thread; Ctrl-S saves, Ctrl-O opens the external editor"@,
                        "continue the conversation; Ctrl-S saves, Ctrl-O opens the external editor"@,
                    ),
                )
            },
        }
    }
}

/// The draft target for editing thread `index`: the reader's latest
/// follow-up, else its prompt.
pub open spec fn thread_edit_target(p: PacketView, index: int) -> DraftTarget {
    match last_index_where(p.questions[index].conversation, user_message()) {
        Some(m) => DraftTarget::EditQuestionMessage { question_index: index as usize, message_index: m as usize },
        None => DraftTarget::EditQuestionPrompt { index: index as usize },
    }
}

/// What an edit of the annotation under the cursor targets: the note first
/// when `prefer_note`, else the thread first.
pub open spec fn edit_choice(a: App, prefer_note: bool) -> Option<DraftTarget> {
    let note = match note_here(a) {
        Some(i) => Some(DraftTarget::EditNote { index: i as usize }),
        None => None,
    };
    let thread = match thread_here(a) {
        Some(i) => Some(thread_edit_target(a.packet@, i)),
        None => None,
    };
    if prefer_note {
        if note is Some { note } else { thread }
    } else {
        if thread is Some { thread } else { note }
    }
}

/// What editing the annotation under the cursor does: a draft holding the
/// note's body, the thread's prompt, or the reader's latest follow-up.
pub open spec fn began_edit(before: App, after: App, prefer_note: bool) -> bool {
    let diff = is_diff(before);
    let p = before.packet@;
    let line = annotation_line(before);
    if !has_context(before) {
        after == (App { message: after.message, ..before }) && says(after.message, "add a tracked file before editing annotations"@)
    } else {
        match edit_choice(before, prefer_note) {
            None => after == (App { message: after.message, ..before }) && says(
                after.message,
                pick(
                    diff,
                    "there is no editable note or comment thread on the current line"@,
                    "there is no editable note or question on the current line"@,
                ),
            ),
            Some(target) => {
                &&& after == (App {
                    draft: after.draft,
                    message: after.message,
                    ..cleared_visual(App { input_mode: InputMode::Draft, ..before })
                })
                &&& says(
                    after.message,
                    pick(
                        diff,
                        "edit the review comment; Ctrl-S saves, Ctrl-O opens the external editor"@,
                        "edit the annotation; Ctrl-S saves, Ctrl-O opens the external editor"@,
                    ),
                )
                &&& match target {
                    DraftTarget::EditNote { index } => draft_holding(
                        after.draft,
                        DraftKind::Note,
                        target,
                        p.notes[index as int].path,
                        p.notes[index as int].anchor,
                        Seq::empty(),
                        p.notes[index as int].body,
                    ),
                    DraftTarget::EditQuestionPrompt { index } => draft_holding(
                        after.draft,
                        DraftKind::Question,
                        target,
                        p.questions[index as int].path,
                        thread_anchor(p.questions[index as int], line),
                        p.questions[index as int].related_note_ids,
                        p.questions[index as int].prompt,
                    ),
                    DraftTarget::EditQuestionMessage { question_index, message_index } => draft_holding(
                        after.draft,
                        DraftKind::Question,
                        target,
                        p.questions[question_index as int].path,
                        thread_anchor(p.questions[question_index as int], line),
                        p.questions[question_index as int].related_note_ids,
                        p.questions[question_index as int].conversation[message_index as int].body,
                    ),
                    _ => false,
                }
            },
        }
    }
}

impl App {
    /// Starts a follow-up on the open thread under the cursor (see `began_follow_up`).
    pub fn begin_question_follow_up(&mut self)
        ensures
            began_follow_up(*old(self), *final(self)),
    {
        let diff = self.is_diff_mode();
        if !self.has_annotation_context() {
            self.message = Some(
                if diff {
                    "add a tracked file before continuing a comment"
                } else {
                    "add a tracked file before continuing a question"
                }.to_string(),
            );
            return;
        }
        let index = match self.current_open_question_index() {
            Some(i) => i,
            None => {
                self.message = Some(
                    if diff {
                        "there is no open comment thread on the current line to continue"
                    } else {
                        "there is no open question thread on the current line to continue"
                    }.to_string(),
                );
                return;
            },
        };
        proof {
            let (path, line) = annotation_target(*self)->0;
            lemma_last_index_where_bounds(self.packet@.questions, open_question_at(path, line));
        }
        let path = self.packet.questions[index].path.clone();
        let related_note_ids = copy_strings(&self.packet.questions[index].related_note_ids);
        let anchor = self.packet.questions[index].anchor;
        let current_line = self.current_annotation_line();
        self.discard_guard = false;
        self.clear_visual_selection_state();
        let anchor = match anchor {
            Some(a) => a,
            None => Anchor::new(current_line, None),
        };
        self.draft = Some(
            PromptDraft {
                kind: DraftKind::Question,
                target: DraftTarget::ContinueQuestion { index },
                path,
                anchor,
                related_note_ids,
                buffer: TextBuffer::default(),
                original_text: String::new(),
            },
        );
        self.input_mode = InputMode::Draft;
        self.message = Some(
            if diff {
                "continue the comment thread; Ctrl-S saves, Ctrl-O opens the external editor"
            } else {
                "continue the conversation; Ctrl-S saves, Ctrl-O opens the external editor"
            }.to_string(),
        );
    }

    /// Continues the open thread under the cursor, else starts a new question.
    pub fn begin_question_or_follow_up(&mut self)
        ensures
            open_thread_here(*old(self)) is Some ==> began_follow_up(*old(self), *final(self)),
            open_thread_here(*old(self)) is None ==> began_draft(*old(self), *final(self), DraftKind::Question),
    {
        if self.current_open_question_index().is_some() {
            self.begin_question_follow_up();
        } else {
            self.begin_question();
        }
    }

    fn latest_question_draft_target(&self, question_index: usize) -> (r: DraftTarget)
        requires
            question_index < self.packet@.questions.len(),
        ensures
            r == thread_edit_target(self.packet@, question_index as int),
    {
        match latest_user_message_index(&self.packet.questions[question_index]) {
            Some(message_index) => DraftTarget::EditQuestionMessage { question_index, message_index },
            None => DraftTarget::EditQuestionPrompt { index: question_index },
        }
    }

    /// Opens a draft editing the annotation under the cursor (see `began_edit`).
    pub fn begin_edit_current_annotation(&mut self, prefer_note: bool)
        ensures
            began_edit(*old(self), *final(self), prefer_note),
    {
        let diff = self.is_diff_mode();
        if !self.has_annotation_context() {
            self.message = Some("add a tracked file before editing annotations".to_string());
            return;
        }
        let note_index = self.current_note_index();
        let question_index = self.current_question_index();
        proof {
            match annotation_target(*self) {
                Some((path, line)) => {
                    lemma_last_index_where_bounds(self.packet@.questions, question_at(path, line));
                    lemma_last_index_where_bounds(self.packet@.notes, note_at(path, line));
                },
                None => {},
            }
        }
        let question_target = match question_index {
            Some(i) => Some(self.latest_question_draft_target(i)),
            None => None,
        };
        let note_target = match note_index {
            Some(i) => Some(DraftTarget::EditNote { index: i }),
            None => None,
        };
        let choice = if prefer_note {
            if note_target.is_some() { note_target } else { question_target }
        } else {
            if question_target.is_some() { question_target } else { note_target }
        };
        let target = match choice {
            Some(t) => t,
            None => {
                self.message = Some(
                    if diff {
                        "there is no editable note or comment thread on the current line"
                    } else {
                        "there is no editable note or question on the current line"
                    }.to_string(),
                );
                return;
            },
        };
        let current_line = self.current_annotation_line();
        let draft = match target {
            DraftTarget::EditNote { index } => {
                let note = &self.packet.notes[index];
                let v: Vec<String> = Vec::new();
                assert(v.deep_view() =~= Seq::<Seq<char>>::empty());
                PromptDraft {
                    kind: DraftKind::Note,
                    target,
                    path: note.path.clone(),
                    anchor: note.anchor,
                    related_note_ids: v,
                    buffer: TextBuffer::from_text(note.body.clone()),
                    original_text: note.body.clone(),
                }
            },
            DraftTarget::EditQuestionPrompt { index } => {
                let question = &self.packet.questions[index];
                PromptDraft {
                    kind: DraftKind::Question,
                    target,
                    path: question.path.clone(),
                    anchor: match question.anchor {
                        Some(a) => a,
                        None => Anchor::new(current_line, None),
                    },
                    related_note_ids: copy_strings(&question.related_note_ids),
                    buffer: TextBuffer::from_text(question.prompt.clone()),
                    original_text: question.prompt.clone(),
                }
            },
            DraftTarget::EditQuestionMessage { question_index, message_index } => {
                let question = &self.packet.questions[question_index];
                proof {
                    lemma_last_index_where_bounds(self.packet@.questions[question_index as int].conversation, user_message());
                }
                let message = &question.conversation[message_index];
                PromptDraft {
                    kind: DraftKind::Question,
                    target,
                    path: question.path.clone(),
                    anchor: match question.anchor {
                        Some(a) => a,
                        None => Anchor::new(current_line, None),
                    },
                    related_note_ids: copy_strings(&question.related_note_ids),
                    buffer: TextBuffer::from_text(message.body.clone()),
                    original_text: message.body.clone(),
                }
            },
            _ => {
                return;
            },
        };
        self.draft = Some(draft);
        self.clear_visual_selection_state();
        self.input_mode = InputMode::Draft;
        self.message = Some(
            if diff {
                "edit the review comment; Ctrl-S saves, Ctrl-O opens the external editor"
            } else {
                "edit the annotation; Ctrl-S saves, Ctrl-O opens the external editor"
            }.to_string(),
        );
    }
}

// ---------------------------------------------------------------------------
// Visual mode, closing drafts, quitting.
// ---------------------------------------------------------------------------


/// Leaving visual mode undoes entering it: from the normal mode with the
/// source (or diff) view focused and no selection, entering visual mode (as
/// `enter_visual_mode` does when it can) and leaving it again (as
/// `exit_visual_mode` does) gives back the same session, but for the message
/// and the discard guard, which any key clears.
pub proof fn lemma_exit_visual_undoes_enter(a0: App, a1: App, a2: App)
    requires
        a0.input_mode == InputMode::Normal,
        a0.focus == FocusPane::Source,
        a0.visual_anchor is None,
        a0.diff_browser matches Some(b) ==> b.visual_anchor_row is None,
        !is_diff(a0) ==> a0.files@.len() > 0 && a1 == (App {
            discard_guard: false,
            focus: FocusPane::Source,
            input_mode: InputMode::Visual,
            visual_anchor: Some(a0.cursor_line),
            message: a1.message,
            ..a0
        }),
        is_diff(a0) ==> a1 == (App {
            discard_guard: false,
            focus: FocusPane::Source,
            input_mode: InputMode::Visual,
            message: a1.message,
            ..with_browser(a0, |b: DiffBrowserState| DiffBrowserState { visual_anchor_row: Some(b.cursor_row), ..b })
        }),
        a2 == (App { input_mode: InputMode::Normal, message: a2.message, ..cleared_visual(a1) }),
    ensures
        a2 == (App { discard_guard: false, message: a2.message, ..a0 }),
{
    match a0.diff_browser {
        Some(b) => {
            if is_diff(a0) {
                assert(a2.diff_browser == Some(b));
            } else {
                assert(a2.diff_browser == Some(DiffBrowserState { visual_anchor_row: None, ..b }));
                assert(DiffBrowserState { visual_anchor_row: None, ..b } == b);
            }
        },
        None => {},
    }
}

impl App {
    /// Starts a visual selection at the cursor.
    pub fn enter_visual_mode(&mut self)
        ensures
            is_diff(*old(self)) && annotation_target(*old(self)) is None ==> *final(self) == (App {
                message: final(self).message,
                ..*old(self)
            }) && says(
                final(self).message,
                "move to an added, unchanged, or expanded-context line before starting a visual selection"@,
            ),
            is_diff(*old(self)) && annotation_target(*old(self)) is Some ==> *final(self) == (App {
                discard_guard: false,
                focus: FocusPane::Source,
                input_mode: InputMode::Visual,
                message: final(self).message,
                ..with_browser(
                    *old(self),
                    |b: DiffBrowserState| DiffBrowserState { visual_anchor_row: Some(b.cursor_row), ..b },
                )
            }) && says(final(self).message, "visual selection started; move the cursor and press a or n"@),
            !is_diff(*old(self)) && old(self).files@.len() == 0 ==> *final(self) == (App {
                message: final(self).message,
                ..*old(self)
            }) && says(final(self).message, "add a tracked file before selecting a range"@),
            !is_diff(*old(self)) && old(self).files@.len() > 0 ==> *final(self) == (App {
                discard_guard: false,
                focus: FocusPane::Source,
                input_mode: InputMode::Visual,
                visual_anchor: Some(old(self).cursor_line),
                message: final(self).message,
                ..*old(self)
            }) && says(final(self).message, "visual selection started; move the cursor and press a or n"@),
    {
        if self.is_diff_mode() {
            if self.current_annotation_target().is_none() {
                self.message = Some(
                    "move to an added, unchanged, or expanded-context line before starting a visual selection".to_string(),
                );
                return;
            }
            self.discard_guard = false;
            self.focus = FocusPane::Source;
            self.input_mode = InputMode::Visual;
            if let Some(mut b) = self.diff_browser.take() {
                b.visual_anchor_row = Some(b.cursor_row);
                self.diff_browser = Some(b);
            }
            self.message = Some("visual selection started; move the cursor and press a or n".to_string());
            return;
        }
        if self.files.len() == 0 {
            self.message = Some("add a tracked file before selecting a range".to_string());
            return;
        }
        self.discard_guard = false;
        self.focus = FocusPane::Source;
        self.input_mode = InputMode::Visual;
        self.visual_anchor = Some(self.cursor_line);
        self.message = Some("visual selection started; move the cursor and press a or n".to_string());
    }

    pub fn exit_visual_mode(&mut self)
        ensures
            *final(self) == (App {
                input_mode: InputMode::Normal,
                message: final(self).message,
                ..cleared_visual(*old(self))
            }),
            says(final(self).message, "visual selection cleared"@),
    {
        self.input_mode = InputMode::Normal;
        self.clear_visual_selection_state();
        self.message = Some("visual selection cleared".to_string());
    }

    /// Closes the draft; one whose text changed asks first whether to save it.
    pub fn request_close_draft(&mut self)
        ensures
            match old(self).draft {
                None => *final(self) == *old(self),
                Some(d) => if trim(d.buffer.text@) != trim(d.original_text@) {
                    *final(self) == (App {
                        input_mode: InputMode::DraftConfirm,
                        message: final(self).message,
                        ..*old(self)
                    }) && says(final(self).message, "save the draft before closing? y=yes, n=no"@)
                } else {
                    *final(self) == (App {
                        draft: None,
                        input_mode: InputMode::Normal,
                        message: final(self).message,
                        ..*old(self)
                    }) && says(final(self).message, "draft closed"@)
                },
            },
    {
        let dirty = match &self.draft {
            Some(d) => d.is_dirty(),
            None => {
                return;
            },
        };
        if dirty {
            self.input_mode = InputMode::DraftConfirm;
            self.message = Some("save the draft before closing? y=yes, n=no".to_string());
        } else {
            self.discard_draft();
        }
    }

    pub fn discard_draft(&mut self)
        ensures
            *final(self) == (App {
                draft: None,
                input_mode: InputMode::Normal,
                message: final(self).message,
                ..*old(self)
            }),
            says(final(self).message, "draft closed"@),
    {
        self.draft = None;
        self.input_mode = InputMode::Normal;
        self.message = Some("draft closed".to_string());
    }

    pub fn resume_draft(&mut self)
        ensures
            old(self).draft is None ==> *final(self) == *old(self),
            old(self).draft is Some ==> *final(self) == (App {
                input_mode: InputMode::Draft,
                message: final(self).message,
                ..*old(self)
            }) && says(final(self).message, "continue editing the draft"@),
    {
        if self.draft.is_some() {
            self.input_mode = InputMode::Draft;
            self.message = Some("continue editing the draft".to_string());
        }
    }

    /// Quits, unless there are unsaved changes and this is the first request.
    pub fn request_quit(&mut self)
        ensures
            old(self).dirty && !old(self).discard_guard ==> *final(self) == (App {
                discard_guard: true,
                message: final(self).message,
                ..*old(self)
            }) && says(final(self).message, "unsaved changes: press q again to discard, or s/x to keep them"@),
            !(old(self).dirty && !old(self).discard_guard) ==> *final(self) == (App {
                should_quit: true,
                quit_notice: final(self).quit_notice,
                ..*old(self)
            }) && says(final(self).quit_notice, "quit without saving"@),
    {
        if self.dirty && !self.discard_guard {
            self.discard_guard = true;
            self.message = Some("unsaved changes: press q again to discard, or s/x to keep them".to_string());
            return;
        }
        self.should_quit = true;
        self.quit_notice = Some("quit without saving".to_string());
    }

    /// Takes the source view's new layout (ignored in diff mode).
    pub fn update_view_metrics(&mut self, metrics: ViewMetrics)
        ensures
            is_diff(*old(self)) ==> *final(self) == *old(self),
            !is_diff(*old(self)) ==> *final(self) == source_shown(
                App {
                    view_metrics: ViewMetrics {
                        viewport_height: if metrics.viewport_height >= 1 { metrics.viewport_height } else { 1 },
                        ..metrics
                    },
                    ..*old(self)
                },
            ),
    {
        if self.is_diff_mode() {
            return;
        }
        let mut metrics = metrics;
        if metrics.viewport_height < 1 {
            metrics.viewport_height = 1;
        }
        self.view_metrics = metrics;
        self.ensure_source_cursor_visible();
    }

    /// Keeps the source view from scrolling past its last screenful: the
    /// scroll is at most `total_rows - viewport_height` (0 when all rows fit).
    pub fn fit_scroll(&mut self, total_rows: usize, viewport_height: usize)
        ensures
            *final(self) == (App {
                scroll: if old(self).scroll > sat_sub(total_rows as int, viewport_height as int) {
                    sat_sub(total_rows as int, viewport_height as int) as usize
                } else {
                    old(self).scroll
                },
                ..*old(self)
            }),
    {
        let last = total_rows.saturating_sub(viewport_height);
        if self.scroll > last {
            self.scroll = last;
        }
    }

    /// Takes the diff view's new layout.
    pub fn update_diff_view_metrics(&mut self, metrics: DiffViewMetrics)
        ensures
            ({
                let m = DiffViewMetrics {
                    viewport_height: if metrics.viewport_height >= 1 { metrics.viewport_height } else { 1 },
                    ..metrics
                };
                let placed = with_browser(*old(self), |b: DiffBrowserState| DiffBrowserState { view_metrics: m, ..b });
                *final(self) == if is_diff(*old(self)) {
                    with_browser(placed, |b: DiffBrowserState| shown(b))
                } else {
                    source_shown(placed)
                }
            }),
    {
        let mut metrics = metrics;
        if metrics.viewport_height < 1 {
            metrics.viewport_height = 1;
        }
        if let Some(mut b) = self.diff_browser.take() {
            b.view_metrics = metrics;
            self.diff_browser = Some(b);
        }
        self.ensure_cursor_visible();
    }
}

// ---------------------------------------------------------------------------
// Deleting, resolving and reopening.
// ---------------------------------------------------------------------------

/// The packet with only its threads and update time changed.
pub open spec fn only_threads_changed(p: PacketView, q: PacketView) -> bool {
    q == (PacketView { questions: q.questions, updated_at: q.updated_at, ..p })
}

/// Thread `i` given `status` (and a new update time); the others unchanged.
pub open spec fn status_set(before: Seq<QuestionView>, after: Seq<QuestionView>, i: int, status: QuestionStatus) -> bool {
    &&& after.len() == before.len()
    &&& forall|k: int| 0 <= k < before.len() && k != i ==> after[k] == before[k]
    &&& after[i] == (QuestionView { status, updated_at: after[i].updated_at, ..before[i] })
}

pub open spec fn turn_deletion_message(diff: bool, id: Seq<char>, removed: int) -> Seq<char> {
    let head = pick(diff, "deleted latest reply from comment thread "@, "deleted latest follow-up from question "@) + id;
    if removed == 1 {
        head
    } else {
        head + " and "@ + crate::text::decimal((removed - 1) as nat) + " dependent repl"@ + if removed == 2 {
            "y"@
        } else {
            "ies"@
        }
    }
}

/// Deleting the latest turn of thread `i`: the reader's latest follow-up and
/// the replies after it go, and the thread is open exactly when it still waits
/// for a reply; a thread with no follow-up goes entirely.
pub open spec fn turn_deleted(before: Seq<QuestionView>, after: Seq<QuestionView>, i: int, diff: bool, message: Seq<char>) -> bool {
    let t = before[i];
    match last_index_where(t.conversation, user_message()) {
        None => after == before.remove(i) && message == pick(diff, "deleted comment thread "@, "deleted question "@) + t.id,
        Some(m) => {
            let kept = QuestionView { conversation: t.conversation.take(m), ..t };
            &&& after.len() == before.len()
            &&& forall|k: int| 0 <= k < before.len() && k != i ==> after[k] == before[k]
            &&& after[i] == (QuestionView {
                status: if crate::model::needs_reply(kept) { QuestionStatus::Open } else { QuestionStatus::Answered },
                updated_at: after[i].updated_at,
                ..kept
            })
            &&& message == turn_deletion_message(diff, t.id, t.conversation.len() - m)
        },
    }
}

/// What deleting the annotation under the cursor does: the thread's latest
/// turn first (`turn_deleted`), else the note; the packet is stamped and dirty.
pub open spec fn deleted_annotation(before: App, after: App, r: bool) -> bool {
    let diff = is_diff(before);
    let p = before.packet@;
    let q = after.packet@;
    match thread_here(before) {
        Some(i) => {
            &&& r
            &&& after == (App { packet: after.packet, dirty: true, discard_guard: false, message: after.message, ..before })
            &&& q == (PacketView { questions: q.questions, updated_at: q.updated_at, ..p })
            &&& after.message matches Some(m) && turn_deleted(p.questions, q.questions, i, diff, m@)
        },
        None => match note_here(before) {
            Some(i) => {
                &&& r
                &&& after == (App { packet: after.packet, dirty: true, discard_guard: false, message: after.message, ..before })
                &&& q == (PacketView { notes: p.notes.remove(i), updated_at: q.updated_at, ..p })
                &&& says(after.message, "deleted note "@ + p.notes[i].title)
            },
            None => {
                &&& !r
                &&& after == (App { message: after.message, ..before })
                &&& says(
                    after.message,
                    pick(diff, "no note or comment thread is attached to the current line"@, "no note or question is attached to the current line"@),
                )
            },
        },
    }
}

impl App {
    fn delete_latest_question_turn(&mut self, index: usize) -> (message: String)
        requires
            index < old(self).packet@.questions.len(),
        ensures
            only_threads_changed(old(self).packet@, final(self).packet@),
            final(self).packet@.updated_at == old(self).packet@.updated_at,
            turn_deleted(old(self).packet@.questions, final(self).packet@.questions, index as int, is_diff(*old(self)), message@),
            *final(self) == (App { packet: final(self).packet, ..*old(self) }),
    {
        let diff = self.is_diff_mode();
        let ghost qs = self.packet@.questions;
        let message_index = match latest_user_message_index(&self.packet.questions[index]) {
            Some(m) => m,
            None => {
                let ghost vq = self.packet.questions@;
                let deleted = self.packet.questions.remove(index);
                assert(self.packet@.questions =~= qs.remove(index as int));
                assert(deleted@ == qs[index as int]);
                let mut out = if diff {
                    "deleted comment thread ".to_string()
                } else {
                    "deleted question ".to_string()
                };
                push_str(&mut out, deleted.id.as_str());
                return out;
            },
        };
        proof {
            lemma_last_index_where_bounds(qs[index as int].conversation, user_message());
        }
        let removed_count = self.packet.questions[index].conversation.len() - message_index;
        self.packet.questions[index].conversation.truncate(message_index);
        let waits = self.packet.questions[index].needs_agent_reply();
        self.packet.questions[index].status = if waits {
            QuestionStatus::Open
        } else {
            QuestionStatus::Answered
        };
        self.packet.questions[index].updated_at = crate::stamp::now_nanos();
        proof {
            assert(crate::model::messages_view(self.packet.questions[index as int].conversation@) =~= qs[index as int].conversation.take(message_index as int));
            assert forall|k: int| 0 <= k < qs.len() && k != index implies self.packet@.questions[k] == qs[k] by {}
        }
        let id = self.packet.questions[index].id.clone();
        let mut out = if diff {
            "deleted latest reply from comment thread ".to_string()
        } else {
            "deleted latest follow-up from question ".to_string()
        };
        push_str(&mut out, id.as_str());
        if removed_count != 1 {
            push_str(&mut out, " and ");
            crate::text::push_decimal(&mut out, removed_count - 1);
            push_str(&mut out, " dependent repl");
            push_str(&mut out, if removed_count == 2 { "y" } else { "ies" });
        }
        out
    }

    /// Deletes the annotation under the cursor (see `deleted_annotation`).
    pub fn delete_annotation_at_cursor(&mut self) -> (r: bool)
        ensures
            deleted_annotation(*old(self), *final(self), r),
    {
        let question_index = self.current_question_index();
        proof {
            match annotation_target(*self) {
                Some((path, line)) => {
                    lemma_last_index_where_bounds(self.packet@.questions, question_at(path, line));
                    lemma_last_index_where_bounds(self.packet@.notes, note_at(path, line));
                },
                None => {},
            }
        }
        if let Some(index) = question_index {
            let deleted = self.delete_latest_question_turn(index);
            self.packet.touch();
            self.dirty = true;
            self.discard_guard = false;
            self.message = Some(deleted);
            return true;
        }
        if let Some(index) = self.current_note_index() {
            let ghost ns = self.packet@.notes;
            let deleted = self.packet.notes.remove(index);
            assert(self.packet@.notes =~= ns.remove(index as int));
            assert(deleted@ == ns[index as int]);
            self.packet.touch();
            self.dirty = true;
            self.discard_guard = false;
            let mut out = "deleted note ".to_string();
            push_str(&mut out, deleted.title.as_str());
            self.message = Some(out);
            return true;
        }
        self.message = Some(
            if self.is_diff_mode() {
                "no note or comment thread is attached to the current line"
            } else {
                "no note or question is attached to the current line"
            }.to_string(),
        );
        false
    }

    /// Closes the open thread under the cursor: its status becomes answered.
    pub fn resolve_current_question(&mut self) -> (r: bool)
        ensures
            match open_thread_here(*old(self)) {
                None => !r && *final(self) == (App { message: final(self).message, ..*old(self) }) && says(
                    final(self).message,
                    pick(is_diff(*old(self)), "there is no open comment thread on the current line"@, "there is no open question thread on the current line"@),
                ),
                Some(i) => {
                    &&& r
                    &&& *final(self) == (App { packet: final(self).packet, dirty: true, discard_guard: false, message: final(self).message, ..*old(self) })
                    &&& only_threads_changed(old(self).packet@, final(self).packet@)
                    &&& status_set(old(self).packet@.questions, final(self).packet@.questions, i, QuestionStatus::Answered)
                    &&& says(
                        final(self).message,
                        pick(is_diff(*old(self)), "closed comment thread "@, "closed question "@) + old(self).packet@.questions[i].id,
                    )
                },
            },
    {
        let diff = self.is_diff_mode();
        let index = match self.current_open_question_index() {
            Some(i) => i,
            None => {
                self.message = Some(
                    if diff {
                        "there is no open comment thread on the current line"
                    } else {
                        "there is no open question thread on the current line"
                    }.to_string(),
                );
                return false;
            },
        };
        proof {
            let (path, line) = annotation_target(*self)->0;
            lemma_last_index_where_bounds(self.packet@.questions, open_question_at(path, line));
        }
        let ghost qs = self.packet@.questions;
        self.packet.questions[index].status = QuestionStatus::Answered;
        self.packet.questions[index].updated_at = crate::stamp::now_nanos();
        proof {
            assert forall|k: int| 0 <= k < qs.len() && k != index implies self.packet@.questions[k] == qs[k] by {}
        }
        let id = self.packet.questions[index].id.clone();
        self.packet.touch();
        self.dirty = true;
        self.discard_guard = false;
        let mut out = if diff {
            "closed comment thread ".to_string()
        } else {
            "closed question ".to_string()
        };
        push_str(&mut out, id.as_str());
        self.message = Some(out);
        true
    }

    /// Reopens the thread under the cursor unless it is already open.
    pub fn reopen_current_question(&mut self) -> (r: bool)
        ensures
            match thread_here(*old(self)) {
                None => !r && *final(self) == (App { message: final(self).message, ..*old(self) }) && says(
                    final(self).message,
                    pick(is_diff(*old(self)), "there is no comment thread on the current line"@, "there is no question thread on the current line"@),
                ),
                Some(i) => if old(self).packet@.questions[i].status == QuestionStatus::Open {
                    !r && *final(self) == (App { message: final(self).message, ..*old(self) }) && says(
                        final(self).message,
                        pick(is_diff(*old(self)), "the current comment thread is already open"@, "the current question thread is already open"@),
                    )
                } else {
                    &&& r
                    &&& *final(self) == (App { packet: final(self).packet, dirty: true, discard_guard: false, message: final(self).message, ..*old(self) })
                    &&& only_threads_changed(old(self).packet@, final(self).packet@)
                    &&& status_set(old(self).packet@.questions, final(self).packet@.questions, i, QuestionStatus::Open)
                    &&& says(
                        final(self).message,
                        pick(is_diff(*old(self)), "reopened comment thread "@, "reopened question "@) + old(self).packet@.questions[i].id,
                    )
                },
            },
    {
        let diff = self.is_diff_mode();
        let index = match self.current_question_index() {
            Some(i) => i,
            None => {
                self.message = Some(
                    if diff {
                        "there is no comment thread on the current line"
                    } else {
                        "there is no question thread on the current line"
                    }.to_string(),
                );
                return false;
            },
        };
        proof {
            let (path, line) = annotation_target(*self)->0;
            lemma_last_index_where_bounds(self.packet@.questions, question_at(path, line));
        }
        if self.packet.questions[index].status == QuestionStatus::Open {
            self.message = Some(
                if diff {
                    "the current comment thread is already open"
                } else {
                    "the current question thread is already open"
                }.to_string(),
            );
            return false;
        }
        let ghost qs = self.packet@.questions;
        self.packet.questions[index].status = QuestionStatus::Open;
        self.packet.questions[index].updated_at = crate::stamp::now_nanos();
        proof {
            assert forall|k: int| 0 <= k < qs.len() && k != index implies self.packet@.questions[k] == qs[k] by {}
        }
        let id = self.packet.questions[index].id.clone();
        self.packet.touch();
        self.dirty = true;
        self.discard_guard = false;
        let mut out = if diff {
            "reopened comment thread ".to_string()
        } else {
            "reopened question ".to_string()
        };
        push_str(&mut out, id.as_str());
        self.message = Some(out);
        true
    }
}

// ---------------------------------------------------------------------------
// The read-only thread viewer.
// ---------------------------------------------------------------------------

/// The furthest the viewer can scroll: the rows past the first page.
pub open spec fn thread_max_scroll(v: ThreadViewState) -> int {
    sat_sub(v.total_rows as int, v.viewport_height as int)
}

/// The viewer scrolled by `delta` rows, within 0 and its furthest offset.
pub open spec fn thread_scrolled(v: ThreadViewState, delta: int) -> ThreadViewState {
    ThreadViewState { scroll: clamp(v.scroll + delta, 0, thread_max_scroll(v)) as usize, ..v }
}

pub open spec fn with_thread_view(a: App, f: spec_fn(ThreadViewState) -> ThreadViewState) -> App {
    App {
        thread_view: match a.thread_view {
            Some(v) => Some(f(v)),
            None => None,
        },
        ..a
    }
}

impl App {
    /// Opens the thread under the cursor in the viewer, scrolled to its end.
    pub fn open_current_thread_viewer(&mut self) -> (r: bool)
        ensures
            match thread_here(*old(self)) {
                None => !r && *final(self) == (App { message: final(self).message, ..*old(self) }) && says(
                    final(self).message,
                    pick(is_diff(*old(self)), "there is no comment thread on the current line"@, "there is no question thread on the current line"@),
                ),
                Some(i) => r && *final(self) == (App {
                    thread_view: Some(ThreadViewState { question_index: i as usize, scroll: usize::MAX, total_rows: 0, viewport_height: 1 }),
                    input_mode: InputMode::ThreadView,
                    message: final(self).message,
                    ..*old(self)
                }) && says(
                    final(self).message,
                    pick(is_diff(*old(self)), "readonly comment thread view; j/k scroll, Esc closes"@, "readonly question thread view; j/k scroll, Esc closes"@),
                ),
            },
    {
        let diff = self.is_diff_mode();
        let index = match self.current_question_index() {
            Some(i) => i,
            None => {
                self.message = Some(
                    if diff {
                        "there is no comment thread on the current line"
                    } else {
                        "there is no question thread on the current line"
                    }.to_string(),
                );
                return false;
            },
        };
        self.thread_view = Some(ThreadViewState { question_index: index, scroll: usize::MAX, total_rows: 0, viewport_height: 1 });
        self.input_mode = InputMode::ThreadView;
        self.message = Some(
            if diff {
                "readonly comment thread view; j/k scroll, Esc closes"
            } else {
                "readonly question thread view; j/k scroll, Esc closes"
            }.to_string(),
        );
        true
    }

    pub fn close_thread_viewer(&mut self)
        ensures
            *final(self) == (App { thread_view: None, input_mode: InputMode::Normal, message: final(self).message, ..*old(self) }),
            says(final(self).message, pick(is_diff(*old(self)), "closed the comment thread view"@, "closed the question thread view"@)),
    {
        self.thread_view = None;
        self.input_mode = InputMode::Normal;
        self.message = Some(
            if self.is_diff_mode() {
                "closed the comment thread view"
            } else {
                "closed the question thread view"
            }.to_string(),
        );
    }

    /// Takes the viewer's new size and keeps its scroll within it.
    pub fn update_thread_view_metrics(&mut self, total_rows: usize, viewport_height: usize)
        ensures
            *final(self) == with_thread_view(*old(self), |v: ThreadViewState| {
                let sized = ThreadViewState {
                    total_rows,
                    viewport_height: if viewport_height >= 1 { viewport_height } else { 1 },
                    ..v
                };
                ThreadViewState {
                    scroll: if (v.scroll as int) < thread_max_scroll(sized) { v.scroll } else { thread_max_scroll(sized) as usize },
                    ..sized
                }
            }),
    {
        if let Some(mut v) = self.thread_view.take() {
            v.total_rows = total_rows;
            v.viewport_height = if viewport_height >= 1 { viewport_height } else { 1 };
            let most = if v.total_rows >= v.viewport_height { v.total_rows - v.viewport_height } else { 0 };
            if v.scroll > most {
                v.scroll = most;
            }
            self.thread_view = Some(v);
        }
    }

    pub fn thread_view_scroll(&self) -> (r: usize)
        ensures
            r == match self.thread_view {
                Some(v) => v.scroll,
                None => 0,
            },
    {
        match &self.thread_view {
            Some(v) => v.scroll,
            None => 0,
        }
    }

    fn scroll_thread_by(&mut self, delta: i128)
        requires
            -0x1_0000_0000_0000_0000_0000_0000 < delta < 0x1_0000_0000_0000_0000_0000_0000,
        ensures
            *final(self) == with_thread_view(*old(self), |v: ThreadViewState| thread_scrolled(v, delta as int)),
    {
        if let Some(mut v) = self.thread_view.take() {
            let most = if v.total_rows >= v.viewport_height { v.total_rows - v.viewport_height } else { 0 };
            v.scroll = clamp_step(v.scroll, delta, 0, most);
            self.thread_view = Some(v);
        }
    }

    pub fn scroll_thread_view(&mut self, delta: isize)
        ensures
            *final(self) == with_thread_view(*old(self), |v: ThreadViewState| thread_scrolled(v, delta as int)),
    {
        self.scroll_thread_by(delta as i128);
    }

    fn thread_page(&self, divisor: usize) -> (r: usize)
        requires
            divisor >= 1,
        ensures
            r == match self.thread_view {
                Some(v) => if v.viewport_height / divisor >= 1 { (v.viewport_height / divisor) as int } else { 1 },
                None => 1,
            },
    {
        match &self.thread_view {
            Some(v) => {
                let step = v.viewport_height / divisor;
                if step >= 1 { step } else { 1 }
            },
            None => 1,
        }
    }

    pub fn page_thread_view_down(&mut self)
        ensures
            *final(self) == with_thread_view(*old(self), |v: ThreadViewState| thread_scrolled(v, if v.viewport_height >= 1 { v.viewport_height as int } else { 1 })),
    {
        let step = self.thread_page(1);
        self.scroll_thread_by(step as i128);
    }

    pub fn page_thread_view_up(&mut self)
        ensures
            *final(self) == with_thread_view(*old(self), |v: ThreadViewState| thread_scrolled(v, -(if v.viewport_height >= 1 { v.viewport_height as int } else { 1 }))),
    {
        let step = self.thread_page(1);
        self.scroll_thread_by(-(step as i128));
    }

    pub fn half_page_thread_view_down(&mut self)
        ensures
            *final(self) == with_thread_view(*old(self), |v: ThreadViewState| thread_scrolled(v, if v.viewport_height / 2 >= 1 { (v.viewport_height / 2) as int } else { 1 })),
    {
        let step = self.thread_page(2);
        self.scroll_thread_by(step as i128);
    }

    pub fn half_page_thread_view_up(&mut self)
        ensures
            *final(self) == with_thread_view(*old(self), |v: ThreadViewState| thread_scrolled(v, -(if v.viewport_height / 2 >= 1 { (v.viewport_height / 2) as int } else { 1 }))),
    {
        let step = self.thread_page(2);
        self.scroll_thread_by(-(step as i128));
    }

    pub fn thread_view_to_top(&mut self)
        ensures
            *final(self) == with_thread_view(*old(self), |v: ThreadViewState| ThreadViewState { scroll: 0, ..v }),
    {
        if let Some(mut v) = self.thread_view.take() {
            v.scroll = 0;
            self.thread_view = Some(v);
        }
    }

    pub fn thread_view_to_bottom(&mut self)
        ensures
            *final(self) == with_thread_view(*old(self), |v: ThreadViewState| ThreadViewState { scroll: thread_max_scroll(v) as usize, ..v }),
    {
        if let Some(mut v) = self.thread_view.take() {
            v.scroll = if v.total_rows >= v.viewport_height { v.total_rows - v.viewport_height } else { 0 };
            self.thread_view = Some(v);
        }
    }

    /// The thread shown in the viewer, if the viewer is open on one.
    pub fn active_thread_view_question(&self) -> (r: Option<&Question>)
        ensures
            match self.thread_view {
                Some(v) => if v.question_index < self.packet@.questions.len() {
                    r matches Some(q) && q@ == self.packet@.questions[v.question_index as int]
                } else {
                    r is None
                },
                None => r is None,
            },
    {
        match &self.thread_view {
            Some(v) => {
                if v.question_index < self.packet.questions.len() {
                    Some(&self.packet.questions[v.question_index])
                } else {
                    None
                }
            },
            None => None,
        }
    }
}

/// Once sized, the viewer's scroll stays within its rows: updating the size
/// and every scroll keep `scroll <= total_rows - viewport_height`.
pub proof fn lemma_thread_scroll_in_range(v: ThreadViewState, delta: int, total_rows: usize, viewport_height: usize)
    ensures
        ({
            let sized = ThreadViewState {
                total_rows,
                viewport_height: if viewport_height >= 1 { viewport_height } else { 1 },
                ..v
            };
            let updated = ThreadViewState {
                scroll: if (v.scroll as int) < thread_max_scroll(sized) { v.scroll } else { thread_max_scroll(sized) as usize },
                ..sized
            };
            &&& updated.scroll <= thread_max_scroll(updated)
            &&& thread_scrolled(updated, delta).scroll <= thread_max_scroll(updated)
            &&& 0 <= thread_scrolled(v, delta).scroll <= thread_max_scroll(v)
        }),
{
}

// ---------------------------------------------------------------------------
// Fuzzy ranking for the pickers.
// ---------------------------------------------------------------------------

/// The score the fuzzy matcher gives `haystack` for `query` (path matching,
/// case ignored, smart normalization), or none when it does not match.
pub uninterp spec fn fuzzy_score(query: Seq<char>, haystack: Seq<char>) -> Option<u32>;

/// `nucleo_matcher::pattern::Pattern::score`, with the pattern parsed from
/// `query` ignoring case with smart normalization, and a matcher configured
/// for paths. The result is named `fuzzy_score`; an empty query has no atoms
/// and gives every haystack 0.
#[verifier::external_body]
fn pattern_score(query: &str, haystack: &str) -> (r: Option<u32>)
    ensures
        r == fuzzy_score(query@, haystack@),
        query@.len() == 0 ==> r == Some(0u32),
{
    let pattern = nucleo_matcher::pattern::Pattern::parse(
        query,
        nucleo_matcher::pattern::CaseMatching::Ignore,
        nucleo_matcher::pattern::Normalization::Smart,
    );
    let mut matcher = nucleo_matcher::Matcher::new(nucleo_matcher::Config::DEFAULT.match_paths());
    let mut buf = Vec::new();
    pattern.score(nucleo_matcher::Utf32Str::new(haystack, &mut buf), &mut matcher)
}

/// Lexicographic order of texts, character by character (the order of
/// `String`, whose UTF-8 bytes sort as their characters do).
pub open spec fn text_less(a: Seq<char>, b: Seq<char>) -> bool
    decreases a.len(),
{
    if a.len() == 0 {
        b.len() > 0
    } else if b.len() == 0 {
        false
    } else if a[0] != b[0] {
        a[0] < b[0]
    } else {
        text_less(a.drop_first(), b.drop_first())
    }
}

proof fn lemma_text_less_irreflexive(a: Seq<char>)
    ensures
        !text_less(a, a),
    decreases a.len(),
{
    if a.len() > 0 {
        lemma_text_less_irreflexive(a.drop_first());
    }
}

proof fn lemma_text_less_total(a: Seq<char>, b: Seq<char>)
    ensures
        a != b ==> text_less(a, b) || text_less(b, a),
        text_less(a, b) ==> !text_less(b, a),
    decreases a.len(),
{
    if a.len() > 0 && b.len() > 0 && a[0] == b[0] {
        lemma_text_less_total(a.drop_first(), b.drop_first());
        if a.drop_first() == b.drop_first() {
            assert(a =~= seq![a[0]] + a.drop_first());
            assert(b =~= seq![b[0]] + b.drop_first());
        }
    }
    if a.len() == 0 && b.len() == 0 {
        assert(a =~= b);
    }
}

proof fn lemma_text_less_transitive(a: Seq<char>, b: Seq<char>, c: Seq<char>)
    ensures
        text_less(a, b) && text_less(b, c) ==> text_less(a, c),
    decreases a.len(),
{
    if a.len() > 0 && b.len() > 0 && c.len() > 0 && a[0] == b[0] && b[0] == c[0] {
        lemma_text_less_transitive(a.drop_first(), b.drop_first(), c.drop_first());
    }
}

/// `text_less` is a strict total order.
pub proof fn lemma_text_less_order(a: Seq<char>, b: Seq<char>, c: Seq<char>)
    ensures
        !text_less(a, a),
        text_less(a, b) ==> !text_less(b, a),
        a != b ==> text_less(a, b) || text_less(b, a),
        text_less(a, b) && text_less(b, c) ==> text_less(a, c),
{
    lemma_text_less_irreflexive(a);
    lemma_text_less_total(a, b);
    lemma_text_less_transitive(a, b, c);
}

pub fn str_less(a: &str, b: &str) -> (r: bool)
    ensures
        r == text_less(a@, b@),
{
    let x = chars_of(a);
    let y = chars_of(b);
    let mut i: usize = 0;
    assert(x@.skip(0) =~= x@);
    assert(y@.skip(0) =~= y@);
    while i < x.len() && i < y.len() && x[i] == y[i]
        invariant
            i <= x@.len(),
            i <= y@.len(),
            x@ == a@,
            y@ == b@,
            text_less(a@, b@) == text_less(x@.skip(i as int), y@.skip(i as int)),
        decreases x.len() - i,
    {
        assert(x@.skip(i as int).drop_first() =~= x@.skip(i + 1));
        assert(y@.skip(i as int).drop_first() =~= y@.skip(i + 1));
        i = i + 1;
    }
    if i == x.len() {
        i < y.len()
    } else if i == y.len() {
        false
    } else {
        x[i] < y[i]
    }
}

/// The order the pickers list candidates in: a higher score first, then the
/// smaller path, then the smaller line, then the earlier candidate.
pub open spec fn key_before(a: (u32, Seq<char>, int, int), b: (u32, Seq<char>, int, int)) -> bool {
    a.0 > b.0 || (a.0 == b.0 && (text_less(a.1, b.1) || (a.1 == b.1 && (a.2 < b.2 || (a.2 == b.2 && a.3 < b.3)))))
}

pub proof fn lemma_key_order(a: (u32, Seq<char>, int, int), b: (u32, Seq<char>, int, int), c: (u32, Seq<char>, int, int))
    ensures
        !key_before(a, a),
        a.3 != b.3 ==> key_before(a, b) || key_before(b, a),
        key_before(a, b) && key_before(b, c) ==> key_before(a, c),
{
    lemma_text_less_order(a.1, b.1, c.1);
    lemma_text_less_order(a.1, a.1, a.1);
    lemma_text_less_order(b.1, a.1, c.1);
    lemma_text_less_order(a.1, c.1, b.1);
}

/// The rank key of candidate `i`: its score, path and line, and its position.
pub open spec fn key_of(keys: Seq<Option<(u32, Seq<char>, int)>>, i: int) -> (u32, Seq<char>, int, int) {
    let k = keys[i]->0;
    (k.0, k.1, k.2, i)
}

/// Whether `order` lists exactly the candidates that have a key, each once, in
/// rank order.
pub open spec fn ranked(order: Seq<usize>, keys: Seq<Option<(u32, Seq<char>, int)>>) -> bool {
    &&& forall|a: int| 0 <= a < order.len() ==> (#[trigger] order[a] as int) < keys.len() && keys[order[a] as int] is Some
    &&& forall|i: int| 0 <= i < keys.len() && (#[trigger] keys[i]) is Some ==> order.contains(i as usize)
    &&& forall|a: int, b: int| 0 <= a < b < order.len() ==> key_before(
        key_of(keys, #[trigger] order[a] as int),
        key_of(keys, #[trigger] order[b] as int),
    )
}

/// Whether candidate `a` goes before candidate `b` (both scored).
fn precedes(
    a_score: u32,
    a_path: &str,
    a_line: usize,
    a_index: usize,
    b_score: u32,
    b_path: &str,
    b_line: usize,
    b_index: usize,
) -> (r: bool)
    ensures
        r == key_before((a_score, a_path@, a_line as int, a_index as int), (b_score, b_path@, b_line as int, b_index as int)),
{
    if a_score != b_score {
        return a_score > b_score;
    }
    if str_less(a_path, b_path) {
        return true;
    }
    if !str_eq(a_path, b_path) {
        return false;
    }
    a_line < b_line || (a_line == b_line && a_index < b_index)
}

/// The positions of the scored candidates in rank order (see `ranked`); the
/// paths and lines break ties between equal scores.
pub fn rank_order(scores: &Vec<Option<u32>>, paths: &Vec<&str>, lines: &Vec<usize>) -> (r: Vec<usize>)
    requires
        paths@.len() == scores@.len(),
        lines@.len() == scores@.len(),
    ensures
        ranked(
            r@,
            Seq::new(scores@.len(), |i: int| match scores@[i] {
                Some(s) => Some((s, paths@[i]@, lines@[i] as int)),
                None => None,
            }),
        ),
{
    let ghost keys = Seq::new(scores@.len(), |i: int| match scores@[i] {
        Some(s) => Some((s, paths@[i]@, lines@[i] as int)),
        None => None::<(u32, Seq<char>, int)>,
    });
    let mut order: Vec<usize> = Vec::new();
    let mut i: usize = 0;
    while i < scores.len()
        invariant
            i <= scores@.len(),
            paths@.len() == scores@.len(),
            lines@.len() == scores@.len(),
            keys == Seq::new(scores@.len(), |i: int| match scores@[i] {
                Some(s) => Some((s, paths@[i]@, lines@[i] as int)),
                None => None::<(u32, Seq<char>, int)>,
            }),
            forall|a: int| 0 <= a < order@.len() ==> (#[trigger] order@[a] as int) < i && keys[order@[a] as int] is Some,
            forall|j: int| 0 <= j < i && (#[trigger] keys[j]) is Some ==> order@.contains(j as usize),
            forall|a: int, b: int| 0 <= a < b < order@.len() ==> key_before(
                key_of(keys, #[trigger] order@[a] as int),
                key_of(keys, #[trigger] order@[b] as int),
            ),
        decreases scores.len() - i,
    {
        match scores[i] {
            None => {},
            Some(score) => {
                let mut p: usize = 0;
                while p < order.len() && precedes(
                    scores[order[p]].unwrap_or(0),
                    paths[order[p]],
                    lines[order[p]],
                    order[p],
                    score,
                    paths[i],
                    lines[i],
                    i,
                )
                    invariant
                        p <= order@.len(),
                        i < scores@.len(),
                        paths@.len() == scores@.len(),
                        lines@.len() == scores@.len(),
                        scores@[i as int] == Some(score),
                        keys == Seq::new(scores@.len(), |i: int| match scores@[i] {
                            Some(s) => Some((s, paths@[i]@, lines@[i] as int)),
                            None => None::<(u32, Seq<char>, int)>,
                        }),
                        forall|a: int| 0 <= a < order@.len() ==> (#[trigger] order@[a] as int) < i && keys[order@[a] as int] is Some,
                        forall|a: int| 0 <= a < p ==> key_before(key_of(keys, #[trigger] order@[a] as int), key_of(keys, i as int)),
                    decreases order.len() - p,
                {
                    p = p + 1;
                }
                let ghost before = order@;
                proof {
                    if p < before.len() {
                        lemma_key_order(key_of(keys, i as int), key_of(keys, before[p as int] as int), key_of(keys, i as int));
                        assert(key_before(key_of(keys, i as int), key_of(keys, before[p as int] as int)));
                        assert forall|b: int| p <= b < before.len() implies key_before(key_of(keys, i as int), key_of(keys, #[trigger] before[b] as int)) by {
                            if b > p {
                                lemma_key_order(key_of(keys, i as int), key_of(keys, before[p as int] as int), key_of(keys, before[b] as int));
                            }
                        }
                    }
                }
                order.insert(p, i);
                proof {
                    assert(order@ =~= before.take(p as int).push(i) + before.skip(p as int));
                    assert forall|a: int, b: int| 0 <= a < b < order@.len() implies key_before(
                        key_of(keys, #[trigger] order@[a] as int),
                        key_of(keys, #[trigger] order@[b] as int),
                    ) by {
                        if a < p && b < p {
                            assert(order@[a] == before[a] && order@[b] == before[b]);
                        } else if a < p && b == p {
                        } else if a < p {
                            assert(order@[a] == before[a] && order@[b] == before[b - 1]);
                        } else if a == p {
                            assert(order@[b] == before[b - 1]);
                        } else {
                            assert(order@[a] == before[a - 1] && order@[b] == before[b - 1]);
                        }
                    }
                    assert forall|j: int| 0 <= j < i + 1 && (#[trigger] keys[j]) is Some implies order@.contains(j as usize) by {
                        if j < i {
                            let w = choose|w: int| 0 <= w < before.len() && before[w] == j as usize;
                            if w < p {
                                assert(order@[w] == j as usize);
                            } else {
                                assert(order@[w + 1] == j as usize);
                            }
                        } else {
                            assert(order@[p as int] == i);
                        }
                    }
                }
            },
        }
        i = i + 1;
    }
    order
}

pub open spec fn picker_keys(query: Seq<char>, candidates: Seq<Seq<char>>) -> Seq<Option<(u32, Seq<char>, int)>> {
    Seq::new(candidates.len(), |i: int| match fuzzy_score(query, candidates[i]) {
        Some(s) => Some((s, Seq::<char>::empty(), 0int)),
        None => None,
    })
}

/// The candidates that match `query`, best first, ties in the order given.
pub fn rank_strings(query: &str, candidates: &Vec<String>) -> (r: Vec<String>)
    ensures
        exists|order: Seq<usize>|
            ranked(order, picker_keys(query@, candidates.deep_view())) && r.deep_view() == order.map_values(
                |i: usize| candidates.deep_view()[i as int],
            ),
{
    let ghost cv = candidates.deep_view();
    let mut scores: Vec<Option<u32>> = Vec::new();
    let mut paths: Vec<&str> = Vec::new();
    let mut lines: Vec<usize> = Vec::new();
    let mut i: usize = 0;
    while i < candidates.len()
        invariant
            i <= candidates@.len(),
            cv == candidates.deep_view(),
            scores@.len() == i,
            paths@.len() == i,
            lines@.len() == i,
            forall|k: int| 0 <= k < i ==> #[trigger] scores@[k] == fuzzy_score(query@, cv[k]),
            forall|k: int| 0 <= k < i ==> (#[trigger] paths@[k])@ == Seq::<char>::empty(),
            forall|k: int| 0 <= k < i ==> #[trigger] lines@[k] == 0,
        decreases candidates.len() - i,
    {
        scores.push(pattern_score(query, candidates[i].as_str()));
        proof {
            reveal_strlit("");
        }
        paths.push("");
        lines.push(0);
        i = i + 1;
    }
    let order = rank_order(&scores, &paths, &lines);
    let ghost keys = Seq::new(scores@.len(), |i: int| match scores@[i] {
        Some(s) => Some((s, paths@[i]@, lines@[i] as int)),
        None => None::<(u32, Seq<char>, int)>,
    });
    assert(keys =~= picker_keys(query@, cv));
    let mut out: Vec<String> = Vec::new();
    let mut j: usize = 0;
    while j < order.len()
        invariant
            j <= order@.len(),
            cv == candidates.deep_view(),
            ranked(order@, keys),
            keys.len() == cv.len(),
            out.deep_view() == order@.take(j as int).map_values(|i: usize| cv[i as int]),
        decreases order.len() - j,
    {
        let k = order[j];
        assert((order@[j as int] as int) < keys.len());
        let ghost before = out.deep_view();
        out.push(candidates[k].clone());
        assert(out.deep_view() =~= before.push(cv[k as int]));
        assert(order@.take(j + 1).map_values(|i: usize| cv[i as int]) =~= order@.take(j as int).map_values(|i: usize| cv[i as int]).push(cv[k as int]));
        j = j + 1;
    }
    assert(order@.take(j as int) =~= order@);
    out
}

impl FilePickerState {
    /// Ranks the candidates against the query and keeps the selection within
    /// the matches.
    pub fn refresh_matches(&mut self)
        ensures
            final(self).query == old(self).query,
            final(self).candidates == old(self).candidates,
            exists|order: Seq<usize>|
                ranked(order, picker_keys(old(self).query.text@, old(self).candidates.deep_view())) && final(self).matches.deep_view()
                    == order.map_values(|i: usize| old(self).candidates.deep_view()[i as int]),
            final(self).selected == if final(self).matches@.len() == 0 {
                0
            } else if old(self).selected < final(self).matches@.len() {
                old(self).selected as int
            } else {
                final(self).matches@.len() - 1
            },
    {
        self.matches = rank_strings(self.query.text.as_str(), &self.candidates);
        if self.matches.len() == 0 {
            self.selected = 0;
        } else if self.selected >= self.matches.len() {
            self.selected = self.matches.len() - 1;
        }
    }
}

pub struct SearchMatchView {
    pub path: Seq<char>,
    pub line: usize,
    pub label: Seq<char>,
    pub preview: Seq<char>,
}

impl View for SearchMatch {
    type V = SearchMatchView;

    open spec fn view(&self) -> SearchMatchView {
        SearchMatchView { path: self.path@, line: self.line, label: self.label@, preview: self.preview@ }
    }
}

impl SearchMatch {
    pub fn copy(&self) -> (r: SearchMatch)
        ensures
            r@ == self@,
    {
        SearchMatch {
            path: self.path.clone(),
            line: self.line,
            label: self.label.clone(),
            preview: self.preview.clone(),
        }
    }
}

/// The text a search result is matched against: label, preview, and
/// `path:line`.
pub open spec fn search_haystack(m: SearchMatchView) -> Seq<char> {
    m.label + " "@ + m.preview + " "@ + m.path + ":"@ + crate::text::decimal(m.line as nat)
}

pub open spec fn search_keys(query: Seq<char>, candidates: Seq<SearchMatchView>) -> Seq<Option<(u32, Seq<char>, int)>> {
    Seq::new(candidates.len(), |i: int| match fuzzy_score(query, search_haystack(candidates[i])) {
        Some(s) => Some((s, candidates[i].path, candidates[i].line as int)),
        None => None,
    })
}

pub open spec fn matches_view(v: Seq<SearchMatch>) -> Seq<SearchMatchView> {
    v.map_values(|m: SearchMatch| m@)
}

/// The candidates that match `query`, best first, then by path and line.
pub fn rank_search_matches(query: &str, candidates: &Vec<SearchMatch>) -> (r: Vec<SearchMatch>)
    ensures
        exists|order: Seq<usize>|
            ranked(order, search_keys(query@, matches_view(candidates@))) && matches_view(r@) == order.map_values(
                |i: usize| matches_view(candidates@)[i as int],
            ),
{
    let ghost cv = matches_view(candidates@);
    let mut scores: Vec<Option<u32>> = Vec::new();
    let mut paths: Vec<&str> = Vec::new();
    let mut lines: Vec<usize> = Vec::new();
    let mut i: usize = 0;
    while i < candidates.len()
        invariant
            i <= candidates@.len(),
            cv == matches_view(candidates@),
            scores@.len() == i,
            paths@.len() == i,
            lines@.len() == i,
            forall|k: int| 0 <= k < i ==> #[trigger] scores@[k] == fuzzy_score(query@, search_haystack(cv[k])),
            forall|k: int| 0 <= k < i ==> (#[trigger] paths@[k])@ == cv[k].path,
            forall|k: int| 0 <= k < i ==> #[trigger] lines@[k] == cv[k].line,
        decreases candidates.len() - i,
    {
        let c = &candidates[i];
        let mut hay = c.label.clone();
        push_str(&mut hay, " ");
        push_str(&mut hay, c.preview.as_str());
        push_str(&mut hay, " ");
        push_str(&mut hay, c.path.as_str());
        push_str(&mut hay, ":");
        crate::text::push_decimal(&mut hay, c.line);
        assert(hay@ =~= search_haystack(cv[i as int]));
        scores.push(pattern_score(query, hay.as_str()));
        paths.push(c.path.as_str());
        lines.push(c.line);
        i = i + 1;
    }
    let order = rank_order(&scores, &paths, &lines);
    let ghost keys = Seq::new(scores@.len(), |i: int| match scores@[i] {
        Some(s) => Some((s, paths@[i]@, lines@[i] as int)),
        None => None::<(u32, Seq<char>, int)>,
    });
    assert(keys =~= search_keys(query@, cv));
    let mut out: Vec<SearchMatch> = Vec::new();
    let mut j: usize = 0;
    while j < order.len()
        invariant
            j <= order@.len(),
            cv == matches_view(candidates@),
            ranked(order@, keys),
            keys.len() == cv.len(),
            matches_view(out@) == order@.take(j as int).map_values(|i: usize| cv[i as int]),
        decreases order.len() - j,
    {
        let k = order[j];
        assert((order@[j as int] as int) < keys.len());
        let ghost before = matches_view(out@);
        out.push(candidates[k].copy());
        assert(matches_view(out@) =~= before.push(cv[k as int]));
        assert(order@.take(j + 1).map_values(|i: usize| cv[i as int]) =~= order@.take(j as int).map_values(|i: usize| cv[i as int]).push(cv[k as int]));
        j = j + 1;
    }
    assert(order@.take(j as int) =~= order@);
    out
}

impl SearchState {
    /// Ranks the candidates against the query and keeps the selection within
    /// the matches.
    pub fn refresh_matches(&mut self)
        ensures
            final(self).query == old(self).query,
            final(self).candidates == old(self).candidates,
            exists|order: Seq<usize>|
                ranked(order, search_keys(old(self).query.text@, matches_view(old(self).candidates@))) && matches_view(final(self).matches@)
                    == order.map_values(|i: usize| matches_view(old(self).candidates@)[i as int]),
            final(self).selected == if final(self).matches@.len() == 0 {
                0
            } else if old(self).selected < final(self).matches@.len() {
                old(self).selected as int
            } else {
                final(self).matches@.len() - 1
            },
    {
        self.matches = rank_search_matches(self.query.text.as_str(), &self.candidates);
        if self.matches.len() == 0 {
            self.selected = 0;
        } else if self.selected >= self.matches.len() {
            self.selected = self.matches.len() - 1;
        }
    }
}

// ---------------------------------------------------------------------------
// The file picker, and reading the files again.
// ---------------------------------------------------------------------------

pub open spec fn sort_keys(paths: Seq<Seq<char>>) -> Seq<Option<(u32, Seq<char>, int)>> {
    Seq::new(paths.len(), |i: int| Some((0u32, paths[i], 0int)))
}

pub open spec fn tracked_file_paths(p: PacketView) -> Seq<Seq<char>> {
    p.files.map_values(|f: crate::model::TrackedFileView| f.path)
}

/// The workspace files the picker offers: those not tracked yet, sorted.
pub open spec fn offered(walked: Seq<Seq<char>>, p: PacketView) -> Seq<Seq<char>> {
    walked.filter(|w: Seq<char>| !tracked_file_paths(p).contains(w))
}

pub open spec fn picker_open_message() -> Seq<char> {
    "fuzzy-search for a file and press Enter to add it"@
}

/// The position of the first file with this path.
pub open spec fn file_position(files: Seq<LoadedFile>, path: Seq<char>) -> Option<int>
    decreases files.len(),
{
    if files.len() == 0 {
        None
    } else if files[0].path@ == path {
        Some(0)
    } else {
        match file_position(files.drop_first(), path) {
            Some(i) => Some(i + 1),
            None => None,
        }
    }
}

proof fn lemma_file_position(files: Seq<LoadedFile>, path: Seq<char>, j: int)
    requires
        0 <= j <= files.len(),
        forall|k: int| 0 <= k < j ==> (#[trigger] files[k]).path@ != path,
        j < files.len() ==> files[j].path@ == path,
    ensures
        j < files.len() ==> file_position(files, path) == Some(j),
        j == files.len() ==> file_position(files, path) is None,
    decreases j,
{
    if files.len() > 0 && j > 0 {
        lemma_file_position(files.drop_first(), path, j - 1);
    }
}

fn position_of_file(files: &Vec<LoadedFile>, path: &str) -> (r: Option<usize>)
    ensures
        index_view(r) == file_position(files@, path@),
{
    let mut j: usize = 0;
    while j < files.len()
        invariant
            j <= files@.len(),
            forall|k: int| 0 <= k < j ==> (#[trigger] files@[k]).path@ != path@,
        decreases files.len() - j,
    {
        if str_eq(files[j].path.as_str(), path) {
            proof {
                lemma_file_position(files@, path@, j as int);
            }
            return Some(j);
        }
        j = j + 1;
    }
    proof {
        lemma_file_position(files@, path@, j as int);
    }
    None
}

/// The paths sorted (a stable sort by text).
pub fn sorted_paths(paths: Vec<String>) -> (r: Vec<String>)
    ensures
        exists|order: Seq<usize>|
            ranked(order, sort_keys(paths.deep_view())) && r.deep_view() == order.map_values(
                |i: usize| paths.deep_view()[i as int],
            ),
{
    let ghost pv = paths.deep_view();
    let mut scores: Vec<Option<u32>> = Vec::new();
    let mut texts: Vec<&str> = Vec::new();
    let mut lines: Vec<usize> = Vec::new();
    let mut i: usize = 0;
    while i < paths.len()
        invariant
            i <= paths@.len(),
            pv == paths.deep_view(),
            scores@.len() == i,
            texts@.len() == i,
            lines@.len() == i,
            forall|k: int| 0 <= k < i ==> #[trigger] scores@[k] == Some(0u32),
            forall|k: int| 0 <= k < i ==> (#[trigger] texts@[k])@ == pv[k],
            forall|k: int| 0 <= k < i ==> #[trigger] lines@[k] == 0,
        decreases paths.len() - i,
    {
        scores.push(Some(0));
        texts.push(paths[i].as_str());
        lines.push(0);
        i = i + 1;
    }
    let order = rank_order(&scores, &texts, &lines);
    let ghost keys = Seq::new(scores@.len(), |i: int| match scores@[i] {
        Some(s) => Some((s, texts@[i]@, lines@[i] as int)),
        None => None::<(u32, Seq<char>, int)>,
    });
    assert(keys =~= sort_keys(pv));
    let mut out: Vec<String> = Vec::new();
    let mut j: usize = 0;
    while j < order.len()
        invariant
            j <= order@.len(),
            pv == paths.deep_view(),
            ranked(order@, keys),
            keys.len() == pv.len(),
            out.deep_view() == order@.take(j as int).map_values(|i: usize| pv[i as int]),
        decreases order.len() - j,
    {
        let k = order[j];
        assert((order@[j as int] as int) < keys.len());
        let ghost before = out.deep_view();
        out.push(paths[k].clone());
        assert(out.deep_view() =~= before.push(pv[k as int]));
        assert(order@.take(j + 1).map_values(|i: usize| pv[i as int]) =~= order@.take(j as int).map_values(|i: usize| pv[i as int]).push(pv[k as int]));
        j = j + 1;
    }
    assert(order@.take(j as int) =~= order@);
    out
}

impl App {
    fn tracked_file_path_list(&self) -> (r: Vec<String>)
        ensures
            r.deep_view() == tracked_file_paths(self.packet@),
    {
        let mut out: Vec<String> = Vec::new();
        let mut i: usize = 0;
        while i < self.packet.files.len()
            invariant
                i <= self.packet.files@.len(),
                out.deep_view() == tracked_file_paths(self.packet@).take(i as int),
            decreases self.packet.files.len() - i,
        {
            let ghost before = out.deep_view();
            out.push(self.packet.files[i].path.clone());
            assert(out.deep_view() =~= before.push(self.packet@.files[i as int].path));
            assert(tracked_file_paths(self.packet@).take(i + 1) =~= tracked_file_paths(self.packet@).take(i as int).push(self.packet@.files[i as int].path));
            i = i + 1;
        }
        assert(tracked_file_paths(self.packet@).take(i as int) =~= tracked_file_paths(self.packet@));
        out
    }

    /// Opens the file picker over the workspace files listed (normalized
    /// paths): those not tracked yet, sorted.
    pub fn begin_file_picker(&mut self, walked: Vec<String>)
        ensures
            final(self).pending is None,
            final(self).input_mode == InputMode::FilePicker,
            final(self).focus == FocusPane::Files,
            final(self).file_picker matches Some(picker) && {
                &&& picker.query.text@.len() == 0
                &&& exists|order: Seq<usize>|
                    ranked(order, sort_keys(offered(walked.deep_view(), old(self).packet@))) && picker.candidates.deep_view()
                        == order.map_values(|i: usize| offered(walked.deep_view(), old(self).packet@)[i as int])
                &&& exists|order: Seq<usize>|
                    ranked(order, picker_keys(Seq::empty(), picker.candidates.deep_view())) && picker.matches.deep_view()
                        == order.map_values(|i: usize| picker.candidates.deep_view()[i as int])
                &&& picker.selected == 0
            },
            match old(self).pending {
                Some(Pending::ListWorkspace(Some(m))) => final(self).message == Some(m),
                _ => says(final(self).message, picker_open_message()),
            },
            *final(self) == (App {
                pending: None,
                input_mode: final(self).input_mode,
                focus: final(self).focus,
                file_picker: final(self).file_picker,
                message: final(self).message,
                ..*old(self)
            }),
    {
        let known = self.tracked_file_path_list();
        let ghost wv = walked.deep_view();
        let ghost keep = |w: Seq<char>| !tracked_file_paths(self.packet@).contains(w);
        let mut kept: Vec<String> = Vec::new();
        let mut i: usize = 0;
        while i < walked.len()
            invariant
                i <= walked@.len(),
                wv == walked.deep_view(),
                known.deep_view() == tracked_file_paths(self.packet@),
                keep == (|w: Seq<char>| !tracked_file_paths(self.packet@).contains(w)),
                kept.deep_view() == wv.take(i as int).filter(keep),
            decreases walked.len() - i,
        {
            assert(wv.take(i + 1).drop_last() =~= wv.take(i as int));
            assert(wv.take(i + 1).last() == wv[i as int]);
            let present = contains_str(&known, walked[i].as_str());
            assert(keep(wv[i as int]) == !present);
            reveal(Seq::filter);
            assert(wv.take(i + 1).filter(keep) == if keep(wv[i as int]) {
                wv.take(i as int).filter(keep).push(wv[i as int])
            } else {
                wv.take(i as int).filter(keep)
            });
            if !present {
                let ghost before = kept.deep_view();
                kept.push(walked[i].clone());
                assert(kept.deep_view() =~= before.push(wv[i as int]));
            }
            i = i + 1;
        }
        assert(wv.take(i as int) =~= wv);
        assert(kept.deep_view() == offered(wv, self.packet@));
        let candidates = sorted_paths(kept);
        let mut picker = FilePickerState { query: TextBuffer::default(), candidates, matches: Vec::new(), selected: 0 };
        assert(picker.query.text@ =~= Seq::<char>::empty());
        picker.refresh_matches();
        self.file_picker = Some(picker);
        self.input_mode = InputMode::FilePicker;
        self.focus = FocusPane::Files;
        let note = match self.pending.take() {
            Some(Pending::ListWorkspace(m)) => m,
            _ => None,
        };
        self.message = match note {
            Some(m) => Some(m),
            None => Some("fuzzy-search for a file and press Enter to add it".to_string()),
        };
    }

    pub fn cancel_file_picker(&mut self)
        ensures
            *final(self) == (App { file_picker: None, input_mode: InputMode::Normal, message: final(self).message, ..*old(self) }),
            says(final(self).message, "file picker closed"@),
    {
        self.file_picker = None;
        self.input_mode = InputMode::Normal;
        self.message = Some("file picker closed".to_string());
    }

    pub fn refresh_file_picker_matches(&mut self)
        ensures
            old(self).file_picker is None ==> *final(self) == *old(self),
            old(self).file_picker matches Some(before) ==> final(self).file_picker matches Some(after) && {
                &&& after.query == before.query
                &&& after.candidates == before.candidates
                &&& exists|order: Seq<usize>|
                    ranked(order, picker_keys(before.query.text@, before.candidates.deep_view())) && after.matches.deep_view()
                        == order.map_values(|i: usize| before.candidates.deep_view()[i as int])
                &&& after.selected == if after.matches@.len() == 0 { 0 } else if before.selected < after.matches@.len() { before.selected as int } else { after.matches@.len() - 1 }
            },
            *final(self) == (App { file_picker: final(self).file_picker, ..*old(self) }),
    {
        if let Some(mut picker) = self.file_picker.take() {
            picker.refresh_matches();
            self.file_picker = Some(picker);
        }
    }

    pub fn move_file_picker_selection(&mut self, delta: isize)
        ensures
            *final(self) == (App {
                file_picker: match old(self).file_picker {
                    Some(p) => Some(FilePickerState {
                        selected: if p.matches@.len() == 0 { 0 } else { clamp(p.selected + delta, 0, p.matches@.len() - 1) as usize },
                        ..p
                    }),
                    None => None,
                },
                ..*old(self)
            }),
    {
        if let Some(mut picker) = self.file_picker.take() {
            if picker.matches.len() == 0 {
                picker.selected = 0;
            } else {
                picker.selected = clamp_step(picker.selected, delta as i128, 0, picker.matches.len() - 1);
            }
            self.file_picker = Some(picker);
        }
    }

    /// Tracks the file selected in the picker; the files are then read again
    /// (`files_loaded` finishes by showing it).
    pub fn commit_file_picker_selection(&mut self) -> (r: bool)
        ensures
            match old(self).file_picker {
                None => !r && *final(self) == *old(self),
                Some(p) => if p.selected < p.matches@.len() {
                    let path = p.matches@[p.selected as int]@;
                    &&& r
                    &&& *final(self) == (App {
                        packet: final(self).packet,
                        file_picker: None,
                        dirty: true,
                        discard_guard: false,
                        pending: final(self).pending,
                        ..*old(self)
                    })
                    &&& final(self).packet@ == (PacketView {
                        files: crate::model::files_with(old(self).packet@.files, path),
                        updated_at: final(self).packet@.updated_at,
                        ..old(self).packet@
                    })
                    &&& final(self).pending matches Some(Pending::Reload(AfterReload::Picked(q))) && q@ == path
                } else {
                    &&& !r
                    &&& *final(self) == (App {
                        file_picker: final(self).file_picker,
                        input_mode: InputMode::FilePicker,
                        message: final(self).message,
                        ..*old(self)
                    })
                    &&& final(self).file_picker matches Some(after) && after.query == p.query && after.candidates == p.candidates
                    &&& says(final(self).message, "no file matches the current search"@)
                },
            },
    {
        let mut picker = match self.file_picker.take() {
            Some(p) => p,
            None => {
                return false;
            },
        };
        if picker.selected >= picker.matches.len() {
            picker.refresh_matches();
            self.file_picker = Some(picker);
            self.input_mode = InputMode::FilePicker;
            self.message = Some("no file matches the current search".to_string());
            return false;
        }
        let path = picker.matches[picker.selected].clone();
        let _ = self.packet.ensure_file(path.clone());
        self.packet.touch();
        self.dirty = true;
        self.discard_guard = false;
        self.pending = Some(Pending::Reload(AfterReload::Picked(path)));
        true
    }

    /// Shows the tracked files just read and finishes what asked for them
    /// (see `reload_finished`).
    pub fn files_loaded(&mut self, files: Vec<LoadedFile>)
        requires
            old(self).pending matches Some(Pending::Reload(_)),
        ensures
            reload_finished(*old(self), *final(self), files),
    {
        let after = match self.pending.take() {
            Some(Pending::Reload(a)) => a,
            _ => {
                return;
            },
        };
        match after {
            AfterReload::Opened => self.finish_open(files),
            AfterReload::Picked(path) => self.finish_pick(files, path),
            AfterReload::Removed { path, notes, questions } => self.finish_removal(files, path, notes, questions),
            AfterReload::Refreshed => self.finish_refresh(files),
            AfterReload::Background => {
                self.files = files;
            },
        }
    }

    fn finish_open(&mut self, files: Vec<LoadedFile>)
        ensures
            if files@.len() == 0 {
                *final(self) == (App { files, pending: Some(Pending::ListWorkspace(None)), ..*old(self) })
            } else {
                *final(self) == (App { files, focus: FocusPane::Source, ..*old(self) })
            },
    {
        self.files = files;
        if self.files.len() == 0 {
            self.pending = Some(Pending::ListWorkspace(None));
        } else {
            self.focus = FocusPane::Source;
        }
    }

    fn finish_pick(&mut self, files: Vec<LoadedFile>, path: String)
        ensures
            picked_shown(*old(self), *final(self), files, path@),
    {
        self.files = files;
        if let Some(index) = position_of_file(&self.files, path.as_str()) {
            self.current_file = index;
        }
        self.cursor_line = 1;
        self.scroll = 0;
        self.focus = FocusPane::Source;
        self.input_mode = InputMode::Normal;
        let mut message = "added tracked file ".to_string();
        push_str(&mut message, path.as_str());
        self.message = Some(message);
        self.ensure_source_cursor_visible();
    }

    fn finish_removal(&mut self, files: Vec<LoadedFile>, path: String, notes: usize, questions: usize)
        ensures
            removal_shown(*old(self), *final(self), files, path@, notes, questions),
    {
        self.files = files;
        if self.current_file >= self.files.len() {
            self.current_file = if self.files.len() >= 1 { self.files.len() - 1 } else { 0 };
        }
        self.cursor_line = 1;
        self.scroll = 0;
        let mut message = "removed ".to_string();
        push_str(&mut message, path.as_str());
        push_str(&mut message, " and purged ");
        crate::text::push_decimal(&mut message, notes);
        push_str(&mut message, " notes, ");
        crate::text::push_decimal(&mut message, questions);
        push_str(&mut message, " questions");
        if self.files.len() == 0 {
            self.pending = Some(Pending::ListWorkspace(Some(message)));
        } else {
            self.message = Some(message);
        }
        self.ensure_source_cursor_visible();
    }

    fn finish_refresh(&mut self, files: Vec<LoadedFile>)
        ensures
            refresh_shown(*old(self), *final(self), files),
    {
        self.files = files;
        if self.current_file >= self.files.len() {
            self.current_file = if self.files.len() >= 1 { self.files.len() - 1 } else { 0 };
        }
        let last = self.max_source_line();
        if self.cursor_line > last {
            self.cursor_line = last;
        }
        if self.cursor_line < 1 {
            self.cursor_line = 1;
        }
        self.message = Some("reloaded tracked source files".to_string());
        self.ensure_source_cursor_visible();
    }
}

/// The picked file shown from its first line.
pub open spec fn picked_shown(before: App, after: App, files: Vec<LoadedFile>, path: Seq<char>) -> bool {
    &&& after == source_shown(App {
        files,
        current_file: match file_position(files@, path) {
            Some(i) => i as usize,
            None => before.current_file,
        },
        cursor_line: 1,
        scroll: 0,
        focus: FocusPane::Source,
        input_mode: InputMode::Normal,
        message: after.message,
        ..before
    })
    &&& says(after.message, "added tracked file "@ + path)
}

pub open spec fn last_file_index(files: Seq<LoadedFile>, current: usize) -> usize {
    if current < files.len() {
        current
    } else {
        sat_sub(files.len() as int, 1) as usize
    }
}

/// After a removal: the files shown from the first line of a file still there,
/// with a report of what was purged (shown once the picker opens, when no
/// file is left).
pub open spec fn removal_shown(before: App, after: App, files: Vec<LoadedFile>, path: Seq<char>, notes: usize, questions: usize) -> bool {
    let message = "removed "@ + path + " and purged "@ + crate::text::decimal(notes as nat) + " notes, "@
        + crate::text::decimal(questions as nat) + " questions"@;
    &&& after == source_shown(App {
        files,
        pending: after.pending,
        current_file: last_file_index(files@, before.current_file),
        cursor_line: 1,
        scroll: 0,
        message: after.message,
        ..before
    })
    &&& if files@.len() == 0 {
        after.pending matches Some(Pending::ListWorkspace(Some(m))) && m@ == message && after.message == before.message
    } else {
        after.pending == before.pending && says(after.message, message)
    }
}

/// After a refresh: the cursor kept within the file still shown.
pub open spec fn refresh_shown(before: App, after: App, files: Vec<LoadedFile>) -> bool {
    let current = last_file_index(files@, before.current_file);
    let last = last_line_of(files@, current as int);
    &&& after == source_shown(App {
        files,
        current_file: current,
        cursor_line: if before.cursor_line < last {
            if before.cursor_line >= 1 { before.cursor_line } else { 1 }
        } else {
            last as usize
        },
        message: after.message,
        ..before
    })
    &&& says(after.message, "reloaded tracked source files"@)
}

/// What reading the files again finishes, by what asked for it: opening the
/// session (the picker when nothing is tracked), a pick, a removal, a refresh.
pub open spec fn reload_finished(before: App, after: App, files: Vec<LoadedFile>) -> bool {
    let waiting = App { pending: None, ..before };
    match before.pending {
        Some(Pending::Reload(AfterReload::Opened)) => if files@.len() == 0 {
            after == (App { files, pending: Some(Pending::ListWorkspace(None)), ..waiting })
        } else {
            after == (App { files, focus: FocusPane::Source, ..waiting })
        },
        Some(Pending::Reload(AfterReload::Picked(path))) => picked_shown(waiting, after, files, path@),
        Some(Pending::Reload(AfterReload::Removed { path, notes, questions })) => removal_shown(waiting, after, files, path@, notes, questions),
        Some(Pending::Reload(AfterReload::Refreshed)) => refresh_shown(waiting, after, files),
        Some(Pending::Reload(AfterReload::Background)) => after == (App { files, ..waiting }),
        _ => after == before,
    }
}

// ---------------------------------------------------------------------------
// Removing a tracked file.
// ---------------------------------------------------------------------------

pub open spec fn file_not_on(path: Seq<char>) -> spec_fn(crate::model::TrackedFileView) -> bool {
    |f: crate::model::TrackedFileView| f.path != path
}

pub open spec fn note_not_on(path: Seq<char>) -> spec_fn(NoteView) -> bool {
    |n: NoteView| n.path != path
}

pub open spec fn thread_not_on(path: Seq<char>) -> spec_fn(QuestionView) -> bool {
    |q: QuestionView| q.path != path
}

/// Whether anything in the packet is on another path than `path`.
pub open spec fn other_paths_remain(p: PacketView, path: Seq<char>) -> bool {
    (exists|i: int| 0 <= i < p.files.len() && #[trigger] p.files[i].path != path)
        || (exists|i: int| 0 <= i < p.notes.len() && #[trigger] p.notes[i].path != path)
        || (exists|i: int| 0 <= i < p.questions.len() && #[trigger] p.questions[i].path != path)
}

impl App {
    /// Removes the file shown, with its notes and threads, unless it is the
    /// last path the packet mentions; the files are then read again.
    pub fn delete_current_file(&mut self) -> (r: bool)
        ensures
            ({
                let path = path_at(old(self).files@, old(self).current_file as int);
                let p = old(self).packet@;
                if !other_paths_remain(p, path) {
                    &&& !r
                    &&& *final(self) == (App { message: final(self).message, ..*old(self) })
                    &&& says(final(self).message, "cannot remove the last tracked file from inside the TUI"@)
                } else {
                    &&& r
                    &&& *final(self) == (App {
                        packet: final(self).packet,
                        dirty: true,
                        discard_guard: false,
                        pending: final(self).pending,
                        ..*old(self)
                    })
                    &&& final(self).packet@ == (PacketView {
                        files: p.files.filter(file_not_on(path)),
                        notes: p.notes.filter(note_not_on(path)),
                        questions: p.questions.filter(thread_not_on(path)),
                        updated_at: final(self).packet@.updated_at,
                        ..p
                    })
                    &&& final(self).pending matches Some(Pending::Reload(AfterReload::Removed { path: gone, notes, questions }))
                        && gone@ == path
                        && notes == p.notes.len() - p.notes.filter(note_not_on(path)).len()
                        && questions == p.questions.len() - p.questions.filter(thread_not_on(path)).len()
                }
            }),
    {
        let path = self.current_path().to_string();
        let ghost pv = path@;
        let ghost p = self.packet@;
        let mut remains = false;
        let mut i: usize = 0;
        while i < self.packet.files.len()
            invariant
                i <= self.packet.files@.len(),
                p == self.packet@,
                pv == path@,
                remains ==> other_paths_remain(p, pv),
                !remains ==> forall|k: int| 0 <= k < i ==> (#[trigger] p.files[k]).path == pv,
            decreases self.packet.files.len() - i,
        {
            if !str_eq(self.packet.files[i].path.as_str(), path.as_str()) {
                assert(p.files[i as int].path != pv);
                remains = true;
            }
            i = i + 1;
        }
        let mut j: usize = 0;
        while j < self.packet.notes.len()
            invariant
                j <= self.packet.notes@.len(),
                p == self.packet@,
                pv == path@,
                remains ==> other_paths_remain(p, pv),
                !remains ==> forall|k: int| 0 <= k < p.files.len() ==> (#[trigger] p.files[k]).path == pv,
                !remains ==> forall|k: int| 0 <= k < j ==> (#[trigger] p.notes[k]).path == pv,
            decreases self.packet.notes.len() - j,
        {
            if !str_eq(self.packet.notes[j].path.as_str(), path.as_str()) {
                assert(p.notes[j as int].path != pv);
                remains = true;
            }
            j = j + 1;
        }
        let mut k: usize = 0;
        while k < self.packet.questions.len()
            invariant
                k <= self.packet.questions@.len(),
                p == self.packet@,
                pv == path@,
                remains ==> other_paths_remain(p, pv),
                !remains ==> forall|m: int| 0 <= m < p.files.len() ==> (#[trigger] p.files[m]).path == pv,
                !remains ==> forall|m: int| 0 <= m < p.notes.len() ==> (#[trigger] p.notes[m]).path == pv,
                !remains ==> forall|m: int| 0 <= m < k ==> (#[trigger] p.questions[m]).path == pv,
            decreases self.packet.questions.len() - k,
        {
            if !str_eq(self.packet.questions[k].path.as_str(), path.as_str()) {
                assert(p.questions[k as int].path != pv);
                remains = true;
            }
            k = k + 1;
        }
        if !remains {
            self.message = Some("cannot remove the last tracked file from inside the TUI".to_string());
            return false;
        }
        let mut files: Vec<crate::model::TrackedFile> = Vec::new();
        std::mem::swap(&mut files, &mut self.packet.files);
        self.packet.files = keep_files_off(files, path.as_str());
        let mut notes: Vec<Note> = Vec::new();
        std::mem::swap(&mut notes, &mut self.packet.notes);
        let (kept_notes, removed_notes) = keep_notes_off(notes, path.as_str());
        self.packet.notes = kept_notes;
        let mut questions: Vec<Question> = Vec::new();
        std::mem::swap(&mut questions, &mut self.packet.questions);
        let (kept_questions, removed_questions) = keep_threads_off(questions, path.as_str());
        self.packet.questions = kept_questions;
        self.packet.touch();
        self.dirty = true;
        self.discard_guard = false;
        self.pending = Some(Pending::Reload(AfterReload::Removed { path, notes: removed_notes, questions: removed_questions }));
        true
    }
}

fn keep_files_off(files: Vec<crate::model::TrackedFile>, path: &str) -> (r: Vec<crate::model::TrackedFile>)
    ensures
        crate::model::files_view(r@) == crate::model::files_view(files@).filter(file_not_on(path@)),
{
    let ghost all = crate::model::files_view(files@);
    let mut rest = files;
    let mut out: Vec<crate::model::TrackedFile> = Vec::new();
    let ghost mut taken: int = 0;
    assert(all.take(0) =~= Seq::<crate::model::TrackedFileView>::empty());
    proof {
        reveal(Seq::filter);
    }
    while rest.len() > 0
        invariant
            0 <= taken <= all.len(),
            crate::model::files_view(rest@) == all.skip(taken),
            crate::model::files_view(out@) == all.take(taken).filter(file_not_on(path@)),
        decreases rest.len(),
    {
        let ghost before = crate::model::files_view(rest@);
        let f = rest.remove(0);
        proof {
            assert(before.len() == all.len() - taken);
            assert(f@ == before[0]);
            assert(crate::model::files_view(rest@) =~= before.drop_first());
            assert(before.drop_first() =~= all.skip(taken + 1));
            assert(all.take(taken + 1).drop_last() =~= all.take(taken));
            reveal(Seq::filter);
        }
        if !str_eq(f.path.as_str(), path) {
            let ghost o = crate::model::files_view(out@);
            out.push(f);
            assert(crate::model::files_view(out@) =~= o.push(all[taken]));
        }
        proof {
            taken = taken + 1;
        }
    }
    assert(all.take(taken) =~= all);
    out
}

fn keep_notes_off(notes: Vec<Note>, path: &str) -> (r: (Vec<Note>, usize))
    ensures
        crate::model::notes_view(r.0@) == crate::model::notes_view(notes@).filter(note_not_on(path@)),
        r.1 == notes@.len() - r.0@.len(),
{
    let ghost all = crate::model::notes_view(notes@);
    let total = notes.len();
    let mut rest = notes;
    let mut out: Vec<Note> = Vec::new();
    let ghost mut taken: int = 0;
    assert(all.take(0) =~= Seq::<NoteView>::empty());
    while rest.len() > 0
        invariant
            0 <= taken <= all.len(),
            total == all.len(),
            crate::model::notes_view(rest@) == all.skip(taken),
            crate::model::notes_view(out@) == all.take(taken).filter(note_not_on(path@)),
            out@.len() <= taken,
        decreases rest.len(),
    {
        let ghost before = crate::model::notes_view(rest@);
        let n = rest.remove(0);
        proof {
            assert(before.len() == all.len() - taken);
            assert(n@ == before[0]);
            assert(crate::model::notes_view(rest@) =~= before.drop_first());
            assert(before.drop_first() =~= all.skip(taken + 1));
            assert(all.take(taken + 1).drop_last() =~= all.take(taken));
            reveal(Seq::filter);
        }
        if !str_eq(n.path.as_str(), path) {
            let ghost o = crate::model::notes_view(out@);
            out.push(n);
            assert(crate::model::notes_view(out@) =~= o.push(all[taken]));
        }
        proof {
            taken = taken + 1;
        }
    }
    assert(all.take(taken) =~= all);
    let removed = total - out.len();
    (out, removed)
}

fn keep_threads_off(questions: Vec<Question>, path: &str) -> (r: (Vec<Question>, usize))
    ensures
        crate::model::questions_view(r.0@) == crate::model::questions_view(questions@).filter(thread_not_on(path@)),
        r.1 == questions@.len() - r.0@.len(),
{
    let ghost all = crate::model::questions_view(questions@);
    let total = questions.len();
    let mut rest = questions;
    let mut out: Vec<Question> = Vec::new();
    let ghost mut taken: int = 0;
    assert(all.take(0) =~= Seq::<QuestionView>::empty());
    while rest.len() > 0
        invariant
            0 <= taken <= all.len(),
            total == all.len(),
            crate::model::questions_view(rest@) == all.skip(taken),
            crate::model::questions_view(out@) == all.take(taken).filter(thread_not_on(path@)),
            out@.len() <= taken,
        decreases rest.len(),
    {
        let ghost before = crate::model::questions_view(rest@);
        let q = rest.remove(0);
        proof {
            assert(before.len() == all.len() - taken);
            assert(q@ == before[0]);
            assert(crate::model::questions_view(rest@) =~= before.drop_first());
            assert(before.drop_first() =~= all.skip(taken + 1));
            assert(all.take(taken + 1).drop_last() =~= all.take(taken));
            reveal(Seq::filter);
        }
        if !str_eq(q.path.as_str(), path) {
            let ghost o = crate::model::questions_view(out@);
            out.push(q);
            assert(crate::model::questions_view(out@) =~= o.push(all[taken]));
        }
        proof {
            taken = taken + 1;
        }
    }
    assert(all.take(taken) =~= all);
    let removed = total - out.len();
    (out, removed)
}

// ---------------------------------------------------------------------------
// Searching notes and threads.
// ---------------------------------------------------------------------------

/// What a thread shows in the search list: its latest message with who wrote
/// it, else its prompt.
pub open spec fn thread_preview(q: QuestionView) -> Seq<char> {
    if q.conversation.len() > 0 {
        crate::model::role_label(q.conversation.last().role) + " "@ + q.conversation.last().body
    } else {
        q.prompt
    }
}

pub fn question_search_preview(question: &Question) -> (r: String)
    ensures
        r@ == thread_preview(question@),
{
    let n = question.conversation.len();
    if n > 0 {
        let last = &question.conversation[n - 1];
        let mut out = last.role.label().to_string();
        push_str(&mut out, " ");
        push_str(&mut out, last.body.as_str());
        out
    } else {
        question.prompt.clone()
    }
}

pub open spec fn note_match(n: NoteView, line: usize) -> SearchMatchView {
    SearchMatchView { path: n.path, line, label: "Note: "@ + n.title, preview: n.body }
}

pub open spec fn thread_match(q: QuestionView, line: usize, word: Seq<char>) -> SearchMatchView {
    SearchMatchView { path: q.path, line, label: word + " ("@ + status_word(q.status) + ")"@, preview: thread_preview(q) }
}

/// Source mode's search candidates: every note, then every anchored thread,
/// each at the line its card is shown under.
pub open spec fn source_candidates(p: PacketView) -> Seq<SearchMatchView> {
    p.notes.map_values(|n: NoteView| note_match(n, anchor_end(n.anchor)))
        + p.questions.filter(|q: QuestionView| q.anchor is Some).map_values(
        |q: QuestionView| thread_match(q, anchor_end(q.anchor->0), "Question"@),
    )
}

/// The notes on `path` shown under `line` and not seen yet, added in order.
pub open spec fn add_note_matches(
    ns: Seq<NoteView>,
    path: Seq<char>,
    line: usize,
    seen: Seq<Seq<char>>,
    out: Seq<SearchMatchView>,
) -> (Seq<Seq<char>>, Seq<SearchMatchView>)
    decreases ns.len(),
{
    if ns.len() == 0 {
        (seen, out)
    } else {
        let (s1, o1) = add_note_matches(ns.drop_last(), path, line, seen, out);
        let n = ns.last();
        if n.path == path && anchor_end(n.anchor) == line && !s1.contains(n.id) {
            (s1.push(n.id), o1.push(note_match(n, line)))
        } else {
            (s1, o1)
        }
    }
}

/// The threads on `path` shown under `line` and not seen yet, added in order.
pub open spec fn add_thread_matches(
    qs: Seq<QuestionView>,
    path: Seq<char>,
    line: usize,
    seen: Seq<Seq<char>>,
    out: Seq<SearchMatchView>,
) -> (Seq<Seq<char>>, Seq<SearchMatchView>)
    decreases qs.len(),
{
    if qs.len() == 0 {
        (seen, out)
    } else {
        let (s1, o1) = add_thread_matches(qs.drop_last(), path, line, seen, out);
        let q = qs.last();
        if q.path == path && (q.anchor matches Some(a) && anchor_end(a) == line) && !s1.contains(q.id) {
            (s1.push(q.id), o1.push(thread_match(q, line, "Comment"@)))
        } else {
            (s1, o1)
        }
    }
}

/// Diff mode's search candidates: for each card row of the diff in order, the
/// notes then the threads shown there, each once.
pub open spec fn diff_candidates(rows: Seq<DiffRow>, p: PacketView) -> (Seq<Seq<char>>, Seq<Seq<char>>, Seq<SearchMatchView>)
    decreases rows.len(),
{
    if rows.len() == 0 {
        (Seq::empty(), Seq::empty(), Seq::empty())
    } else {
        let (sn, sq, out) = diff_candidates(rows.drop_last(), p);
        match rows.last() {
            DiffRow::Annotation { path, line_no } => {
                let (sn2, o2) = add_note_matches(p.notes, path@, line_no, sn, out);
                let (sq2, o3) = add_thread_matches(p.questions, path@, line_no, sq, o2);
                (sn2, sq2, o3)
            },
            _ => (sn, sq, out),
        }
    }
}

pub open spec fn search_candidates(a: App) -> Seq<SearchMatchView> {
    if is_diff(a) {
        match a.diff_browser {
            Some(b) => diff_candidates(b.view_metrics.rows@, a.packet@).2,
            None => Seq::empty(),
        }
    } else {
        source_candidates(a.packet@)
    }
}

impl App {
    fn note_candidate(&self, index: usize, line: usize) -> (r: SearchMatch)
        requires
            index < self.packet@.notes.len(),
        ensures
            r@ == note_match(self.packet@.notes[index as int], line),
    {
        let note = &self.packet.notes[index];
        let mut label = "Note: ".to_string();
        push_str(&mut label, note.title.as_str());
        SearchMatch { path: note.path.clone(), line, label, preview: note.body.clone() }
    }

    fn thread_candidate(&self, index: usize, line: usize, word: &str) -> (r: SearchMatch)
        requires
            index < self.packet@.questions.len(),
        ensures
            r@ == thread_match(self.packet@.questions[index as int], line, word@),
    {
        let question = &self.packet.questions[index];
        let mut label = word.to_string();
        push_str(&mut label, " (");
        push_str(&mut label, question_status_label(question.status));
        push_str(&mut label, ")");
        SearchMatch { path: question.path.clone(), line, label, preview: question_search_preview(question) }
    }

    fn source_search_candidates(&self) -> (r: Vec<SearchMatch>)
        ensures
            matches_view(r@) == source_candidates(self.packet@),
    {
        let ghost p = self.packet@;
        let ghost first = p.notes.map_values(|n: NoteView| note_match(n, anchor_end(n.anchor)));
        let ghost anchored = |q: QuestionView| q.anchor is Some;
        let ghost second_of = |q: QuestionView| thread_match(q, anchor_end(q.anchor->0), "Question"@);
        let mut out: Vec<SearchMatch> = Vec::new();
        let mut i: usize = 0;
        while i < self.packet.notes.len()
            invariant
                i <= p.notes.len(),
                p == self.packet@,
                first == p.notes.map_values(|n: NoteView| note_match(n, anchor_end(n.anchor))),
                matches_view(out@) == first.take(i as int),
            decreases self.packet.notes.len() - i,
        {
            let line = anchor_display_line(self.packet.notes[i].anchor);
            let m = self.note_candidate(i, line);
            let ghost before = matches_view(out@);
            out.push(m);
            assert(matches_view(out@) =~= before.push(first[i as int]));
            assert(first.take(i + 1) =~= first.take(i as int).push(first[i as int]));
            i = i + 1;
        }
        assert(first.take(i as int) =~= first);
        let mut j: usize = 0;
        proof {
            reveal_strlit("Question");
            reveal(Seq::filter);
        }
        assert(p.questions.take(0).filter(anchored) =~= Seq::<QuestionView>::empty());
        while j < self.packet.questions.len()
            invariant
                j <= p.questions.len(),
                p == self.packet@,
                anchored == (|q: QuestionView| q.anchor is Some),
                second_of == (|q: QuestionView| thread_match(q, anchor_end(q.anchor->0), "Question"@)),
                matches_view(out@) == first + p.questions.take(j as int).filter(anchored).map_values(second_of),
            decreases self.packet.questions.len() - j,
        {
            let ghost before = matches_view(out@);
            proof {
                reveal(Seq::filter);
                assert(p.questions.take(j + 1).drop_last() =~= p.questions.take(j as int));
                assert(p.questions.take(j + 1).last() == p.questions[j as int]);
            }
            match self.packet.questions[j].anchor {
                Some(anchor) => {
                    let line = anchor_display_line(anchor);
                    let m = self.thread_candidate(j, line, "Question");
                    assert(m@ == second_of(p.questions[j as int]));
                    out.push(m);
                    assert(matches_view(out@) =~= before.push(second_of(p.questions[j as int])));
                    assert(p.questions.take(j + 1).filter(anchored) =~= p.questions.take(j as int).filter(anchored).push(p.questions[j as int]));
                    assert(p.questions.take(j as int).filter(anchored).push(p.questions[j as int]).map_values(second_of) =~= p.questions.take(j as int).filter(anchored).map_values(second_of).push(second_of(p.questions[j as int])));
                    assert(matches_view(out@) =~= first + p.questions.take(j + 1).filter(anchored).map_values(second_of));
                },
                None => {
                    assert(p.questions.take(j + 1).filter(anchored) =~= p.questions.take(j as int).filter(anchored));
                },
            }
            j = j + 1;
        }
        assert(p.questions.take(j as int) =~= p.questions);
        out
    }
}

impl App {
    fn diff_search_candidates(&self, rows: &Vec<DiffRow>) -> (r: Vec<SearchMatch>)
        ensures
            matches_view(r@) == diff_candidates(rows@, self.packet@).2,
    {
        let ghost p = self.packet@;
        let mut seen_notes: Vec<String> = Vec::new();
        let mut seen_threads: Vec<String> = Vec::new();
        let mut out: Vec<SearchMatch> = Vec::new();
        let mut i: usize = 0;
        assert(rows@.take(0) =~= Seq::<DiffRow>::empty());
        while i < rows.len()
            invariant
                i <= rows@.len(),
                p == self.packet@,
                diff_candidates(rows@.take(i as int), p) == (seen_notes.deep_view(), seen_threads.deep_view(), matches_view(out@)),
            decreases rows.len() - i,
        {
            assert(rows@.take(i + 1).drop_last() =~= rows@.take(i as int));
            assert(rows@.take(i + 1).last() == rows@[i as int]);
            match &rows[i] {
                DiffRow::Annotation { path, line_no } => {
                    let line = *line_no;
                    let ghost sn0 = seen_notes.deep_view();
                    let ghost o0 = matches_view(out@);
                    let mut j: usize = 0;
                    assert(p.notes.take(0) =~= Seq::<NoteView>::empty());
                    while j < self.packet.notes.len()
                        invariant
                            j <= p.notes.len(),
                            p == self.packet@,
                            add_note_matches(p.notes.take(j as int), path@, line, sn0, o0) == (seen_notes.deep_view(), matches_view(out@)),
                        decreases self.packet.notes.len() - j,
                    {
                        assert(p.notes.take(j + 1).drop_last() =~= p.notes.take(j as int));
                        assert(p.notes.take(j + 1).last() == p.notes[j as int]);
                        let note = &self.packet.notes[j];
                        if str_eq(note.path.as_str(), path.as_str()) && anchor_display_line(note.anchor) == line
                            && !contains_str(&seen_notes, note.id.as_str()) {
                            let ghost s1 = seen_notes.deep_view();
                            let ghost o1 = matches_view(out@);
                            seen_notes.push(note.id.clone());
                            let m = self.note_candidate(j, line);
                            out.push(m);
                            assert(seen_notes.deep_view() =~= s1.push(p.notes[j as int].id));
                            assert(matches_view(out@) =~= o1.push(note_match(p.notes[j as int], line)));
                        }
                        j = j + 1;
                    }
                    assert(p.notes.take(j as int) =~= p.notes);
                    let ghost sq0 = seen_threads.deep_view();
                    let ghost o2 = matches_view(out@);
                    let mut k: usize = 0;
                    assert(p.questions.take(0) =~= Seq::<QuestionView>::empty());
                    proof {
                        reveal_strlit("Comment");
                    }
                    while k < self.packet.questions.len()
                        invariant
                            k <= p.questions.len(),
                            p == self.packet@,
                            add_thread_matches(p.questions.take(k as int), path@, line, sq0, o2) == (seen_threads.deep_view(), matches_view(out@)),
                        decreases self.packet.questions.len() - k,
                    {
                        assert(p.questions.take(k + 1).drop_last() =~= p.questions.take(k as int));
                        assert(p.questions.take(k + 1).last() == p.questions[k as int]);
                        let question = &self.packet.questions[k];
                        let shown_here = match question.anchor {
                            Some(a) => anchor_display_line(a) == line,
                            None => false,
                        };
                        if str_eq(question.path.as_str(), path.as_str()) && shown_here
                            && !contains_str(&seen_threads, question.id.as_str()) {
                            let ghost s1 = seen_threads.deep_view();
                            let ghost o1 = matches_view(out@);
                            seen_threads.push(question.id.clone());
                            let m = self.thread_candidate(k, line, "Comment");
                            out.push(m);
                            assert(seen_threads.deep_view() =~= s1.push(p.questions[k as int].id));
                            assert(matches_view(out@) =~= o1.push(thread_match(p.questions[k as int], line, "Comment"@)));
                        }
                        k = k + 1;
                    }
                    assert(p.questions.take(k as int) =~= p.questions);
                },
                _ => {},
            }
            i = i + 1;
        }
        assert(rows@.take(i as int) =~= rows@);
        out
    }

    /// Opens the search over the notes and threads there are (in diff mode,
    /// those shown in the diff).
    pub fn begin_search(&mut self)
        ensures
            is_diff(*old(self)) && old(self).diff_browser is None ==> *final(self) == *old(self),
            !(is_diff(*old(self)) && old(self).diff_browser is None) && search_candidates(*old(self)).len() == 0 ==> {
                &&& *final(self) == (App { message: final(self).message, ..*old(self) })
                &&& says(
                    final(self).message,
                    pick(
                        is_diff(*old(self)),
                        "there are no review notes or comment threads to search yet"@,
                        "there are no notes or questions to search yet"@,
                    ),
                )
            },
            !(is_diff(*old(self)) && old(self).diff_browser is None) && search_candidates(*old(self)).len() > 0 ==> *final(self) == (App {
                search: final(self).search,
                input_mode: InputMode::Search,
                message: final(self).message,
                ..*old(self)
            }),
            !(is_diff(*old(self)) && old(self).diff_browser is None) && search_candidates(*old(self)).len() > 0 ==> (final(self).search matches Some(st) && {
                &&& st.query.text@.len() == 0
                &&& matches_view(st.candidates@) == search_candidates(*old(self))
                &&& exists|order: Seq<usize>|
                    ranked(order, search_keys(Seq::empty(), matches_view(st.candidates@))) && matches_view(st.matches@)
                        == order.map_values(|i: usize| matches_view(st.candidates@)[i as int])
                &&& st.selected == 0
            }),
            !(is_diff(*old(self)) && old(self).diff_browser is None) && search_candidates(*old(self)).len() > 0 ==> says(
                final(self).message,
                pick(
                    is_diff(*old(self)),
                    "fuzzy-search review notes and comment threads, then press Enter to jump"@,
                    "fuzzy-search notes and questions, then press Enter to jump"@,
                ),
            ),
    {
        let diff = self.is_diff_mode();
        let candidates = if diff {
            match &self.diff_browser {
                Some(b) => self.diff_search_candidates(&b.view_metrics.rows),
                None => {
                    return;
                },
            }
        } else {
            self.source_search_candidates()
        };
        if candidates.len() == 0 {
            self.message = Some(
                if diff {
                    "there are no review notes or comment threads to search yet"
                } else {
                    "there are no notes or questions to search yet"
                }.to_string(),
            );
            return;
        }
        let ghost cv = matches_view(candidates@);
        assert(cv == search_candidates(*self));
        let mut search = SearchState { query: TextBuffer::default(), candidates, matches: Vec::new(), selected: 0 };
        assert(search.query.text@ =~= Seq::<char>::empty());
        search.refresh_matches();
        assert(matches_view(search.candidates@) == cv);
        let ghost order = choose|order: Seq<usize>|
            ranked(order, search_keys(search.query.text@, cv)) && matches_view(search.matches@) == order.map_values(
                |i: usize| cv[i as int],
            );
        assert(search_keys(search.query.text@, cv) == search_keys(Seq::empty(), cv));
        self.search = Some(search);
        proof {
            let st = self.search->0;
            assert(order.map_values(|i: usize| cv[i as int]) =~= order.map_values(|i: usize| matches_view(st.candidates@)[i as int]));
            assert(ranked(order, search_keys(Seq::empty(), matches_view(st.candidates@))) && matches_view(st.matches@)
                == order.map_values(|i: usize| matches_view(st.candidates@)[i as int]));
        }
        self.input_mode = InputMode::Search;
        self.message = Some(
            if diff {
                "fuzzy-search review notes and comment threads, then press Enter to jump"
            } else {
                "fuzzy-search notes and questions, then press Enter to jump"
            }.to_string(),
        );
    }

    pub fn cancel_search(&mut self)
        ensures
            *final(self) == (App { search: None, input_mode: InputMode::Normal, message: final(self).message, ..*old(self) }),
            says(final(self).message, "search closed"@),
    {
        self.search = None;
        self.input_mode = InputMode::Normal;
        self.message = Some("search closed".to_string());
    }

    pub fn refresh_search_matches(&mut self)
        ensures
            old(self).search is None ==> *final(self) == *old(self),
            old(self).search matches Some(before) ==> final(self).search matches Some(after) && {
                &&& after.query == before.query
                &&& after.candidates == before.candidates
                &&& exists|order: Seq<usize>|
                    ranked(order, search_keys(before.query.text@, matches_view(before.candidates@))) && matches_view(after.matches@)
                        == order.map_values(|i: usize| matches_view(before.candidates@)[i as int])
                &&& after.selected == if after.matches@.len() == 0 { 0 } else if before.selected < after.matches@.len() { before.selected as int } else { after.matches@.len() - 1 }
            },
            *final(self) == (App { search: final(self).search, ..*old(self) }),
    {
        if let Some(mut search) = self.search.take() {
            search.refresh_matches();
            self.search = Some(search);
        }
    }

    pub fn move_search_selection(&mut self, delta: isize)
        ensures
            *final(self) == (App {
                search: match old(self).search {
                    Some(st) => Some(SearchState {
                        selected: if st.matches@.len() == 0 { 0 } else { clamp(st.selected + delta, 0, st.matches@.len() - 1) as usize },
                        ..st
                    }),
                    None => None,
                },
                ..*old(self)
            }),
    {
        if let Some(mut search) = self.search.take() {
            if search.matches.len() == 0 {
                search.selected = 0;
            } else {
                search.selected = clamp_step(search.selected, delta as i128, 0, search.matches.len() - 1);
            }
            self.search = Some(search);
        }
    }
}

/// The path a diff file is shown under: its new path, else its old one.
pub open spec fn diff_file_path(f: DiffFile) -> Seq<char> {
    match f.new_path {
        Some(p) => p@,
        None => match f.old_path {
            Some(p) => p@,
            None => Seq::empty(),
        },
    }
}

pub open spec fn diff_file_at(path: Seq<char>) -> spec_fn(DiffFile) -> bool {
    |f: DiffFile| diff_file_path(f) == path
}

pub open spec fn card_row_of(path: Seq<char>, line: usize) -> spec_fn(DiffRow) -> bool {
    |r: DiffRow| r matches DiffRow::Annotation { path: p, line_no } && p@ == path && line_no == line
}

/// The path a diff file is shown under.
pub fn diff_file_display(f: &DiffFile) -> (r: &str)
    ensures
        r@ == diff_file_path(*f),
{
    match &f.new_path {
        Some(p) => p.as_str(),
        None => match &f.old_path {
            Some(p) => p.as_str(),
            None => {
                proof {
                    reveal_strlit("");
                }
                ""
            },
        },
    }
}

impl App {
    /// Moves the diff cursor to the card of the note or thread on `path` at
    /// `line`, when the diff shows that file and card.
    fn jump_to_diff_annotation_match(&mut self, path: &str, line: usize) -> (r: bool)
        ensures
            match old(self).diff_browser {
                None => !r && *final(self) == *old(self),
                Some(b) => match (first_index_where(b.files@, diff_file_at(path@)), first_index_where(b.view_metrics.rows@, card_row_of(path@, line))) {
                    (Some(_), Some(row)) => r && *final(self) == (App { diff_browser: Some(at_row(b, row as usize)), ..*old(self) }),
                    _ => !r && *final(self) == *old(self),
                },
            },
    {
        let mut b = match self.diff_browser.take() {
            Some(b) => b,
            None => {
                return false;
            },
        };
        let file_index = diff_file_index(&b.files, path);
        let row = card_row_index(&b.view_metrics.rows, path, line);
        match (file_index, row) {
            (Some(i), Some(r)) => {
                b.current_file = i;
                b.go_to_row(r);
                self.diff_browser = Some(b);
                true
            },
            _ => {
                self.diff_browser = Some(b);
                false
            },
        }
    }

    /// Jumps to the search result selected.
    pub fn commit_search_selection(&mut self) -> (r: bool)
        ensures
            committed_search(*old(self), *final(self), r),
    {
        let diff = self.is_diff_mode();
        let mut search = match self.search.take() {
            Some(st) => st,
            None => {
                return false;
            },
        };
        if search.selected >= search.matches.len() {
            search.refresh_matches();
            self.search = Some(search);
            self.input_mode = InputMode::Search;
            self.message = Some(
                if diff {
                    "no review note or comment thread matches the current search"
                } else {
                    "no note or question matches the current search"
                }.to_string(),
            );
            return false;
        }
        let selection = search.matches[search.selected].copy();
        let mut jumped = "jumped to ".to_string();
        push_str(&mut jumped, selection.path.as_str());
        push_str(&mut jumped, ":");
        crate::text::push_decimal(&mut jumped, selection.line);
        if diff {
            if self.jump_to_diff_annotation_match(selection.path.as_str(), selection.line) {
                self.focus = FocusPane::Source;
                self.input_mode = InputMode::Normal;
                self.message = Some(jumped);
                return true;
            }
            self.input_mode = InputMode::Normal;
            self.message = Some("that note or comment thread is outside the currently visible diff context".to_string());
            return false;
        }
        match position_of_file(&self.files, selection.path.as_str()) {
            Some(index) => {
                self.current_file = index;
            },
            None => {
                self.input_mode = InputMode::Normal;
                self.message = Some("the selected search result points at a file that is no longer tracked".to_string());
                return false;
            },
        }
        self.focus = FocusPane::Source;
        self.input_mode = InputMode::Normal;
        self.cursor_line = if selection.line >= 1 { selection.line } else { 1 };
        self.ensure_source_cursor_visible();
        self.message = Some(jumped);
        true
    }
}

pub open spec fn jumped_message(m: SearchMatchView) -> Seq<char> {
    "jumped to "@ + m.path + ":"@ + crate::text::decimal(m.line as nat)
}

/// What choosing the selected search result does: in the diff, the cursor
/// goes to its card; in the source, to its line in its file.
pub open spec fn committed_search(before: App, after: App, r: bool) -> bool {
    let diff = is_diff(before);
    match before.search {
        None => !r && after == before,
        Some(st) => if st.selected >= st.matches@.len() {
            &&& !r
            &&& after == (App { search: after.search, input_mode: InputMode::Search, message: after.message, ..before })
            &&& after.search matches Some(now) && now.query == st.query && now.candidates == st.candidates
            &&& says(after.message, pick(diff, "no review note or comment thread matches the current search"@, "no note or question matches the current search"@))
        } else {
            let m = st.matches@[st.selected as int]@;
            let closed = App { search: None, ..before };
            if diff {
                match closed.diff_browser {
                    Some(b) => match (first_index_where(b.files@, diff_file_at(m.path)), first_index_where(b.view_metrics.rows@, card_row_of(m.path, m.line))) {
                        (Some(_), Some(row)) => {
                            &&& r
                            &&& after == (App {
                                diff_browser: Some(at_row(b, row as usize)),
                                focus: FocusPane::Source,
                                input_mode: InputMode::Normal,
                                message: after.message,
                                ..closed
                            })
                            &&& says(after.message, jumped_message(m))
                        },
                        _ => !r && after == (App { input_mode: InputMode::Normal, message: after.message, ..closed })
                            && says(after.message, "that note or comment thread is outside the currently visible diff context"@),
                    },
                    None => !r && after == (App { input_mode: InputMode::Normal, message: after.message, ..closed })
                        && says(after.message, "that note or comment thread is outside the currently visible diff context"@),
                }
            } else {
                match file_position(before.files@, m.path) {
                    None => !r && after == (App { input_mode: InputMode::Normal, message: after.message, ..closed })
                        && says(after.message, "the selected search result points at a file that is no longer tracked"@),
                    Some(i) => {
                        &&& r
                        &&& after == source_shown(App {
                            current_file: i as usize,
                            focus: FocusPane::Source,
                            input_mode: InputMode::Normal,
                            cursor_line: if m.line >= 1 { m.line } else { 1 },
                            message: after.message,
                            ..closed
                        })
                        &&& says(after.message, jumped_message(m))
                    },
                }
            }
        },
    }
}

fn diff_file_index(files: &Vec<DiffFile>, path: &str) -> (r: Option<usize>)
    ensures
        index_view(r) == first_index_where(files@, diff_file_at(path@)),
{
    let mut i: usize = 0;
    while i < files.len()
        invariant
            i <= files@.len(),
            forall|k: int| 0 <= k < i ==> !diff_file_at(path@)(#[trigger] files@[k]),
        decreases files.len() - i,
    {
        if str_eq(diff_file_display(&files[i]), path) {
            proof {
                lemma_first_index_where(files@, diff_file_at(path@), i as int);
            }
            return Some(i);
        }
        i = i + 1;
    }
    proof {
        lemma_first_index_where(files@, diff_file_at(path@), i as int);
    }
    None
}

fn card_row_index(rows: &Vec<DiffRow>, path: &str, line: usize) -> (r: Option<usize>)
    ensures
        index_view(r) == first_index_where(rows@, card_row_of(path@, line)),
{
    let mut j: usize = 0;
    while j < rows.len()
        invariant
            j <= rows@.len(),
            forall|k: int| 0 <= k < j ==> !card_row_of(path@, line)(#[trigger] rows@[k]),
        decreases rows.len() - j,
    {
        let hit = match &rows[j] {
            DiffRow::Annotation { path: p, line_no } => str_eq(p.as_str(), path) && *line_no == line,
            _ => false,
        };
        if hit {
            proof {
                lemma_first_index_where(rows@, card_row_of(path@, line), j as int);
            }
            return Some(j);
        }
        j = j + 1;
    }
    proof {
        lemma_first_index_where(rows@, card_row_of(path@, line), j as int);
    }
    None
}

// ---------------------------------------------------------------------------
// The diff browser: choosing commits, loading, gaps, review marks.
// ---------------------------------------------------------------------------

pub open spec fn selector_prompt() -> Seq<char> {
    "select uncommitted changes or a contiguous commit range, then press Enter"@
}

impl DiffBrowserState {
    /// A browser offering `commit_options`, the first one selected.
    pub fn new(commit_options: Vec<CommitInfo>) -> (r: Self)
        ensures
            r.commit_options == commit_options,
            r.active_review_entries@.len() == 0,
            r.commit_cursor == 0,
            r.commit_selection_range == Some((0usize, 0usize)),
            r.selection is None,
            r.files@.len() == 0,
            r.current_file == 0,
            r.cursor_row == 0,
            r.scroll == 0,
            r.view_metrics.rows@.len() == 0 && r.view_metrics.file_rows@.len() == 0 && r.view_metrics.annotation_rows@.len() == 0
                && r.view_metrics.total_rows == 0 && r.view_metrics.viewport_height == 0,
            r.expanded@.len() == 0,
            r.reviewed_paths@.len() == 0,
            r.visual_anchor_row is None,
    {
        DiffBrowserState {
            commit_options,
            active_review_entries: Vec::new(),
            commit_cursor: 0,
            commit_selection_range: Some((0, 0)),
            selection: None,
            files: Vec::new(),
            current_file: 0,
            cursor_row: 0,
            scroll: 0,
            view_metrics: DiffViewMetrics::default(),
            expanded: Vec::new(),
            reviewed_paths: Vec::new(),
            visual_anchor_row: None,
        }
    }
}

impl CommitInfo {
    pub fn copy(&self) -> (r: CommitInfo)
        ensures
            r == *self,
    {
        CommitInfo {
            id: self.id.clone(),
            short_id: self.short_id.clone(),
            branch_name: match &self.branch_name {
                Some(b) => Some(b.clone()),
                None => None,
            },
            summary: self.summary.clone(),
            body: match &self.body {
                Some(b) => Some(b.clone()),
                None => None,
            },
            author: self.author.clone(),
            time: self.time,
        }
    }
}

/// The selection as the commit ids it names (oldest first) and whether it
/// includes the uncommitted changes.
pub open spec fn selection_view(s: DiffSelection) -> (bool, Seq<Seq<char>>) {
    match s {
        DiffSelection::WorkingTree => (true, Seq::empty()),
        DiffSelection::CommitRange(ids) => (false, ids.deep_view()),
        DiffSelection::WorkingTreeAndCommits(ids) => (true, ids.deep_view()),
    }
}

pub open spec fn same_selection(a: DiffSelection, b: DiffSelection) -> bool {
    selection_view(a) == selection_view(b) && (a is WorkingTree <==> b is WorkingTree) && (a is CommitRange <==> b is CommitRange)
}

pub fn copy_selection(s: &DiffSelection) -> (r: DiffSelection)
    ensures
        same_selection(r, *s),
{
    match s {
        DiffSelection::WorkingTree => DiffSelection::WorkingTree,
        DiffSelection::CommitRange(ids) => DiffSelection::CommitRange(copy_strings(ids)),
        DiffSelection::WorkingTreeAndCommits(ids) => DiffSelection::WorkingTreeAndCommits(copy_strings(ids)),
    }
}

/// The ids of the entries that are commits, newest entry last reversed, so
/// the oldest comes first.
pub open spec fn commit_ids_oldest_first(entries: Seq<CommitInfo>) -> Seq<Seq<char>>
    decreases entries.len(),
{
    if entries.len() == 0 {
        Seq::empty()
    } else {
        let rest = commit_ids_oldest_first(entries.drop_first());
        if entries[0].id@ == crate::diff::working_tree_id() {
            rest
        } else {
            rest.push(entries[0].id@)
        }
    }
}

/// What a chosen run of entries reviews: the uncommitted changes when the
/// run starts with them, and the commits in it, oldest first.
pub open spec fn chosen_selection(entries: Seq<CommitInfo>) -> (bool, Seq<Seq<char>>) {
    (entries.len() > 0 && entries[0].id@ == crate::diff::working_tree_id(), commit_ids_oldest_first(entries))
}

/// Whether a selector entry is a commit rather than the uncommitted changes.
pub open spec fn is_commit_entry(e: CommitInfo) -> bool {
    e.id@ != crate::diff::working_tree_id()
}

/// Keeps the commits among selector entries.
pub open spec fn commit_entry_filter() -> spec_fn(CommitInfo) -> bool {
    |e: CommitInfo| is_commit_entry(e)
}

/// The id of a selector entry.
pub open spec fn entry_id() -> spec_fn(CommitInfo) -> Seq<char> {
    |e: CommitInfo| e.id@
}

/// The ids of the commits among `entries`, in the selector's order.
pub open spec fn commit_ids_in_selector_order(entries: Seq<CommitInfo>) -> Seq<Seq<char>> {
    entries.filter(commit_entry_filter()).map_values(entry_id())
}

/// A confirmed run of entries names its commits in the reverse of the
/// selector's order, leaving out the uncommitted changes. The selector lists
/// the newest commit first, so the first id is the oldest commit chosen and
/// the last id the newest.
pub proof fn lemma_chosen_commits_reverse_selector_order(entries: Seq<CommitInfo>)
    ensures
        chosen_selection(entries).0 <==> (entries.len() > 0 && !is_commit_entry(entries[0])),
        chosen_selection(entries).1 == commit_ids_in_selector_order(entries).reverse(),
        chosen_selection(entries).1.len() == commit_ids_in_selector_order(entries).len(),
        forall|i: int| 0 <= i < chosen_selection(entries).1.len() ==>
            #[trigger] chosen_selection(entries).1[i] == commit_ids_in_selector_order(entries)[chosen_selection(entries).1.len() - 1 - i],
    decreases entries.len(),
{
    if entries.len() == 0 {
        reveal(Seq::filter);
        assert(commit_ids_in_selector_order(entries) =~= Seq::<Seq<char>>::empty());
        assert(commit_ids_in_selector_order(entries).reverse() =~= Seq::<Seq<char>>::empty());
    } else {
        let rest = entries.drop_first();
        lemma_chosen_commits_reverse_selector_order(rest);
        assert(entries =~= seq![entries[0]] + rest);
        rest.lemma_filter_prepend(entries[0], commit_entry_filter());
        let head: Seq<CommitInfo> = if is_commit_entry(entries[0]) { seq![entries[0]] } else { Seq::empty() };
        assert(entries.filter(commit_entry_filter()) == head + rest.filter(commit_entry_filter()));
        let tail_ids = commit_ids_in_selector_order(rest);
        assert(commit_ids_in_selector_order(entries) =~= head.map_values(entry_id()) + tail_ids);
        if is_commit_entry(entries[0]) {
            assert(commit_ids_in_selector_order(entries).reverse() =~= tail_ids.reverse().push(entries[0].id@));
        } else {
            assert(commit_ids_in_selector_order(entries) =~= tail_ids);
        }
    }
}

/// The entries `start..=end` of the selector, when the range is valid.
pub open spec fn chosen_entries(options: Seq<CommitInfo>, range: (usize, usize)) -> Option<Seq<CommitInfo>> {
    let (start, end) = range;
    if end < usize::MAX && start <= end + 1 && end + 1 <= options.len() {
        Some(options.subrange(start as int, end + 1))
    } else {
        None
    }
}

/// The selector's range after toggling the entry under the cursor: it grows
/// to reach the cursor, shrinks from the end the cursor is on, is cleared when
/// it held only that entry, and is cut at the cursor when it is inside.
pub open spec fn toggled_range(range: Option<(usize, usize)>, cursor: usize) -> Option<(usize, usize)> {
    match range {
        None => Some((cursor, cursor)),
        Some((start, end)) => if cursor < start {
            Some((cursor, end))
        } else if cursor > end {
            Some((start, cursor))
        } else if start == end {
            None
        } else if cursor == start {
            Some(((start + 1) as usize, end))
        } else if cursor == end {
            Some((start, (end - 1) as usize))
        } else {
            Some((start, cursor))
        },
    }
}

impl App {
    /// A diff review session over `packet`, offering `commit_options` in the
    /// commit selector; the tracked files are read as well (`files_loaded`).
    pub fn load_diff(packet_path: String, packet: Packet, output_to_stdout: bool, commit_options: Vec<CommitInfo>) -> (r: Self)
        ensures
            r.packet == packet,
            r.packet_path == packet_path,
            r.browser_mode == BrowserMode::Diff,
            r.focus == FocusPane::Source,
            r.input_mode == InputMode::CommitSelect,
            says(r.message, selector_prompt()),
            r.diff_browser matches Some(b) && b.commit_options == commit_options && b.commit_selection_range == Some((0usize, 0usize))
                && b.files@.len() == 0 && b.selection is None,
            r.pending == Some(Pending::Reload(AfterReload::Background)),
    {
        let mut app = App::new(packet_path, packet, output_to_stdout);
        app.browser_mode = BrowserMode::Diff;
        app.focus = FocusPane::Source;
        app.input_mode = InputMode::CommitSelect;
        app.message = Some("select uncommitted changes or a contiguous commit range, then press Enter".to_string());
        app.diff_browser = Some(DiffBrowserState::new(commit_options));
        app.pending = Some(Pending::Reload(AfterReload::Background));
        app
    }

    /// Offers the entries fetched again, keeping the selection and cursor on
    /// the same entries where they remain (`restored_selector`).
    pub fn reopen_diff_commit_selector(&mut self, refreshed: Vec<CommitInfo>)
        ensures
            old(self).diff_browser is None ==> *final(self) == *old(self),
            old(self).diff_browser matches Some(b) ==> {
                let (cursor, selection) = restored_selector(b.commit_options@, b.commit_cursor, b.commit_selection_range, refreshed@);
                &&& final(self).diff_browser matches Some(nb) && nb == (DiffBrowserState {
                    commit_options: refreshed,
                    commit_cursor: cursor as usize,
                    commit_selection_range: match selection {
                        Some((a, z)) => Some((a as usize, z as usize)),
                        None => None,
                    },
                    ..b
                })
                &&& *final(self) == (App { diff_browser: final(self).diff_browser, input_mode: InputMode::CommitSelect, message: final(self).message, ..*old(self) })
                &&& says(final(self).message, selector_prompt())
            },
    {
        let mut b = match self.diff_browser.take() {
            Some(b) => b,
            None => {
                return;
            },
        };
        let (cursor, selection) = restore_commit_selector_state(&b.commit_options, b.commit_cursor, b.commit_selection_range, &refreshed);
        b.commit_options = refreshed;
        b.commit_cursor = cursor;
        b.commit_selection_range = selection;
        self.diff_browser = Some(b);
        self.input_mode = InputMode::CommitSelect;
        self.message = Some("select uncommitted changes or a contiguous commit range, then press Enter".to_string());
    }

    pub fn move_diff_commit_cursor(&mut self, delta: isize)
        ensures
            *final(self) == with_browser(*old(self), |b: DiffBrowserState| DiffBrowserState {
                commit_cursor: if b.commit_options@.len() == 0 { 0 } else { clamp(b.commit_cursor + delta, 0, b.commit_options@.len() - 1) as usize },
                ..b
            }),
    {
        if let Some(mut b) = self.diff_browser.take() {
            if b.commit_options.len() == 0 {
                b.commit_cursor = 0;
            } else {
                b.commit_cursor = clamp_step(b.commit_cursor, delta as i128, 0, b.commit_options.len() - 1);
            }
            self.diff_browser = Some(b);
        }
    }

    /// Toggles the entry under the selector's cursor (see `toggled_range`).
    pub fn toggle_diff_commit_selection(&mut self)
        ensures
            *final(self) == with_browser(*old(self), |b: DiffBrowserState| if b.commit_options@.len() == 0 {
                b
            } else {
                DiffBrowserState { commit_selection_range: toggled_range(b.commit_selection_range, b.commit_cursor), ..b }
            }),
    {
        if let Some(mut b) = self.diff_browser.take() {
            if b.commit_options.len() > 0 {
                let cursor = b.commit_cursor;
                b.commit_selection_range = match b.commit_selection_range {
                    None => Some((cursor, cursor)),
                    Some((start, end)) => {
                        if cursor < start {
                            Some((cursor, end))
                        } else if cursor > end {
                            Some((start, cursor))
                        } else if start == end {
                            None
                        } else if cursor == start {
                            Some((start + 1, end))
                        } else if cursor == end {
                            Some((start, end - 1))
                        } else {
                            Some((start, cursor))
                        }
                    },
                };
            }
            self.diff_browser = Some(b);
        }
    }

    /// Opens the diff of the range chosen in the selector: the entries become
    /// the ones under review, and the diff of what they name is computed
    /// (`diff_loaded` finishes).
    pub fn confirm_diff_commit_selection(&mut self)
        ensures
            match old(self).diff_browser {
                None => *final(self) == *old(self),
                Some(b) => match b.commit_selection_range {
                    None => *final(self) == (App { message: final(self).message, ..*old(self) })
                        && says(final(self).message, "select at least one entry before opening the diff"@),
                    Some(range) => match chosen_entries(b.commit_options@, range) {
                        None => *final(self) == (App { message: final(self).message, ..*old(self) })
                            && says(final(self).message, "the current commit selection is invalid"@),
                        Some(entries) => {
                            &&& final(self).diff_browser matches Some(nb) && nb == (DiffBrowserState { active_review_entries: nb.active_review_entries, ..b })
                                && nb.active_review_entries@ == entries
                            &&& *final(self) == (App { diff_browser: final(self).diff_browser, pending: final(self).pending, ..*old(self) })
                            &&& final(self).pending matches Some(Pending::Diff(sel, AfterDiff::Confirmed)) && selection_view(sel) == chosen_selection(entries)
                                && (sel is WorkingTree <==> (chosen_selection(entries).0 && chosen_selection(entries).1.len() == 0))
                                && (sel is CommitRange <==> !chosen_selection(entries).0)
                        },
                    },
                },
            },
    {
        let mut b = match self.diff_browser.take() {
            Some(b) => b,
            None => {
                return;
            },
        };
        let (start, end) = match b.commit_selection_range {
            Some(r) => r,
            None => {
                self.diff_browser = Some(b);
                self.message = Some("select at least one entry before opening the diff".to_string());
                return;
            },
        };
        if end == usize::MAX || start > end + 1 || end + 1 > b.commit_options.len() {
            self.diff_browser = Some(b);
            self.message = Some("the current commit selection is invalid".to_string());
            return;
        }
        let ghost entries = b.commit_options@.subrange(start as int, end + 1);
        let mut chosen: Vec<CommitInfo> = Vec::new();
        let mut i: usize = start;
        while i <= end
            invariant
                start <= i <= end + 1,
                end < usize::MAX,
                end + 1 <= b.commit_options@.len(),
                entries == b.commit_options@.subrange(start as int, end + 1),
                chosen@ == entries.take(i - start),
            decreases end + 1 - i,
        {
            chosen.push(b.commit_options[i].copy());
            assert(entries.take(i - start + 1) =~= entries.take(i - start).push(b.commit_options@[i as int]));
            i = i + 1;
        }
        assert(entries.take(i - start) =~= entries);
        let includes_working_tree = chosen.len() > 0 && chosen[0].is_working_tree();
        let mut ids: Vec<String> = Vec::new();
        let mut j: usize = chosen.len();
        proof {
            assert(entries.skip(entries.len() as int) =~= Seq::<CommitInfo>::empty());
        }
        while j > 0
            invariant
                j <= chosen@.len(),
                chosen@ == entries,
                ids.deep_view() == commit_ids_oldest_first(entries.skip(j as int)),
            decreases j,
        {
            let entry = &chosen[j - 1];
            assert(entries.skip(j - 1).drop_first() =~= entries.skip(j as int));
            assert(entries.skip(j - 1)[0] == entries[j - 1]);
            if !entry.is_working_tree() {
                let ghost before = ids.deep_view();
                ids.push(entry.id.clone());
                assert(ids.deep_view() =~= before.push(entries[j - 1].id@));
            }
            j = j - 1;
        }
        assert(entries.skip(0) =~= entries);
        let selection = if includes_working_tree {
            if ids.len() == 0 {
                DiffSelection::WorkingTree
            } else {
                DiffSelection::WorkingTreeAndCommits(ids)
            }
        } else {
            DiffSelection::CommitRange(ids)
        };
        b.active_review_entries = chosen;
        self.diff_browser = Some(b);
        self.pending = Some(Pending::Diff(selection, AfterDiff::Confirmed));
    }

    /// Computes the current diff again (`diff_loaded` finishes).
    fn reload_diff_selection(&mut self)
        ensures
            match old(self).diff_browser {
                None => *final(self) == *old(self),
                Some(b) => match b.selection {
                    None => *final(self) == (App { message: final(self).message, ..*old(self) })
                        && says(final(self).message, "choose a diff range first from the commit selector"@),
                    Some(sel) => *final(self) == (App { pending: final(self).pending, ..*old(self) })
                        && (final(self).pending matches Some(Pending::Diff(now, AfterDiff::Reloaded)) && same_selection(now, sel)),
                },
            },
    {
        let selection = match &self.diff_browser {
            Some(b) => match &b.selection {
                Some(sel) => copy_selection(sel),
                None => {
                    self.message = Some("choose a diff range first from the commit selector".to_string());
                    return;
                },
            },
            None => {
                return;
            },
        };
        self.pending = Some(Pending::Diff(selection, AfterDiff::Reloaded));
    }

    /// Reads the sources again (computes the diff again, in diff mode).
    pub fn reload_sources(&mut self)
        ensures
            !is_diff(*old(self)) ==> *final(self) == (App { pending: Some(Pending::Reload(AfterReload::Refreshed)), ..*old(self) }),
            is_diff(*old(self)) ==> match old(self).diff_browser {
                None => *final(self) == *old(self),
                Some(b) => match b.selection {
                    None => *final(self) == (App { message: final(self).message, ..*old(self) })
                        && says(final(self).message, "choose a diff range first from the commit selector"@),
                    Some(sel) => *final(self) == (App { pending: final(self).pending, ..*old(self) })
                        && (final(self).pending matches Some(Pending::Diff(now, AfterDiff::Reloaded)) && same_selection(now, sel)),
                },
            },
    {
        if self.is_diff_mode() {
            self.reload_diff_selection();
            return;
        }
        self.pending = Some(Pending::Reload(AfterReload::Refreshed));
    }

    /// Shows the files of the diff just computed, from the top, with no gap
    /// open and no visual selection.
    pub fn diff_loaded(&mut self, files: Vec<DiffFile>)
        requires
            old(self).pending matches Some(Pending::Diff(_, _)),
        ensures
            match (old(self).pending, old(self).diff_browser) {
                (Some(Pending::Diff(sel, after)), Some(b)) => {
                    let fresh = DiffBrowserState {
                        files,
                        current_file: match after {
                            AfterDiff::Confirmed => 0,
                            AfterDiff::Reloaded => if b.current_file < files@.len() { b.current_file } else { sat_sub(files@.len() as int, 1) as usize },
                        },
                        cursor_row: 0,
                        scroll: 0,
                        view_metrics: final(self).diff_browser->0.view_metrics,
                        expanded: final(self).diff_browser->0.expanded,
                        visual_anchor_row: None,
                        selection: match after {
                            AfterDiff::Confirmed => Some(sel),
                            AfterDiff::Reloaded => b.selection,
                        },
                        ..b
                    };
                    &&& final(self).diff_browser == Some(fresh)
                    &&& fresh.expanded@.len() == 0
                    &&& fresh.view_metrics.rows@.len() == 0 && fresh.view_metrics.file_rows@.len() == 0
                        && fresh.view_metrics.annotation_rows@.len() == 0 && fresh.view_metrics.total_rows == 0
                        && fresh.view_metrics.viewport_height == 0
                    &&& match after {
                        AfterDiff::Confirmed => *final(self) == (App {
                            diff_browser: Some(fresh),
                            pending: None,
                            input_mode: InputMode::Normal,
                            focus: FocusPane::Source,
                            message: final(self).message,
                            ..*old(self)
                        }) && says(final(self).message, "diff loaded"@),
                        AfterDiff::Reloaded => *final(self) == (App {
                            diff_browser: Some(fresh),
                            pending: None,
                            message: final(self).message,
                            ..*old(self)
                        }) && says(final(self).message, "reloaded diff selection"@),
                    }
                },
                (Some(Pending::Diff(_, _)), None) => *final(self) == (App { pending: None, ..*old(self) }),
                _ => *final(self) == *old(self),
            },
    {
        let (selection, after) = match self.pending.take() {
            Some(Pending::Diff(sel, after)) => (sel, after),
            other => {
                self.pending = other;
                return;
            },
        };
        let mut b = match self.diff_browser.take() {
            Some(b) => b,
            None => {
                return;
            },
        };
        b.files = files;
        match after {
            AfterDiff::Confirmed => {
                b.selection = Some(selection);
                b.current_file = 0;
            },
            AfterDiff::Reloaded => {
                if b.current_file >= b.files.len() {
                    b.current_file = if b.files.len() >= 1 { b.files.len() - 1 } else { 0 };
                }
            },
        }
        b.cursor_row = 0;
        b.scroll = 0;
        b.view_metrics = DiffViewMetrics::default();
        b.expanded = Vec::new();
        b.visual_anchor_row = None;
        self.diff_browser = Some(b);
        match after {
            AfterDiff::Confirmed => {
                self.input_mode = InputMode::Normal;
                self.focus = FocusPane::Source;
                self.message = Some("diff loaded".to_string());
            },
            AfterDiff::Reloaded => {
                self.message = Some("reloaded diff selection".to_string());
            },
        }
    }
}

/// The new-side lines hidden before hunk `hunk_idx` of a file: from line 1,
/// or from the line after the previous hunk, to the line before this one.
pub open spec fn gap_lines(f: DiffFile, hunk_idx: usize) -> (int, int) {
    let hunk = f.hunks@[hunk_idx as int];
    let end = sat_sub(hunk.new_start as int, 1);
    if hunk_idx == 0 {
        (1, end)
    } else {
        let previous = f.hunks@[hunk_idx - 1];
        let start = if previous.new_start + previous.new_count <= usize::MAX {
            previous.new_start + previous.new_count
        } else {
            usize::MAX as int
        };
        (start, end)
    }
}

/// The opened gaps without `gap_id`.
pub open spec fn without_gap(e: Seq<(GapId, Vec<DiffLine>)>, g: GapId) -> Seq<(GapId, Vec<DiffLine>)> {
    e.filter(other_gap(g))
}

pub open spec fn other_gap(g: GapId) -> spec_fn((GapId, Vec<DiffLine>)) -> bool {
    |x: (GapId, Vec<DiffLine>)| x.0 != g
}

impl App {
    /// Closes an opened gap.
    fn collapse_diff_gap(&mut self, gap_id: GapId)
        ensures
            old(self).diff_browser is None ==> *final(self) == *old(self),
            old(self).diff_browser matches Some(b) ==> {
                &&& *final(self) == (App { diff_browser: final(self).diff_browser, message: final(self).message, ..*old(self) })
                &&& final(self).diff_browser matches Some(nb) && nb == (DiffBrowserState { expanded: nb.expanded, ..b })
                    && nb.expanded@ == without_gap(b.expanded@, gap_id)
                &&& says(final(self).message, "collapsed expanded context"@)
            },
    {
        let mut b = match self.diff_browser.take() {
            Some(b) => b,
            None => {
                return;
            },
        };
        let ghost all = b.expanded@;
        let ghost keep = other_gap(gap_id);
        let mut rest: Vec<(GapId, Vec<DiffLine>)> = Vec::new();
        std::mem::swap(&mut rest, &mut b.expanded);
        let mut out: Vec<(GapId, Vec<DiffLine>)> = Vec::new();
        let ghost mut taken: int = 0;
        assert(all.take(0) =~= Seq::<(GapId, Vec<DiffLine>)>::empty());
        proof {
            reveal(Seq::filter);
        }
        while rest.len() > 0
            invariant
                0 <= taken <= all.len(),
                rest@ == all.skip(taken),
                out@ == all.take(taken).filter(keep),
                keep == other_gap(gap_id),
            decreases rest.len(),
        {
            let ghost before = rest@;
            let item = rest.remove(0);
            proof {
                assert(before.len() == all.len() - taken);
                assert(item == before[0]);
                assert(rest@ =~= before.drop_first());
                assert(before.drop_first() =~= all.skip(taken + 1));
                assert(all.take(taken + 1).drop_last() =~= all.take(taken));
                assert(all.take(taken + 1).last() == all[taken]);
                reveal(Seq::filter);
            }
            if item.0 != gap_id {
                out.push(item);
            }
            proof {
                taken = taken + 1;
            }
        }
        assert(all.take(taken) =~= all);
        b.expanded = out;
        self.diff_browser = Some(b);
        self.message = Some("collapsed expanded context".to_string());
    }

    /// Asks for the lines hidden in a gap, unless it is open or empty.
    fn expand_diff_gap(&mut self, gap_id: GapId) -> (r: Result<(), String>)
        ensures
            match old(self).diff_browser {
                None => r is Ok && *final(self) == *old(self),
                Some(b) => if gap_position(b.expanded@, gap_id) is Some {
                    r is Ok && *final(self) == *old(self)
                } else if gap_id.file_idx >= b.files@.len() {
                    (r matches Err(m) && m@ == "invalid diff file index for context expansion"@) && *final(self) == *old(self)
                } else if gap_id.hunk_idx >= b.files@[gap_id.file_idx as int].hunks@.len() {
                    (r matches Err(m) && m@ == "invalid diff hunk index for context expansion"@) && *final(self) == *old(self)
                } else {
                    let (start, end) = gap_lines(b.files@[gap_id.file_idx as int], gap_id.hunk_idx);
                    &&& r is Ok
                    &&& start > end ==> *final(self) == *old(self)
                    &&& start <= end ==> *final(self) == (App {
                        pending: Some(Pending::Context { gap_id, start_line: start as usize, end_line: end as usize }),
                        ..*old(self)
                    })
                },
            },
    {
        let b = match &self.diff_browser {
            Some(b) => b,
            None => {
                return Ok(());
            },
        };
        if find_gap(&b.expanded, gap_id).is_some() {
            return Ok(());
        }
        if gap_id.file_idx >= b.files.len() {
            return Err("invalid diff file index for context expansion".to_string());
        }
        let file = &b.files[gap_id.file_idx];
        if gap_id.hunk_idx >= file.hunks.len() {
            return Err("invalid diff hunk index for context expansion".to_string());
        }
        let hunk = &file.hunks[gap_id.hunk_idx];
        let end_line = if hunk.new_start >= 1 { hunk.new_start - 1 } else { 0 };
        let start_line = if gap_id.hunk_idx == 0 {
            1
        } else {
            let previous = &file.hunks[gap_id.hunk_idx - 1];
            if previous.new_start <= usize::MAX - previous.new_count {
                previous.new_start + previous.new_count
            } else {
                usize::MAX
            }
        };
        if start_line > end_line {
            return Ok(());
        }
        self.pending = Some(Pending::Context { gap_id, start_line, end_line });
        Ok(())
    }

    /// Opens the gap under the cursor, or closes the one it is in.
    pub fn toggle_diff_gap_at_cursor(&mut self) -> (r: Result<(), String>)
        ensures
            match old(self).diff_browser {
                None => r is Ok && *final(self) == *old(self),
                Some(b) => match cursor_row_kind(b) {
                    None => r is Ok && *final(self) == *old(self),
                    Some(DiffRow::GapExpander { gap_id }) => if gap_position(b.expanded@, gap_id) is Some {
                        r is Ok && (final(self).diff_browser matches Some(nb) && nb.expanded@ == without_gap(b.expanded@, gap_id))
                            && says(final(self).message, "collapsed expanded context"@)
                    } else {
                        final(self).pending == (if r is Ok && gap_id.file_idx < b.files@.len() && gap_id.hunk_idx < b.files@[gap_id.file_idx as int].hunks@.len()
                            && gap_lines(b.files@[gap_id.file_idx as int], gap_id.hunk_idx).0 <= gap_lines(b.files@[gap_id.file_idx as int], gap_id.hunk_idx).1 {
                            Some(Pending::Context {
                                gap_id,
                                start_line: gap_lines(b.files@[gap_id.file_idx as int], gap_id.hunk_idx).0 as usize,
                                end_line: gap_lines(b.files@[gap_id.file_idx as int], gap_id.hunk_idx).1 as usize,
                            })
                        } else {
                            old(self).pending
                        }) && (r is Err <==> (gap_id.file_idx >= b.files@.len() || gap_id.hunk_idx >= b.files@[gap_id.file_idx as int].hunks@.len()))
                    },
                    Some(DiffRow::ExpandedContext { gap_id, .. }) => r is Ok && (final(self).diff_browser matches Some(nb)
                        && nb.expanded@ == without_gap(b.expanded@, gap_id)) && says(final(self).message, "collapsed expanded context"@),
                    Some(_) => r is Ok && *final(self) == (App { message: final(self).message, ..*old(self) })
                        && says(final(self).message, "move to a collapsed or expanded context row first"@),
                },
            },
    {
        let row = match &self.diff_browser {
            Some(b) => {
                if b.cursor_row < b.view_metrics.rows.len() {
                    match &b.view_metrics.rows[b.cursor_row] {
                        DiffRow::GapExpander { gap_id } => (Some(*gap_id), false, true),
                        DiffRow::ExpandedContext { gap_id, .. } => (Some(*gap_id), true, true),
                        _ => (None, false, true),
                    }
                } else {
                    (None, false, false)
                }
            },
            None => (None, false, false),
        };
        match row {
            (Some(gap_id), false, _) => {
                let open = match &self.diff_browser {
                    Some(b) => find_gap(&b.expanded, gap_id).is_some(),
                    None => false,
                };
                if open {
                    self.collapse_diff_gap(gap_id);
                    Ok(())
                } else {
                    self.expand_diff_gap(gap_id)
                }
            },
            (Some(gap_id), true, _) => {
                self.collapse_diff_gap(gap_id);
                Ok(())
            },
            (None, _, true) => {
                self.message = Some("move to a collapsed or expanded context row first".to_string());
                Ok(())
            },
            (None, _, false) => Ok(()),
        }
    }

    /// Shows the lines read for an opened gap.
    pub fn context_loaded(&mut self, lines: Vec<DiffLine>)
        requires
            old(self).pending matches Some(Pending::Context { .. }),
        ensures
            match (old(self).pending, old(self).diff_browser) {
                (Some(Pending::Context { gap_id, .. }), Some(b)) => {
                    &&& final(self).diff_browser matches Some(nb) && nb == (DiffBrowserState { expanded: nb.expanded, ..b })
                        && nb.expanded@ == b.expanded@.push((gap_id, lines))
                    &&& *final(self) == (App { diff_browser: final(self).diff_browser, pending: None, message: final(self).message, ..*old(self) })
                    &&& says(final(self).message, "expanded hidden context"@)
                },
                _ => *final(self) == (App { pending: None, ..*old(self) }),
            },
    {
        let gap_id = match self.pending.take() {
            Some(Pending::Context { gap_id, .. }) => gap_id,
            _ => {
                return;
            },
        };
        if let Some(mut b) = self.diff_browser.take() {
            b.expanded.push((gap_id, lines));
            self.diff_browser = Some(b);
            self.message = Some("expanded hidden context".to_string());
        }
    }

    /// Marks the current diff file reviewed and moves on to the next one.
    pub fn mark_current_diff_file_reviewed_and_next(&mut self)
        ensures
            match old(self).diff_browser {
                None => *final(self) == *old(self),
                Some(b) => if b.current_file >= b.files@.len() {
                    *final(self) == *old(self)
                } else {
                    let path = diff_file_path(b.files@[b.current_file as int]);
                    let marked = DiffBrowserState {
                        reviewed_paths: final(self).diff_browser->0.reviewed_paths,
                        ..b
                    };
                    &&& final(self).diff_browser->0.reviewed_paths.deep_view() == if b.reviewed_paths.deep_view().contains(path) {
                        b.reviewed_paths.deep_view()
                    } else {
                        b.reviewed_paths.deep_view().push(path)
                    }
                    &&& if b.current_file + 1 < b.files@.len() {
                        *final(self) == (App { diff_browser: Some(on_file(marked, (b.current_file + 1) as usize)), message: final(self).message, ..*old(self) })
                            && says(final(self).message, "marked "@ + path + " reviewed and moved to the next file"@)
                    } else {
                        *final(self) == (App { diff_browser: Some(marked), message: final(self).message, ..*old(self) })
                            && says(final(self).message, "marked "@ + path + " reviewed"@)
                    }
                },
            },
    {
        let mut b = match self.diff_browser.take() {
            Some(b) => b,
            None => {
                return;
            },
        };
        if b.current_file >= b.files.len() {
            self.diff_browser = Some(b);
            return;
        }
        let path = diff_file_display(&b.files[b.current_file]).to_string();
        push_new_path(&mut b.reviewed_paths, &path);
        let current = b.current_file;
        let mut message = "marked ".to_string();
        push_str(&mut message, path.as_str());
        if current + 1 < b.files.len() {
            b.select_file(current + 1);
            push_str(&mut message, " reviewed and moved to the next file");
        } else {
            push_str(&mut message, " reviewed");
        }
        self.diff_browser = Some(b);
        self.message = Some(message);
    }
}

// ---------------------------------------------------------------------------
// Exporting and saving.
// ---------------------------------------------------------------------------

/// The ids of the threads shown on `path` at `line` that wait for a reply and
/// are not listed yet, added in order.
pub open spec fn add_waiting_ids(qs: Seq<QuestionView>, path: Seq<char>, line: usize, seen: Seq<Seq<char>>) -> Seq<Seq<char>>
    decreases qs.len(),
{
    if qs.len() == 0 {
        seen
    } else {
        let s1 = add_waiting_ids(qs.drop_last(), path, line, seen);
        let q = qs.last();
        if q.path == path && (q.anchor matches Some(a) && anchor_end(a) == line) && crate::model::needs_reply(q)
            && !s1.contains(q.id) {
            s1.push(q.id)
        } else {
            s1
        }
    }
}

/// The ids of the threads whose cards the diff shows and that wait for a
/// reply, in the order of the rows, each once.
pub open spec fn visible_waiting_ids(rows: Seq<DiffRow>, p: PacketView) -> Seq<Seq<char>>
    decreases rows.len(),
{
    if rows.len() == 0 {
        Seq::empty()
    } else {
        let seen = visible_waiting_ids(rows.drop_last(), p);
        match rows.last() {
            DiffRow::Annotation { path, line_no } => add_waiting_ids(p.questions, path@, line_no, seen),
            _ => seen,
        }
    }
}

/// What exporting produces: the review of the diff when one is loaded, else
/// every thread waiting for a reply.
pub open spec fn export_of(a: App) -> Result<Seq<char>, crate::export::ExportError> {
    let p = a.packet@;
    match a.diff_browser {
        Some(b) if is_diff(a) && b.selection is Some => {
            let ids = visible_waiting_ids(b.view_metrics.rows@, p);
            if crate::export::visible_awaiting(p.questions, ids).len() == 0 {
                Err(crate::export::ExportError::NoOpenReviewComments)
            } else {
                Ok(crate::export::review_export_text(
                    p,
                    a.packet_path@,
                    crate::export::scope_label(b.selection->0),
                    b.active_review_entries@.map_values(|c: CommitInfo| crate::export::entry_label(c)),
                    b.files@.map_values(|f: DiffFile| diff_file_path(f)),
                    ids,
                ))
            }
        },
        _ => if crate::model::awaiting_reply(p.questions).len() == 0 {
            Err(crate::export::ExportError::NoOpenQuestions)
        } else {
            Ok(crate::export::question_export_text(p, a.packet_path@))
        },
    }
}

pub open spec fn export_noun(diff: bool) -> Seq<char> {
    pick(diff, "diff review"@, "open questions"@)
}

impl App {
    /// The ids of the threads shown in the diff that wait for a reply.
    fn visible_diff_review_question_ids(&self) -> (r: Vec<String>)
        ensures
            r.deep_view() == match self.diff_browser {
                Some(b) => visible_waiting_ids(b.view_metrics.rows@, self.packet@),
                None => Seq::empty(),
            },
    {
        let b = match &self.diff_browser {
            Some(b) => b,
            None => {
                let v: Vec<String> = Vec::new();
                assert(v.deep_view() =~= Seq::<Seq<char>>::empty());
                return v;
            },
        };
        let ghost p = self.packet@;
        let ghost rows = b.view_metrics.rows@;
        let mut ids: Vec<String> = Vec::new();
        let mut i: usize = 0;
        assert(rows.take(0) =~= Seq::<DiffRow>::empty());
        while i < b.view_metrics.rows.len()
            invariant
                i <= rows.len(),
                rows == b.view_metrics.rows@,
                p == self.packet@,
                ids.deep_view() == visible_waiting_ids(rows.take(i as int), p),
            decreases b.view_metrics.rows.len() - i,
        {
            assert(rows.take(i + 1).drop_last() =~= rows.take(i as int));
            assert(rows.take(i + 1).last() == rows[i as int]);
            match &b.view_metrics.rows[i] {
                DiffRow::Annotation { path, line_no } => {
                    let line = *line_no;
                    let ghost s0 = ids.deep_view();
                    let mut k: usize = 0;
                    assert(p.questions.take(0) =~= Seq::<QuestionView>::empty());
                    while k < self.packet.questions.len()
                        invariant
                            k <= p.questions.len(),
                            p == self.packet@,
                            ids.deep_view() == add_waiting_ids(p.questions.take(k as int), path@, line, s0),
                        decreases self.packet.questions.len() - k,
                    {
                        assert(p.questions.take(k + 1).drop_last() =~= p.questions.take(k as int));
                        assert(p.questions.take(k + 1).last() == p.questions[k as int]);
                        let question = &self.packet.questions[k];
                        let shown_here = match question.anchor {
                            Some(a) => anchor_display_line(a) == line,
                            None => false,
                        };
                        if str_eq(question.path.as_str(), path.as_str()) && shown_here && question.needs_agent_reply()
                            && !contains_str(&ids, question.id.as_str()) {
                            let ghost before = ids.deep_view();
                            ids.push(question.id.clone());
                            assert(ids.deep_view() =~= before.push(p.questions[k as int].id));
                        }
                        k = k + 1;
                    }
                    assert(p.questions.take(k as int) =~= p.questions);
                },
                _ => {},
            }
            i = i + 1;
        }
        assert(rows.take(i as int) =~= rows);
        ids
    }

    /// The text to export: the review of the loaded diff, else the threads
    /// waiting for a reply (see `export_of`).
    pub fn question_export_text(&self) -> (r: Result<String, crate::export::ExportError>)
        requires
            crate::export::turns_fit(self.packet@),
        ensures
            match r {
                Ok(s) => export_of(*self) == Ok::<Seq<char>, crate::export::ExportError>(s@),
                Err(e) => export_of(*self) == Err::<Seq<char>, crate::export::ExportError>(e),
            },
    {
        if self.is_diff_mode() {
            if let Some(b) = &self.diff_browser {
                if let Some(selection) = &b.selection {
                    let mut entries: Vec<CommitInfo> = Vec::new();
                    let mut i: usize = 0;
                    while i < b.active_review_entries.len()
                        invariant
                            i <= b.active_review_entries@.len(),
                            entries@ == b.active_review_entries@.take(i as int),
                        decreases b.active_review_entries.len() - i,
                    {
                        entries.push(b.active_review_entries[i].copy());
                        assert(b.active_review_entries@.take(i + 1) =~= b.active_review_entries@.take(i as int).push(b.active_review_entries@[i as int]));
                        i = i + 1;
                    }
                    assert(b.active_review_entries@.take(i as int) =~= b.active_review_entries@);
                    let mut changed: Vec<String> = Vec::new();
                    let mut j: usize = 0;
                    while j < b.files.len()
                        invariant
                            j <= b.files@.len(),
                            changed.deep_view() == b.files@.map_values(|f: DiffFile| diff_file_path(f)).take(j as int),
                        decreases b.files.len() - j,
                    {
                        let ghost before = changed.deep_view();
                        changed.push(diff_file_display(&b.files[j]).to_string());
                        assert(changed.deep_view() =~= before.push(diff_file_path(b.files@[j as int])));
                        assert(b.files@.map_values(|f: DiffFile| diff_file_path(f)).take(j + 1) =~= b.files@.map_values(|f: DiffFile| diff_file_path(f)).take(j as int).push(diff_file_path(b.files@[j as int])));
                        j = j + 1;
                    }
                    assert(b.files@.map_values(|f: DiffFile| diff_file_path(f)).take(j as int) =~= b.files@.map_values(|f: DiffFile| diff_file_path(f)));
                    let review = crate::export::ReviewExportContext {
                        selection: copy_selection(selection),
                        review_entries: entries,
                        changed_paths: changed,
                        visible_question_ids: self.visible_diff_review_question_ids(),
                    };
                    assert(crate::export::scope_label(review.selection) == crate::export::scope_label(*selection));
                    return crate::export::generate_review_question_export(&self.packet, self.packet_path.as_str(), &review);
                }
            }
        }
        crate::export::generate_question_export(&self.packet, self.packet_path.as_str())
    }

    /// Exports for the agent: when the text goes to standard output it is kept
    /// for exit; otherwise it is handed back to be copied (then `export_copied`).
    /// When there is nothing to export, the message says why.
    pub fn export_questions(&mut self) -> (r: Option<String>)
        requires
            crate::export::turns_fit(old(self).packet@),
        ensures
            match export_of(*old(self)) {
                Err(e) => r is None && *final(self) == (App { message: final(self).message, ..*old(self) })
                    && says(final(self).message, crate::export::export_error_text(e)),
                Ok(text) => if old(self).output_to_stdout {
                    &&& r is None
                    &&& *final(self) == (App { discard_guard: false, quit_export: final(self).quit_export, message: final(self).message, ..*old(self) })
                    &&& says(final(self).quit_export, text)
                    &&& says(final(self).message, pick(is_diff(*old(self)), "diff review rendered to stdout on exit"@, "open questions rendered to stdout on exit"@))
                } else {
                    &&& r matches Some(t) && t@ == text
                    &&& *final(self) == (App { discard_guard: false, ..*old(self) })
                },
            },
    {
        let export = match self.question_export_text() {
            Ok(export) => export,
            Err(e) => {
                self.message = Some(e.message().to_string());
                return None;
            },
        };
        self.discard_guard = false;
        if self.output_to_stdout {
            self.message = Some(
                if self.is_diff_mode() {
                    "diff review rendered to stdout on exit"
                } else {
                    "open questions rendered to stdout on exit"
                }.to_string(),
            );
            self.quit_export = Some(export);
            None
        } else {
            Some(export)
        }
    }

    /// Reports where the exported text went (`outcome`, as the clipboard said).
    pub fn export_copied(&mut self, outcome: &str)
        ensures
            *final(self) == (App { message: final(self).message, ..*old(self) }),
            says(final(self).message, pick(is_diff(*old(self)), "diff review "@, "open questions "@) + outcome@),
    {
        let mut message = if self.is_diff_mode() {
            "diff review ".to_string()
        } else {
            "open questions ".to_string()
        };
        push_str(&mut message, outcome);
        self.message = Some(message);
    }

    /// Records that the packet was written to its path.
    pub fn saved(&mut self)
        ensures
            *final(self) == (App { dirty: false, discard_guard: false, message: final(self).message, ..*old(self) }),
            says(final(self).message, "saved "@ + old(self).packet_path@),
    {
        self.dirty = false;
        self.discard_guard = false;
        let mut message = "saved ".to_string();
        push_str(&mut message, self.packet_path.as_str());
        self.message = Some(message);
    }

    /// After saving, quits with the export: kept for standard output, or
    /// handed back to be copied (then `quit_copied`); with nothing to export,
    /// quits saying it saved.
    pub fn quit_after_save(&mut self) -> (r: Option<String>)
        requires
            crate::export::turns_fit(old(self).packet@),
        ensures
            match export_of(*old(self)) {
                Err(_) => r is None && *final(self) == (App { should_quit: true, quit_notice: final(self).quit_notice, ..*old(self) })
                    && says(final(self).quit_notice, "saved "@ + old(self).packet_path@),
                Ok(text) => if old(self).output_to_stdout {
                    &&& r is None
                    &&& *final(self) == (App { should_quit: true, quit_notice: final(self).quit_notice, quit_export: final(self).quit_export, ..*old(self) })
                    &&& says(final(self).quit_export, text)
                    &&& says(final(self).quit_notice, "saved "@ + old(self).packet_path@ + " and wrote the "@ + export_noun(is_diff(*old(self))) + " to stdout"@)
                } else {
                    r matches Some(t) && t@ == text && *final(self) == *old(self)
                },
            },
    {
        let diff = self.is_diff_mode();
        match self.question_export_text() {
            Ok(export) => {
                if self.output_to_stdout {
                    self.quit_export = Some(export);
                    let mut notice = "saved ".to_string();
                    push_str(&mut notice, self.packet_path.as_str());
                    push_str(&mut notice, " and wrote the ");
                    push_str(&mut notice, if diff { "diff review" } else { "open questions" });
                    push_str(&mut notice, " to stdout");
                    self.quit_notice = Some(notice);
                    self.should_quit = true;
                    None
                } else {
                    Some(export)
                }
            },
            Err(_) => {
                let mut notice = "saved ".to_string();
                push_str(&mut notice, self.packet_path.as_str());
                self.quit_notice = Some(notice);
                self.should_quit = true;
                None
            },
        }
    }

    /// Quits once the export was copied (`outcome`, as the clipboard said).
    pub fn quit_copied(&mut self, outcome: &str)
        ensures
            *final(self) == (App { should_quit: true, quit_notice: final(self).quit_notice, ..*old(self) }),
            says(final(self).quit_notice, "saved "@ + old(self).packet_path@ + " and exported the "@ + export_noun(is_diff(*old(self))) + " ("@ + outcome@ + ")"@),
    {
        let mut notice = "saved ".to_string();
        push_str(&mut notice, self.packet_path.as_str());
        push_str(&mut notice, " and exported the ");
        push_str(&mut notice, if self.is_diff_mode() { "diff review" } else { "open questions" });
        push_str(&mut notice, " (");
        push_str(&mut notice, outcome);
        push_str(&mut notice, ")");
        self.quit_notice = Some(notice);
        self.should_quit = true;
    }
}

// ---------------------------------------------------------------------------
// What the view reads.
// ---------------------------------------------------------------------------

pub open spec fn note_on(path: Seq<char>) -> spec_fn(NoteView) -> bool {
    |n: NoteView| n.path == path
}

pub open spec fn thread_on(path: Seq<char>) -> spec_fn(QuestionView) -> bool {
    |q: QuestionView| q.path == path
}

pub open spec fn open_thread_on(path: Seq<char>) -> spec_fn(QuestionView) -> bool {
    |q: QuestionView| q.path == path && q.status == QuestionStatus::Open
}

/// The note shown when no file is tracked.
pub open spec fn placeholder_file(f: LoadedFile) -> bool {
    f.path@ == "No tracked files"@ && f.lines@.len() == 0 && f.highlighted_lines@.len() == 0
        && (f.load_error matches Some(e) && e@ == "Use f to add a file from the workspace."@)
}

/// What the source view shows when no file is tracked.
pub fn empty_loaded_file() -> (r: LoadedFile)
    ensures
        placeholder_file(r),
{
    LoadedFile {
        path: "No tracked files".to_string(),
        lines: Vec::new(),
        highlighted_lines: Vec::new(),
        load_error: Some("Use f to add a file from the workspace.".to_string()),
    }
}

impl App {
    /// The file shown, if there is one (the view shows `empty_loaded_file`
    /// otherwise).
    pub fn current_file(&self) -> (r: Option<&LoadedFile>)
        ensures
            self.current_file < self.files@.len() ==> r == Some(&self.files@[self.current_file as int]),
            self.current_file >= self.files@.len() ==> r is None,
    {
        if self.current_file < self.files.len() {
            Some(&self.files[self.current_file])
        } else {
            None
        }
    }

    /// The notes on `path`, in order.
    pub fn notes_for_path(&self, path: &str) -> (r: Vec<&Note>)
        ensures
            r@.map_values(|n: &Note| n@) == self.packet@.notes.filter(note_on(path@)),
    {
        let ghost ns = self.packet@.notes;
        let mut out: Vec<&Note> = Vec::new();
        let mut i: usize = 0;
        proof {
            reveal(Seq::filter);
        }
        assert(ns.take(0) =~= Seq::<NoteView>::empty());
        while i < self.packet.notes.len()
            invariant
                i <= ns.len(),
                ns == self.packet@.notes,
                out@.map_values(|n: &Note| n@) == ns.take(i as int).filter(note_on(path@)),
            decreases self.packet.notes.len() - i,
        {
            proof {
                reveal(Seq::filter);
                assert(ns.take(i + 1).drop_last() =~= ns.take(i as int));
                assert(ns.take(i + 1).last() == ns[i as int]);
            }
            let note = &self.packet.notes[i];
            if str_eq(note.path.as_str(), path) {
                let ghost before = out@.map_values(|n: &Note| n@);
                out.push(note);
                assert(out@.map_values(|n: &Note| n@) =~= before.push(ns[i as int]));
            }
            i = i + 1;
        }
        assert(ns.take(i as int) =~= ns);
        out
    }

    /// The threads on `path`, in order.
    pub fn questions_for_path(&self, path: &str) -> (r: Vec<&Question>)
        ensures
            r@.map_values(|q: &Question| q@) == self.packet@.questions.filter(thread_on(path@)),
    {
        let ghost qs = self.packet@.questions;
        let mut out: Vec<&Question> = Vec::new();
        let mut i: usize = 0;
        proof {
            reveal(Seq::filter);
        }
        assert(qs.take(0) =~= Seq::<QuestionView>::empty());
        while i < self.packet.questions.len()
            invariant
                i <= qs.len(),
                qs == self.packet@.questions,
                out@.map_values(|q: &Question| q@) == qs.take(i as int).filter(thread_on(path@)),
            decreases self.packet.questions.len() - i,
        {
            proof {
                reveal(Seq::filter);
                assert(qs.take(i + 1).drop_last() =~= qs.take(i as int));
                assert(qs.take(i + 1).last() == qs[i as int]);
            }
            let question = &self.packet.questions[i];
            if str_eq(question.path.as_str(), path) {
                let ghost before = out@.map_values(|q: &Question| q@);
                out.push(question);
                assert(out@.map_values(|q: &Question| q@) =~= before.push(qs[i as int]));
            }
            i = i + 1;
        }
        assert(qs.take(i as int) =~= qs);
        out
    }

    /// The number of notes on `path`.
    pub fn file_note_count(&self, path: &str) -> (r: usize)
        ensures
            r == self.packet@.notes.filter(note_on(path@)).len(),
    {
        let v = self.notes_for_path(path);
        v.len()
    }

    /// The number of open threads on `path`.
    pub fn file_open_question_count(&self, path: &str) -> (r: usize)
        ensures
            r == self.packet@.questions.filter(open_thread_on(path@)).len(),
    {
        let ghost qs = self.packet@.questions;
        let mut count: usize = 0;
        let mut i: usize = 0;
        proof {
            reveal(Seq::filter);
        }
        assert(qs.take(0) =~= Seq::<QuestionView>::empty());
        while i < self.packet.questions.len()
            invariant
                i <= qs.len(),
                qs == self.packet@.questions,
                count == qs.take(i as int).filter(open_thread_on(path@)).len(),
                count <= i,
            decreases self.packet.questions.len() - i,
        {
            proof {
                reveal(Seq::filter);
                assert(qs.take(i + 1).drop_last() =~= qs.take(i as int));
                assert(qs.take(i + 1).last() == qs[i as int]);
            }
            let question = &self.packet.questions[i];
            if str_eq(question.path.as_str(), path) && question.status == QuestionStatus::Open {
                count = count + 1;
            }
            i = i + 1;
        }
        assert(qs.take(i as int) =~= qs);
        count
    }

    /// The notes covering the line annotations are made at.
    pub fn notes_for_current_line(&self) -> (r: Vec<&Note>)
        ensures
            match annotation_target(*self) {
                None => r@.len() == 0,
                Some((path, line)) => r@.map_values(|n: &Note| n@) == self.packet@.notes.filter(note_at(path, line)),
            },
    {
        let (path, line) = match self.current_annotation_target() {
            Some(t) => t,
            None => {
                return Vec::new();
            },
        };
        let ghost ns = self.packet@.notes;
        let mut out: Vec<&Note> = Vec::new();
        let mut i: usize = 0;
        proof {
            reveal(Seq::filter);
        }
        assert(ns.take(0) =~= Seq::<NoteView>::empty());
        while i < self.packet.notes.len()
            invariant
                i <= ns.len(),
                ns == self.packet@.notes,
                annotation_target(*self) == Some((path@, line as int)),
                out@.map_values(|n: &Note| n@) == ns.take(i as int).filter(note_at(path@, line as int)),
            decreases self.packet.notes.len() - i,
        {
            proof {
                reveal(Seq::filter);
                assert(ns.take(i + 1).drop_last() =~= ns.take(i as int));
                assert(ns.take(i + 1).last() == ns[i as int]);
            }
            let note = &self.packet.notes[i];
            if str_eq(note.path.as_str(), path.as_str()) && anchor_contains_line(note.anchor, line) {
                let ghost before = out@.map_values(|n: &Note| n@);
                out.push(note);
                assert(out@.map_values(|n: &Note| n@) =~= before.push(ns[i as int]));
            }
            i = i + 1;
        }
        assert(ns.take(i as int) =~= ns);
        out
    }

    /// The thread under the cursor, if any.
    pub fn current_question(&self) -> (r: Option<&Question>)
        ensures
            match thread_here(*self) {
                Some(i) => r matches Some(q) && q@ == self.packet@.questions[i],
                None => r is None,
            },
    {
        let index = self.current_question_index();
        proof {
            match annotation_target(*self) {
                Some((path, line)) => lemma_last_index_where_bounds(self.packet@.questions, question_at(path, line)),
                None => {},
            }
        }
        match index {
            Some(i) => Some(&self.packet.questions[i]),
            None => None,
        }
    }

    /// The open thread under the cursor, if any.
    pub fn current_open_question(&self) -> (r: Option<&Question>)
        ensures
            match open_thread_here(*self) {
                Some(i) => r matches Some(q) && q@ == self.packet@.questions[i],
                None => r is None,
            },
    {
        let index = self.current_open_question_index();
        proof {
            match annotation_target(*self) {
                Some((path, line)) => lemma_last_index_where_bounds(self.packet@.questions, open_question_at(path, line)),
                None => {},
            }
        }
        match index {
            Some(i) => Some(&self.packet.questions[i]),
            None => None,
        }
    }

    /// The text being written in the draft.
    pub fn active_draft_buffer_mut(&mut self) -> (r: &mut TextBuffer)
        requires
            old(self).draft is Some,
        ensures
            *r == old(self).draft->0.buffer,
            final(self).draft is Some,
            final(self).draft->0.buffer == *final(r),
            *final(self) == (App {
                draft: Some(PromptDraft { buffer: final(self).draft->0.buffer, ..old(self).draft->0 }),
                ..*old(self)
            }),
    {
        &mut self.draft.as_mut().unwrap().buffer
    }

    /// The query being typed in the file picker.
    pub fn active_file_picker_buffer_mut(&mut self) -> (r: &mut TextBuffer)
        requires
            old(self).file_picker is Some,
        ensures
            *r == old(self).file_picker->0.query,
            final(self).file_picker is Some,
            final(self).file_picker->0.query == *final(r),
            *final(self) == (App {
                file_picker: Some(FilePickerState { query: final(self).file_picker->0.query, ..old(self).file_picker->0 }),
                ..*old(self)
            }),
    {
        &mut self.file_picker.as_mut().unwrap().query
    }

    /// The query being typed in the search.
    pub fn active_search_buffer_mut(&mut self) -> (r: &mut TextBuffer)
        requires
            old(self).search is Some,
        ensures
            *r == old(self).search->0.query,
            final(self).search is Some,
            final(self).search->0.query == *final(r),
            *final(self) == (App {
                search: Some(SearchState { query: final(self).search->0.query, ..old(self).search->0 }),
                ..*old(self)
            }),
    {
        &mut self.search.as_mut().unwrap().query
    }

    pub fn current_diff_file(&self) -> (r: Option<&DiffFile>)
        ensures
            match self.diff_browser {
                Some(b) => if b.current_file < b.files@.len() { r == Some(&b.files@[b.current_file as int]) } else { r is None },
                None => r is None,
            },
    {
        match &self.diff_browser {
            Some(b) => {
                if b.current_file < b.files.len() {
                    Some(&b.files[b.current_file])
                } else {
                    None
                }
            },
            None => None,
        }
    }

    pub fn current_diff_path(&self) -> (r: Option<&str>)
        ensures
            match self.diff_browser {
                Some(b) => if b.current_file < b.files@.len() {
                    r matches Some(p) && p@ == diff_file_path(b.files@[b.current_file as int])
                } else {
                    r is None
                },
                None => r is None,
            },
    {
        match self.current_diff_file() {
            Some(f) => Some(diff_file_display(f)),
            None => None,
        }
    }

    pub fn current_diff_selection(&self) -> (r: Option<&DiffSelection>)
        ensures
            match self.diff_browser {
                Some(b) => match b.selection {
                    Some(s) => r == Some(&s),
                    None => r is None,
                },
                None => r is None,
            },
    {
        match &self.diff_browser {
            Some(b) => match &b.selection {
                Some(s) => Some(s),
                None => None,
            },
            None => None,
        }
    }

    pub fn diff_files(&self) -> (r: &[DiffFile])
        ensures
            r@ == match self.diff_browser {
                Some(b) => b.files@,
                None => Seq::empty(),
            },
    {
        match &self.diff_browser {
            Some(b) => b.files.as_slice(),
            None => {
                let empty: &[DiffFile] = &[];
                assert(empty@ =~= Seq::<DiffFile>::empty());
                empty
            },
        }
    }

    pub fn current_diff_row(&self) -> (r: Option<&DiffRow>)
        ensures
            match self.diff_browser {
                Some(b) => match cursor_row_kind(b) {
                    Some(row) => r == Some(&row),
                    None => r is None,
                },
                None => r is None,
            },
    {
        match &self.diff_browser {
            Some(b) => {
                if b.cursor_row < b.view_metrics.rows.len() {
                    Some(&b.view_metrics.rows[b.cursor_row])
                } else {
                    None
                }
            },
            None => None,
        }
    }

    /// Whether `path` was marked reviewed in the diff.
    pub fn is_current_diff_file_reviewed(&self, path: &str) -> (r: bool)
        ensures
            r == (self.diff_browser matches Some(b) && b.reviewed_paths.deep_view().contains(path@)),
    {
        match &self.diff_browser {
            Some(b) => contains_str(&b.reviewed_paths, path),
            None => false,
        }
    }
}

} // verus!
