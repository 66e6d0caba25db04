//! Character-level text model shared by the rest of the crate: what trimming,
//! splitting, joining and decimal rendering mean on `Seq<char>`, and executable
//! helpers proved against those meanings.

use vstd::prelude::*;

verus! {

// ---------------------------------------------------------------------------
// Thin access to `String` / `str` that vstd does not specify.
// ---------------------------------------------------------------------------

/// `str::chars` collected into a vector: the characters of `s`, in order.
#[verifier::external_body]
pub(crate) fn chars_of(s: &str) -> (r: Vec<char>)
    ensures
        r@ == s@,
{
    s.chars().collect()
}

/// `String::push`: appends one character.
#[verifier::external_body]
pub(crate) fn push_char(s: &mut String, c: char)
    ensures
        final(s)@ == old(s)@.push(c),
{
    s.push(c);
}

/// `String::push_str`: appends a string slice.
#[verifier::external_body]
pub(crate) fn push_str(s: &mut String, t: &str)
    ensures
        final(s)@ == old(s)@ + t@,
{
    s.push_str(t);
}

/// `str == str`: whether the two texts are equal.
#[verifier::external_body]
pub(crate) fn str_eq(a: &str, b: &str) -> (r: bool)
    ensures
        r == (a@ == b@),
{
    a == b
}

// ---------------------------------------------------------------------------
// Character classes.
// ---------------------------------------------------------------------------

pub open spec fn is_ascii_upper(c: char) -> bool {
    'A' <= c && c <= 'Z'
}

pub open spec fn is_ascii_lower(c: char) -> bool {
    'a' <= c && c <= 'z'
}

pub open spec fn is_ascii_digit(c: char) -> bool {
    '0' <= c && c <= '9'
}

pub open spec fn is_ascii_alnum(c: char) -> bool {
    is_ascii_upper(c) || is_ascii_lower(c) || is_ascii_digit(c)
}

pub open spec fn to_ascii_lower(c: char) -> char {
    if is_ascii_upper(c) {
        ((c as u32) + 32) as char
    } else {
        c
    }
}

/// The text with each ASCII capital made small (`str::to_ascii_lowercase`).
pub open spec fn lower_ascii(s: Seq<char>) -> Seq<char> {
    s.map_values(|c: char| to_ascii_lower(c))
}

pub open spec fn to_ascii_upper(c: char) -> char {
    if is_ascii_lower(c) {
        ((c as u32) - 32) as char
    } else {
        c
    }
}

/// The Unicode `White_Space` property, the set that `char::is_whitespace`
/// and `str::trim` use.
pub open spec fn is_ws(c: char) -> bool {
    ||| ('\t' <= c && c <= '\r')
    ||| c == ' '
    ||| c == '\u{85}'
    ||| c == '\u{a0}'
    ||| c == '\u{1680}'
    ||| ('\u{2000}' <= c && c <= '\u{200a}')
    ||| c == '\u{2028}'
    ||| c == '\u{2029}'
    ||| c == '\u{202f}'
    ||| c == '\u{205f}'
    ||| c == '\u{3000}'
}

pub fn ascii_alnum(c: char) -> (r: bool)
    ensures
        r == is_ascii_alnum(c),
{
    ('A' <= c && c <= 'Z') || ('a' <= c && c <= 'z') || ('0' <= c && c <= '9')
}

pub fn ascii_lower(c: char) -> (r: char)
    ensures
        r == to_ascii_lower(c),
{
    if 'A' <= c && c <= 'Z' {
        let b: u8 = c as u8;
        assert(b == c as u32);
        ((b + 32) as u8) as char
    } else {
        c
    }
}

/// `str::to_ascii_lowercase`.
pub fn ascii_lowercase(s: &str) -> (r: String)
    ensures
        r@ == lower_ascii(s@),
{
    let cs = chars_of(s);
    let mut out = String::new();
    let mut i: usize = 0;
    while i < cs.len()
        invariant
            i <= cs@.len(),
            cs@ == s@,
            out@ == lower_ascii(s@.take(i as int)),
        decreases cs.len() - i,
    {
        push_char(&mut out, ascii_lower(cs[i]));
        assert(lower_ascii(s@.take(i + 1)) =~= lower_ascii(s@.take(i as int)).push(to_ascii_lower(s@[i as int])));
        i = i + 1;
    }
    assert(s@.take(cs@.len() as int) =~= s@);
    out
}

pub fn ascii_upper(c: char) -> (r: char)
    ensures
        r == to_ascii_upper(c),
{
    if 'a' <= c && c <= 'z' {
        let b: u8 = c as u8;
        assert(b == c as u32);
        ((b - 32) as u8) as char
    } else {
        c
    }
}

pub fn whitespace(c: char) -> (r: bool)
    ensures
        r == is_ws(c),
{
    ('\t' <= c && c <= '\r') || c == ' ' || c == '\u{85}' || c == '\u{a0}' || c == '\u{1680}'
        || ('\u{2000}' <= c && c <= '\u{200a}') || c == '\u{2028}' || c == '\u{2029}' || c
        == '\u{202f}' || c == '\u{205f}' || c == '\u{3000}'
}

// ---------------------------------------------------------------------------
// Trimming.
// ---------------------------------------------------------------------------

pub open spec fn trim_start(s: Seq<char>) -> Seq<char>
    decreases s.len(),
{
    if s.len() > 0 && is_ws(s[0]) {
        trim_start(s.drop_first())
    } else {
        s
    }
}

pub open spec fn trim_end(s: Seq<char>) -> Seq<char>
    decreases s.len(),
{
    if s.len() > 0 && is_ws(s.last()) {
        trim_end(s.drop_last())
    } else {
        s
    }
}

/// `str::trim`: leading and trailing white space removed.
pub open spec fn trim(s: Seq<char>) -> Seq<char> {
    trim_end(trim_start(s))
}

pub proof fn lemma_trim_start_skip(s: Seq<char>, i: int)
    requires
        0 <= i <= s.len(),
        forall|k: int| 0 <= k < i ==> is_ws(#[trigger] s[k]),
    ensures
        trim_start(s) == trim_start(s.skip(i)),
    decreases i,
{
    if i > 0 {
        lemma_trim_start_skip(s, i - 1);
        assert(s.skip(i - 1).drop_first() =~= s.skip(i));
    } else {
        assert(s.skip(0) =~= s);
    }
}

pub proof fn lemma_trim_end_take(s: Seq<char>, j: int)
    requires
        0 <= j <= s.len(),
        forall|k: int| j <= k < s.len() ==> is_ws(#[trigger] s[k]),
    ensures
        trim_end(s) == trim_end(s.take(j)),
    decreases s.len() - j,
{
    if j < s.len() {
        lemma_trim_end_take(s, j + 1);
        assert(s.take(j + 1).drop_last() =~= s.take(j));
    } else {
        assert(s.take(j) =~= s);
    }
}

/// The trimmed characters of `s`.
pub fn trim_chars(s: &Vec<char>) -> (r: Vec<char>)
    ensures
        r@ == trim(s@),
{
    let n = s.len();
    let mut i: usize = 0;
    while i < n && whitespace(s[i])
        invariant
            i <= n == s@.len(),
            forall|k: int| 0 <= k < i ==> is_ws(#[trigger] s@[k]),
        decreases n - i,
    {
        i = i + 1;
    }
    proof {
        lemma_trim_start_skip(s@, i as int);
    }
    let ghost t = s@.skip(i as int);
    assert(trim_start(s@) == t) by {
        if i < n {
            assert(t[0] == s@[i as int]);
        }
    }
    let mut j: usize = n;
    while j > i && whitespace(s[j - 1])
        invariant
            i <= j <= n == s@.len(),
            t == s@.skip(i as int),
            forall|k: int| (j - i) <= k < t.len() ==> is_ws(#[trigger] t[k]),
        decreases j,
    {
        j = j - 1;
    }
    proof {
        lemma_trim_end_take(t, (j - i) as int);
        if j > i {
            assert(t.take((j - i) as int).last() == s@[j - 1]);
        }
    }
    let mut r: Vec<char> = Vec::new();
    let mut k: usize = i;
    while k < j
        invariant
            i <= k <= j <= n == s@.len(),
            r@ == s@.subrange(i as int, k as int),
        decreases j - k,
    {
        r.push(s[k]);
        k = k + 1;
    }
    assert(r@ =~= t.take((j - i) as int));
    r
}

// ---------------------------------------------------------------------------
// Splitting, joining, replacing.
// ---------------------------------------------------------------------------

/// The fields of `s` between separator characters, empty fields included,
/// as `str::split` with a character predicate yields them.
pub open spec fn split_by(s: Seq<char>, sep: spec_fn(char) -> bool) -> Seq<Seq<char>>
    decreases s.len(),
{
    if s.len() == 0 {
        seq![Seq::<char>::empty()]
    } else {
        let r = split_by(s.drop_last(), sep);
        if sep(s.last()) {
            r.push(Seq::<char>::empty())
        } else {
            r.update(r.len() - 1, r.last().push(s.last()))
        }
    }
}

pub proof fn lemma_split_by_nonempty(s: Seq<char>, sep: spec_fn(char) -> bool)
    ensures
        split_by(s, sep).len() >= 1,
    decreases s.len(),
{
    if s.len() > 0 {
        lemma_split_by_nonempty(s.drop_last(), sep);
    }
}

/// The parts joined with `sep` between consecutive parts.
pub open spec fn join(parts: Seq<Seq<char>>, sep: Seq<char>) -> Seq<char>
    decreases parts.len(),
{
    if parts.len() == 0 {
        Seq::<char>::empty()
    } else if parts.len() == 1 {
        parts[0]
    } else {
        join(parts.drop_last(), sep) + sep + parts.last()
    }
}

/// Every occurrence of `c` in `s` replaced by `rep`.
pub open spec fn replace_char(s: Seq<char>, c: char, rep: Seq<char>) -> Seq<char>
    decreases s.len(),
{
    if s.len() == 0 {
        Seq::<char>::empty()
    } else {
        replace_char(s.drop_last(), c, rep) + if s.last() == c {
            rep
        } else {
            seq![s.last()]
        }
    }
}

pub open spec fn is_newline(c: char) -> bool {
    c == '\n'
}

/// One trailing carriage return removed, if there is one.
pub open spec fn strip_cr(s: Seq<char>) -> Seq<char> {
    if s.len() > 0 && s.last() == '\r' {
        s.drop_last()
    } else {
        s
    }
}

/// `str::lines`: the text split at `\n`; a line ended by `\n` loses one
/// trailing `\r`; a final empty piece (text ending in `\n`, or empty text)
/// is not a line.
pub open spec fn lines(s: Seq<char>) -> Seq<Seq<char>> {
    let f = split_by(s, |c: char| is_newline(c));
    let ended = f.drop_last().map_values(|l: Seq<char>| strip_cr(l));
    if f.last().len() == 0 {
        ended
    } else {
        ended.push(f.last())
    }
}

proof fn lemma_split_by_step(s: Seq<char>, i: int, sep: spec_fn(char) -> bool)
    requires
        0 <= i < s.len(),
    ensures
        split_by(s.take(i + 1), sep) == ({
            let r = split_by(s.take(i), sep);
            if sep(s[i]) {
                r.push(Seq::<char>::empty())
            } else {
                r.update(r.len() - 1, r.last().push(s[i]))
            }
        }),
{
    assert(s.take(i + 1).drop_last() =~= s.take(i));
}

pub open spec fn rows_view(v: Seq<Vec<char>>) -> Seq<Seq<char>> {
    v.map_values(|x: Vec<char>| x@)
}

/// `str::lines`, each line as an owned string.
pub fn split_lines(s: &str) -> (r: Vec<String>)
    ensures
        r.deep_view() == lines(s@),
{
    let v = chars_of(s);
    let ghost nl = |c: char| is_newline(c);
    // `done` holds the finished fields, `cur` the field being read.
    let mut done: Vec<Vec<char>> = Vec::new();
    let mut cur: Vec<char> = Vec::new();
    let mut i: usize = 0;
    while i < v.len()
        invariant
            i <= v@.len(),
            v@ == s@,
            nl == (|c: char| is_newline(c)),
            split_by(v@.take(i as int), nl) == rows_view(done@).push(cur@),
        decreases v.len() - i,
    {
        proof {
            lemma_split_by_step(v@, i as int, nl);
        }
        if v[i] == '\n' {
            let ghost d = rows_view(done@);
            let ghost c = cur@;
            done.push(cur);
            cur = Vec::new();
            proof {
                assert(rows_view(done@) =~= d.push(c));
                assert(split_by(v@.take(i + 1), nl) =~= d.push(c).push(Seq::<char>::empty()));
            }
        } else {
            let ghost d = rows_view(done@);
            let ghost c = cur@;
            cur.push(v[i]);
            proof {
                assert(split_by(v@.take(i + 1), nl) =~= d.push(c.push(v@[i as int])));
            }
        }
        i = i + 1;
    }
    assert(v@.take(v@.len() as int) =~= v@);
    let ghost f = split_by(s@, nl);
    assert(f.drop_last() =~= rows_view(done@));
    assert(f.last() == cur@);
    let ghost ended = f.drop_last().map_values(|l: Seq<char>| strip_cr(l));
    let mut r: Vec<String> = Vec::new();
    let mut k: usize = 0;
    while k < done.len()
        invariant
            k <= done@.len(),
            f.drop_last() == rows_view(done@),
            ended == f.drop_last().map_values(|l: Seq<char>| strip_cr(l)),
            r.deep_view() == ended.take(k as int),
        decreases done.len() - k,
    {
        let line = &done[k];
        let n = line.len();
        let ghost lv = line@;
        assert(lv == rows_view(done@)[k as int]);
        let keep = if n > 0 && line[n - 1] == '\r' {
            n - 1
        } else {
            n
        };
        let mut piece: Vec<char> = Vec::new();
        let mut j: usize = 0;
        while j < keep
            invariant
                j <= keep <= n == lv.len(),
                lv == line@,
                piece@ == lv.take(j as int),
            decreases keep - j,
        {
            piece.push(line[j]);
            assert(lv.take(j + 1) =~= lv.take(j as int).push(lv[j as int]));
            j = j + 1;
        }
        assert(piece@ =~= strip_cr(lv));
        let ghost before = r.deep_view();
        let text = string_from(&piece);
        let ghost tv = text@;
        r.push(text);
        assert(r.deep_view() =~= before.push(tv));
        assert(ended[k as int] == strip_cr(lv));
        assert(r.deep_view() =~= ended.take(k + 1));
        k = k + 1;
    }
    assert(ended.take(ended.len() as int) =~= ended);
    if cur.len() > 0 {
        let ghost before = r.deep_view();
        let text = string_from(&cur);
        let ghost tv = text@;
        r.push(text);
        assert(r.deep_view() =~= before.push(tv));
        assert(r.deep_view() =~= ended.push(f.last()));
    }
    r
}

/// `s` with `c` replaced by `rep` everywhere.
pub fn replace_all(s: &str, c: char, rep: &str) -> (r: String)
    ensures
        r@ == replace_char(s@, c, rep@),
{
    let v = chars_of(s);
    let mut out = String::new();
    let mut i: usize = 0;
    while i < v.len()
        invariant
            i <= v@.len(),
            v@ == s@,
            out@ == replace_char(v@.take(i as int), c, rep@),
        decreases v.len() - i,
    {
        assert(v@.take(i + 1).drop_last() =~= v@.take(i as int));
        if v[i] == c {
            push_str(&mut out, rep);
        } else {
            push_char(&mut out, v[i]);
            assert(seq![v@[i as int]] + Seq::empty() =~= seq![v@[i as int]]);
        }
        proof {
            let t = v@.take(i + 1);
            assert(t.last() == v@[i as int]);
            assert(out@ =~= replace_char(t, c, rep@));
        }
        i = i + 1;
    }
    assert(v@.take(v@.len() as int) =~= v@);
    out
}

/// The strings joined with `sep` between consecutive ones.
pub fn join_strings(parts: &Vec<String>, sep: &str) -> (r: String)
    ensures
        r@ == join(parts.deep_view(), sep@),
{
    let ghost ps = parts.deep_view();
    let mut out = String::new();
    let mut i: usize = 0;
    while i < parts.len()
        invariant
            i <= parts@.len(),
            ps == parts.deep_view(),
            out@ == join(ps.take(i as int), sep@),
        decreases parts.len() - i,
    {
        assert(ps.take(i + 1).drop_last() =~= ps.take(i as int));
        assert(ps[i as int] == parts@[i as int]@);
        if i > 0 {
            push_str(&mut out, sep);
        } else {
            assert(out@ =~= Seq::<char>::empty());
        }
        push_str(&mut out, parts[i].as_str());
        proof {
            if i == 0 {
                assert(out@ =~= join(ps.take(1), sep@));
            } else {
                assert(out@ =~= join(ps.take(i + 1), sep@));
            }
        }
        i = i + 1;
    }
    assert(ps.take(ps.len() as int) =~= ps);
    out
}

/// Whether the text is empty once trimmed.
pub fn is_blank(s: &str) -> (r: bool)
    ensures
        r == (trim(s@).len() == 0),
{
    let v = chars_of(s);
    let t = trim_chars(&v);
    t.len() == 0
}

/// A string holding exactly the given characters.
pub fn string_from(v: &Vec<char>) -> (r: String)
    ensures
        r@ == v@,
{
    let mut out = String::new();
    let mut i: usize = 0;
    while i < v.len()
        invariant
            i <= v@.len(),
            out@ == v@.take(i as int),
        decreases v.len() - i,
    {
        push_char(&mut out, v[i]);
        assert(v@.take(i + 1) =~= v@.take(i as int).push(v@[i as int]));
        i = i + 1;
    }
    assert(v@.take(v@.len() as int) =~= v@);
    out
}

/// `str::trim`, as an owned string.
pub fn trim_string(s: &str) -> (r: String)
    ensures
        r@ == trim(s@),
{
    let v = chars_of(s);
    let t = trim_chars(&v);
    string_from(&t)
}

/// `s` with every trailing `c` removed (`str::trim_end_matches` with one
/// character).
pub open spec fn trim_end_char(s: Seq<char>, c: char) -> Seq<char>
    decreases s.len(),
{
    if s.len() > 0 && s.last() == c {
        trim_end_char(s.drop_last(), c)
    } else {
        s
    }
}

pub fn trim_end_matches_char(s: &Vec<char>, c: char) -> (r: Vec<char>)
    ensures
        r@ == trim_end_char(s@, c),
{
    let mut j: usize = s.len();
    assert(s@.take(s@.len() as int) =~= s@);
    while j > 0 && s[j - 1] == c
        invariant
            j <= s@.len(),
            trim_end_char(s@, c) == trim_end_char(s@.take(j as int), c),
        decreases j,
    {
        assert(s@.take(j as int).drop_last() =~= s@.take(j - 1));
        j = j - 1;
    }
    let mut r: Vec<char> = Vec::new();
    let mut k: usize = 0;
    while k < j
        invariant
            k <= j <= s@.len(),
            r@ == s@.take(k as int),
        decreases j - k,
    {
        r.push(s[k]);
        assert(s@.take(k + 1) =~= s@.take(k as int).push(s@[k as int]));
        k = k + 1;
    }
    r
}

// ---------------------------------------------------------------------------
// Numbers.
// ---------------------------------------------------------------------------

pub open spec fn digit_char(d: nat) -> char {
    (('0' as u32) + d) as char
}

/// The decimal rendering of `n`, without leading zeros.
pub open spec fn decimal(n: nat) -> Seq<char>
    decreases n,
{
    if n < 10 {
        seq![digit_char(n)]
    } else {
        decimal(n / 10).push(digit_char(n % 10))
    }
}

pub open spec fn hex_digit_char(d: nat) -> char {
    if d < 10 {
        (('0' as u32) + d) as char
    } else {
        (('a' as u32) + (d - 10)) as char
    }
}

/// `{:08x}`: eight lower-case hex digits, most significant first.
pub open spec fn hex8(x: u32) -> Seq<char> {
    Seq::new(8, |i: int| hex_digit_char(((x as nat) / pow16((7 - i) as nat)) % 16))
}

pub open spec fn pow16(e: nat) -> nat
    decreases e,
{
    if e == 0 {
        1
    } else {
        16 * pow16((e - 1) as nat)
    }
}

pub fn digit(d: usize) -> (c: char)
    requires
        d < 10,
    ensures
        c == digit_char(d as nat),
{
    let b: u8 = (48 + d) as u8;
    b as char
}

pub fn hex_digit(d: u32) -> (c: char)
    requires
        d < 16,
    ensures
        c == hex_digit_char(d as nat),
{
    if d < 10 {
        let b: u8 = (48 + d) as u8;
        b as char
    } else {
        let b: u8 = (97 + (d - 10)) as u8;
        b as char
    }
}

/// Appends the decimal rendering of `n`.
pub fn push_decimal(out: &mut String, n: usize)
    ensures
        final(out)@ == old(out)@ + decimal(n as nat),
    decreases n,
{
    if n >= 10 {
        push_decimal(out, n / 10);
    }
    push_char(out, digit(n % 10));
    proof {
        if n >= 10 {
            assert(final(out)@ =~= old(out)@ + decimal(n as nat));
        } else {
            assert(final(out)@ =~= old(out)@ + decimal(n as nat));
        }
    }
}

/// `usize::to_string`.
pub fn decimal_string(n: usize) -> (r: String)
    ensures
        r@ == decimal(n as nat),
{
    let mut s = String::new();
    push_decimal(&mut s, n);
    assert(s@ =~= decimal(n as nat));
    s
}

/// Appends `{:08x}` of `x`.
pub fn push_hex8(out: &mut String, x: u32)
    ensures
        final(out)@ == old(out)@ + hex8(x),
{
    let ghost start = out@;
    let mut i: u32 = 0;
    let mut div: u32 = 0x1000_0000;
    proof {
        reveal_with_fuel(pow16, 8);
    }
    while i < 8
        invariant
            i <= 8,
            i < 8 ==> div as nat == pow16((7 - i) as nat),
            div > 0,
            out@ == start + hex8(x).take(i as int),
        decreases 8 - i,
    {
        let d = (x / div) % 16;
        push_char(out, hex_digit(d));
        proof {
            assert(out@ =~= start + hex8(x).take(i + 1));
        }
        if i < 7 {
            proof {
                assert(pow16((7 - i) as nat) == 16 * pow16((7 - (i + 1)) as nat));
            }
            div = div / 16;
        }
        i = i + 1;
    }
    assert(hex8(x).take(8) =~= hex8(x));
}

} // verus!
