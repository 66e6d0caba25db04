//! Slugs and titles derived from free text.

use vstd::prelude::*;

use crate::text::{
    ascii_alnum, ascii_lower, ascii_upper, chars_of, is_ascii_alnum, is_ascii_digit, is_ascii_lower,
    join, lemma_split_by_nonempty, push_char, push_str, split_by, string_from, to_ascii_lower,
    to_ascii_upper, trim, trim_chars,
};

verus! {

/// Scanning state of the slug builder: the slug so far, and whether a
/// separator has been seen since the last alphanumeric character.
pub open spec fn slug_scan(s: Seq<char>) -> (Seq<char>, bool)
    decreases s.len(),
{
    if s.len() == 0 {
        (Seq::<char>::empty(), false)
    } else {
        let prev = slug_scan(s.drop_last());
        let slug = prev.0;
        let pending = prev.1;
        let ch = s.last();
        if is_ascii_alnum(ch) {
            let base = if pending && slug.len() > 0 {
                slug.push('-')
            } else {
                slug
            };
            (base.push(to_ascii_lower(ch)), false)
        } else if slug.len() > 0 {
            (slug, true)
        } else {
            (slug, pending)
        }
    }
}

pub open spec fn packet_chars() -> Seq<char> {
    seq!['p', 'a', 'c', 'k', 'e', 't']
}

/// The slug of `s`: its ASCII alphanumeric runs, lower-cased and joined by
/// single dashes; `packet` when there are none.
pub open spec fn spec_slugify(s: Seq<char>) -> Seq<char> {
    let slug = slug_scan(s).0;
    if slug.len() == 0 {
        packet_chars()
    } else {
        slug
    }
}

/// A well-formed slug: lower-case ASCII letters, digits and single dashes,
/// neither starting nor ending with a dash.
pub open spec fn is_slug(s: Seq<char>) -> bool {
    &&& s.len() > 0
    &&& forall|i: int|
        0 <= i < s.len() ==> is_ascii_lower(#[trigger] s[i]) || is_ascii_digit(s[i]) || s[i]
            == '-'
    &&& s[0] != '-'
    &&& s.last() != '-'
    &&& forall|i: int| 0 <= i < s.len() - 1 ==> !(#[trigger] s[i] == '-' && s[i + 1] == '-')
}

proof fn lemma_slug_scan_shape(s: Seq<char>)
    ensures
        slug_scan(s).0.len() == 0 || is_slug(slug_scan(s).0),
    decreases s.len(),
{
    if s.len() > 0 {
        lemma_slug_scan_shape(s.drop_last());
    }
}

/// `slugify`: see `spec_slugify`. The result is always a well-formed slug.
pub fn slugify(input: &str) -> (r: String)
    ensures
        r@ == spec_slugify(input@),
        is_slug(r@),
{
    let v = chars_of(input);
    let mut slug = String::new();
    let mut slug_len: usize = 0;
    let mut pending_dash = false;
    let mut i: usize = 0;
    while i < v.len()
        invariant
            i <= v@.len(),
            v@ == input@,
            slug_scan(v@.take(i as int)) == (slug@, pending_dash),
            slug_len == slug@.len(),
            slug_len + (if pending_dash { 1usize } else { 0usize }) <= i,
        decreases v.len() - i,
    {
        let ch = v[i];
        assert(v@.take(i + 1).drop_last() =~= v@.take(i as int));
        if ascii_alnum(ch) {
            if pending_dash && slug_len > 0 {
                push_char(&mut slug, '-');
                slug_len = slug_len + 1;
            }
            push_char(&mut slug, ascii_lower(ch));
            slug_len = slug_len + 1;
            pending_dash = false;
        } else if slug_len > 0 {
            pending_dash = true;
        }
        i = i + 1;
    }
    assert(v@.take(v@.len() as int) =~= v@);
    proof {
        lemma_slug_scan_shape(input@);
    }
    if slug_len == 0 {
        let r = "packet".to_string();
        proof {
            reveal_strlit("packet");
            assert(r@ =~= packet_chars());
            assert(is_slug(packet_chars()));
        }
        r
    } else {
        slug
    }
}

pub open spec fn is_title_sep(c: char) -> bool {
    c == '-' || c == '_'
}

/// The first character upper-cased (ASCII only), the rest unchanged.
pub open spec fn capitalize(w: Seq<char>) -> Seq<char> {
    if w.len() == 0 {
        w
    } else {
        w.update(0, to_ascii_upper(w[0]))
    }
}

/// The non-empty fields among `fields`, each capitalized.
pub open spec fn title_parts(fields: Seq<Seq<char>>) -> Seq<Seq<char>> {
    fields.filter(|w: Seq<char>| w.len() > 0).map_values(|w: Seq<char>| capitalize(w))
}

pub open spec fn untitled_chars() -> Seq<char> {
    seq!['U', 'n', 't', 'i', 't', 'l', 'e', 'd', ' ', 'P', 'a', 'c', 'k', 'e', 't']
}

/// The title of `s`: the trimmed text split at `-` and `_`, empty pieces
/// dropped, each piece capitalized, joined by spaces; `Untitled Packet` for
/// blank text.
pub open spec fn spec_human_title(s: Seq<char>) -> Seq<char> {
    let t = trim(s);
    if t.len() == 0 {
        untitled_chars()
    } else {
        join(title_parts(split_by(t, |c: char| is_title_sep(c))), seq![' '])
    }
}

proof fn lemma_title_parts_push(fs: Seq<Seq<char>>, w: Seq<char>)
    ensures
        title_parts(fs.push(w)) == if w.len() > 0 {
            title_parts(fs).push(capitalize(w))
        } else {
            title_parts(fs)
        },
{
    let p = |w: Seq<char>| w.len() > 0;
    fs.lemma_filter_push(w, p);
    if w.len() > 0 {
        assert(fs.push(w).filter(p) == fs.filter(p).push(w));
        assert(title_parts(fs.push(w)) =~= title_parts(fs).push(capitalize(w)));
    } else {
        assert(fs.push(w).filter(p) == fs.filter(p));
    }
}

pub fn human_title(input: &str) -> (r: String)
    ensures
        r@ == spec_human_title(input@),
{
    let raw = chars_of(input);
    let t = trim_chars(&raw);
    if t.len() == 0 {
        let r = "Untitled Packet".to_string();
        proof {
            reveal_strlit("Untitled Packet");
            assert(r@ =~= untitled_chars());
        }
        return r;
    }
    let ghost sep = |c: char| is_title_sep(c);
    let mut out = String::new();
    let mut has_part = false;
    let mut cur: Vec<char> = Vec::new();
    let mut i: usize = 0;
    while i < t.len()
        invariant
            i <= t@.len(),
            sep == (|c: char| is_title_sep(c)),
            split_by(t@.take(i as int), sep).len() >= 1,
            cur@ == split_by(t@.take(i as int), sep).last(),
            out@ == join(title_parts(split_by(t@.take(i as int), sep).drop_last()), seq![' ']),
            has_part == (title_parts(split_by(t@.take(i as int), sep).drop_last()).len() > 0),
        decreases t.len() - i,
    {
        let ch = t[i];
        let ghost f = split_by(t@.take(i as int), sep);
        assert(t@.take(i + 1).drop_last() =~= t@.take(i as int));
        assert(t@.take(i + 1).last() == ch);
        if ch == '-' || ch == '_' {
            proof {
                assert(f =~= f.drop_last().push(cur@));
                lemma_title_parts_push(f.drop_last(), cur@);
                assert(split_by(t@.take(i + 1), sep).drop_last() =~= f);
            }
            if cur.len() > 0 {
                if has_part {
                    push_char(&mut out, ' ');
                }
                let mut word = cur;
                let first = word[0];
                word.set(0, ascii_upper(first));
                let ws = string_from(&word);
                push_str(&mut out, ws.as_str());
                has_part = true;
                proof {
                    let tp = title_parts(f.drop_last());
                    assert(word@ == capitalize(cur@));
                    assert(title_parts(f) == tp.push(capitalize(cur@)));
                    assert(tp.push(capitalize(cur@)).drop_last() =~= tp);
                    if tp.len() == 0 {
                        assert(out@ =~= join(title_parts(f), seq![' ']));
                    } else {
                        assert(out@ =~= join(title_parts(f), seq![' ']));
                    }
                }
            }
            cur = Vec::new();
            proof {
                lemma_split_by_nonempty(t@.take(i + 1), sep);
                assert(cur@ =~= split_by(t@.take(i + 1), sep).last());
            }
        } else {
            cur.push(ch);
            proof {
                let g = split_by(t@.take(i + 1), sep);
                assert(g == f.update(f.len() - 1, f.last().push(ch)));
                assert(g.drop_last() =~= f.drop_last());
            }
        }
        i = i + 1;
    }
    assert(t@.take(t@.len() as int) =~= t@);
    let ghost f = split_by(t@, sep);
    proof {
        assert(f =~= f.drop_last().push(cur@));
        lemma_title_parts_push(f.drop_last(), cur@);
    }
    if cur.len() > 0 {
        if has_part {
            push_char(&mut out, ' ');
        }
        let mut word = cur;
        let first = word[0];
        word.set(0, ascii_upper(first));
        let ws = string_from(&word);
        push_str(&mut out, ws.as_str());
        proof {
            let tp = title_parts(f.drop_last());
            assert(title_parts(f) == tp.push(capitalize(cur@)));
            assert(tp.push(capitalize(cur@)).drop_last() =~= tp);
            assert(out@ =~= join(title_parts(f), seq![' ']));
        }
    }
    out
}


// ---------------------------------------------------------------------------
// Laws.
// ---------------------------------------------------------------------------

/// A prefix of a slug: slug characters, no leading dash, no double dash (it
/// may end with a dash).
pub open spec fn slug_prefix(p: Seq<char>) -> bool {
    &&& forall|i: int| 0 <= i < p.len() ==> is_ascii_lower(#[trigger] p[i]) || is_ascii_digit(p[i]) || p[i] == '-'
    &&& (p.len() > 0 ==> p[0] != '-')
    &&& forall|i: int| 0 <= i < p.len() - 1 ==> !(#[trigger] p[i] == '-' && p[i + 1] == '-')
}

/// Scanning a slug prefix gives it back without a trailing dash, pending a
/// dash when it had one.
proof fn lemma_scan_slug_prefix(p: Seq<char>)
    requires
        slug_prefix(p),
    ensures
        p.len() > 0 && p.last() == '-' ==> slug_scan(p) == (p.drop_last(), true),
        !(p.len() > 0 && p.last() == '-') ==> slug_scan(p) == (p, false),
    decreases p.len(),
{
    if p.len() > 0 {
        let q = p.drop_last();
        assert forall|i: int| 0 <= i < q.len() implies is_ascii_lower(#[trigger] q[i]) || is_ascii_digit(q[i]) || q[i] == '-' by {
            assert(q[i] == p[i]);
        }
        assert forall|i: int| 0 <= i < q.len() - 1 implies !(#[trigger] q[i] == '-' && q[i + 1] == '-') by {
            assert(q[i] == p[i] && q[i + 1] == p[i + 1]);
        }
        lemma_scan_slug_prefix(q);
        let c = p.last();
        if c == '-' {
            if q.len() > 0 {
                assert(q.last() == p[p.len() - 2]);
            }
        } else {
            if q.len() > 0 && q.last() == '-' {
                assert(q.last() == p[p.len() - 2]);
                assert(q.drop_last().len() > 0) by {
                    if q.len() == 1 {
                        assert(p[0] == '-');
                    }
                }
                assert(q.drop_last().push('-') =~= q);
            }
            assert(q.push(c) =~= p);
        }
    }
}

/// Slugs are fixed points: slugifying a slug gives it back, so slugifying
/// twice is slugifying once.
pub proof fn lemma_slugify_idempotent(s: Seq<char>)
    ensures
        is_slug(spec_slugify(s)),
        spec_slugify(spec_slugify(s)) == spec_slugify(s),
{
    lemma_slug_scan_shape(s);
    let t = spec_slugify(s);
    assert(is_slug(t));
    assert(slug_prefix(t));
    lemma_scan_slug_prefix(t);
}

/// The text without its dashes.
pub open spec fn without_dashes(t: Seq<char>) -> Seq<char>
    decreases t.len(),
{
    if t.len() == 0 {
        Seq::empty()
    } else {
        without_dashes(t.drop_last()) + if t.last() == '-' {
            Seq::<char>::empty()
        } else {
            seq![t.last()]
        }
    }
}

/// The ASCII letters and digits of the text, in order, lower-cased.
pub open spec fn lowered_alnums(s: Seq<char>) -> Seq<char>
    decreases s.len(),
{
    if s.len() == 0 {
        Seq::empty()
    } else {
        lowered_alnums(s.drop_last()) + if is_ascii_alnum(s.last()) {
            seq![to_ascii_lower(s.last())]
        } else {
            Seq::<char>::empty()
        }
    }
}

proof fn lemma_without_dashes_push(t: Seq<char>, c: char)
    ensures
        without_dashes(t.push(c)) == without_dashes(t) + if c == '-' {
            Seq::<char>::empty()
        } else {
            seq![c]
        },
{
    assert(t.push(c).drop_last() =~= t);
}

proof fn lemma_scan_keeps_alnums(s: Seq<char>)
    ensures
        without_dashes(slug_scan(s).0) == lowered_alnums(s),
        slug_scan(s).0.len() == 0 <==> lowered_alnums(s).len() == 0,
    decreases s.len(),
{
    if s.len() > 0 {
        lemma_scan_keeps_alnums(s.drop_last());
        let prev = slug_scan(s.drop_last());
        let ch = s.last();
        if is_ascii_alnum(ch) {
            let l = to_ascii_lower(ch);
            assert(l != '-');
            if prev.1 && prev.0.len() > 0 {
                lemma_without_dashes_push(prev.0, '-');
                lemma_without_dashes_push(prev.0.push('-'), l);
                assert(without_dashes(prev.0.push('-')) =~= without_dashes(prev.0));
            } else {
                lemma_without_dashes_push(prev.0, l);
            }
            assert(without_dashes(slug_scan(s).0) =~= lowered_alnums(s));
        } else {
            assert(lowered_alnums(s) =~= lowered_alnums(s.drop_last()));
        }
    }
}

/// A slug keeps exactly the text's letters and digits: with its dashes taken
/// out it is the input's ASCII alphanumerics, in order and lower-cased; when
/// the input has none, the slug is `packet`.
pub proof fn lemma_slug_keeps_alphanumerics(s: Seq<char>)
    ensures
        lowered_alnums(s).len() == 0 ==> spec_slugify(s) == packet_chars(),
        lowered_alnums(s).len() > 0 ==> without_dashes(spec_slugify(s)) == lowered_alnums(s),
{
    lemma_scan_keeps_alnums(s);
}

} // verus!
