//! Syntax highlighting: which of two-face's embedded syntaxes a file gets
//! (by extension, name, fallback table or first line), and each line's styled
//! runs under it.

use syntect::easy::HighlightLines;
use syntect::highlighting::FontStyle;
use syntect::parsing::{SyntaxReference, SyntaxSet};
use two_face::theme::{EmbeddedLazyThemeSet, EmbeddedThemeName};
use vstd::prelude::*;

use crate::paths::{extension, file_name, path_extension, path_file_name};
use crate::text::{ascii_lowercase, lower_ascii, str_eq};
use crate::theme::{Color, SyntaxTheme};

verus! {

/// How one run of text is drawn: an optional foreground colour and font flags.
#[derive(Debug, Clone, Copy, PartialEq, Eq, Structural)]
pub struct SegmentStyle {
    pub fg: Option<Color>,
    pub bold: bool,
    pub italic: bool,
    pub underline: bool,
}

/// A line of text split into runs, each with its style.
pub type StyledSegments = Vec<(SegmentStyle, String)>;

pub open spec fn plain_style() -> SegmentStyle {
    SegmentStyle { fg: None, bold: false, italic: false, underline: false }
}

impl Default for SegmentStyle {
    fn default() -> (r: Self)
        ensures
            r == plain_style(),
    {
        SegmentStyle { fg: None, bold: false, italic: false, underline: false }
    }
}

pub open spec fn segments_view(segments: StyledSegments) -> Seq<(SegmentStyle, Seq<char>)> {
    segments@.map_values(|s: (SegmentStyle, String)| (s.0, s.1@))
}

/// The whole line as one unstyled run.
pub fn default_segments(line: &str) -> (r: StyledSegments)
    ensures
        r@.len() == 1,
        r@[0].0 == plain_style(),
        r@[0].1@ == line@,
        segments_view(r) == seq![(plain_style(), line@)],
{
    let mut r: StyledSegments = Vec::new();
    r.push((SegmentStyle { fg: None, bold: false, italic: false, underline: false }, line.to_string()));
    assert(segments_view(r) =~= seq![(plain_style(), line@)]);
    r
}

/// A copy of the runs.
pub fn copy_segments(segments: &StyledSegments) -> (r: StyledSegments)
    ensures
        segments_view(r) == segments_view(*segments),
{
    let mut out: StyledSegments = Vec::new();
    let mut i: usize = 0;
    while i < segments.len()
        invariant
            i <= segments@.len(),
            segments_view(out) == segments_view(*segments).take(i as int),
        decreases segments.len() - i,
    {
        let ghost before = out@;
        let seg = &segments[i];
        let text = seg.1.clone();
        out.push((seg.0, text));
        assert(out@ == before.push((seg.0, text)));
        assert(segments_view(out) =~= segments_view(*segments).take(i as int).push((seg.0, seg.1@)));
        assert(segments_view(*segments).take(i + 1) =~= segments_view(*segments).take(i as int).push(
            segments_view(*segments)[i as int],
        ));
        i = i + 1;
    }
    assert(segments_view(*segments).take(i as int) =~= segments_view(*segments));
    out
}

/// The fallback paired with the first entry of `table` whose key is `value`.
pub open spec fn spec_lookup(value: Seq<char>, table: Seq<(&str, &str)>) -> Option<Seq<char>>
    decreases table.len(),
{
    if table.len() == 0 {
        None
    } else if table[0].0@ == value {
        Some(table[0].1@)
    } else {
        spec_lookup(value, table.drop_first())
    }
}

pub fn lookup_fallback(value: &str, table: &[(&str, &'static str)]) -> (r: Option<&'static str>)
    ensures
        r.deep_view() == spec_lookup(value@, table@),
{
    let mut i: usize = 0;
    assert(table@.skip(0) =~= table@);
    while i < table.len()
        invariant
            i <= table@.len(),
            spec_lookup(value@, table@) == spec_lookup(value@, table@.skip(i as int)),
        decreases table.len() - i,
    {
        let (candidate, fallback) = table[i];
        assert(table@.skip(i as int).drop_first() =~= table@.skip(i + 1));
        if str_eq(candidate, value) {
            return Some(fallback);
        }
        i = i + 1;
    }
    None
}

pub open spec fn extension_table() -> Seq<(&'static str, &'static str)> {
    seq![
        ("jsx", "js"),
        ("mjs", "js"),
        ("cjs", "js"),
        ("hbs", "html"),
        ("handlebars", "html"),
        ("mustache", "html"),
        ("ejs", "html"),
        ("pug", "html"),
        ("jade", "html"),
        ("njk", "html"),
        ("mdx", "md"),
        ("jsonc", "json"),
        ("json5", "json"),
        ("prisma", "json"),
        ("heex", "rb"),
    ]
}

pub open spec fn filename_table() -> Seq<(&'static str, &'static str)> {
    seq![("Containerfile", "sh"), ("Justfile", "sh"), ("justfile", "sh")]
}

/// Extensions that borrow another language's highlighter.
pub fn extension_fallbacks() -> (r: Vec<(&'static str, &'static str)>)
    ensures
        r@ == extension_table(),
{
    vec![
        ("jsx", "js"),
        ("mjs", "js"),
        ("cjs", "js"),
        ("hbs", "html"),
        ("handlebars", "html"),
        ("mustache", "html"),
        ("ejs", "html"),
        ("pug", "html"),
        ("jade", "html"),
        ("njk", "html"),
        ("mdx", "md"),
        ("jsonc", "json"),
        ("json5", "json"),
        ("prisma", "json"),
        ("heex", "rb"),
    ]
}

/// File names that borrow another language's highlighter.
pub fn filename_fallbacks() -> (r: Vec<(&'static str, &'static str)>)
    ensures
        r@ == filename_table(),
{
    vec![("Containerfile", "sh"), ("Justfile", "sh"), ("justfile", "sh")]
}

// ---------------------------------------------------------------------------
// Finding a syntax.
// ---------------------------------------------------------------------------

#[verifier::external_type_specification]
#[verifier::external_body]
pub struct ExSyntaxSet(SyntaxSet);

#[verifier::external_type_specification]
#[verifier::external_body]
pub struct ExSyntaxReference(SyntaxReference);

#[verifier::external_type_specification]
#[verifier::external_body]
pub struct ExEmbeddedLazyThemeSet(EmbeddedLazyThemeSet);

#[verifier::external_type_specification]
#[verifier::external_body]
pub struct ExHighlightLines<'a>(HighlightLines<'a>);

/// Whether two-face's embedded syntax set (the only set a `Highlighter`
/// holds) has a syntax for this file extension, ignoring ASCII case.
pub uninterp spec fn extension_known(ext: Seq<char>) -> bool;

/// Whether the embedded syntax set has a syntax for this token: by extension,
/// else by name ignoring ASCII case.
pub uninterp spec fn token_known(token: Seq<char>) -> bool;

/// Whether the embedded syntax set has a syntax with exactly this name.
pub uninterp spec fn name_known(name: Seq<char>) -> bool;

/// Whether one of the embedded syntaxes' first-line patterns matches this line.
pub uninterp spec fn first_line_known(line: Seq<char>) -> bool;

/// `two_face::syntax::extra_newlines`: the embedded syntax set.
#[verifier::external_body]
fn load_syntaxes() -> SyntaxSet {
    two_face::syntax::extra_newlines()
}

/// `two_face::theme::extra`: the embedded theme set.
#[verifier::external_body]
fn load_themes() -> EmbeddedLazyThemeSet {
    two_face::theme::extra()
}

/// `SyntaxSet::find_syntax_by_extension`; whether it finds one is
/// `extension_known`. Which syntax it finds is left unsaid.
#[verifier::external_body]
fn find_by_extension<'a>(set: &'a SyntaxSet, ext: &str) -> (r: Option<&'a SyntaxReference>)
    ensures
        r is Some <==> extension_known(ext@),
{
    set.find_syntax_by_extension(ext)
}

/// `SyntaxSet::find_syntax_by_token`; whether it finds one is `token_known`.
#[verifier::external_body]
fn find_by_token<'a>(set: &'a SyntaxSet, token: &str) -> (r: Option<&'a SyntaxReference>)
    ensures
        r is Some <==> token_known(token@),
{
    set.find_syntax_by_token(token)
}

/// `SyntaxSet::find_syntax_by_name`; whether it finds one is `name_known`.
#[verifier::external_body]
fn find_by_name<'a>(set: &'a SyntaxSet, name: &str) -> (r: Option<&'a SyntaxReference>)
    ensures
        r is Some <==> name_known(name@),
{
    set.find_syntax_by_name(name)
}

/// `SyntaxSet::find_syntax_by_first_line`; whether it finds one is
/// `first_line_known`.
#[verifier::external_body]
fn find_by_first_line<'a>(set: &'a SyntaxSet, line: &str) -> (r: Option<&'a SyntaxReference>)
    ensures
        r is Some <==> first_line_known(line@),
{
    set.find_syntax_by_first_line(line)
}

/// How a file's syntax was found.
#[derive(Debug, Clone, Copy, PartialEq, Eq, Structural)]
pub enum SyntaxSource {
    /// By a file extension (the file's own, its lower-case form, or a fallback).
    Extension,
    /// By the file name as a token.
    Token,
    /// By the file name as a syntax name.
    Name,
    /// By the file's first line.
    FirstLine,
}

/// The extension to look a syntax up by: the extension itself, else its
/// lower-case form, else the fallback the table pairs with that form.
pub open spec fn extension_key(ext: Seq<char>) -> Option<Seq<char>> {
    let lower = lower_ascii(ext);
    if extension_known(ext) {
        Some(ext)
    } else if lower != ext && extension_known(lower) {
        Some(lower)
    } else {
        match spec_lookup(lower, extension_table()) {
            Some(f) => if extension_known(f) {
                Some(f)
            } else {
                None
            },
            None => None,
        }
    }
}

/// How the syntax is found from a file name: as a token, as a syntax name,
/// else by the extension the file-name table pairs with it.
pub open spec fn name_key(name: Seq<char>) -> Option<(SyntaxSource, Seq<char>)> {
    if token_known(name) {
        Some((SyntaxSource::Token, name))
    } else if name_known(name) {
        Some((SyntaxSource::Name, name))
    } else {
        match spec_lookup(name, filename_table()) {
            Some(f) => if extension_known(f) {
                Some((SyntaxSource::Extension, f))
            } else {
                None
            },
            None => None,
        }
    }
}

/// How a file's syntax is found: from its extension, else its name, else its
/// first line.
pub open spec fn syntax_key(path: Seq<char>, first_line: Option<Seq<char>>) -> Option<(SyntaxSource, Seq<char>)> {
    let by_extension = match path_extension(path) {
        Some(ext) => extension_key(ext),
        None => None,
    };
    let by_name = match path_file_name(path) {
        Some(name) => name_key(name),
        None => None,
    };
    if by_extension is Some {
        Some((SyntaxSource::Extension, by_extension->0))
    } else if by_name is Some {
        by_name
    } else {
        match first_line {
            Some(l) => if first_line_known(l) {
                Some((SyntaxSource::FirstLine, l))
            } else {
                None
            },
            None => None,
        }
    }
}

pub open spec fn text_of(line: Option<&str>) -> Option<Seq<char>> {
    match line {
        Some(l) => Some(l@),
        None => None,
    }
}


/// A syntax found for a file, with how it was found and the key it was found by.
/// Only this module makes one, from the lookup its source and key name.
pub struct FoundSyntax<'a> {
    source: SyntaxSource,
    key: String,
    syntax: &'a SyntaxReference,
}

impl<'a> FoundSyntax<'a> {
    /// How the syntax was found.
    pub closed spec fn how(self) -> SyntaxSource {
        self.source
    }

    /// The extension, name or line it was found by.
    pub closed spec fn key_text(self) -> Seq<char> {
        self.key@
    }

    pub fn source(&self) -> (r: SyntaxSource)
        ensures
            r == self.how(),
    {
        self.source
    }

    pub fn key(&self) -> (r: &str)
        ensures
            r@ == self.key_text(),
    {
        self.key.as_str()
    }
}

/// The syntaxes and colour themes highlighting draws on: two-face's embedded
/// sets.
pub struct Highlighter {
    syntaxes: SyntaxSet,
    themes: EmbeddedLazyThemeSet,
}

impl Highlighter {
    /// Loads the embedded syntax and theme sets.
    pub fn new() -> Highlighter {
        Highlighter { syntaxes: load_syntaxes(), themes: load_themes() }
    }

    fn by_extension(&self, ext: &str) -> (r: Option<FoundSyntax<'_>>)
        ensures
            match extension_key(ext@) {
                Some(key) => r matches Some(f) && f.how() == SyntaxSource::Extension && f.key_text() == key,
                None => r is None,
            },
    {
        if let Some(syntax) = find_by_extension(&self.syntaxes, ext) {
            return Some(FoundSyntax { source: SyntaxSource::Extension, key: ext.to_string(), syntax });
        }
        let lower = ascii_lowercase(ext);
        if !str_eq(lower.as_str(), ext) {
            if let Some(syntax) = find_by_extension(&self.syntaxes, lower.as_str()) {
                return Some(FoundSyntax { source: SyntaxSource::Extension, key: lower, syntax });
            }
        }
        let table = extension_fallbacks();
        match lookup_fallback(lower.as_str(), table.as_slice()) {
            Some(fallback) => match find_by_extension(&self.syntaxes, fallback) {
                Some(syntax) => Some(FoundSyntax { source: SyntaxSource::Extension, key: fallback.to_string(), syntax }),
                None => None,
            },
            None => None,
        }
    }

    fn by_name(&self, name: &str) -> (r: Option<FoundSyntax<'_>>)
        ensures
            match name_key(name@) {
                Some(k) => r matches Some(f) && f.how() == k.0 && f.key_text() == k.1,
                None => r is None,
            },
    {
        if let Some(syntax) = find_by_token(&self.syntaxes, name) {
            return Some(FoundSyntax { source: SyntaxSource::Token, key: name.to_string(), syntax });
        }
        if let Some(syntax) = find_by_name(&self.syntaxes, name) {
            return Some(FoundSyntax { source: SyntaxSource::Name, key: name.to_string(), syntax });
        }
        let table = filename_fallbacks();
        match lookup_fallback(name, table.as_slice()) {
            Some(fallback) => match find_by_extension(&self.syntaxes, fallback) {
                Some(syntax) => Some(FoundSyntax { source: SyntaxSource::Extension, key: fallback.to_string(), syntax }),
                None => None,
            },
            None => None,
        }
    }

    /// The syntax for a file: by its extension, else its name, else its first
    /// line; `None` when none of them finds one.
    pub fn find_syntax(&self, path: &str, first_line: Option<&str>) -> (r: Option<FoundSyntax<'_>>)
        ensures
            match syntax_key(path@, text_of(first_line)) {
                Some(k) => r matches Some(f) && f.how() == k.0 && f.key_text() == k.1,
                None => r is None,
            },
    {
        if let Some(ext) = extension(path) {
            if let Some(found) = self.by_extension(ext.as_str()) {
                return Some(found);
            }
        }
        if let Some(name) = file_name(path) {
            if let Some(found) = self.by_name(name.as_str()) {
                return Some(found);
            }
        }
        match first_line {
            Some(line) => match find_by_first_line(&self.syntaxes, line) {
                Some(syntax) => Some(FoundSyntax { source: SyntaxSource::FirstLine, key: line.to_string(), syntax }),
                None => None,
            },
            None => None,
        }
    }

    /// Each line's runs (`file_runs`): plain when no syntax is found for the
    /// file (see `find_syntax`); otherwise as syntect colours the lines in
    /// order, with a line it refuses left plain. Either way each line's runs
    /// spell the line.
    pub fn highlight_file(&self, theme: SyntaxTheme, path: &str, lines: &Vec<String>) -> (r: Vec<StyledSegments>)
        ensures
            runs_view(r@) == file_runs(path@, theme, lines.deep_view()),
            r@.len() == lines@.len(),
            forall|i: int| 0 <= i < lines@.len() ==> run_text(segments_view(#[trigger] r@[i])) == lines@[i]@,
    {
        let first = if lines.len() > 0 { Some(lines[0].as_str()) } else { None };
        let ghost lv = lines.deep_view();
        assert(text_of(first) == first_of(lv));
        let ghost want = file_runs(path@, theme, lv);
        let mut out: Vec<StyledSegments> = Vec::new();
        match self.find_syntax(path, first) {
            None => {
                let mut i: usize = 0;
                while i < lines.len()
                    invariant
                        i <= lines@.len(),
                        lv == lines.deep_view(),
                        syntax_key(path@, first_of(lv)) is None,
                        want == file_runs(path@, theme, lv),
                        out@.len() == i,
                        forall|k: int| 0 <= k < i ==> segments_view(#[trigger] out@[k]) == want[k],
                    decreases lines.len() - i,
                {
                    assert(lv[i as int] == lines@[i as int]@);
                    out.push(default_segments(lines[i].as_str()));
                    i = i + 1;
                }
            },
            Some(found) => {
                let runs = highlight_lines(self, &found, theme, lines);
                let ghost hv = highlighted(found.how(), found.key_text(), theme, lv);
                let mut i: usize = 0;
                while i < lines.len()
                    invariant
                        i <= lines@.len(),
                        lv == lines.deep_view(),
                        runs@.len() == lines@.len(),
                        opt_runs_view(runs@) == hv,
                        hv == highlighted(found.how(), found.key_text(), theme, lv),
                        syntax_key(path@, first_of(lv)) == Some((found.how(), found.key_text())),
                        want == file_runs(path@, theme, lv),
                        out@.len() == i,
                        forall|k: int| 0 <= k < i ==> segments_view(#[trigger] out@[k]) == want[k],
                    decreases lines.len() - i,
                {
                    let line = lines[i].as_str();
                    assert(opt_runs_view(runs@)[i as int] == hv[i as int]);
                    assert(lv[i as int] == line@);
                    assert(lv.len() == lines@.len());
                    assert(want[i as int] == (match hv[i as int] {
                        Some(r) => r,
                        None => plain_runs(lv[i as int]),
                    }));
                    match &runs[i] {
                        Some(segments) => out.push(copy_segments(segments)),
                        None => out.push(default_segments(line)),
                    }
                    i = i + 1;
                }
            },
        }
        proof {
            assert(runs_view(out@) =~= want);
            lemma_file_runs_spell(path@, theme, lv);
        }
        out
    }
}

// ---------------------------------------------------------------------------
// Highlighting lines.
// ---------------------------------------------------------------------------

#[verifier::external_type_specification]
#[verifier::external_body]
pub struct ExEmbeddedThemeName(EmbeddedThemeName);

#[verifier::external_type_specification]
#[verifier::external_body]
pub struct ExStyle(syntect::highlighting::Style);

pub open spec fn runs_view(v: Seq<StyledSegments>) -> Seq<Seq<(SegmentStyle, Seq<char>)>> {
    v.map_values(|s: StyledSegments| segments_view(s))
}

pub open spec fn opt_runs_view(v: Seq<Option<StyledSegments>>) -> Seq<Option<Seq<(SegmentStyle, Seq<char>)>>> {
    v.map_values(|o: Option<StyledSegments>| match o {
        Some(s) => Some(segments_view(s)),
        None => None,
    })
}

pub open spec fn plain_runs(line: Seq<char>) -> Seq<(SegmentStyle, Seq<char>)> {
    seq![(plain_style(), line)]
}

/// The text the runs spell, in order.
pub open spec fn run_text(runs: Seq<(SegmentStyle, Seq<char>)>) -> Seq<char>
    decreases runs.len(),
{
    if runs.len() == 0 {
        Seq::empty()
    } else {
        run_text(runs.drop_last()) + runs.last().1
    }
}

pub open spec fn first_of(lines: Seq<Seq<char>>) -> Option<Seq<char>> {
    if lines.len() > 0 {
        Some(lines[0])
    } else {
        None
    }
}

/// What syntect gives for the lines, highlighted in order from a fresh start
/// with the embedded syntax that `source` and `key` find (see `FoundSyntax`)
/// under the embedded theme `theme` names: each line's runs, or `None` where
/// it fails on the line.
pub uninterp spec fn highlighted(
    source: SyntaxSource,
    key: Seq<char>,
    theme: SyntaxTheme,
    lines: Seq<Seq<char>>,
) -> Seq<Option<Seq<(SegmentStyle, Seq<char>)>>>;

/// Each line's runs for a file: plain when no syntax is found for it;
/// otherwise syntect's runs, or plain runs for a line it fails on.
pub open spec fn file_runs(path: Seq<char>, theme: SyntaxTheme, lines: Seq<Seq<char>>) -> Seq<
    Seq<(SegmentStyle, Seq<char>)>,
> {
    match syntax_key(path, first_of(lines)) {
        None => Seq::new(lines.len(), |i: int| plain_runs(lines[i])),
        Some(k) => Seq::new(
            lines.len(),
            |i: int|
                match highlighted(k.0, k.1, theme, lines)[i] {
                    Some(r) => r,
                    None => plain_runs(lines[i]),
                },
        ),
    }
}

/// A line's runs spell the line, whether highlighted or plain.
pub proof fn lemma_file_runs_spell(path: Seq<char>, theme: SyntaxTheme, lines: Seq<Seq<char>>)
    requires
        syntax_key(path, first_of(lines)) matches Some(k) ==> forall|i: int|
            0 <= i < lines.len() ==> (#[trigger] highlighted(k.0, k.1, theme, lines)[i] matches Some(r) ==> run_text(
                r,
            ) == lines[i]),
    ensures
        file_runs(path, theme, lines).len() == lines.len(),
        forall|i: int| 0 <= i < lines.len() ==> run_text(#[trigger] file_runs(path, theme, lines)[i]) == lines[i],
{
    assert forall|i: int| 0 <= i < lines.len() implies run_text(#[trigger] file_runs(path, theme, lines)[i]) == lines[i] by {
        let p = plain_runs(lines[i]);
        assert(p.drop_last() =~= Seq::<(SegmentStyle, Seq<char>)>::empty());
        assert(run_text(p.drop_last()) =~= Seq::<char>::empty());
        assert(run_text(p) =~= lines[i]);
    }
}

/// The embedded theme a syntax theme names.
#[verifier::external_body]
fn embedded_theme(theme: SyntaxTheme) -> EmbeddedThemeName {
    match theme {
        SyntaxTheme::Base16EightiesDark => EmbeddedThemeName::Base16EightiesDark,
        SyntaxTheme::Base16OceanLight => EmbeddedThemeName::Base16OceanLight,
        SyntaxTheme::OneHalfLight => EmbeddedThemeName::OneHalfLight,
        SyntaxTheme::OneHalfDark => EmbeddedThemeName::OneHalfDark,
        SyntaxTheme::CatppuccinLatte => EmbeddedThemeName::CatppuccinLatte,
        SyntaxTheme::CatppuccinMocha => EmbeddedThemeName::CatppuccinMocha,
        SyntaxTheme::GruvboxDark => EmbeddedThemeName::GruvboxDark,
        SyntaxTheme::GruvboxLight => EmbeddedThemeName::GruvboxLight,
    }
}

/// A syntect style as a run style: its foreground colour and font flags
/// (`FontStyle::contains`).
#[verifier::external_body]
fn segment_style(style: syntect::highlighting::Style) -> SegmentStyle {
    let font = style.font_style;
    SegmentStyle {
        fg: Some(Color::Rgb(style.foreground.r, style.foreground.g, style.foreground.b)),
        bold: font.contains(FontStyle::BOLD),
        italic: font.contains(FontStyle::ITALIC),
        underline: font.contains(FontStyle::UNDERLINE),
    }
}

/// `HighlightLines::new` for the found syntax under the theme's embedded
/// theme (`EmbeddedLazyThemeSet::get`), then `HighlightLines::highlight_line`
/// on each line in order, each range made a run: the result is named
/// `highlighted`, and, as syntect documents, the ranges of a line it
/// highlights concatenate to the line. `None` where it fails on a line.
#[verifier::external_body]
fn highlight_lines(h: &Highlighter, found: &FoundSyntax, theme: SyntaxTheme, lines: &Vec<String>) -> (r: Vec<
    Option<StyledSegments>,
>)
    ensures
        r@.len() == lines@.len(),
        opt_runs_view(r@) == highlighted(found.how(), found.key_text(), theme, lines.deep_view()),
        forall|i: int| 0 <= i < lines@.len() ==> (#[trigger] r@[i] matches Some(s) ==> run_text(segments_view(s)) == lines@[i]@),
{
    let mut runs = HighlightLines::new(found.syntax, h.themes.get(embedded_theme(theme)));
    lines
        .iter()
        .map(|line| {
            runs.highlight_line(line, &h.syntaxes).ok().map(|ranges| {
                ranges.into_iter().map(|(style, text)| (segment_style(style), text.to_string())).collect()
            })
        })
        .collect()
}

} // verus!
