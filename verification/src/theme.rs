//! Built-in colour themes.

use vstd::prelude::*;

use crate::text::{ascii_lower, chars_of, is_ascii_upper, lower_ascii, to_ascii_lower};

verus! {

#[derive(Debug, Clone, Copy, PartialEq, Eq, Structural)]
pub enum ThemeName {
    Dark,
    Light,
    OneDark,
    GruvboxDark,
    GruvboxLight,
    CatppuccinMocha,
    CatppuccinLatte,
    AyuLight,
}

/// A terminal colour: the terminal's own white, or an RGB triple.
#[derive(Debug, Clone, Copy, PartialEq, Eq, Structural)]
pub enum Color {
    White,
    Rgb(u8, u8, u8),
}

/// The syntax-highlighting theme paired with a UI theme.
#[derive(Debug, Clone, Copy, PartialEq, Eq, Structural)]
pub enum SyntaxTheme {
    Base16EightiesDark,
    Base16OceanLight,
    OneHalfLight,
    OneHalfDark,
    CatppuccinLatte,
    CatppuccinMocha,
    GruvboxDark,
    GruvboxLight,
}

#[derive(Debug, Clone, Copy, PartialEq, Eq, Structural)]
pub struct Theme {
    pub bg: Color,
    pub panel: Color,
    pub border: Color,
    pub border_focus: Color,
    pub text: Color,
    pub muted: Color,
    pub accent: Color,
    pub note_bg: Color,
    pub note_border: Color,
    pub question_bg: Color,
    pub question_border: Color,
    pub cursor_line: Color,
    pub danger: Color,
    pub success: Color,
    pub syntect_theme: SyntaxTheme,
}

impl Default for ThemeName {
    /// The theme used when neither the command line nor the configuration
    /// picks one.
    fn default() -> (r: Self)
        ensures
            r == ThemeName::GruvboxDark,
    {
        ThemeName::GruvboxDark
    }
}

/// The command-line and configuration name of each theme.
pub open spec fn theme_label(name: ThemeName) -> Seq<char> {
    match name {
        ThemeName::Dark => "dark"@,
        ThemeName::Light => "light"@,
        ThemeName::OneDark => "one-dark"@,
        ThemeName::GruvboxDark => "gruvbox-dark"@,
        ThemeName::GruvboxLight => "gruvbox-light"@,
        ThemeName::CatppuccinMocha => "catppuccin-mocha"@,
        ThemeName::CatppuccinLatte => "catppuccin-latte"@,
        ThemeName::AyuLight => "ayu-light"@,
    }
}

/// Whether `value` names the theme, ignoring ASCII case.
pub open spec fn names_theme(value: Seq<char>, name: ThemeName) -> bool {
    lower_ascii(value) == theme_label(name)
}

impl ThemeName {
    /// The theme a configuration value names, ignoring ASCII case.
    pub fn parse_config(value: &str) -> (r: Option<Self>)
        ensures
            r matches Some(name) ==> names_theme(value@, name),
            r is None ==> forall|name: ThemeName| !names_theme(value@, name),
    {
        let v = chars_of(value);
        let mut lowered = String::new();
        let mut i: usize = 0;
        while i < v.len()
            invariant
                i <= v@.len(),
                v@ == value@,
                lowered@ == lower_ascii(v@.take(i as int)),
            decreases v.len() - i,
        {
            crate::text::push_char(&mut lowered, ascii_lower(v[i]));
            assert(lower_ascii(v@.take(i + 1)) =~= lower_ascii(v@.take(i as int)).push(
                to_ascii_lower(v@[i as int]),
            ));
            i = i + 1;
        }
        assert(v@.take(v@.len() as int) =~= v@);
        let l = lowered.as_str();
        proof {
            reveal_strlit("dark");
            reveal_strlit("light");
            reveal_strlit("one-dark");
            reveal_strlit("gruvbox-dark");
            reveal_strlit("gruvbox-light");
            reveal_strlit("catppuccin-mocha");
            reveal_strlit("catppuccin-latte");
            reveal_strlit("ayu-light");
        }
        let all = [
            ThemeName::Dark,
            ThemeName::Light,
            ThemeName::OneDark,
            ThemeName::GruvboxDark,
            ThemeName::GruvboxLight,
            ThemeName::CatppuccinMocha,
            ThemeName::CatppuccinLatte,
            ThemeName::AyuLight,
        ];
        let mut k: usize = 0;
        while k < 8
            invariant
                k <= 8,
                l@ == lower_ascii(value@),
                all@ == seq![
                    ThemeName::Dark,
                    ThemeName::Light,
                    ThemeName::OneDark,
                    ThemeName::GruvboxDark,
                    ThemeName::GruvboxLight,
                    ThemeName::CatppuccinMocha,
                    ThemeName::CatppuccinLatte,
                    ThemeName::AyuLight,
                ],
                forall|j: int| 0 <= j < k ==> !names_theme(value@, #[trigger] all@[j]),
            decreases 8 - k,
        {
            let candidate = all[k];
            if crate::text::str_eq(l, candidate.label()) {
                return Some(candidate);
            }
            k = k + 1;
        }
        proof {
            assert forall|name: ThemeName| !names_theme(value@, name) by {
                match name {
                    ThemeName::Dark => assert(all@[0] == name),
                    ThemeName::Light => assert(all@[1] == name),
                    ThemeName::OneDark => assert(all@[2] == name),
                    ThemeName::GruvboxDark => assert(all@[3] == name),
                    ThemeName::GruvboxLight => assert(all@[4] == name),
                    ThemeName::CatppuccinMocha => assert(all@[5] == name),
                    ThemeName::CatppuccinLatte => assert(all@[6] == name),
                    ThemeName::AyuLight => assert(all@[7] == name),
                }
            }
        }
        None
    }

    /// The theme's command-line and configuration name.
    pub fn label(self) -> (r: &'static str)
        ensures
            r@ == theme_label(self),
    {
        match self {
            ThemeName::Dark => "dark",
            ThemeName::Light => "light",
            ThemeName::OneDark => "one-dark",
            ThemeName::GruvboxDark => "gruvbox-dark",
            ThemeName::GruvboxLight => "gruvbox-light",
            ThemeName::CatppuccinMocha => "catppuccin-mocha",
            ThemeName::CatppuccinLatte => "catppuccin-latte",
            ThemeName::AyuLight => "ayu-light",
        }
    }

    /// The palette of this theme; see `palette`.
    pub fn theme(self) -> (r: Theme)
        ensures
            r == palette(self),
    {
        match self {
            ThemeName::Dark => themed(
                rgb(30, 30, 30),
                rgb(24, 24, 28),
                rgb(110, 110, 110),
                rgb(90, 200, 255),
                Color::White,
                rgb(160, 160, 160),
                rgb(90, 220, 240),
                rgb(90, 170, 255),
                rgb(255, 210, 90),
                rgb(70, 70, 70),
                rgb(240, 90, 90),
                rgb(80, 220, 120),
                SyntaxTheme::Base16EightiesDark,
            ),
            ThemeName::Light => themed(
                rgb(210, 210, 220),
                rgb(245, 243, 232),
                rgb(100, 100, 100),
                rgb(0, 60, 140),
                rgb(0, 0, 0),
                rgb(80, 80, 80),
                rgb(0, 100, 120),
                rgb(0, 60, 140),
                rgb(140, 80, 0),
                rgb(200, 200, 220),
                rgb(160, 0, 0),
                rgb(0, 100, 0),
                SyntaxTheme::Base16OceanLight,
            ),
            ThemeName::AyuLight => themed(
                rgb(255, 255, 255),
                rgb(250, 250, 250),
                rgb(217, 216, 215),
                rgb(54, 163, 217),
                rgb(92, 103, 115),
                rgb(171, 176, 182),
                rgb(54, 163, 217),
                rgb(54, 163, 217),
                rgb(231, 197, 71),
                rgb(240, 238, 228),
                rgb(240, 113, 120),
                rgb(134, 179, 0),
                SyntaxTheme::OneHalfLight,
            ),
            ThemeName::OneDark => themed(
                rgb(33, 37, 43),
                rgb(40, 44, 52),
                rgb(62, 68, 82),
                rgb(97, 175, 239),
                rgb(171, 178, 191),
                rgb(92, 99, 112),
                rgb(86, 182, 194),
                rgb(97, 175, 239),
                rgb(229, 192, 123),
                rgb(62, 68, 82),
                rgb(224, 108, 117),
                rgb(152, 195, 121),
                SyntaxTheme::OneHalfDark,
            ),
            ThemeName::CatppuccinLatte => themed(
                rgb(230, 233, 239),
                rgb(239, 241, 245),
                rgb(172, 176, 190),
                rgb(30, 102, 245),
                rgb(76, 79, 105),
                rgb(156, 160, 176),
                rgb(23, 146, 153),
                rgb(30, 102, 245),
                rgb(223, 142, 29),
                rgb(188, 192, 204),
                rgb(210, 15, 57),
                rgb(64, 160, 43),
                SyntaxTheme::CatppuccinLatte,
            ),
            ThemeName::CatppuccinMocha => themed(
                rgb(24, 24, 37),
                rgb(30, 30, 46),
                rgb(88, 91, 112),
                rgb(137, 180, 250),
                rgb(205, 214, 244),
                rgb(108, 112, 134),
                rgb(148, 226, 213),
                rgb(137, 180, 250),
                rgb(249, 226, 175),
                rgb(69, 71, 90),
                rgb(243, 139, 168),
                rgb(166, 227, 161),
                SyntaxTheme::CatppuccinMocha,
            ),
            ThemeName::GruvboxDark => themed(
                rgb(40, 40, 40),
                rgb(29, 32, 33),
                rgb(80, 73, 69),
                rgb(142, 192, 124),
                rgb(212, 190, 152),
                rgb(124, 111, 100),
                rgb(142, 192, 124),
                rgb(131, 165, 152),
                rgb(250, 189, 47),
                rgb(60, 56, 54),
                rgb(251, 73, 52),
                rgb(184, 187, 38),
                SyntaxTheme::GruvboxDark,
            ),
            ThemeName::GruvboxLight => themed(
                rgb(245, 237, 202),
                rgb(249, 245, 215),
                rgb(221, 199, 161),
                rgb(66, 123, 88),
                rgb(101, 71, 53),
                rgb(168, 153, 132),
                rgb(66, 123, 88),
                rgb(7, 102, 120),
                rgb(181, 118, 20),
                rgb(235, 219, 178),
                rgb(157, 0, 6),
                rgb(121, 116, 14),
                SyntaxTheme::GruvboxLight,
            ),
        }
    }
}

pub open spec fn spec_rgb(r: u8, g: u8, b: u8) -> Color {
    Color::Rgb(r, g, b)
}

pub fn rgb(r: u8, g: u8, b: u8) -> (c: Color)
    ensures
        c == spec_rgb(r, g, b),
{
    Color::Rgb(r, g, b)
}

/// One channel mixed: `accent_percent` percent of the accent, the rest of the
/// base, rounded down.
pub open spec fn mix(base: u8, accent: u8, accent_percent: u8) -> u8 {
    ((base as int * (100 - accent_percent) + accent as int * accent_percent) / 100) as u8
}

/// Two RGB colours mixed channel by channel; when either is not RGB, the
/// accent.
pub open spec fn spec_blend(base: Color, accent: Color, accent_percent: u8) -> Color {
    match (base, accent) {
        (Color::Rgb(br, bg, bb), Color::Rgb(ar, ag, ab)) => Color::Rgb(
            mix(br, ar, accent_percent),
            mix(bg, ag, accent_percent),
            mix(bb, ab, accent_percent),
        ),
        _ => accent,
    }
}

fn mix_channel(base: u8, accent: u8, p: u8) -> (r: u8)
    requires
        p <= 100,
    ensures
        r == mix(base, accent, p),
{
    let inv: u16 = 100 - p as u16;
    assert((base as u16) * inv + (accent as u16) * (p as u16) <= 25500) by (nonlinear_arith)
        requires
            base <= 255,
            accent <= 255,
            inv + p == 100,
    ;
    let total: u16 = (base as u16) * inv + (accent as u16) * (p as u16);
    let q = total / 100;
    assert(q <= 255);
    q as u8
}

pub fn blend(base: Color, accent: Color, accent_percent: u8) -> (r: Color)
    requires
        accent_percent <= 100,
    ensures
        r == spec_blend(base, accent, accent_percent),
{
    match (base, accent) {
        (Color::Rgb(br, bg, bb), Color::Rgb(ar, ag, ab)) => Color::Rgb(
            mix_channel(br, ar, accent_percent),
            mix_channel(bg, ag, accent_percent),
            mix_channel(bb, ab, accent_percent),
        ),
        _ => accent,
    }
}

/// A theme from its base colours; the note and question backgrounds are the
/// panel with 20 percent of the matching border colour.
pub open spec fn spec_themed(
    bg: Color,
    panel: Color,
    border: Color,
    border_focus: Color,
    text: Color,
    muted: Color,
    accent: Color,
    note_border: Color,
    question_border: Color,
    cursor_line: Color,
    danger: Color,
    success: Color,
    syntect_theme: SyntaxTheme,
) -> Theme {
    Theme {
        bg,
        panel,
        border,
        border_focus,
        text,
        muted,
        accent,
        note_bg: spec_blend(panel, note_border, 20),
        note_border,
        question_bg: spec_blend(panel, question_border, 20),
        question_border,
        cursor_line,
        danger,
        success,
        syntect_theme,
    }
}

fn themed(
    bg: Color,
    panel: Color,
    border: Color,
    border_focus: Color,
    text: Color,
    muted: Color,
    accent: Color,
    note_border: Color,
    question_border: Color,
    cursor_line: Color,
    danger: Color,
    success: Color,
    syntect_theme: SyntaxTheme,
) -> (r: Theme)
    ensures
        r == spec_themed(
            bg,
            panel,
            border,
            border_focus,
            text,
            muted,
            accent,
            note_border,
            question_border,
            cursor_line,
            danger,
            success,
            syntect_theme,
        ),
{
    Theme {
        bg,
        panel,
        border,
        border_focus,
        text,
        muted,
        accent,
        note_bg: blend(panel, note_border, 20),
        note_border,
        question_bg: blend(panel, question_border, 20),
        question_border,
        cursor_line,
        danger,
        success,
        syntect_theme,
    }
}

/// The palette of each built-in theme.
pub open spec fn palette(name: ThemeName) -> Theme {
    match name {
        ThemeName::Dark => spec_themed(
            spec_rgb(30, 30, 30),
            spec_rgb(24, 24, 28),
            spec_rgb(110, 110, 110),
            spec_rgb(90, 200, 255),
            Color::White,
            spec_rgb(160, 160, 160),
            spec_rgb(90, 220, 240),
            spec_rgb(90, 170, 255),
            spec_rgb(255, 210, 90),
            spec_rgb(70, 70, 70),
            spec_rgb(240, 90, 90),
            spec_rgb(80, 220, 120),
            SyntaxTheme::Base16EightiesDark,
        ),
        ThemeName::Light => spec_themed(
            spec_rgb(210, 210, 220),
            spec_rgb(245, 243, 232),
            spec_rgb(100, 100, 100),
            spec_rgb(0, 60, 140),
            spec_rgb(0, 0, 0),
            spec_rgb(80, 80, 80),
            spec_rgb(0, 100, 120),
            spec_rgb(0, 60, 140),
            spec_rgb(140, 80, 0),
            spec_rgb(200, 200, 220),
            spec_rgb(160, 0, 0),
            spec_rgb(0, 100, 0),
            SyntaxTheme::Base16OceanLight,
        ),
        ThemeName::AyuLight => spec_themed(
            spec_rgb(255, 255, 255),
            spec_rgb(250, 250, 250),
            spec_rgb(217, 216, 215),
            spec_rgb(54, 163, 217),
            spec_rgb(92, 103, 115),
            spec_rgb(171, 176, 182),
            spec_rgb(54, 163, 217),
            spec_rgb(54, 163, 217),
            spec_rgb(231, 197, 71),
            spec_rgb(240, 238, 228),
            spec_rgb(240, 113, 120),
            spec_rgb(134, 179, 0),
            SyntaxTheme::OneHalfLight,
        ),
        ThemeName::OneDark => spec_themed(
            spec_rgb(33, 37, 43),
            spec_rgb(40, 44, 52),
            spec_rgb(62, 68, 82),
            spec_rgb(97, 175, 239),
            spec_rgb(171, 178, 191),
            spec_rgb(92, 99, 112),
            spec_rgb(86, 182, 194),
            spec_rgb(97, 175, 239),
            spec_rgb(229, 192, 123),
            spec_rgb(62, 68, 82),
            spec_rgb(224, 108, 117),
            spec_rgb(152, 195, 121),
            SyntaxTheme::OneHalfDark,
        ),
        ThemeName::CatppuccinLatte => spec_themed(
            spec_rgb(230, 233, 239),
            spec_rgb(239, 241, 245),
            spec_rgb(172, 176, 190),
            spec_rgb(30, 102, 245),
            spec_rgb(76, 79, 105),
            spec_rgb(156, 160, 176),
            spec_rgb(23, 146, 153),
            spec_rgb(30, 102, 245),
            spec_rgb(223, 142, 29),
            spec_rgb(188, 192, 204),
            spec_rgb(210, 15, 57),
            spec_rgb(64, 160, 43),
            SyntaxTheme::CatppuccinLatte,
        ),
        ThemeName::CatppuccinMocha => spec_themed(
            spec_rgb(24, 24, 37),
            spec_rgb(30, 30, 46),
            spec_rgb(88, 91, 112),
            spec_rgb(137, 180, 250),
            spec_rgb(205, 214, 244),
            spec_rgb(108, 112, 134),
            spec_rgb(148, 226, 213),
            spec_rgb(137, 180, 250),
            spec_rgb(249, 226, 175),
            spec_rgb(69, 71, 90),
            spec_rgb(243, 139, 168),
            spec_rgb(166, 227, 161),
            SyntaxTheme::CatppuccinMocha,
        ),
        ThemeName::GruvboxDark => spec_themed(
            spec_rgb(40, 40, 40),
            spec_rgb(29, 32, 33),
            spec_rgb(80, 73, 69),
            spec_rgb(142, 192, 124),
            spec_rgb(212, 190, 152),
            spec_rgb(124, 111, 100),
            spec_rgb(142, 192, 124),
            spec_rgb(131, 165, 152),
            spec_rgb(250, 189, 47),
            spec_rgb(60, 56, 54),
            spec_rgb(251, 73, 52),
            spec_rgb(184, 187, 38),
            SyntaxTheme::GruvboxDark,
        ),
        ThemeName::GruvboxLight => spec_themed(
            spec_rgb(245, 237, 202),
            spec_rgb(249, 245, 215),
            spec_rgb(221, 199, 161),
            spec_rgb(66, 123, 88),
            spec_rgb(101, 71, 53),
            spec_rgb(168, 153, 132),
            spec_rgb(66, 123, 88),
            spec_rgb(7, 102, 120),
            spec_rgb(181, 118, 20),
            spec_rgb(235, 219, 178),
            spec_rgb(157, 0, 6),
            spec_rgb(121, 116, 14),
            SyntaxTheme::GruvboxLight,
        ),
    }
}


// ---------------------------------------------------------------------------
// Laws.
// ---------------------------------------------------------------------------

/// Each theme's name is already in lower case.
proof fn lemma_label_lowercase(n: ThemeName)
    ensures
        lower_ascii(theme_label(n)) == theme_label(n),
{
    reveal_strlit("dark");
    reveal_strlit("light");
    reveal_strlit("one-dark");
    reveal_strlit("gruvbox-dark");
    reveal_strlit("gruvbox-light");
    reveal_strlit("catppuccin-mocha");
    reveal_strlit("catppuccin-latte");
    reveal_strlit("ayu-light");
    let l = theme_label(n);
    assert forall|i: int| 0 <= i < l.len() implies #[trigger] to_ascii_lower(l[i]) == l[i] by {
        assert(!is_ascii_upper(l[i]));
    }
    assert(lower_ascii(l) =~= l);
}

/// A theme's name gives back that theme and no other: the name a theme is
/// listed under is one its configuration value is read as.
pub proof fn lemma_theme_label_names_theme(n: ThemeName, m: ThemeName)
    ensures
        names_theme(theme_label(n), m) <==> n == m,
{
    lemma_label_lowercase(n);
    reveal_strlit("dark");
    reveal_strlit("light");
    reveal_strlit("one-dark");
    reveal_strlit("gruvbox-dark");
    reveal_strlit("gruvbox-light");
    reveal_strlit("catppuccin-mocha");
    reveal_strlit("catppuccin-latte");
    reveal_strlit("ayu-light");
    if n != m {
        let a = theme_label(n);
        let b = theme_label(m);
        if a.len() == b.len() {
            assert(a[0] != b[0] || a[1] != b[1] || a[a.len() - 1] != b[b.len() - 1] || a[8] != b[8]);
        }
        assert(a != b);
    }
}

/// Blending with none of the accent gives the base (for two RGB colours);
/// with all of it, the accent.
pub proof fn lemma_blend_ends(base: Color, accent: Color)
    ensures
        (base is Rgb && accent is Rgb) ==> spec_blend(base, accent, 0) == base,
        spec_blend(base, accent, 100) == accent,
{
}

/// Each channel of a blend lies between the two colours' channels.
pub proof fn lemma_mix_between(base: u8, accent: u8, accent_percent: u8)
    requires
        accent_percent <= 100,
    ensures
        (if base <= accent { base } else { accent }) <= mix(base, accent, accent_percent),
        mix(base, accent, accent_percent) <= (if base <= accent { accent } else { base }),
{
    let p = accent_percent as int;
    let total = base as int * (100 - p) + accent as int * p;
    let low = if base <= accent { base as int } else { accent as int };
    let high = if base <= accent { accent as int } else { base as int };
    assert(low * 100 <= total <= high * 100) by (nonlinear_arith)
        requires
            0 <= p <= 100,
            total == base as int * (100 - p) + accent as int * p,
            low == (if base <= accent { base as int } else { accent as int }),
            high == (if base <= accent { accent as int } else { base as int }),
    ;
    assert(low <= total / 100 <= high) by (nonlinear_arith)
        requires
            low * 100 <= total <= high * 100,
    ;
}

} // verus!
