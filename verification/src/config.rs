//! The user configuration file: where it lives and what its keys mean.

use vstd::prelude::*;

use crate::paths::{join, path_join};
use crate::text::{push_str, str_eq};

verus! {

#[derive(Debug, Clone, Default, PartialEq, Eq)]
pub struct AppConfig {
    pub theme: Option<String>,
}

#[derive(Debug, Clone, Default, PartialEq, Eq)]
pub struct ConfigLoadOutcome {
    pub config: Option<AppConfig>,
    pub warnings: Vec<String>,
}

/// Why no configuration could be had.
#[derive(Debug, Clone, PartialEq, Eq)]
pub enum ConfigError {
    /// Neither `XDG_CONFIG_HOME` nor `HOME` names a directory.
    NoHome,
    /// The file is not valid TOML; the parser's message.
    Parse(String),
    /// The document's root is not a table.
    RootNotTable,
}

impl ConfigError {
    pub fn message(&self) -> (r: String)
        ensures
            match self {
                ConfigError::NoHome => r@ == "Could not determine HOME for config directory"@,
                ConfigError::Parse(m) => r@ == m@,
                ConfigError::RootNotTable => r@ == "Config root must be a TOML table"@,
            },
    {
        match self {
            ConfigError::NoHome => "Could not determine HOME for config directory".to_string(),
            ConfigError::Parse(m) => m.clone(),
            ConfigError::RootNotTable => "Config root must be a TOML table".to_string(),
        }
    }
}

/// Where the configuration is documented to live.
pub fn config_path_hint() -> (r: &'static str)
    ensures
        r@ == "$XDG_CONFIG_HOME/copanion/config.toml (default: ~/.config/copanion/config.toml)"@,
{
    "$XDG_CONFIG_HOME/copanion/config.toml (default: ~/.config/copanion/config.toml)"
}

pub open spec fn nonempty(o: Option<Seq<char>>) -> bool {
    o matches Some(p) && p.len() > 0
}

/// The configuration path from the environment's directories: under a
/// non-empty `XDG_CONFIG_HOME`, else under `HOME/.config`.
pub open spec fn spec_config_path(xdg: Option<Seq<char>>, home: Option<Seq<char>>) -> Option<
    Seq<char>,
> {
    if nonempty(xdg) {
        Some(path_join(path_join(xdg->0, "copanion"@), "config.toml"@))
    } else if nonempty(home) {
        Some(path_join(path_join(path_join(home->0, ".config"@), "copanion"@), "config.toml"@))
    } else {
        None
    }
}

/// Where the configuration sits below the home directory, as the hint writes
/// it after `~`.
pub open spec fn home_config_suffix() -> Seq<char> {
    "/.config/copanion/config.toml"@
}

/// Without a non-empty `XDG_CONFIG_HOME`, the configuration is the file that
/// `config_path_hint` documents as the default: `~/.config/copanion/config.toml`
/// with `~` the home directory.
pub proof fn lemma_default_config_path_under_home(xdg: Option<Seq<char>>, home: Seq<char>)
    requires
        !nonempty(xdg),
        home.len() > 0,
    ensures
        spec_config_path(xdg, Some(home)) == Some(
            (if home.last() == '/' { home.drop_last() } else { home }) + home_config_suffix(),
        ),
        ("~"@ + home_config_suffix() + ")"@).is_suffix_of(
            "$XDG_CONFIG_HOME/copanion/config.toml (default: ~/.config/copanion/config.toml)"@,
        ),
{
    reveal_strlit(".config");
    reveal_strlit("copanion");
    reveal_strlit("config.toml");
    reveal_strlit("/.config/copanion/config.toml");
    reveal_strlit("~");
    reveal_strlit(")");
    reveal_strlit("$XDG_CONFIG_HOME/copanion/config.toml (default: ~/.config/copanion/config.toml)");
    let base = if home.last() == '/' { home.drop_last() } else { home };
    assert(base.push('/') =~= (if home.last() == '/' { home } else { home.push('/') }));
    let a = path_join(home, ".config"@);
    assert(a =~= base.push('/') + ".config"@);
    let b = path_join(a, "copanion"@);
    assert(b =~= a.push('/') + "copanion"@);
    let c = path_join(b, "config.toml"@);
    assert(c =~= b.push('/') + "config.toml"@);
    assert(c =~= base + home_config_suffix());
    let hint = "$XDG_CONFIG_HOME/copanion/config.toml (default: ~/.config/copanion/config.toml)"@;
    let tail = "~"@ + home_config_suffix() + ")"@;
    assert(hint.subrange(hint.len() - tail.len(), hint.len() as int) =~= tail);
}

/// A non-empty `XDG_CONFIG_HOME` takes precedence over `HOME`: the
/// configuration is `copanion/config.toml` under it, whatever `HOME` is.
pub proof fn lemma_xdg_config_path(xdg: Seq<char>, home: Option<Seq<char>>)
    requires
        xdg.len() > 0,
    ensures
        spec_config_path(Some(xdg), home) == Some(
            (if xdg.last() == '/' { xdg.drop_last() } else { xdg }) + "/copanion/config.toml"@,
        ),
{
    reveal_strlit("copanion");
    reveal_strlit("config.toml");
    reveal_strlit("/copanion/config.toml");
    let base = if xdg.last() == '/' { xdg.drop_last() } else { xdg };
    assert(base.push('/') =~= (if xdg.last() == '/' { xdg } else { xdg.push('/') }));
    let b = path_join(xdg, "copanion"@);
    assert(b =~= base.push('/') + "copanion"@);
    let c = path_join(b, "config.toml"@);
    assert(c =~= b.push('/') + "config.toml"@);
    assert(c =~= base + "/copanion/config.toml"@);
}

pub fn config_path_from_parts(
    xdg_config_home: Option<String>,
    home: Option<String>,
    appdata: Option<String>,
) -> (r: Result<String, ConfigError>)
    ensures
        match spec_config_path(xdg_config_home.deep_view(), home.deep_view()) {
            Some(p) => r matches Ok(s) && s@ == p,
            None => r == Err::<String, ConfigError>(ConfigError::NoHome),
        },
{
    let _ = appdata;
    if let Some(base) = xdg_config_home {
        if !base.as_str().is_empty() {
            let dir = join(base.as_str(), "copanion");
            return Ok(join(dir.as_str(), "config.toml"));
        }
    }
    match home {
        Some(h) => {
            if h.as_str().is_empty() {
                Err(ConfigError::NoHome)
            } else {
                let a = join(h.as_str(), ".config");
                let b = join(a.as_str(), "copanion");
                Ok(join(b.as_str(), "config.toml"))
            }
        },
        None => Err(ConfigError::NoHome),
    }
}

/// A root-level entry of a TOML document: its key, and its text when the value
/// is a string.
pub type RootEntry = (String, Option<String>);

/// What `toml::from_str::<toml::Value>` makes of a document: the parser's
/// message on failure; otherwise `None` when the root is not a table, or the
/// root table's entries in the table's own order.
pub uninterp spec fn toml_root(contents: Seq<char>) -> Result<
    Option<Seq<(Seq<char>, Option<Seq<char>>)>>,
    Seq<char>,
>;

pub open spec fn root_view(r: Result<Option<Vec<RootEntry>>, String>) -> Result<
    Option<Seq<(Seq<char>, Option<Seq<char>>)>>,
    Seq<char>,
> {
    match r {
        Ok(o) => Ok(o.deep_view()),
        Err(e) => Err(e@),
    }
}

/// `toml::from_str::<toml::Value>(contents)`: the root table's entries as
/// (key, string value if the value is a string), or the error's text.
#[verifier::external_body]
pub(crate) fn parse_toml_root(contents: &str) -> (r: Result<Option<Vec<RootEntry>>, String>)
    ensures
        root_view(r) == toml_root(contents@),
{
    match toml::from_str::<toml::Value>(contents) {
        Ok(value) => Ok(
            value.as_table().map(
                |table| {
                    table.iter().map(|(key, v)| (key.clone(), v.as_str().map(|s| s.to_string()))).collect()
                },
            ),
        ),
        Err(err) => Err(err.to_string()),
    }
}

pub open spec fn is_theme_key(k: Seq<char>) -> bool {
    k == "theme"@
}

/// The theme setting: the string value of the first `theme` entry.
pub open spec fn theme_setting(entries: Seq<(Seq<char>, Option<Seq<char>>)>) -> Option<Seq<char>>
    decreases entries.len(),
{
    if entries.len() == 0 {
        None
    } else if is_theme_key(entries[0].0) {
        entries[0].1
    } else {
        theme_setting(entries.drop_first())
    }
}

pub open spec fn theme_type_warning() -> Seq<char> {
    "Warning: Config key 'theme' must be a string; ignoring value"@
}

pub open spec fn unknown_key_warning(k: Seq<char>) -> Seq<char> {
    "Warning: Unknown config key '"@ + k + "', ignoring"@
}

pub open spec fn has_theme_key(entries: Seq<(Seq<char>, Option<Seq<char>>)>) -> bool {
    exists|i: int| 0 <= i < entries.len() && is_theme_key(#[trigger] entries[i].0)
}

/// The warnings, in order: one if `theme` is present but not a string, then
/// one per key other than `theme`, in table order.
pub open spec fn config_warnings(entries: Seq<(Seq<char>, Option<Seq<char>>)>) -> Seq<Seq<char>> {
    let head = if has_theme_key(entries) && theme_setting(entries) is None {
        seq![theme_type_warning()]
    } else {
        Seq::empty()
    };
    head + entries.filter(|e: (Seq<char>, Option<Seq<char>>)| !is_theme_key(e.0)).map_values(
        |e: (Seq<char>, Option<Seq<char>>)| unknown_key_warning(e.0),
    )
}

proof fn lemma_theme_setting_prefix(entries: Seq<(Seq<char>, Option<Seq<char>>)>, i: int)
    requires
        0 <= i < entries.len(),
        is_theme_key(entries[i].0),
        forall|k: int| 0 <= k < i ==> !is_theme_key(#[trigger] entries[k].0),
    ensures
        theme_setting(entries) == entries[i].1,
    decreases i,
{
    if i > 0 {
        lemma_theme_setting_prefix(entries.drop_first(), i - 1);
    }
}

proof fn lemma_theme_setting_absent(entries: Seq<(Seq<char>, Option<Seq<char>>)>)
    requires
        !has_theme_key(entries),
    ensures
        theme_setting(entries) is None,
    decreases entries.len(),
{
    if entries.len() > 0 {
        assert(!is_theme_key(entries[0].0));
        assert forall|i: int| 0 <= i < entries.drop_first().len() implies !is_theme_key(
            #[trigger] entries.drop_first()[i].0,
        ) by {
            assert(entries.drop_first()[i] == entries[i + 1]);
        }
        lemma_theme_setting_absent(entries.drop_first());
    }
}

/// The configuration that a parsed root table describes, with its warnings.
pub fn config_from_entries(entries: &Vec<RootEntry>) -> (r: ConfigLoadOutcome)
    ensures
        r.config matches Some(c) && c.theme.deep_view() == theme_setting(entries.deep_view()),
        r.warnings.deep_view() == config_warnings(entries.deep_view()),
{
    let ghost es = entries.deep_view();
    let mut theme: Option<String> = None;
    let mut theme_index: Option<usize> = None;
    let mut i: usize = 0;
    while i < entries.len()
        invariant
            i <= entries@.len(),
            es == entries.deep_view(),
            theme_index.is_none() ==> forall|k: int| 0 <= k < i ==> !is_theme_key(#[trigger] es[k].0),
            theme_index matches Some(t) ==> t < entries@.len() && is_theme_key(es[t as int].0)
                && (forall|k: int| 0 <= k < t ==> !is_theme_key(#[trigger] es[k].0))
                && theme.deep_view() == es[t as int].1,
            theme_index.is_none() ==> theme.is_none(),
        decreases entries.len() - i,
    {
        if theme_index.is_none() {
            let key = &entries[i].0;
            proof {
                reveal_strlit("theme");
            }
            if str_eq(key.as_str(), "theme") {
                theme = match &entries[i].1 {
                    Some(v) => Some(v.clone()),
                    None => None,
                };
                theme_index = Some(i);
            }
        }
        i = i + 1;
    }
    proof {
        match theme_index {
            Some(t) => {
                lemma_theme_setting_prefix(es, t as int);
            },
            None => {
                lemma_theme_setting_absent(es);
            },
        }
    }
    let mut warnings: Vec<String> = Vec::new();
    if theme_index.is_some() && theme.is_none() {
        warnings.push("Warning: Config key 'theme' must be a string; ignoring value".to_string());
    }
    let ghost head = warnings.deep_view();
    let ghost p = |e: (Seq<char>, Option<Seq<char>>)| !is_theme_key(e.0);
    let ghost f = |e: (Seq<char>, Option<Seq<char>>)| unknown_key_warning(e.0);
    let mut j: usize = 0;
    while j < entries.len()
        invariant
            j <= entries@.len(),
            es == entries.deep_view(),
            p == (|e: (Seq<char>, Option<Seq<char>>)| !is_theme_key(e.0)),
            f == (|e: (Seq<char>, Option<Seq<char>>)| unknown_key_warning(e.0)),
            warnings.deep_view() == head + es.take(j as int).filter(p).map_values(f),
        decreases entries.len() - j,
    {
        proof {
            assert(es.take(j + 1) =~= es.take(j as int).push(es[j as int]));
            es.take(j as int).lemma_filter_push(es[j as int], p);
            reveal_strlit("theme");
        }
        let key = &entries[j].0;
        if !str_eq(key.as_str(), "theme") {
            let mut w = "Warning: Unknown config key '".to_string();
            push_str(&mut w, key.as_str());
            push_str(&mut w, "', ignoring");
            let ghost before = warnings.deep_view();
            let ghost wv = w@;
            warnings.push(w);
            proof {
                assert(warnings.deep_view() =~= before.push(wv));
                assert(wv == f(es[j as int]));
                let t = es.take(j as int).filter(p);
                assert(t.push(es[j as int]).map_values(f) =~= t.map_values(f).push(wv));
                reveal_strlit("Warning: Unknown config key '");
                reveal_strlit("', ignoring");
                assert(es.take(j + 1).filter(p) == es.take(j as int).filter(p).push(es[j as int]));
                assert(warnings.deep_view() =~= head + es.take(j + 1).filter(p).map_values(f));
            }
        } else {
            proof {
                assert(es.take(j + 1).filter(p) == es.take(j as int).filter(p));
            }
        }
        j = j + 1;
    }
    proof {
        assert(es.take(es.len() as int) =~= es);
        reveal_strlit("Warning: Config key 'theme' must be a string; ignoring value");
        if theme_index.is_some() {
            assert(has_theme_key(es));
        }
        if has_theme_key(es) && theme_index.is_none() {
            let k = choose|k: int| 0 <= k < es.len() && is_theme_key(#[trigger] es[k].0);
            assert(false);
        }
    }
    ConfigLoadOutcome { config: Some(AppConfig { theme }), warnings }
}

/// The configuration in a file's text; `contents` is `None` when the file does
/// not exist, which is no error and yields no configuration.
pub fn load_config(contents: Option<&str>) -> (r: Result<ConfigLoadOutcome, ConfigError>)
    ensures
        r is Ok <==> match contents {
            None => true,
            Some(text) => toml_root(text@) matches Ok(Some(_)),
        },
        contents is None ==> (r matches Ok(o) && o.config is None && o.warnings@.len() == 0),
        contents matches Some(text) ==> match toml_root(text@) {
            Ok(Some(entries)) => r matches Ok(o) && (o.config matches Some(c) && c.theme.deep_view()
                == theme_setting(entries)) && o.warnings.deep_view() == config_warnings(entries),
            Ok(None) => r == Err::<ConfigLoadOutcome, ConfigError>(ConfigError::RootNotTable),
            Err(m) => r matches Err(ConfigError::Parse(e)) && e@ == m,
        },
{
    let text = match contents {
        None => {
            return Ok(ConfigLoadOutcome { config: None, warnings: Vec::new() });
        },
        Some(text) => text,
    };
    match parse_toml_root(text) {
        Ok(Some(entries)) => Ok(config_from_entries(&entries)),
        Ok(None) => Err(ConfigError::RootNotTable),
        Err(e) => Err(ConfigError::Parse(e)),
    }
}

} // verus!
