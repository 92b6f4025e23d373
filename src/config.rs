use vstd::prelude::*;
use crate::error::AppError;
use crate::text::{chars_of, copy_opt, opt_view, push_str, str_eq, string_from_chars};

verus! {

pub open spec fn ascii_alnum(c: char) -> bool {
    ('a' <= c <= 'z') || ('A' <= c <= 'Z') || ('0' <= c <= '9')
}

pub open spec fn ascii_lower(c: char) -> char {
    if 'A' <= c <= 'Z' {
        ((c as u32 + 32) as u8) as char
    } else {
        c
    }
}

/// A name with its ASCII letters and digits lowercased, and each run of
/// other characters that follows one of them turned into one underscore.
pub open spec fn squash(s: Seq<char>) -> Seq<char>
    decreases s.len(),
{
    if s.len() == 0 {
        Seq::empty()
    } else {
        let prev = squash(s.drop_last());
        let c = s.last();
        if ascii_alnum(c) {
            prev.push(ascii_lower(c))
        } else if prev.len() > 0 && prev.last() != '_' {
            prev.push('_')
        } else {
            prev
        }
    }
}

/// The form names are compared in: the squashed name without a trailing
/// underscore. A squashed name never begins with one.
pub open spec fn canonical_key_of(s: Seq<char>) -> Seq<char> {
    let q = squash(s);
    if q.len() > 0 && q.last() == '_' {
        q.drop_last()
    } else {
        q
    }
}

/// The theme a canonical key selects: the light variants and the empty name
/// are the default theme, the dark variants are "noir".
pub open spec fn theme_for_key(k: Seq<char>) -> Seq<char> {
    if k.len() == 0 || k == "vanilla"@ || k == "light"@ {
        "default"@
    } else if k == "dark"@ || k == "dark_mode"@ || k == "darkmode"@ {
        "noir"@
    } else {
        k
    }
}

fn lower(c: char) -> (r: char)
    ensures
        r == ascii_lower(c),
{
    if 'A' <= c && c <= 'Z' {
        ((c as u32 + 32) as u8) as char
    } else {
        c
    }
}

/// The canonical key of a name.
pub fn canonical_key(raw: &str) -> (r: String)
    ensures
        r@ == canonical_key_of(raw@),
{
    let cs = chars_of(raw);
    let mut out: Vec<char> = Vec::new();
    let mut i: usize = 0;
    while i < cs.len()
        invariant
            cs@ == raw@,
            i <= cs@.len(),
            out@ == squash(cs@.subrange(0, i as int)),
        decreases cs@.len() - i,
    {
        let c = cs[i];
        assert(cs@.subrange(0, i + 1).drop_last() =~= cs@.subrange(0, i as int));
        if ('a' <= c && c <= 'z') || ('A' <= c && c <= 'Z') || ('0' <= c && c <= '9') {
            out.push(lower(c));
        } else if out.len() > 0 && out[out.len() - 1] != '_' {
            out.push('_');
        }
        i = i + 1;
    }
    assert(cs@.subrange(0, cs@.len() as int) =~= cs@);
    let n = out.len();
    if n > 0 && out[n - 1] == '_' {
        assert(out@.subrange(0, n - 1) =~= out@.drop_last());
        string_from_chars(&out, 0, n - 1)
    } else {
        assert(out@.subrange(0, n as int) =~= out@);
        string_from_chars(&out, 0, n)
    }
}

/// The canonical theme name for what a user wrote; every input names one.
pub fn canonical_theme_name(raw: &str) -> (r: Option<String>)
    ensures
        r is Some,
        r->Some_0@ == theme_for_key(canonical_key_of(raw@)),
{
    let key = canonical_key(raw);
    let k = key.as_str();
    if k.is_empty() || str_eq(k, "vanilla") || str_eq(k, "light") {
        Some("default".to_owned())
    } else if str_eq(k, "dark") || str_eq(k, "dark_mode") || str_eq(k, "darkmode") {
        Some("noir".to_owned())
    } else {
        Some(key)
    }
}

pub open spec fn theme_name_of(theme: Option<Seq<char>>) -> Option<Seq<char>> {
    match theme {
        Some(t) => Some(theme_for_key(canonical_key_of(t))),
        None => None,
    }
}

fn canonical_theme_name_option(theme: Option<&str>) -> (r: Option<String>)
    ensures
        opt_view(r) == theme_name_of(match theme {
            Some(t) => Some(t@),
            None => None,
        }),
{
    match theme {
        Some(t) => canonical_theme_name(t),
        None => None,
    }
}

/// Terminal escape codes that colour text; empty when colour is off.
#[derive(Debug, Clone)]
pub struct Palette {
    pub accent: &'static str,
    pub muted: &'static str,
    pub reset: &'static str,
}

/// The codes of the palette for a theme: accent, muted, reset.
pub open spec fn palette_codes(name: Option<Seq<char>>) -> (Seq<char>, Seq<char>, Seq<char>) {
    if name == Some("noir"@) {
        ("\x1b[38;5;208m"@, "\x1b[38;5;250m"@, "\x1b[0m"@)
    } else if name == Some("solarized"@) {
        ("\x1b[38;5;108m"@, "\x1b[38;5;250m"@, "\x1b[0m"@)
    } else {
        (""@, ""@, ""@)
    }
}

/// Wraps `text` in `code` and `reset`, unless `code` is empty.
pub open spec fn colored(code: Seq<char>, text: Seq<char>, reset: Seq<char>) -> Seq<char> {
    if code.len() == 0 {
        text
    } else {
        code + text + reset
    }
}

fn wrap(code: &str, text: &str, reset: &str) -> (r: String)
    ensures
        r@ == colored(code@, text@, reset@),
{
    if code.is_empty() {
        text.to_owned()
    } else {
        let mut out = code.to_owned();
        push_str(&mut out, text);
        push_str(&mut out, reset);
        out
    }
}

impl Palette {
    pub fn accentize(&self, text: &str) -> (r: String)
        ensures
            r@ == colored(self.accent@, text@, self.reset@),
    {
        wrap(self.accent, text, self.reset)
    }

    pub fn mutedize(&self, text: &str) -> (r: String)
        ensures
            r@ == colored(self.muted@, text@, self.reset@),
    {
        wrap(self.muted, text, self.reset)
    }
}

/// The palette of a theme; unknown themes and no theme get no colour.
pub fn palette_for_theme(theme: Option<&str>) -> (r: Palette)
    ensures
        (r.accent@, r.muted@, r.reset@) == palette_codes(theme_name_of(match theme {
            Some(t) => Some(t@),
            None => None,
        })),
{
    let name = canonical_theme_name_option(theme);
    let (is_noir, is_solarized) = match &name {
        Some(n) => (str_eq(n.as_str(), "noir"), str_eq(n.as_str(), "solarized")),
        None => (false, false),
    };
    if is_noir {
        Palette { accent: "\x1b[38;5;208m", muted: "\x1b[38;5;250m", reset: "\x1b[0m" }
    } else if is_solarized {
        Palette { accent: "\x1b[38;5;108m", muted: "\x1b[38;5;250m", reset: "\x1b[0m" }
    } else {
        Palette { accent: "", muted: "", reset: "" }
    }
}

/// The aliases a list of pairs defines; a later pair overrides an earlier
/// one with the same name.
pub open spec fn alias_map(v: Seq<(String, String)>) -> Map<Seq<char>, Seq<char>>
    decreases v.len(),
{
    if v.len() == 0 {
        Map::empty()
    } else {
        alias_map(v.drop_last()).insert(v.last().0@, v.last().1@)
    }
}

/// The user's settings: a theme and command aliases.
#[derive(Debug, Clone, PartialEq, Eq)]
pub struct Config {
    pub theme: Option<String>,
    pub aliases: Vec<(String, String)>,
}

/// Settings given for one run, laid over the stored ones.
#[derive(Debug, Clone, PartialEq, Eq)]
pub struct ConfigOverrides {
    pub theme: Option<String>,
    pub aliases: Vec<(String, String)>,
}

/// Settings as loaded, with the error that made loading fall back to the
/// defaults, if any.
#[derive(Debug, Clone)]
pub struct ConfigLoad {
    pub config: Config,
    pub error: Option<AppError>,
}

impl Default for Config {
    fn default() -> (r: Config)
        ensures
            r.theme is None,
            r.aliases@.len() == 0,
    {
        Config { theme: None, aliases: Vec::new() }
    }
}

impl Default for ConfigOverrides {
    fn default() -> (r: ConfigOverrides)
        ensures
            r.theme is None,
            r.aliases@.len() == 0,
    {
        ConfigOverrides { theme: None, aliases: Vec::new() }
    }
}

/// Where a name was last defined, the later entries define it no more.
pub proof fn lemma_alias_map_at(v: Seq<(String, String)>, name: Seq<char>, j: int)
    requires
        0 <= j < v.len(),
        v[j].0@ == name,
        forall|i: int| j < i < v.len() ==> (#[trigger] v[i]).0@ != name,
    ensures
        alias_map(v).contains_key(name),
        alias_map(v)[name] == v[j].1@,
    decreases v.len(),
{
    if j < v.len() - 1 {
        lemma_alias_map_at(v.drop_last(), name, j);
    }
}

/// A name that no entry defines is not an alias.
pub proof fn lemma_alias_map_absent(v: Seq<(String, String)>, name: Seq<char>)
    requires
        forall|i: int| 0 <= i < v.len() ==> (#[trigger] v[i]).0@ != name,
    ensures
        !alias_map(v).contains_key(name),
    decreases v.len(),
{
    if v.len() > 0 {
        lemma_alias_map_absent(v.drop_last(), name);
    }
}

/// Replacing the last definition of a name redefines it and nothing else.
pub proof fn lemma_alias_map_update(v: Seq<(String, String)>, j: int, e: (String, String))
    requires
        0 <= j < v.len(),
        v[j].0@ == e.0@,
        forall|i: int| j < i < v.len() ==> (#[trigger] v[i]).0@ != e.0@,
    ensures
        alias_map(v.update(j, e)) == alias_map(v).insert(e.0@, e.1@),
    decreases v.len(),
{
    let u = v.update(j, e);
    if j == v.len() - 1 {
        assert(u.drop_last() =~= v.drop_last());
        assert(alias_map(u) =~= alias_map(v).insert(e.0@, e.1@));
    } else {
        lemma_alias_map_update(v.drop_last(), j, e);
        assert(u.drop_last() =~= v.drop_last().update(j, e));
        assert(v.last().0@ != e.0@);
        assert(alias_map(u) =~= alias_map(v).insert(e.0@, e.1@));
    }
}

/// The index of the last entry defining `name`.
fn last_definition(v: &Vec<(String, String)>, name: &str) -> (r: Option<usize>)
    ensures
        match r {
            Some(j) => j < v@.len() && v@[j as int].0@ == name@ && forall|i: int|
                j < i < v@.len() ==> (#[trigger] v@[i]).0@ != name@,
            None => forall|i: int| 0 <= i < v@.len() ==> (#[trigger] v@[i]).0@ != name@,
        },
{
    let mut i: usize = v.len();
    while i > 0
        invariant
            i <= v@.len(),
            forall|k: int| i <= k < v@.len() ==> (#[trigger] v@[k]).0@ != name@,
        decreases i,
    {
        i = i - 1;
        if str_eq(v[i].0.as_str(), name) {
            return Some(i);
        }
    }
    None
}

/// What an alias list says `name` stands for.
pub fn alias_lookup(v: &Vec<(String, String)>, name: &str) -> (r: Option<String>)
    ensures
        opt_view(r) == (if alias_map(v@).contains_key(name@) {
            Some(alias_map(v@)[name@])
        } else {
            None
        }),
{
    match last_definition(v, name) {
        Some(j) => {
            proof {
                lemma_alias_map_at(v@, name@, j as int);
            }
            Some(v[j].1.clone())
        },
        None => {
            proof {
                lemma_alias_map_absent(v@, name@);
            }
            None
        },
    }
}

/// Defines `name` as `value`, replacing its definition if it has one.
pub fn set_alias(v: &mut Vec<(String, String)>, name: &str, value: &str)
    ensures
        alias_map(final(v)@) == alias_map(old(v)@).insert(name@, value@),
{
    let e = (name.to_owned(), value.to_owned());
    match last_definition(v, name) {
        Some(j) => {
            proof {
                lemma_alias_map_update(v@, j as int, e);
            }
            v.set(j, e);
        },
        None => {
            v.push(e);
            assert(v@.drop_last() =~= old(v)@);
        },
    }
}

impl Config {
    /// What the alias `name` stands for, if it is one.
    pub fn alias(&self, name: &str) -> (r: Option<String>)
        ensures
            opt_view(r) == (if alias_map(self.aliases@).contains_key(name@) {
                Some(alias_map(self.aliases@)[name@])
            } else {
                None
            }),
    {
        alias_lookup(&self.aliases, name)
    }
}

/// The settings after the one-run overrides: an overriding theme replaces
/// the stored one in canonical form, and each overriding alias replaces or
/// adds its definition.
pub fn merge_overrides(base: &Config, overrides: &ConfigOverrides) -> (r: Config)
    ensures
        opt_view(r.theme) == (match overrides.theme {
            Some(t) => Some(theme_for_key(canonical_key_of(t@))),
            None => opt_view(base.theme),
        }),
        alias_map(r.aliases@) == alias_map(base.aliases@).union_prefer_right(alias_map(overrides.aliases@)),
{
    let theme = match &overrides.theme {
        Some(t) => canonical_theme_name(t.as_str()),
        None => copy_opt(&base.theme),
    };
    let mut aliases: Vec<(String, String)> = Vec::new();
    let mut i: usize = 0;
    while i < base.aliases.len()
        invariant
            i <= base.aliases@.len(),
            alias_map(aliases@) == alias_map(base.aliases@.subrange(0, i as int)),
        decreases base.aliases@.len() - i,
    {
        let ghost before = aliases@;
        set_alias(&mut aliases, base.aliases[i].0.as_str(), base.aliases[i].1.as_str());
        assert(base.aliases@.subrange(0, i + 1).drop_last() =~= base.aliases@.subrange(0, i as int));
        i = i + 1;
    }
    assert(base.aliases@.subrange(0, i as int) =~= base.aliases@);
    let mut j: usize = 0;
    while j < overrides.aliases.len()
        invariant
            j <= overrides.aliases@.len(),
            alias_map(aliases@) == alias_map(base.aliases@).union_prefer_right(
                alias_map(overrides.aliases@.subrange(0, j as int)),
            ),
        decreases overrides.aliases@.len() - j,
    {
        set_alias(&mut aliases, overrides.aliases[j].0.as_str(), overrides.aliases[j].1.as_str());
        let ghost o = overrides.aliases@;
        assert(o.subrange(0, j + 1).drop_last() =~= o.subrange(0, j as int));
        assert(alias_map(aliases@) =~= alias_map(base.aliases@).union_prefer_right(
            alias_map(o.subrange(0, j + 1)),
        ));
        j = j + 1;
    }
    assert(overrides.aliases@.subrange(0, j as int) =~= overrides.aliases@);
    Config { theme, aliases }
}

/// The stored theme in canonical form.
fn normalize_theme_value(value: Option<String>) -> (r: Option<String>)
    ensures
        opt_view(r) == (match value {
            Some(t) => Some(theme_for_key(canonical_key_of(t@))),
            None => None,
        }),
{
    match value {
        Some(name) => canonical_theme_name(name.as_str()),
        None => None,
    }
}

/// Settings as read, with the theme put in canonical form.
pub fn normalize_config_theme(config: Config) -> (r: Config)
    ensures
        opt_view(r.theme) == (match config.theme {
            Some(t) => Some(theme_for_key(canonical_key_of(t@))),
            None => None,
        }),
        r.aliases == config.aliases,
{
    let Config { theme, aliases } = config;
    Config { theme: normalize_theme_value(theme), aliases }
}

} // verus!
