use vstd::prelude::*;
use crate::config::{ConfigOverrides, canonical_key, canonical_key_of, canonical_theme_name, set_alias, alias_map, theme_for_key};
use crate::error::{AppError, fails_input};
use crate::text::{
    chars_of, opt_view, push_str, starts_with, str_eq, string_from_chars, strings_model, strip_prefix, trim,
    trimmed,
};

verus! {

/// Flag name used to identify config override arguments by the runtime.
pub const CONFIG_OVERRIDE_FLAG: &'static str = "--config-override";

/// The setting an override names.
#[derive(Debug, Clone, PartialEq, Eq)]
pub enum ConfigOverrideTarget {
    Theme,
    Alias(String),
}

/// One `KEY=VALUE` override, parsed.
#[derive(Debug, Clone, PartialEq, Eq)]
pub struct ParsedConfigOverride {
    pub target: ConfigOverrideTarget,
    pub value: String,
}

pub ghost enum TargetModel {
    Theme,
    Alias(Seq<char>),
}

pub open spec fn target_model(t: ConfigOverrideTarget) -> TargetModel {
    match t {
        ConfigOverrideTarget::Theme => TargetModel::Theme,
        ConfigOverrideTarget::Alias(a) => TargetModel::Alias(a@),
    }
}

/// The index of the first `c` in `s`, or -1 when there is none.
pub open spec fn first_of(s: Seq<char>, c: char) -> int
    decreases s.len(),
{
    if s.len() == 0 {
        -1
    } else if first_of(s.drop_last(), c) >= 0 {
        first_of(s.drop_last(), c)
    } else if s.last() == c {
        s.len() - 1
    } else {
        -1
    }
}

pub proof fn lemma_first_of_at(s: Seq<char>, c: char, k: int)
    requires
        0 <= k <= s.len(),
        forall|j: int| 0 <= j < k ==> s[j] != c,
        k < s.len() ==> s[k] == c,
    ensures
        first_of(s, c) == if k < s.len() {
            k
        } else {
            -1
        },
    decreases s.len(),
{
    if s.len() > 0 {
        if k < s.len() - 1 {
            lemma_first_of_at(s.drop_last(), c, k);
        } else {
            lemma_first_of_at(s.drop_last(), c, s.len() - 1);
        }
    }
}

/// Splits `s` at its first `c`: the parts before and after it.
pub open spec fn split_first(s: Seq<char>, c: char) -> Option<(Seq<char>, Seq<char>)> {
    let k = first_of(s, c);
    if k < 0 {
        None
    } else {
        Some((s.subrange(0, k), s.subrange(k + 1, s.len() as int)))
    }
}

fn split_once(s: &str, c: char) -> (r: Option<(String, String)>)
    ensures
        match split_first(s@, c) {
            Some(p) => r is Some && r->Some_0.0@ == p.0 && r->Some_0.1@ == p.1,
            None => r is None,
        },
{
    let cs = chars_of(s);
    let mut i: usize = 0;
    while i < cs.len()
        invariant
            cs@ == s@,
            i <= cs@.len(),
            forall|j: int| 0 <= j < i ==> cs@[j] != c,
        decreases cs@.len() - i,
    {
        if cs[i] == c {
            proof {
                lemma_first_of_at(s@, c, i as int);
            }
            return Some((string_from_chars(&cs, 0, i), string_from_chars(&cs, i + 1, cs.len())));
        }
        i = i + 1;
    }
    proof {
        lemma_first_of_at(s@, c, s@.len() as int);
    }
    None
}

/// What an override string means: the setting and the value, or why it is
/// refused.
pub open spec fn spec_parse_override(raw: Seq<char>) -> Result<(TargetModel, Seq<char>), Seq<char>> {
    match split_first(trimmed(raw), '=') {
        None => Err("override must be in KEY=VALUE format"@),
        Some(kv) => {
            let value = trimmed(kv.1);
            let (field, remainder) = match split_first(kv.0, '.') {
                Some(fr) => (trimmed(fr.0), Some(trimmed(fr.1))),
                None => (trimmed(kv.0), None),
            };
            let key = canonical_key_of(field);
            if key.len() == 0 {
                Err("override key cannot be empty"@)
            } else if key == "theme"@ {
                if remainder is Some {
                    Err("theme override cannot have subfields"@)
                } else {
                    Ok((TargetModel::Theme, value))
                }
            } else if key == "aliases"@ || key == "alias"@ {
                if remainder is Some && remainder->Some_0.len() > 0 {
                    Ok((TargetModel::Alias(remainder->Some_0), value))
                } else {
                    Err("aliases override requires an alias name"@)
                }
            } else {
                Err("unknown config field '"@ + key + "'"@)
            }
        },
    }
}

/// Parse a raw `KEY=VALUE` override string into a structured target.
pub fn parse_config_override(raw: &str) -> (r: Result<ParsedConfigOverride, String>)
    ensures
        match spec_parse_override(raw@) {
            Ok(p) => r is Ok && target_model(r->Ok_0.target) == p.0 && r->Ok_0.value@ == p.1,
            Err(m) => r is Err && r->Err_0@ == m,
        },
{
    let trimmed_raw = trim(raw);
    let (key_raw, value_raw) = match split_once(trimmed_raw, '=') {
        Some(kv) => kv,
        None => {
            return Err("override must be in KEY=VALUE format".to_owned());
        },
    };
    let value = trim(value_raw.as_str()).to_owned();
    let (field, remainder) = match split_once(key_raw.as_str(), '.') {
        Some((f, rest)) => (trim(f.as_str()).to_owned(), Some(trim(rest.as_str()).to_owned())),
        None => (trim(key_raw.as_str()).to_owned(), None),
    };
    let key = canonical_key(field.as_str());
    let k = key.as_str();
    if k.is_empty() {
        Err("override key cannot be empty".to_owned())
    } else if str_eq(k, "theme") {
        if remainder.is_some() {
            Err("theme override cannot have subfields".to_owned())
        } else {
            Ok(ParsedConfigOverride { target: ConfigOverrideTarget::Theme, value })
        }
    } else if str_eq(k, "aliases") || str_eq(k, "alias") {
        match remainder {
            Some(name) => {
                if name.as_str().is_empty() {
                    Err("aliases override requires an alias name".to_owned())
                } else {
                    Ok(ParsedConfigOverride { target: ConfigOverrideTarget::Alias(name), value })
                }
            },
            None => Err("aliases override requires an alias name".to_owned()),
        }
    } else {
        let mut message = "unknown config field '".to_owned();
        push_str(&mut message, k);
        push_str(&mut message, "'");
        Err(message)
    }
}

/// The overrides that a list of parsed entries sets, the later entry winning.
pub open spec fn overrides_theme(entries: Seq<ParsedConfigOverride>) -> Option<Seq<char>>
    decreases entries.len(),
{
    if entries.len() == 0 {
        None
    } else if entries.last().target is Theme {
        Some(theme_for_key(canonical_key_of(entries.last().value@)))
    } else {
        overrides_theme(entries.drop_last())
    }
}

pub open spec fn overrides_aliases(entries: Seq<ParsedConfigOverride>) -> Map<Seq<char>, Seq<char>>
    decreases entries.len(),
{
    if entries.len() == 0 {
        Map::empty()
    } else {
        match entries.last().target {
            ConfigOverrideTarget::Alias(name) => overrides_aliases(entries.drop_last()).insert(
                name@,
                entries.last().value@,
            ),
            ConfigOverrideTarget::Theme => overrides_aliases(entries.drop_last()),
        }
    }
}

/// Gathers parsed overrides into one set of settings.
pub fn build_config_overrides(entries: &Vec<ParsedConfigOverride>) -> (r: ConfigOverrides)
    ensures
        opt_view(r.theme) == overrides_theme(entries@),
        alias_map(r.aliases@) == overrides_aliases(entries@),
{
    let mut overrides = ConfigOverrides { theme: None, aliases: Vec::new() };
    let mut i: usize = 0;
    while i < entries.len()
        invariant
            i <= entries@.len(),
            opt_view(overrides.theme) == overrides_theme(entries@.subrange(0, i as int)),
            alias_map(overrides.aliases@) == overrides_aliases(entries@.subrange(0, i as int)),
        decreases entries@.len() - i,
    {
        let entry = &entries[i];
        assert(entries@.subrange(0, i + 1).drop_last() =~= entries@.subrange(0, i as int));
        match &entry.target {
            ConfigOverrideTarget::Theme => {
                overrides.theme = canonical_theme_name(entry.value.as_str());
            },
            ConfigOverrideTarget::Alias(name) => {
                set_alias(&mut overrides.aliases, name.as_str(), entry.value.as_str());
            },
        }
        i = i + 1;
    }
    assert(entries@.subrange(0, i as int) =~= entries@);
    overrides
}

/// The arguments left for the command parser, the overrides found, and the
/// override arguments themselves, in order.
pub ghost struct Extracted {
    pub filtered: Seq<Seq<char>>,
    pub overrides: Seq<(TargetModel, Seq<char>)>,
    pub tokens: Seq<Seq<char>>,
}

pub open spec fn flag_text() -> Seq<char> {
    "--config-override"@
}

pub open spec fn joined(a: Extracted, b: Extracted) -> Extracted {
    Extracted {
        filtered: a.filtered + b.filtered,
        overrides: a.overrides + b.overrides,
        tokens: a.tokens + b.tokens,
    }
}

pub open spec fn no_overrides() -> Extracted {
    Extracted { filtered: Seq::empty(), overrides: Seq::empty(), tokens: Seq::empty() }
}

/// The message of an override that does not parse.
pub open spec fn invalid_override(m: Seq<char>) -> Seq<char> {
    "--config-override invalid: "@ + m
}

/// Takes the override arguments out of `args[i..]`: the flag followed by
/// its value, or the flag joined to its value by `=`.
pub open spec fn extract_from(args: Seq<Seq<char>>, i: int) -> Result<Extracted, Seq<char>>
    decreases args.len() - i,
{
    if i < 0 || i >= args.len() {
        Ok(no_overrides())
    } else if args[i] == flag_text() {
        if i + 1 >= args.len() {
            Err("missing value for --config-override"@)
        } else {
            match spec_parse_override(args[i + 1]) {
                Err(m) => Err(invalid_override(m)),
                Ok(p) => match extract_from(args, i + 2) {
                    Err(e) => Err(e),
                    Ok(rest) => Ok(joined(
                        Extracted { filtered: Seq::empty(), overrides: seq![p], tokens: seq![args[i], args[i + 1]] },
                        rest,
                    )),
                },
            }
        }
    } else if starts_with(args[i], flag_text() + "="@) {
        let value = args[i].subrange((flag_text() + "="@).len() as int, args[i].len() as int);
        match spec_parse_override(value) {
            Err(m) => Err(invalid_override(m)),
            Ok(p) => match extract_from(args, i + 1) {
                Err(e) => Err(e),
                Ok(rest) => Ok(joined(
                    Extracted { filtered: Seq::empty(), overrides: seq![p], tokens: seq![args[i]] },
                    rest,
                )),
            },
        }
    } else {
        match extract_from(args, i + 1) {
            Err(e) => Err(e),
            Ok(rest) => Ok(joined(
                Extracted { filtered: seq![args[i]], overrides: Seq::empty(), tokens: Seq::empty() },
                rest,
            )),
        }
    }
}

pub open spec fn overrides_model(v: Seq<ParsedConfigOverride>) -> Seq<(TargetModel, Seq<char>)> {
    v.map_values(|p: ParsedConfigOverride| (target_model(p.target), p.value@))
}

fn invalid_override_error(message: &String) -> (r: AppError)
    ensures
        r is InvalidInput,
        r.spec_message() == invalid_override(message@),
{
    let mut text = "--config-override invalid: ".to_owned();
    push_str(&mut text, message.as_str());
    AppError::invalid_input(text.as_str())
}

/// Separates the config override arguments from the others.
pub fn extract_config_override_args(raw_args: &Vec<String>) -> (r: Result<
    (Vec<String>, Vec<ParsedConfigOverride>, Vec<String>),
    AppError,
>)
    ensures
        match extract_from(strings_model(raw_args@), 0) {
            Ok(e) => r is Ok && strings_model(r->Ok_0.0@) == e.filtered && overrides_model(r->Ok_0.1@)
                == e.overrides && strings_model(r->Ok_0.2@) == e.tokens,
            Err(m) => fails_input(r, m),
        },
{
    let ghost a = strings_model(raw_args@);
    let ghost goal = extract_from(a, 0);
    let mut filtered: Vec<String> = Vec::new();
    let mut overrides: Vec<ParsedConfigOverride> = Vec::new();
    let mut tokens: Vec<String> = Vec::new();
    let mut i: usize = 0;
    proof {
        let acc = Extracted {
            filtered: strings_model(filtered@),
            overrides: overrides_model(overrides@),
            tokens: strings_model(tokens@),
        };
        assert(acc == no_overrides()) by {
            assert(acc.filtered =~= Seq::<Seq<char>>::empty());
            assert(acc.overrides =~= Seq::<(TargetModel, Seq<char>)>::empty());
            assert(acc.tokens =~= Seq::<Seq<char>>::empty());
        }
        match extract_from(a, 0) {
            Ok(rest) => {
                assert(joined(acc, rest) =~= rest) by {
                    assert(joined(acc, rest).filtered =~= rest.filtered);
                    assert(joined(acc, rest).overrides =~= rest.overrides);
                    assert(joined(acc, rest).tokens =~= rest.tokens);
                }
            },
            Err(_) => {},
        }
    }
    while i < raw_args.len()
        invariant
            a == strings_model(raw_args@),
            goal == extract_from(a, 0),
            i <= raw_args@.len(),
            match extract_from(a, i as int) {
                Ok(rest) => goal == Ok::<Extracted, Seq<char>>(joined(
                    Extracted {
                        filtered: strings_model(filtered@),
                        overrides: overrides_model(overrides@),
                        tokens: strings_model(tokens@),
                    },
                    rest,
                )),
                Err(e) => goal == Err::<Extracted, Seq<char>>(e),
            },
        decreases raw_args@.len() - i,
    {
        let arg = &raw_args[i];
        let ghost f0 = filtered@;
        let ghost o0 = overrides@;
        let ghost t0 = tokens@;
        assert(a[i as int] == arg@);
        if str_eq(arg.as_str(), "--config-override") {
            if i + 1 >= raw_args.len() {
                return Err(AppError::invalid_input("missing value for --config-override"));
            }
            let value = &raw_args[i + 1];
            assert(a[i + 1] == value@);
            let parsed = match parse_config_override(value.as_str()) {
                Ok(p) => p,
                Err(msg) => {
                    return Err(invalid_override_error(&msg));
                },
            };
            overrides.push(parsed);
            tokens.push(arg.clone());
            tokens.push(value.clone());
            proof {
                assert(overrides_model(overrides@) =~= overrides_model(o0) + seq![(target_model(parsed.target), parsed.value@)]);
                assert(strings_model(tokens@) =~= strings_model(t0) + seq![a[i as int], a[i + 1]]);
                assert(strings_model(filtered@) =~= strings_model(f0) + Seq::<Seq<char>>::empty());
                match extract_from(a, i + 2) {
                    Ok(rest) => {
                        assert(strings_model(filtered@) + rest.filtered =~= strings_model(f0) + (Seq::<Seq<char>>::empty() + rest.filtered));
                        assert(overrides_model(overrides@) + rest.overrides =~= overrides_model(o0) + (seq![(target_model(parsed.target), parsed.value@)] + rest.overrides));
                        assert(strings_model(tokens@) + rest.tokens =~= strings_model(t0) + (seq![a[i as int], a[i + 1]] + rest.tokens));
                    },
                    Err(_) => {},
                }
            }
            i = i + 2;
        } else {
            match strip_prefix(arg.as_str(), "--config-override=") {
                Some(value) => {
                    proof {
                        reveal_strlit("--config-override=");
                        reveal_strlit("--config-override");
                        reveal_strlit("=");
                        assert(flag_text() + "="@ =~= "--config-override="@);
                    }
                    let parsed = match parse_config_override(value.as_str()) {
                        Ok(p) => p,
                        Err(msg) => {
                            return Err(invalid_override_error(&msg));
                        },
                    };
                    overrides.push(parsed);
                    tokens.push(arg.clone());
                    proof {
                        assert(overrides_model(overrides@) =~= overrides_model(o0) + seq![(target_model(parsed.target), parsed.value@)]);
                        assert(strings_model(tokens@) =~= strings_model(t0) + seq![a[i as int]]);
                        match extract_from(a, i + 1) {
                            Ok(rest) => {
                                assert(strings_model(filtered@) + rest.filtered =~= strings_model(f0) + (Seq::<Seq<char>>::empty() + rest.filtered));
                                assert(overrides_model(overrides@) + rest.overrides =~= overrides_model(o0) + (seq![(target_model(parsed.target), parsed.value@)] + rest.overrides));
                                assert(strings_model(tokens@) + rest.tokens =~= strings_model(t0) + (seq![a[i as int]] + rest.tokens));
                            },
                            Err(_) => {},
                        }
                    }
                },
                None => {
                    proof {
                        reveal_strlit("--config-override=");
                        reveal_strlit("--config-override");
                        reveal_strlit("=");
                        assert(flag_text() + "="@ =~= "--config-override="@);
                    }
                    filtered.push(arg.clone());
                    proof {
                        assert(strings_model(filtered@) =~= strings_model(f0) + seq![a[i as int]]);
                        match extract_from(a, i + 1) {
                            Ok(rest) => {
                                assert(strings_model(filtered@) + rest.filtered =~= strings_model(f0) + (seq![a[i as int]] + rest.filtered));
                                assert(overrides_model(overrides@) + rest.overrides =~= overrides_model(o0) + (Seq::<(TargetModel, Seq<char>)>::empty() + rest.overrides));
                                assert(strings_model(tokens@) + rest.tokens =~= strings_model(t0) + (Seq::<Seq<char>>::empty() + rest.tokens));
                            },
                            Err(_) => {},
                        }
                    }
                },
            }
            i = i + 1;
        }
    }
    proof {
        let acc = Extracted {
            filtered: strings_model(filtered@),
            overrides: overrides_model(overrides@),
            tokens: strings_model(tokens@),
        };
        assert(joined(acc, no_overrides()) =~= acc) by {
            assert(joined(acc, no_overrides()).filtered =~= acc.filtered);
            assert(joined(acc, no_overrides()).overrides =~= acc.overrides);
            assert(joined(acc, no_overrides()).tokens =~= acc.tokens);
        }
    }
    Ok((filtered, overrides, tokens))
}

} // verus!
