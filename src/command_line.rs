use vstd::prelude::*;
use crate::config::{Config, alias_lookup, alias_map};
use crate::error::{AppError, fails_data, fails_input};
use crate::text::{is_white_space, push_str, string_from_chars, strings_model, white_space, starts_with};

verus! {

/// Where the tokenizer stands after reading part of a line.
pub ghost struct Lexer {
    pub args: Seq<Seq<char>>,
    pub current: Seq<char>,
    pub in_quotes: bool,
    pub escape: bool,
}

/// One character read: inside quotes a backslash escapes the next
/// character (kept as is when it is a quote or a backslash, kept with the
/// backslash otherwise), a quote toggles quoting, and white space outside
/// quotes ends a token.
pub open spec fn lex_step(st: Lexer, ch: char) -> Lexer {
    if st.escape {
        let cur = if ch != '"' && ch != '\\' {
            st.current.push('\\')
        } else {
            st.current
        };
        Lexer { current: cur.push(ch), escape: false, ..st }
    } else if st.in_quotes && ch == '\\' {
        Lexer { escape: true, ..st }
    } else if ch == '"' {
        Lexer { in_quotes: !st.in_quotes, ..st }
    } else if white_space(ch) && !st.in_quotes {
        if st.current.len() > 0 {
            Lexer { args: st.args.push(st.current), current: Seq::empty(), ..st }
        } else {
            st
        }
    } else {
        Lexer { current: st.current.push(ch), ..st }
    }
}

pub open spec fn lex(s: Seq<char>) -> Lexer
    decreases s.len(),
{
    if s.len() == 0 {
        Lexer { args: Seq::empty(), current: Seq::empty(), in_quotes: false, escape: false }
    } else {
        lex_step(lex(s.drop_last()), s.last())
    }
}

/// The tokens of a command line, or nothing when a quote is left open.
pub open spec fn tokens_of(s: Seq<char>) -> Option<Seq<Seq<char>>> {
    let st = lex(s);
    if st.in_quotes {
        None
    } else if st.current.len() > 0 {
        Some(st.args.push(st.current))
    } else {
        Some(st.args)
    }
}

/// Splits a command line into arguments with the interactive quoting rules.
pub fn parse_command_line(line: &str) -> (r: Result<Vec<String>, AppError>)
    ensures
        match tokens_of(line@) {
            Some(t) => r is Ok && strings_model(r->Ok_0@) == t,
            None => fails_input(r, "unterminated quote in command"@),
        },
{
    let cs = crate::text::chars_of(line);
    let mut args: Vec<String> = Vec::new();
    let mut current: Vec<char> = Vec::new();
    let mut in_quotes = false;
    let mut escape = false;
    let mut i: usize = 0;
    assert(strings_model(args@) =~= Seq::<Seq<char>>::empty());
    assert(cs@.subrange(0, 0) =~= Seq::<char>::empty());
    while i < cs.len()
        invariant
            cs@ == line@,
            i <= cs@.len(),
            lex(cs@.subrange(0, i as int)) == (Lexer {
                args: strings_model(args@),
                current: current@,
                in_quotes,
                escape,
            }),
        decreases cs@.len() - i,
    {
        let ch = cs[i];
        assert(cs@.subrange(0, i + 1).drop_last() =~= cs@.subrange(0, i as int));
        assert(cs@.subrange(0, i + 1).last() == ch);
        let ghost st = lex(cs@.subrange(0, i as int));
        if escape {
            if ch != '"' && ch != '\\' {
                current.push('\\');
            }
            current.push(ch);
            escape = false;
        } else if in_quotes && ch == '\\' {
            escape = true;
        } else if ch == '"' {
            in_quotes = !in_quotes;
        } else if is_white_space(ch) && !in_quotes {
            if current.len() > 0 {
                let token = string_from_chars(&current, 0, current.len());
                assert(current@.subrange(0, current@.len() as int) =~= current@);
                let ghost prev = args@;
                args.push(token);
                assert(strings_model(args@) =~= strings_model(prev).push(current@));
                current = Vec::new();
                assert(current@ =~= Seq::<char>::empty());
            }
        } else {
            current.push(ch);
        }
        assert(lex(cs@.subrange(0, i + 1)) == lex_step(st, ch));
        i = i + 1;
    }
    assert(cs@.subrange(0, i as int) =~= cs@);
    if in_quotes {
        return Err(AppError::invalid_input("unterminated quote in command"));
    }
    if current.len() > 0 {
        let token = string_from_chars(&current, 0, current.len());
        assert(current@.subrange(0, current@.len() as int) =~= current@);
        args.push(token);
        assert(strings_model(args@) =~= strings_model(args@.drop_last()).push(token@));
    }
    Ok(args)
}

/// The index of the first argument that is not a flag, or -1.
pub open spec fn first_plain(args: Seq<Seq<char>>) -> int
    decreases args.len(),
{
    if args.len() == 0 {
        -1
    } else if first_plain(args.drop_last()) >= 0 {
        first_plain(args.drop_last())
    } else if !starts_with(args.last(), "-"@) {
        args.len() - 1
    } else {
        -1
    }
}

proof fn lemma_first_plain_at(args: Seq<Seq<char>>, k: int)
    requires
        0 <= k <= args.len(),
        forall|j: int| 0 <= j < k ==> starts_with(#[trigger] args[j], "-"@),
        k < args.len() ==> !starts_with(args[k], "-"@),
    ensures
        first_plain(args) == if k < args.len() {
            k
        } else {
            -1
        },
    decreases args.len(),
{
    if args.len() > 0 {
        if k < args.len() - 1 {
            lemma_first_plain_at(args.drop_last(), k);
        } else {
            lemma_first_plain_at(args.drop_last(), args.len() - 1);
        }
    }
}

/// The message of an alias whose expansion does not tokenize.
pub open spec fn bad_alias_message(name: Seq<char>) -> Seq<char> {
    "alias '"@ + name + "' invalid: invalid_input - unterminated quote in command"@
}

/// The message when expansion goes on longer than the aliases allow.
pub open spec fn endless_alias_message() -> Seq<char> {
    "alias expansion does not terminate"@
}

/// Expands the first non-flag argument while it names an alias, at most
/// `fuel` times.
pub open spec fn resolve_spec(args: Seq<Seq<char>>, aliases: Map<Seq<char>, Seq<char>>, fuel: nat) -> Result<
    Seq<Seq<char>>,
    Seq<char>,
>
    decreases fuel,
{
    let k = first_plain(args);
    if k < 0 || !aliases.contains_key(args[k]) {
        Ok(args)
    } else if fuel == 0 {
        Err(endless_alias_message())
    } else {
        match tokens_of(aliases[args[k]]) {
            None => Err(bad_alias_message(args[k])),
            Some(toks) => resolve_spec(
                args.subrange(0, k) + toks + args.subrange(k + 1, args.len() as int),
                aliases,
                (fuel - 1) as nat,
            ),
        }
    }
}

/// Appends copies of `src[lo..hi]`.
fn append_strings(out: &mut Vec<String>, src: &Vec<String>, lo: usize, hi: usize)
    requires
        lo <= hi <= src@.len(),
    ensures
        strings_model(final(out)@) == strings_model(old(out)@) + strings_model(src@).subrange(lo as int, hi as int),
{
    let ghost start = strings_model(out@);
    let mut i: usize = lo;
    while i < hi
        invariant
            lo <= i <= hi <= src@.len(),
            strings_model(out@) == start + strings_model(src@).subrange(lo as int, i as int),
        decreases hi - i,
    {
        let ghost prev = out@;
        out.push(src[i].clone());
        assert(out@ == prev.push(src@[i as int]));
        assert(strings_model(out@) =~= strings_model(prev).push(src@[i as int]@));
        assert(strings_model(src@).subrange(lo as int, i + 1) =~= strings_model(src@).subrange(lo as int, i as int).push(src@[i as int]@));
        assert(strings_model(out@) =~= start + strings_model(src@).subrange(lo as int, i + 1));
        i = i + 1;
    }
}

fn first_plain_index(args: &Vec<String>) -> (r: Option<usize>)
    ensures
        match r {
            Some(k) => k < args@.len() && k as int == first_plain(strings_model(args@)),
            None => first_plain(strings_model(args@)) == -1,
        },
{
    let ghost m = strings_model(args@);
    let mut i: usize = 0;
    while i < args.len()
        invariant
            i <= args@.len(),
            m == strings_model(args@),
            forall|j: int| 0 <= j < i ==> starts_with(#[trigger] m[j], "-"@),
        decreases args@.len() - i,
    {
        if crate::text::strip_prefix(args[i].as_str(), "-").is_none() {
            proof {
                lemma_first_plain_at(m, i as int);
            }
            return Some(i);
        }
        i = i + 1;
    }
    proof {
        lemma_first_plain_at(m, m.len() as int);
    }
    None
}

/// Replaces aliases in an argument list, as many times as the config has
/// aliases and once more; an expansion that goes on longer fails.
pub fn resolve_aliases(args: Vec<String>, config: &Config) -> (r: Result<Vec<String>, AppError>)
    ensures
        match resolve_spec(strings_model(args@), alias_map(config.aliases@), (config.aliases@.len() + 1) as nat) {
            Ok(a) => r is Ok && strings_model(r->Ok_0@) == a,
            Err(m) => fails_data(r, m),
        },
{
    let ghost goal = resolve_spec(strings_model(args@), alias_map(config.aliases@), (config.aliases@.len() + 1) as nat);
    let ghost aliases = alias_map(config.aliases@);
    let mut words = args;
    let mut fuel: usize = config.aliases.len();
    let mut left = true;
    loop
        invariant
            fuel <= config.aliases@.len(),
            aliases == alias_map(config.aliases@),
            goal == resolve_spec(strings_model(args@), alias_map(config.aliases@), (config.aliases@.len() + 1) as nat),
            left ==> resolve_spec(strings_model(words@), aliases, (fuel + 1) as nat) == goal,
            !left ==> resolve_spec(strings_model(words@), aliases, 0) == goal,
        decreases fuel + if left { 1usize } else { 0 },
    {
        let ghost m = strings_model(words@);
        let k = match first_plain_index(&words) {
            Some(k) => k,
            None => {
                assert(resolve_spec(m, aliases, (fuel + 1) as nat) == Ok::<Seq<Seq<char>>, Seq<char>>(m));
                assert(resolve_spec(m, aliases, 0) == Ok::<Seq<Seq<char>>, Seq<char>>(m));
                return Ok(words);
            },
        };
        assert(m[k as int] == words@[k as int]@);
        let replacement = match alias_lookup(&config.aliases, words[k].as_str()) {
            Some(v) => v,
            None => {
                assert(resolve_spec(m, aliases, (fuel + 1) as nat) == Ok::<Seq<Seq<char>>, Seq<char>>(m));
                assert(resolve_spec(m, aliases, 0) == Ok::<Seq<Seq<char>>, Seq<char>>(m));
                return Ok(words);
            },
        };
        if !left {
            return Err(AppError::invalid_data("alias expansion does not terminate"));
        }
        let tokens = match parse_command_line(replacement.as_str()) {
            Ok(t) => t,
            Err(_) => {
                let message = message_about(
                    "alias '",
                    words[k].as_str(),
                    "' invalid: invalid_input - unterminated quote in command",
                );
                return Err(AppError::invalid_data(message.as_str()));
            },
        };
        let mut resolved: Vec<String> = Vec::new();
        append_strings(&mut resolved, &words, 0, k);
        append_strings(&mut resolved, &tokens, 0, tokens.len());
        let n: usize = words.len();
        append_strings(&mut resolved, &words, k + 1, n);
        assert(strings_model(tokens@).subrange(0, tokens@.len() as int) =~= strings_model(tokens@));
        assert(strings_model(resolved@) =~= m.subrange(0, k as int) + strings_model(tokens@) + m.subrange(k + 1, m.len() as int));
        words = resolved;
        if fuel == 0 {
            left = false;
        } else {
            fuel = fuel - 1;
        }
    }
}

/// The run of non-space characters at the front of `s`.
pub open spec fn word_prefix(s: Seq<char>) -> Seq<char>
    decreases s.len(),
{
    if s.len() == 0 || white_space(s[0]) {
        Seq::empty()
    } else {
        seq![s[0]] + word_prefix(s.subrange(1, s.len() as int))
    }
}

/// The first white-space separated word of `s`, or nothing.
pub open spec fn first_word(s: Seq<char>) -> Seq<char>
    decreases s.len(),
{
    if s.len() == 0 {
        Seq::empty()
    } else if white_space(s[0]) {
        first_word(s.subrange(1, s.len() as int))
    } else {
        word_prefix(s)
    }
}

proof fn lemma_word_prefix(s: Seq<char>, i: int, j: int)
    requires
        0 <= i <= j <= s.len(),
        forall|k: int| i <= k < j ==> !white_space(#[trigger] s[k]),
        j == s.len() || white_space(s[j]),
    ensures
        word_prefix(s.subrange(i, s.len() as int)) == s.subrange(i, j),
    decreases j - i,
{
    let t = s.subrange(i, s.len() as int);
    if i < j {
        assert(t[0] == s[i]);
        assert(t.subrange(1, t.len() as int) =~= s.subrange(i + 1, s.len() as int));
        lemma_word_prefix(s, i + 1, j);
        assert(s.subrange(i, j) =~= seq![s[i]] + s.subrange(i + 1, j));
    } else {
        assert(s.subrange(i, j) =~= Seq::<char>::empty());
        if j < s.len() {
            assert(t[0] == s[j]);
        }
    }
}

proof fn lemma_first_word(s: Seq<char>, i: int, j: int)
    requires
        0 <= i <= j <= s.len(),
        forall|k: int| 0 <= k < i ==> white_space(#[trigger] s[k]),
        i < s.len() ==> !white_space(s[i]),
        forall|k: int| i <= k < j ==> !white_space(#[trigger] s[k]),
        j == s.len() || white_space(s[j]),
    ensures
        first_word(s) == s.subrange(i, j),
    decreases i,
{
    if i > 0 {
        let t = s.subrange(1, s.len() as int);
        assert forall|k: int| 0 <= k < i - 1 implies white_space(#[trigger] t[k]) by {
            assert(t[k] == s[k + 1]);
        }
        assert forall|k: int| i - 1 <= k < j - 1 implies !white_space(#[trigger] t[k]) by {
            assert(t[k] == s[k + 1]);
        }
        if i - 1 < t.len() {
            assert(t[i - 1] == s[i]);
        }
        if j - 1 < t.len() {
            assert(t[j - 1] == s[j]);
        }
        lemma_first_word(t, i - 1, j - 1);
        assert(t.subrange(i - 1, j - 1) =~= s.subrange(i, j));
    } else {
        lemma_word_prefix(s, 0, j);
        assert(s.subrange(0, s.len() as int) =~= s);
        if s.len() == 0 {
            assert(s.subrange(0, j) =~= Seq::<char>::empty());
        }
    }
}

fn first_word_of(s: &str) -> (r: String)
    ensures
        r@ == first_word(s@),
{
    let cs = crate::text::chars_of(s);
    let mut i: usize = 0;
    while i < cs.len() && is_white_space(cs[i])
        invariant
            cs@ == s@,
            i <= cs@.len(),
            forall|k: int| 0 <= k < i ==> white_space(#[trigger] cs@[k]),
        decreases cs@.len() - i,
    {
        i = i + 1;
    }
    let mut j: usize = i;
    while j < cs.len() && !is_white_space(cs[j])
        invariant
            cs@ == s@,
            i <= j <= cs@.len(),
            forall|k: int| i <= k < j ==> !white_space(#[trigger] cs@[k]),
        decreases cs@.len() - j,
    {
        j = j + 1;
    }
    proof {
        lemma_first_word(s@, i as int, j as int);
    }
    string_from_chars(&cs, i, j)
}

pub open spec fn quoted(pre: Seq<char>, name: Seq<char>, post: Seq<char>) -> Seq<char> {
    pre + name + post
}

/// The problem with an alias's expansion, if any: it must split into at
/// least one argument.
pub open spec fn expansion_problem(name: Seq<char>, expansion: Seq<char>) -> Option<Seq<char>> {
    match tokens_of(expansion) {
        None => Some(quoted("alias '"@, name, "' invalid: invalid_input - unterminated quote in command"@)),
        Some(t) => if t.len() == 0 {
            Some(quoted("alias '"@, name, "' has empty expansion"@))
        } else {
            None
        },
    }
}

/// The first problem among the expansions `v[i..]`.
pub open spec fn first_expansion_problem(v: Seq<(String, String)>, i: int) -> Option<Seq<char>>
    decreases v.len() - i,
{
    if i < 0 || i >= v.len() {
        None
    } else {
        match expansion_problem(v[i].0@, v[i].1@) {
            Some(p) => Some(p),
            None => first_expansion_problem(v, i + 1),
        }
    }
}

/// Follows `alias` through the first words of the expansions, at most
/// `fuel` steps: a name seen twice is a cycle, an expansion that begins
/// with its own name expands to itself.
pub open spec fn chain_problem(
    m: Map<Seq<char>, Seq<char>>,
    alias: Seq<char>,
    current: Seq<char>,
    visited: Seq<Seq<char>>,
    fuel: nat,
) -> Option<Seq<char>>
    decreases fuel,
{
    if visited.contains(current) || fuel == 0 {
        Some(quoted("alias '"@, alias, "' introduces a cycle"@))
    } else if !m.contains_key(current) {
        None
    } else {
        let w = first_word(m[current]);
        if w.len() == 0 {
            None
        } else if w == current {
            Some(quoted("alias '"@, alias, "' expands to itself"@))
        } else if !m.contains_key(w) {
            None
        } else {
            chain_problem(m, alias, w, visited.push(current), (fuel - 1) as nat)
        }
    }
}

/// The first chain problem among the aliases defined by `v[i..]`.
pub open spec fn first_chain_problem(v: Seq<(String, String)>, i: int) -> Option<Seq<char>>
    decreases v.len() - i,
{
    if i < 0 || i >= v.len() {
        None
    } else {
        match chain_problem(alias_map(v), v[i].0@, v[i].0@, Seq::empty(), (v.len() + 1) as nat) {
            Some(p) => Some(p),
            None => first_chain_problem(v, i + 1),
        }
    }
}

fn message_about(pre: &str, name: &str, post: &str) -> (r: String)
    ensures
        r@ == quoted(pre@, name@, post@),
{
    let mut out = pre.to_owned();
    push_str(&mut out, name);
    push_str(&mut out, post);
    out
}

fn seen(visited: &Vec<String>, name: &str) -> (r: bool)
    ensures
        r == strings_model(visited@).contains(name@),
{
    let mut i: usize = 0;
    while i < visited.len()
        invariant
            i <= visited@.len(),
            forall|k: int| 0 <= k < i ==> (#[trigger] visited@[k])@ != name@,
        decreases visited@.len() - i,
    {
        if crate::text::str_eq(visited[i].as_str(), name) {
            assert(strings_model(visited@)[i as int] == name@);
            return true;
        }
        i = i + 1;
    }
    proof {
        if strings_model(visited@).contains(name@) {
            let k = choose|k: int| 0 <= k < visited@.len() && strings_model(visited@)[k] == name@;
            assert(visited@[k]@ == name@);
        }
    }
    false
}

fn chain_check(aliases: &Vec<(String, String)>, alias: &str) -> (r: Option<String>)
    ensures
        opt_str_view(r) == chain_problem(
            alias_map(aliases@),
            alias@,
            alias@,
            Seq::empty(),
            (aliases@.len() + 1) as nat,
        ),
{
    let ghost m = alias_map(aliases@);
    let ghost goal = chain_problem(m, alias@, alias@, Seq::empty(), (aliases@.len() + 1) as nat);
    let mut visited: Vec<String> = Vec::new();
    let mut current: String = alias.to_owned();
    let mut remaining: usize = aliases.len();
    let mut spare = true;
    assert(strings_model(visited@) =~= Seq::<Seq<char>>::empty());
    loop
        invariant
            m == alias_map(aliases@),
            goal == chain_problem(m, alias@, alias@, Seq::empty(), (aliases@.len() + 1) as nat),
            chain_problem(m, alias@, current@, strings_model(visited@), (remaining + if spare { 1int } else { 0 }) as nat)
                == goal,
        decreases remaining + if spare { 1int } else { 0 },
    {
        if (remaining == 0 && !spare) || seen(&visited, current.as_str()) {
            return Some(message_about("alias '", alias, "' introduces a cycle"));
        }
        let expansion = match alias_lookup(aliases, current.as_str()) {
            Some(e) => e,
            None => {
                return None;
            },
        };
        let word = first_word_of(expansion.as_str());
        if word.as_str().is_empty() {
            return None;
        }
        if crate::text::str_eq(word.as_str(), current.as_str()) {
            return Some(message_about("alias '", alias, "' expands to itself"));
        }
        if alias_lookup(aliases, word.as_str()).is_none() {
            return None;
        }
        let ghost prev = visited@;
        visited.push(current);
        assert(strings_model(visited@) =~= strings_model(prev).push(current@));
        current = word;
        if remaining > 0 {
            remaining = remaining - 1;
        } else {
            spare = false;
        }
    }
}

pub open spec fn opt_str_view(o: Option<String>) -> Option<Seq<char>> {
    match o {
        Some(s) => Some(s@),
        None => None,
    }
}

/// Checks the alias definitions: every expansion must split into at least
/// one argument, and no alias may lead back to itself through the first
/// words of the expansions.
pub fn validate_alias_definitions(aliases: &Vec<(String, String)>) -> (r: Result<(), AppError>)
    ensures
        match first_expansion_problem(aliases@, 0) {
            Some(p) => fails_input(r, p),
            None => match first_chain_problem(aliases@, 0) {
                Some(p) => fails_input(r, p),
                None => r is Ok,
            },
        },
{
    let mut i: usize = 0;
    while i < aliases.len()
        invariant
            i <= aliases@.len(),
            first_expansion_problem(aliases@, 0) == first_expansion_problem(aliases@, i as int),
        decreases aliases@.len() - i,
    {
        let name = aliases[i].0.as_str();
        match parse_command_line(aliases[i].1.as_str()) {
            Err(_) => {
                let m = message_about("alias '", name, "' invalid: invalid_input - unterminated quote in command");
                return Err(AppError::invalid_input(m.as_str()));
            },
            Ok(tokens) => {
                if tokens.len() == 0 {
                    assert(strings_model(tokens@).len() == 0);
                    let m = message_about("alias '", name, "' has empty expansion");
                    return Err(AppError::invalid_input(m.as_str()));
                }
                assert(strings_model(tokens@).len() == tokens@.len());
            },
        }
        i = i + 1;
    }
    let mut j: usize = 0;
    while j < aliases.len()
        invariant
            j <= aliases@.len(),
            first_expansion_problem(aliases@, 0) is None,
            first_chain_problem(aliases@, 0) == first_chain_problem(aliases@, j as int),
        decreases aliases@.len() - j,
    {
        match chain_check(aliases, aliases[j].0.as_str()) {
            Some(m) => {
                return Err(AppError::invalid_input(m.as_str()));
            },
            None => {},
        }
        j = j + 1;
    }
    Ok(())
}

} // verus!
