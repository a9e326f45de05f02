//! Command parser: simple commands (`!!ping`) and advanced commands
//! (`<img> -u https://... --scale=2`).
use vstd::prelude::*;

use crate::strmap::StrMap;
use crate::text::{
    chars_of, find_char, first_index_of, has_prefix, lemma_first_index_of, push_char, slice_chars,
    split_whitespace, split_ws, starts_with, string_of, trim, trim_chars, utf8_len,
    utf8_len_gt,
};

verus! {

// ── configuration ────────────────────────────────────────────────────────────

/// The `[parser]` section of the runtime configuration.
pub struct ParserConfig {
    /// Prefix of simple commands, `"!!"` by default.
    pub cmd_prefix: String,
}

pub open spec fn default_prefix_spec() -> Seq<char> {
    seq!['!', '!']
}

impl ParserConfig {
    /// The default simple-command prefix.
    pub fn default_prefix() -> (s: String)
        ensures
            s@ == default_prefix_spec(),
    {
        let mut s = String::new();
        push_char(&mut s, '!');
        push_char(&mut s, '!');
        s
    }
}

impl Default for ParserConfig {
    fn default() -> (c: Self)
        ensures
            c.cmd_prefix@ == default_prefix_spec(),
    {
        ParserConfig { cmd_prefix: ParserConfig::default_prefix() }
    }
}

// ── parameter values and the parameter map ───────────────────────────────────

/// A parameter value: a flag (`-f`, `--force`) or a string value.
#[derive(Debug, Clone, PartialEq)]
pub enum ParamValue {
    Flag,
    Value(String),
}

/// Mathematical view of a parameter value.
pub enum ParamValueView {
    Flag,
    Value(Seq<char>),
}

impl View for ParamValue {
    type V = ParamValueView;

    open spec fn view(&self) -> ParamValueView {
        match self {
            ParamValue::Flag => ParamValueView::Flag,
            ParamValue::Value(s) => ParamValueView::Value(s@),
        }
    }
}

impl ParamValue {
    /// The string value, or `None` for a flag.
    pub fn as_str(&self) -> (r: Option<&str>)
        ensures
            match self@ {
                ParamValueView::Flag => r is None,
                ParamValueView::Value(v) => r matches Some(s) && s@ == v,
            },
    {
        match self {
            ParamValue::Value(s) => Some(s.as_str()),
            ParamValue::Flag => None,
        }
    }

    /// Whether this is a flag.
    pub fn is_flag(&self) -> (b: bool)
        ensures
            b == (self@ is Flag),
    {
        match self {
            ParamValue::Flag => true,
            ParamValue::Value(_) => false,
        }
    }
}

/// Map from parameter key (such as `"-u"` or `"--count"`) to its value.
/// Inserting a key that is present replaces its value.
pub type ParamMap = StrMap<ParamValue>;

// ── parse results ────────────────────────────────────────────────────────────

/// Output of the command parser.
#[derive(Debug, PartialEq)]
pub enum ParsedCommand {
    /// `!!ping`; `trailing` keeps every token after the name.
    Simple { name: String, trailing: Vec<String> },
    /// `<img> -u https://... --scale=2`
    Advanced { name: String, params: ParamMap },
}

/// Mathematical view of a parse result.
pub enum ParsedView {
    Simple { name: Seq<char>, trailing: Seq<Seq<char>> },
    Advanced { name: Seq<char>, params: Map<Seq<char>, ParamValueView> },
}

impl View for ParsedCommand {
    type V = ParsedView;

    open spec fn view(&self) -> ParsedView {
        match self {
            ParsedCommand::Simple { name, trailing } => ParsedView::Simple {
                name: name@,
                trailing: trailing@.map_values(|t: String| t@),
            },
            ParsedCommand::Advanced { name, params } => ParsedView::Advanced {
                name: name@,
                params: params@,
            },
        }
    }
}

// ── specification of the parser ──────────────────────────────────────────────

/// Tokenizer state after a prefix of the input: finished tokens, current token,
/// and whether a double quote is open.
pub open spec fn shell_state(s: Seq<char>) -> (Seq<Seq<char>>, Seq<char>, bool)
    decreases s.len(),
{
    if s.len() == 0 {
        (Seq::empty(), Seq::empty(), false)
    } else {
        let st = shell_state(s.drop_last());
        let c = s.last();
        if c == '"' {
            (st.0, st.1, !st.2)
        } else if (c == ' ' || c == '\t') && !st.2 {
            if st.1.len() > 0 {
                (st.0.push(st.1), Seq::empty(), st.2)
            } else {
                st
            }
        } else {
            (st.0, st.1.push(c), st.2)
        }
    }
}

/// Shell-style split: spaces and tabs separate tokens except inside double
/// quotes; the quote characters themselves are dropped.
pub open spec fn shell_split_spec(s: Seq<char>) -> Seq<Seq<char>> {
    let st = shell_state(s);
    if st.1.len() > 0 {
        st.0.push(st.1)
    } else {
        st.0
    }
}

pub open spec fn dash() -> Seq<char> {
    seq!['-']
}

pub open spec fn dash2() -> Seq<char> {
    seq!['-', '-']
}

pub open spec fn contains_char(s: Seq<char>, c: char) -> bool {
    first_index_of(s, c) is Some
}

/// Inserts `-c` as a flag for every character `c` of `cs`, in order.
pub open spec fn insert_flags(
    m: Map<Seq<char>, ParamValueView>,
    cs: Seq<char>,
) -> Map<Seq<char>, ParamValueView>
    decreases cs.len(),
{
    if cs.len() == 0 {
        m
    } else {
        insert_flags(m.insert(seq!['-', cs[0]], ParamValueView::Flag), cs.drop_first())
    }
}

/// Key and value of a `key=value` token, split at the first `=`.
pub open spec fn split_eq(t: Seq<char>) -> (Seq<char>, Seq<char>) {
    let e = first_index_of(t, '=')->0;
    (t.take(e), t.skip(e + 1))
}

/// Whether a token can serve as the value of the preceding option.
pub open spec fn takes_value(toks: Seq<Seq<char>>, i: int) -> bool {
    i + 1 < toks.len() && !starts_with(toks[i + 1], dash())
}

/// Parameters collected from tokens `toks[i..]`, starting from the map `m`.
pub open spec fn params_from(
    toks: Seq<Seq<char>>,
    i: int,
    m: Map<Seq<char>, ParamValueView>,
) -> Map<Seq<char>, ParamValueView>
    decreases toks.len() - i,
{
    if i < 0 || i >= toks.len() {
        m
    } else {
        let t = toks[i];
        if starts_with(t, dash2()) && contains_char(t, '=') {
            params_from(toks, i + 1, m.insert(split_eq(t).0, ParamValueView::Value(split_eq(t).1)))
        } else if starts_with(t, dash2()) {
            if utf8_len(t) <= 3 {
                params_from(toks, i + 1, m)
            } else if takes_value(toks, i) {
                params_from(toks, i + 2, m.insert(t, ParamValueView::Value(toks[i + 1])))
            } else {
                params_from(toks, i + 1, m.insert(t, ParamValueView::Flag))
            }
        } else if starts_with(t, dash()) && contains_char(t, '=') {
            params_from(toks, i + 1, m.insert(split_eq(t).0, ParamValueView::Value(split_eq(t).1)))
        } else if starts_with(t, dash()) && utf8_len(t) > 2 {
            params_from(toks, i + 1, insert_flags(m, t.skip(1)))
        } else if starts_with(t, dash()) {
            if takes_value(toks, i) {
                params_from(toks, i + 2, m.insert(t, ParamValueView::Value(toks[i + 1])))
            } else {
                params_from(toks, i + 1, m.insert(t, ParamValueView::Flag))
            }
        } else {
            params_from(toks, i + 1, m)
        }
    }
}

/// The parameter map described by an argument string.
pub open spec fn parse_params_spec(input: Seq<char>) -> Map<Seq<char>, ParamValueView> {
    params_from(shell_split_spec(input), 0, Map::empty())
}

/// Result of parsing a trimmed input that starts with the simple prefix.
pub open spec fn parse_simple_spec(s: Seq<char>, prefix: Seq<char>) -> Option<ParsedView> {
    let toks = split_ws(s.skip(prefix.len() as int));
    if toks.len() == 0 {
        None
    } else {
        Some(ParsedView::Simple { name: toks[0], trailing: toks.drop_first() })
    }
}

/// Result of parsing a trimmed input of the form `<name> params`.
pub open spec fn parse_advanced_spec(s: Seq<char>) -> Option<ParsedView> {
    let close = first_index_of(s, '>')->0;
    let name = trim(s.subrange(1, close));
    if name.len() == 0 {
        None
    } else {
        Some(ParsedView::Advanced { name, params: parse_params_spec(s.skip(close + 1)) })
    }
}

/// The command an input denotes, if any.
pub open spec fn parse_spec(input: Seq<char>, prefix: Seq<char>) -> Option<ParsedView> {
    let s = trim(input);
    if starts_with(s, prefix) {
        parse_simple_spec(s, prefix)
    } else if starts_with(s, seq!['<']) && contains_char(s, '>') {
        parse_advanced_spec(s)
    } else {
        None
    }
}

/// Whether an input looks like a command (quick prefix check).
pub open spec fn is_command_spec(input: Seq<char>, prefix: Seq<char>) -> bool {
    let s = trim(input);
    starts_with(s, prefix) || (starts_with(s, seq!['<']) && contains_char(s, '>'))
}

/// Whatever parses as a command also passes the quick command check.
pub proof fn law_parse_implies_is_command(input: Seq<char>, prefix: Seq<char>)
    ensures
        parse_spec(input, prefix) is Some ==> is_command_spec(input, prefix),
{
}

// ── executable parser ────────────────────────────────────────────────────────

/// Shell-style tokenizer (double quotes keep spaces; no escapes).
pub fn shell_split(input: &[char]) -> (r: Vec<Vec<char>>)
    ensures
        r@.len() == shell_split_spec(input@).len(),
        forall|i: int| 0 <= i < r@.len() ==> #[trigger] r@[i]@ == shell_split_spec(input@)[i],
{
    let mut toks: Vec<Vec<char>> = Vec::new();
    let mut cur: Vec<char> = Vec::new();
    let mut in_quotes = false;
    let mut i: usize = 0;
    while i < input.len()
        invariant
            i <= input.len(),
            toks@.len() == shell_state(input@.take(i as int)).0.len(),
            forall|j: int| 0 <= j < toks@.len() ==> #[trigger] toks@[j]@ == shell_state(input@.take(i as int)).0[j],
            cur@ == shell_state(input@.take(i as int)).1,
            in_quotes == shell_state(input@.take(i as int)).2,
        decreases input.len() - i,
    {
        assert(input@.take(i as int + 1).drop_last() =~= input@.take(i as int));
        let c = input[i];
        if c == '"' {
            in_quotes = !in_quotes;
        } else if (c == ' ' || c == '\t') && !in_quotes {
            if cur.len() > 0 {
                toks.push(cur);
                cur = Vec::new();
            }
        } else {
            cur.push(c);
        }
        i += 1;
    }
    assert(input@.take(input.len() as int) =~= input@);
    if cur.len() > 0 {
        toks.push(cur);
    }
    toks
}

/// Splits a `key=value` token at its first `=`.
fn split_at_eq(t: &[char]) -> (r: (String, String))
    requires
        contains_char(t@, '='),
    ensures
        r.0@ == split_eq(t@).0,
        r.1@ == split_eq(t@).1,
{
    proof { lemma_first_index_of(t@, '='); }
    let e = find_char(t, '=').unwrap();
    let k = slice_chars(t, 0, e);
    let v = slice_chars(t, e + 1, t.len());
    assert(k@ =~= t@.take(e as int));
    assert(v@ =~= t@.skip(e as int + 1));
    (string_of(&k), string_of(&v))
}

pub struct CommandParser;

impl CommandParser {
    /// Parses an input as a command. `prefix` starts simple commands; `<name>`
    /// starts advanced commands. Returned names carry no prefix.
    pub fn parse(input: &str, prefix: &str) -> (r: Option<ParsedCommand>)
        ensures
            match r {
                Some(c) => parse_spec(input@, prefix@) == Some(c@),
                None => parse_spec(input@, prefix@) is None,
            },
    {
        let raw = chars_of(input);
        let s = trim_chars(&raw);
        let p = chars_of(prefix);
        if has_prefix(&s, &p) {
            Self::parse_simple(&s, &p)
        } else if s.len() > 0 && s[0] == '<' && find_char(&s, '>').is_some() {
            proof {
                assert(starts_with(s@, seq!['<'])) by {
                    assert(s@.take(1) =~= seq!['<']);
                }
            }
            Self::parse_advanced(&s)
        } else {
            proof {
                if s.len() > 0 && starts_with(s@, seq!['<']) {
                    assert(s@.take(1)[0] == '<');
                }
            }
            None
        }
    }

    /// Quick check whether an input looks like a command.
    pub fn is_command(input: &str, prefix: &str) -> (b: bool)
        ensures
            b == is_command_spec(input@, prefix@),
    {
        let raw = chars_of(input);
        let s = trim_chars(&raw);
        let p = chars_of(prefix);
        let lt = s.len() > 0 && s[0] == '<';
        proof {
            if lt {
                assert(s@.take(1) =~= seq!['<']);
            } else if s.len() > 0 && starts_with(s@, seq!['<']) {
                assert(s@.take(1)[0] == '<');
            }
        }
        has_prefix(&s, &p) || (lt && find_char(&s, '>').is_some())
    }

    fn parse_simple(s: &Vec<char>, p: &Vec<char>) -> (r: Option<ParsedCommand>)
        requires
            starts_with(s@, p@),
        ensures
            match r {
                Some(c) => parse_simple_spec(s@, p@) == Some(c@),
                None => parse_simple_spec(s@, p@) is None,
            },
    {
        let rest = slice_chars(s, p.len(), s.len());
        assert(rest@ =~= s@.skip(p.len() as int));
        let toks = split_whitespace(&rest);
        if toks.len() == 0 {
            return None;
        }
        let name = string_of(&toks[0]);
        let mut trailing: Vec<String> = Vec::new();
        let mut i: usize = 1;
        while i < toks.len()
            invariant
                1 <= i <= toks@.len(),
                trailing@.len() == i - 1,
                forall|j: int| 0 <= j < i - 1 ==> #[trigger] trailing@[j]@ == toks@[j + 1]@,
            decreases toks.len() - i,
        {
            trailing.push(string_of(&toks[i]));
            i += 1;
        }
        let r = ParsedCommand::Simple { name, trailing };
        proof {
            let sp = split_ws(s@.skip(p.len() as int));
            assert(trailing@.map_values(|t: String| t@) =~= sp.drop_first()) by {
                assert forall|j: int| 0 <= j < trailing@.len() implies trailing@.map_values(|t: String| t@)[j] == sp.drop_first()[j] by {
                    assert(trailing@[j]@ == toks@[j + 1]@);
                }
            }
        }
        Some(r)
    }

    fn parse_advanced(s: &Vec<char>) -> (r: Option<ParsedCommand>)
        requires
            contains_char(s@, '>'),
            starts_with(s@, seq!['<']),
        ensures
            match r {
                Some(c) => parse_advanced_spec(s@) == Some(c@),
                None => parse_advanced_spec(s@) is None,
            },
    {
        proof {
            lemma_first_index_of(s@, '>');
            assert(s@.take(1)[0] == '<');
        }
        let close = find_char(s, '>').unwrap();
        let inner = slice_chars(s, 1, close);
        let name_chars = trim_chars(&inner);
        if name_chars.len() == 0 {
            return None;
        }
        let rest = slice_chars(s, close + 1, s.len());
        assert(rest@ =~= s@.skip(close as int + 1));
        let params = Self::params_of(&rest);
        let name = string_of(&name_chars);
        Some(ParsedCommand::Advanced { name, params })
    }

    /// Parses the parameter part of an advanced command:
    /// `-x val`, `-abc` (three flags), `--key val`, `--key=val`, `-x=val`, `--flag`.
    /// Bare words are ignored; `--` and `--x` are rejected.
    pub fn parse_params(input: &str) -> (m: ParamMap)
        ensures
            m@ == parse_params_spec(input@),
    {
        let cs = chars_of(input);
        Self::params_of(&cs)
    }

    fn params_of(input: &Vec<char>) -> (m: ParamMap)
        ensures
            m@ == parse_params_spec(input@),
    {
        let tokens = shell_split(input);
        let ghost toks = shell_split_spec(input@);
        assert(tokens@.len() == toks.len());
        let mut params = ParamMap::new();
        let mut i: usize = 0;
        while i < tokens.len()
            invariant
                i <= tokens@.len() + 1,
                tokens@.len() == toks.len(),
                forall|j: int| 0 <= j < tokens@.len() ==> #[trigger] tokens@[j]@ == toks[j],
                params_from(toks, i as int, params@) == params_from(toks, 0, Map::empty()),
            decreases tokens@.len() + 1 - i,
        {
            let token = &tokens[i];
            assert(token@ == toks[i as int]);
            let long = token.len() >= 2 && token[0] == '-' && token[1] == '-';
            let short = token.len() >= 1 && token[0] == '-';
            proof {
                if token.len() >= 2 {
                    assert(token@.take(2) =~= seq![token@[0], token@[1]]);
                }
                if token.len() >= 1 {
                    assert(token@.take(1) =~= seq![token@[0]]);
                }
                if token.len() >= 1 {
                    assert(seq![token@[0]][0] == token@[0]);
                    assert(dash()[0] == '-');
                }
                if token.len() >= 2 {
                    assert(seq![token@[0], token@[1]][0] == token@[0]);
                    assert(seq![token@[0], token@[1]][1] == token@[1]);
                    assert(dash2()[0] == '-' && dash2()[1] == '-');
                }
                assert(long == starts_with(toks[i as int], dash2()));
                assert(short == starts_with(toks[i as int], dash()));
            }
            let has_eq = find_char(token, '=').is_some();
            if long && has_eq {
                let (k, v) = split_at_eq(token);
                params.insert(k, ParamValue::Value(v));
                i += 1;
            } else if long {
                if !utf8_len_gt(token, 3) {
                    i += 1;
                } else {
                    let next_ok = i + 1 < tokens.len() && !(tokens[i + 1].len() >= 1 && tokens[i + 1][0] == '-');
                    proof {
                        if i + 1 < tokens.len() {
                            let nt = tokens@[i + 1]@;
                            assert(nt == toks[i + 1]);
                            if nt.len() >= 1 {
                                assert(nt.take(1) =~= seq![nt[0]]);
                            }
                        }
                    }
                    if next_ok {
                        let v = string_of(&tokens[i + 1]);
                        params.insert(string_of(token), ParamValue::Value(v));
                        i += 2;
                    } else {
                        params.insert(string_of(token), ParamValue::Flag);
                        i += 1;
                    }
                }
            } else if short && has_eq {
                let (k, v) = split_at_eq(token);
                params.insert(k, ParamValue::Value(v));
                i += 1;
            } else if short && utf8_len_gt(token, 2) {
                let ghost m0 = params@;
                let mut j: usize = 1;
                while j < token.len()
                    invariant
                        1 <= j <= token@.len(),
                        insert_flags(params@, token@.skip(j as int)) == insert_flags(m0, token@.skip(1)),
                    decreases token@.len() - j,
                {
                    let mut key = String::new();
                    push_char(&mut key, '-');
                    push_char(&mut key, token[j]);
                    assert(key@ =~= seq!['-', token@[j as int]]);
                    assert(token@.skip(j as int).drop_first() =~= token@.skip(j as int + 1));
                    params.insert(key, ParamValue::Flag);
                    j += 1;
                }
                assert(token@.skip(token@.len() as int) =~= Seq::<char>::empty());
                i += 1;
            } else if short {
                let next_ok = i + 1 < tokens.len() && !(tokens[i + 1].len() >= 1 && tokens[i + 1][0] == '-');
                proof {
                    if i + 1 < tokens.len() {
                        let nt = tokens@[i + 1]@;
                        assert(nt == toks[i + 1]);
                        if nt.len() >= 1 {
                            assert(nt.take(1) =~= seq![nt[0]]);
                        }
                    }
                }
                if next_ok {
                    let v = string_of(&tokens[i + 1]);
                    params.insert(string_of(token), ParamValue::Value(v));
                    i += 2;
                } else {
                    params.insert(string_of(token), ParamValue::Flag);
                    i += 1;
                }
            } else {
                i += 1;
            }
        }
        params
    }
}


// ── laws of parameter parsing ────────────────────────────────────────────────

/// Whether `k` is `-c` for some character `c` of `cs`.
pub open spec fn flag_key_of(cs: Seq<char>, k: Seq<char>) -> bool {
    exists|j: int| 0 <= j < cs.len() && k == seq!['-', cs[j]]
}

/// Inserting combined flags sets `-c` to a flag for every character `c`
/// and leaves every other key as it was.
pub proof fn law_insert_flags(m: Map<Seq<char>, ParamValueView>, cs: Seq<char>, k: Seq<char>)
    ensures
        flag_key_of(cs, k) ==> insert_flags(m, cs).contains_key(k) && insert_flags(m, cs)[k] == ParamValueView::Flag,
        !flag_key_of(cs, k) ==> insert_flags(m, cs).contains_key(k) == m.contains_key(k) && (m.contains_key(k)
            ==> insert_flags(m, cs)[k] == m[k]),
    decreases cs.len(),
{
    if cs.len() > 0 {
        let rest = cs.drop_first();
        let m1 = m.insert(seq!['-', cs[0]], ParamValueView::Flag);
        law_insert_flags(m1, rest, k);
        if flag_key_of(cs, k) && !flag_key_of(rest, k) {
            let j = choose|j: int| 0 <= j < cs.len() && k == seq!['-', cs[j]];
            if j > 0 {
                assert(k == seq!['-', rest[j - 1]]);
            }
        }
        if flag_key_of(rest, k) {
            let j = choose|j: int| 0 <= j < rest.len() && k == seq!['-', rest[j]];
            assert(k == seq!['-', cs[j + 1]]);
        }
        if !flag_key_of(cs, k) {
            assert(k != seq!['-', cs[0]]);
        }
    }
}

proof fn lemma_utf8_len_at_least(t: Seq<char>)
    ensures
        utf8_len(t) >= t.len(),
    decreases t.len(),
{
    if t.len() > 0 {
        lemma_utf8_len_at_least(t.drop_last());
    }
}

proof fn lemma_single_token_state(t: Seq<char>)
    requires
        forall|j: int| 0 <= j < t.len() ==> t[j] != '"' && t[j] != ' ' && t[j] != '\t',
    ensures
        shell_state(t) == (Seq::<Seq<char>>::empty(), t, false),
    decreases t.len(),
{
    if t.len() > 0 {
        lemma_single_token_state(t.drop_last());
        assert(t.drop_last().push(t.last()) =~= t);
    }
}

/// A combined short-flag token such as `-abc` (a dash, then two or more
/// characters, none of them `-` first, `=`, a quote or a blank) gives the
/// flag `-c` for every character `c` after the dash, and nothing else.
pub proof fn law_combined_flags(t: Seq<char>)
    requires
        t.len() >= 3,
        t[0] == '-',
        t[1] != '-',
        forall|j: int| 0 <= j < t.len() ==> t[j] != '"' && t[j] != ' ' && t[j] != '\t' && t[j] != '=',
    ensures
        forall|j: int| 1 <= j < t.len() ==> parse_params_spec(t).contains_key(#[trigger] seq!['-', t[j]])
            && parse_params_spec(t)[seq!['-', t[j]]] == ParamValueView::Flag,
        forall|k: Seq<char>| parse_params_spec(t).contains_key(k) ==> flag_key_of(t.skip(1), k),
{
    lemma_single_token_state(t);
    let toks = shell_split_spec(t);
    assert(toks =~= seq![t]);
    lemma_utf8_len_at_least(t);
    lemma_first_index_of(t, '=');
    assert(!starts_with(t, dash2())) by {
        assert(t.take(2)[1] != dash2()[1]);
    }
    assert(starts_with(t, dash())) by {
        assert(t.take(1) =~= dash());
    }
    let cs = t.skip(1);
    assert(parse_params_spec(t) == params_from(toks, 1, insert_flags(Map::empty(), cs)));
    assert(parse_params_spec(t) == insert_flags(Map::<Seq<char>, ParamValueView>::empty(), cs));
    assert forall|j: int| 1 <= j < t.len() implies parse_params_spec(t).contains_key(#[trigger] seq!['-', t[j]])
        && parse_params_spec(t)[seq!['-', t[j]]] == ParamValueView::Flag by {
        assert(seq!['-', t[j]] == seq!['-', cs[j - 1]]);
        law_insert_flags(Map::empty(), cs, seq!['-', t[j]]);
    }
    assert forall|k: Seq<char>| parse_params_spec(t).contains_key(k) implies flag_key_of(cs, k) by {
        law_insert_flags(Map::empty(), cs, k);
    }
}

} // verus!
