//! Command metadata, help texts and parameter validation.
use vstd::prelude::*;

use crate::parser::{ParamMap, ParamValue, ParamValueView};
use crate::permission::Role;
use crate::text::{
    chars_of, dec_int, first_index_of, join, join_strings, lemma_first_index_of, pad_right,
    parse_i64, parse_i64_spec, push_i64, push_padded, push_str, str_eq, views,
};

verus! {

/// Whether a command is simple (`!!name`) or advanced (`<name> params`).
#[derive(Debug, Clone, Copy, PartialEq, Eq, Structural)]
pub enum CommandKind {
    Simple,
    Advanced,
}

/// Constraint on a parameter value.
pub enum ValueConstraint {
    Any,
    Integer { min: Option<i64>, max: Option<i64> },
    OneOf(Vec<String>),
}

pub enum ConstraintView {
    Any,
    Integer { min: Option<i64>, max: Option<i64> },
    OneOf(Seq<Seq<char>>),
}

impl View for ValueConstraint {
    type V = ConstraintView;

    open spec fn view(&self) -> ConstraintView {
        match self {
            ValueConstraint::Any => ConstraintView::Any,
            ValueConstraint::Integer { min, max } => ConstraintView::Integer { min: *min, max: *max },
            ValueConstraint::OneOf(v) => ConstraintView::OneOf(views(v@)),
        }
    }
}

/// A parameter is a flag or takes a constrained value.
pub enum ParamKind {
    Flag,
    Value(ValueConstraint),
}

pub enum ParamKindView {
    Flag,
    Value(ConstraintView),
}

impl View for ParamKind {
    type V = ParamKindView;

    open spec fn view(&self) -> ParamKindView {
        match self {
            ParamKind::Flag => ParamKindView::Flag,
            ParamKind::Value(c) => ParamKindView::Value(c@),
        }
    }
}

/// A declared parameter: its keys (such as `-n` and `--count`), kind,
/// whether it is required, and a help line.
pub struct ParamSpec {
    pub keys: Vec<String>,
    pub kind: ParamKind,
    pub required: bool,
    pub help: String,
}

pub struct ParamSpecView {
    pub keys: Seq<Seq<char>>,
    pub kind: ParamKindView,
    pub required: bool,
    pub help: Seq<char>,
}

impl View for ParamSpec {
    type V = ParamSpecView;

    open spec fn view(&self) -> ParamSpecView {
        ParamSpecView { keys: views(self.keys@), kind: self.kind@, required: self.required, help: self.help@ }
    }
}

pub open spec fn spec_views(v: Seq<ParamSpec>) -> Seq<ParamSpecView> {
    v.map_values(|s: ParamSpec| s@)
}

/// Something a command needs at run time.
#[derive(Debug, Clone, Copy, PartialEq, Eq, Structural)]
pub enum Dependency {
    /// The message pool.
    Pool,
}

/// Metadata of a command: everything the router reads about it.
pub struct CommandInfo {
    pub name: String,
    pub aliases: Vec<String>,
    pub kind: CommandKind,
    /// Help text; its first line is the brief description.
    pub help: String,
    pub required_role: Role,
    /// Whether a simple command accepts trailing arguments.
    pub accepts_trailing: bool,
    pub params: Vec<ParamSpec>,
    /// Description offered to the language model as a tool, if any.
    pub tool_description: Option<String>,
    pub dependencies: Vec<Dependency>,
}

// ── help texts ───────────────────────────────────────────────────────────────

/// `"{name} — {help}"`.
pub open spec fn brief_help_spec(name: Seq<char>, help: Seq<char>) -> Seq<char> {
    name + " — "@ + help
}

/// The type tag of a parameter in the full help.
pub open spec fn type_tag_spec(k: ParamKindView) -> Seq<char> {
    match k {
        ParamKindView::Flag => Seq::empty(),
        ParamKindView::Value(ConstraintView::Any) => " <字符串>"@,
        ParamKindView::Value(ConstraintView::Integer { min, max }) => match (min, max) {
            (Some(lo), Some(hi)) => " <整数 "@ + dec_int(lo as int) + "-"@ + dec_int(hi as int) + ">"@,
            (Some(lo), None) => " <整数 ≥"@ + dec_int(lo as int) + ">"@,
            (None, Some(hi)) => " <整数 ≤"@ + dec_int(hi as int) + ">"@,
            (None, None) => " <整数>"@,
        },
        ParamKindView::Value(ConstraintView::OneOf(choices)) => " <"@ + join(choices, "|"@) + ">"@,
    }
}

/// One parameter line of the full help.
pub open spec fn param_line_spec(p: ParamSpecView) -> Seq<char> {
    "  "@ + pad_right(join(p.keys, ", "@) + type_tag_spec(p.kind), 24) + "  "@
        + (if p.required { "[必填]"@ } else { "[可选]"@ }) + "  "@ + p.help
}

pub open spec fn param_lines_spec(ps: Seq<ParamSpecView>) -> Seq<Seq<char>> {
    ps.map_values(|p: ParamSpecView| param_line_spec(p))
}

/// Full help: the brief line, then a table of the declared parameters.
pub open spec fn full_help_spec(name: Seq<char>, help: Seq<char>, ps: Seq<ParamSpecView>) -> Seq<char> {
    if ps.len() == 0 {
        brief_help_spec(name, help)
    } else {
        join(seq![brief_help_spec(name, help), Seq::empty(), "参数："@] + param_lines_spec(ps), "\n"@)
    }
}

fn type_tag(k: &ParamKind) -> (s: String)
    ensures
        s@ == type_tag_spec(k@),
{
    let mut s = String::new();
    match k {
        ParamKind::Flag => {},
        ParamKind::Value(ValueConstraint::Any) => push_str(&mut s, " <字符串>"),
        ParamKind::Value(ValueConstraint::Integer { min, max }) => match (min, max) {
            (Some(lo), Some(hi)) => {
                push_str(&mut s, " <整数 ");
                push_i64(&mut s, *lo);
                push_str(&mut s, "-");
                push_i64(&mut s, *hi);
                push_str(&mut s, ">");
            },
            (Some(lo), None) => {
                push_str(&mut s, " <整数 ≥");
                push_i64(&mut s, *lo);
                push_str(&mut s, ">");
            },
            (None, Some(hi)) => {
                push_str(&mut s, " <整数 ≤");
                push_i64(&mut s, *hi);
                push_str(&mut s, ">");
            },
            (None, None) => push_str(&mut s, " <整数>"),
        },
        ParamKind::Value(ValueConstraint::OneOf(choices)) => {
            push_str(&mut s, " <");
            let j = join_strings(choices, "|");
            push_str(&mut s, j.as_str());
            push_str(&mut s, ">");
        },
    }
    s
}

fn param_line(p: &ParamSpec) -> (s: String)
    ensures
        s@ == param_line_spec(p@),
{
    let mut col = join_strings(&p.keys, ", ");
    let tag = type_tag(&p.kind);
    push_str(&mut col, tag.as_str());
    let mut s = String::new();
    push_str(&mut s, "  ");
    push_padded(&mut s, col.as_str(), 24);
    push_str(&mut s, "  ");
    if p.required {
        push_str(&mut s, "[必填]");
    } else {
        push_str(&mut s, "[可选]");
    }
    push_str(&mut s, "  ");
    push_str(&mut s, p.help.as_str());
    s
}

/// `"{name} — {help}"` for a command.
pub fn brief_help(cmd: &CommandInfo) -> (s: String)
    ensures
        s@ == brief_help_spec(cmd.name@, cmd.help@),
{
    let mut s = String::new();
    push_str(&mut s, cmd.name.as_str());
    push_str(&mut s, " — ");
    push_str(&mut s, cmd.help.as_str());
    s
}

/// Full help text (triggered by `--help`): the brief line plus a table of
/// the declared parameters.
pub fn format_full_help(cmd: &CommandInfo) -> (s: String)
    ensures
        s@ == full_help_spec(cmd.name@, cmd.help@, spec_views(cmd.params@)),
{
    let header = brief_help(cmd);
    if cmd.params.len() == 0 {
        return header;
    }
    let mut lines: Vec<String> = Vec::new();
    lines.push(header);
    lines.push(String::new());
    let mut t = String::new();
    push_str(&mut t, "参数：");
    lines.push(t);
    let ghost head = views(lines@);
    let mut i: usize = 0;
    while i < cmd.params.len()
        invariant
            i <= cmd.params@.len(),
            head.len() == 3,
            views(lines@) =~= head + param_lines_spec(spec_views(cmd.params@)).take(i as int),
        decreases cmd.params.len() - i,
    {
        let l = param_line(&cmd.params[i]);
        assert(param_lines_spec(spec_views(cmd.params@))[i as int] == param_line_spec(cmd.params@[i as int]@));
        let ghost before = lines@;
        lines.push(l);
        assert(views(lines@) =~= views(before).push(l@));
        assert(param_lines_spec(spec_views(cmd.params@)).take(i as int + 1)
            =~= param_lines_spec(spec_views(cmd.params@)).take(i as int).push(l@));
        i += 1;
    }
    assert(param_lines_spec(spec_views(cmd.params@)).take(cmd.params@.len() as int)
        =~= param_lines_spec(spec_views(cmd.params@)));
    assert(head =~= seq![brief_help_spec(cmd.name@, cmd.help@), Seq::empty(), "参数："@]);
    join_strings(&lines, "\n")
}

/// Answers a help request: `--help` gives the full help, `-h` the brief line,
/// anything else nothing. `has_flag` tells whether the request carries a flag.
pub fn try_help<F: Fn(&str) -> bool>(cmd: &CommandInfo, has_flag: F) -> (r: Option<String>)
    requires
        forall|s: &str| has_flag.requires((s,)),
    ensures
        match r {
            Some(t) => (t@ == full_help_spec(cmd.name@, cmd.help@, spec_views(cmd.params@))
                && has_flag.ensures(("--help",), true))
                || (t@ == brief_help_spec(cmd.name@, cmd.help@) && has_flag.ensures(("--help",), false)
                && has_flag.ensures(("-h",), true)),
            None => has_flag.ensures(("--help",), false) && has_flag.ensures(("-h",), false),
        },
{
    let full = has_flag("--help");
    if full {
        return Some(format_full_help(cmd));
    }
    let brief = has_flag("-h");
    if brief {
        return Some(brief_help(cmd));
    }
    None
}

// ── parameter validation ─────────────────────────────────────────────────────

/// Whether `k` is one of the keys declared by the specs.
pub open spec fn declared(specs: Seq<ParamSpecView>, k: Seq<char>) -> bool {
    exists|i: int, j: int| 0 <= i < specs.len() && 0 <= j < specs[i].keys.len() && specs[i].keys[j] == k
}

/// First key (in the given order) that no spec declares.
pub open spec fn first_unknown(keys: Seq<Seq<char>>, specs: Seq<ParamSpecView>) -> Option<Seq<char>>
    decreases keys.len(),
{
    if keys.len() == 0 {
        None
    } else if !declared(specs, keys[0]) {
        Some(keys[0])
    } else {
        first_unknown(keys.drop_first(), specs)
    }
}

/// Whether any key of the spec is present.
pub open spec fn any_present(p: ParamSpecView, m: Map<Seq<char>, ParamValueView>) -> bool {
    exists|j: int| 0 <= j < p.keys.len() && m.contains_key(p.keys[j])
}

/// First required spec none of whose keys is present.
pub open spec fn first_missing(specs: Seq<ParamSpecView>, m: Map<Seq<char>, ParamValueView>) -> Option<ParamSpecView>
    decreases specs.len(),
{
    if specs.len() == 0 {
        None
    } else if specs[0].required && !any_present(specs[0], m) {
        Some(specs[0])
    } else {
        first_missing(specs.drop_first(), m)
    }
}

/// First key of the spec whose parameter carries a string value.
pub open spec fn first_valued_key(keys: Seq<Seq<char>>, m: Map<Seq<char>, ParamValueView>) -> Option<(Seq<char>, Seq<char>)>
    decreases keys.len(),
{
    if keys.len() == 0 {
        None
    } else if m.contains_key(keys[0]) && m[keys[0]] is Value {
        Some((keys[0], m[keys[0]]->Value_0))
    } else {
        first_valued_key(keys.drop_first(), m)
    }
}

pub open spec fn quoted(s: Seq<char>) -> Seq<char> {
    "\""@ + s + "\""@
}

/// The complaint about a value, if the constraint rejects it.
pub open spec fn constraint_error(c: ConstraintView, key: Seq<char>, s: Seq<char>) -> Option<Seq<char>> {
    match c {
        ConstraintView::Any => None,
        ConstraintView::Integer { min, max } => match parse_i64_spec(s) {
            None => Some(key + " 需要整数，收到: "@ + quoted(s)),
            Some(n) => if min is Some && n < min->0 {
                Some(key + " 不能小于 "@ + dec_int(min->0 as int) + "，收到: "@ + dec_int(n as int))
            } else if max is Some && n > max->0 {
                Some(key + " 不能大于 "@ + dec_int(max->0 as int) + "，收到: "@ + dec_int(n as int))
            } else {
                None
            },
        },
        ConstraintView::OneOf(choices) => if choices.contains(s) {
            None
        } else {
            Some(key + " 仅支持: "@ + join(choices, " / "@) + "，收到: "@ + quoted(s))
        },
    }
}

/// First constraint violation, checking only the first valued key of each spec.
pub open spec fn first_violation(specs: Seq<ParamSpecView>, m: Map<Seq<char>, ParamValueView>) -> Option<Seq<char>>
    decreases specs.len(),
{
    if specs.len() == 0 {
        None
    } else {
        let here = match specs[0].kind {
            ParamKindView::Value(c) => match first_valued_key(specs[0].keys, m) {
                Some(kv) => constraint_error(c, kv.0, kv.1),
                None => None,
            },
            ParamKindView::Flag => None,
        };
        if here is Some {
            here
        } else {
            first_violation(specs.drop_first(), m)
        }
    }
}

/// Outcome of validating parameters against declared specs: the first
/// unknown key, else the first missing required parameter, else the first
/// constraint violation.
pub open spec fn validate_spec(
    keys: Seq<Seq<char>>,
    m: Map<Seq<char>, ParamValueView>,
    specs: Seq<ParamSpecView>,
) -> Result<(), Seq<char>> {
    match first_unknown(keys, specs) {
        Some(k) => Err("未知参数: "@ + k),
        None => match first_missing(specs, m) {
            Some(p) => Err("缺少必填参数: "@ + join(p.keys, " / "@)),
            None => match first_violation(specs, m) {
                Some(msg) => Err(msg),
                None => Ok(()),
            },
        },
    }
}

fn is_declared(specs: &[ParamSpec], k: &str) -> (b: bool)
    ensures
        b == declared(spec_views(specs@), k@),
{
    let ghost sv = spec_views(specs@);
    let mut i: usize = 0;
    while i < specs.len()
        invariant
            i <= specs@.len(),
            sv == spec_views(specs@),
            forall|a: int, j: int| 0 <= a < i && 0 <= j < sv[a].keys.len() ==> sv[a].keys[j] != k@,
        decreases specs.len() - i,
    {
        let mut j: usize = 0;
        while j < specs[i].keys.len()
            invariant
                i < specs@.len(),
                j <= specs@[i as int].keys@.len(),
                sv == spec_views(specs@),
                forall|t: int| 0 <= t < j ==> sv[i as int].keys[t] != k@,
            decreases specs[i as int].keys@.len() - j,
        {
            assert(sv[i as int].keys[j as int] == specs@[i as int].keys@[j as int]@);
            if str_eq(specs[i].keys[j].as_str(), k) {
                return true;
            }
            j += 1;
        }
        i += 1;
    }
    false
}

fn any_key_present(p: &ParamSpec, params: &ParamMap) -> (b: bool)
    ensures
        b == any_present(p@, params@),
{
    let mut j: usize = 0;
    while j < p.keys.len()
        invariant
            j <= p.keys@.len(),
            forall|t: int| 0 <= t < j ==> !params@.contains_key(p@.keys[t]),
        decreases p.keys@.len() - j,
    {
        assert(p@.keys[j as int] == p.keys@[j as int]@);
        if params.contains_key(p.keys[j].as_str()) {
            return true;
        }
        j += 1;
    }
    false
}

fn valued_key<'a>(p: &'a ParamSpec, params: &'a ParamMap) -> (r: Option<(&'a str, &'a str)>)
    ensures
        match first_valued_key(p@.keys, params@) {
            Some(kv) => r matches Some(x) && x.0@ == kv.0 && x.1@ == kv.1,
            None => r is None,
        },
{
    let mut j: usize = 0;
    assert(p@.keys.skip(0) =~= p@.keys);
    while j < p.keys.len()
        invariant
            j <= p.keys@.len(),
            first_valued_key(p@.keys.skip(j as int), params@) == first_valued_key(p@.keys, params@),
        decreases p.keys@.len() - j,
    {
        let k = p.keys[j].as_str();
        let ghost ks = p@.keys.skip(j as int);
        assert(ks[0] == k@);
        assert(ks.drop_first() =~= p@.keys.skip(j as int + 1));
        match params.get(k) {
            Some(ParamValue::Value(s)) => {
                return Some((k, s.as_str()));
            },
            _ => {},
        }
        j += 1;
    }
    assert(p@.keys.skip(p.keys@.len() as int) =~= Seq::<Seq<char>>::empty());
    None
}

fn push_quoted(s: &mut String, v: &str)
    ensures
        final(s)@ == old(s)@ + quoted(v@),
{
    push_str(s, "\"");
    push_str(s, v);
    push_str(s, "\"");
    assert(final(s)@ =~= old(s)@ + quoted(v@));
}

fn contains_str(v: &Vec<String>, x: &str) -> (b: bool)
    ensures
        b == views(v@).contains(x@),
{
    let mut i: usize = 0;
    while i < v.len()
        invariant
            i <= v@.len(),
            forall|j: int| 0 <= j < i ==> v@[j]@ != x@,
        decreases v.len() - i,
    {
        if str_eq(v[i].as_str(), x) {
            assert(views(v@)[i as int] == x@);
            return true;
        }
        i += 1;
    }
    assert forall|j: int| 0 <= j < views(v@).len() implies views(v@)[j] != x@ by {
        assert(views(v@)[j] == v@[j]@);
    }
    false
}

fn check_constraint(c: &ValueConstraint, key: &str, s: &str) -> (r: Option<String>)
    ensures
        match constraint_error(c@, key@, s@) {
            Some(m) => r matches Some(t) && t@ == m,
            None => r is None,
        },
{
    match c {
        ValueConstraint::Any => None,
        ValueConstraint::Integer { min, max } => {
            let cs = chars_of(s);
            match parse_i64(&cs) {
                None => {
                    let mut t = String::new();
                    push_str(&mut t, key);
                    push_str(&mut t, " 需要整数，收到: ");
                    push_quoted(&mut t, s);
                    assert(t@ =~= key@ + " 需要整数，收到: "@ + quoted(s@));
                    Some(t)
                },
                Some(n) => {
                    match min {
                        Some(lo) => {
                            if n < *lo {
                                let mut t = String::new();
                                push_str(&mut t, key);
                                push_str(&mut t, " 不能小于 ");
                                push_i64(&mut t, *lo);
                                push_str(&mut t, "，收到: ");
                                push_i64(&mut t, n);
                                return Some(t);
                            }
                        },
                        None => {},
                    }
                    match max {
                        Some(hi) => {
                            if n > *hi {
                                let mut t = String::new();
                                push_str(&mut t, key);
                                push_str(&mut t, " 不能大于 ");
                                push_i64(&mut t, *hi);
                                push_str(&mut t, "，收到: ");
                                push_i64(&mut t, n);
                                return Some(t);
                            }
                        },
                        None => {},
                    }
                    None
                },
            }
        },
        ValueConstraint::OneOf(choices) => {
            if contains_str(choices, s) {
                None
            } else {
                let mut t = String::new();
                push_str(&mut t, key);
                push_str(&mut t, " 仅支持: ");
                let j = join_strings(choices, " / ");
                push_str(&mut t, j.as_str());
                push_str(&mut t, "，收到: ");
                push_quoted(&mut t, s);
                assert(t@ =~= key@ + " 仅支持: "@ + join(views(choices@), " / "@) + "，收到: "@ + quoted(s@));
                Some(t)
            }
        },
    }
}

/// Checks parameters against the declared specs. Returns the user-visible
/// text of the first problem: an unknown key, a missing required
/// parameter, or a value that breaks its constraint.
pub fn validate_params(params: &ParamMap, specs: &[ParamSpec]) -> (r: Result<(), String>)
    ensures
        match validate_spec(
            params.key_order(),
            params@,
            spec_views(specs@),
        ) {
            Ok(()) => r is Ok,
            Err(m) => r matches Err(t) && t@ == m,
        },
{
    let ghost sv = spec_views(specs@);
    let ghost korder = params.key_order();
    // 1. unknown keys
    let keys = params.keys();
    assert(korder.skip(0) =~= korder);
    let mut i: usize = 0;
    while i < keys.len()
        invariant
            i <= keys@.len(),
            keys@.len() == korder.len(),
            sv == spec_views(specs@),
            korder == params.key_order(),
            forall|j: int| 0 <= j < keys@.len() ==> #[trigger] keys@[j]@ == korder[j],
            first_unknown(korder.skip(i as int), sv) == first_unknown(korder, sv),
        decreases keys.len() - i,
    {
        let k = keys[i];
        let ghost ks = korder.skip(i as int);
        assert(ks[0] == k@);
        assert(ks.drop_first() =~= korder.skip(i as int + 1));
        if !is_declared(specs, k) {
            let mut t = String::new();
            push_str(&mut t, "未知参数: ");
            push_str(&mut t, k);
            assert(t@ =~= "未知参数: "@ + k@);
            assert(first_unknown(ks, sv) == Some(k@));
            assert(first_unknown(korder, sv) == Some(k@));
            return Err(t);
        }
        i += 1;
    }
    assert(korder.skip(keys@.len() as int) =~= Seq::<Seq<char>>::empty());
    // 2. required parameters
    assert(sv.skip(0) =~= sv);
    let mut a: usize = 0;
    while a < specs.len()
        invariant
            a <= specs@.len(),
            sv == spec_views(specs@),
            korder == params.key_order(),
            first_unknown(korder, sv) is None,
            first_missing(sv.skip(a as int), params@) == first_missing(sv, params@),
        decreases specs.len() - a,
    {
        let ghost ss = sv.skip(a as int);
        assert(ss[0] == specs@[a as int]@);
        assert(ss.drop_first() =~= sv.skip(a as int + 1));
        if specs[a].required && !any_key_present(&specs[a], params) {
            let mut t = String::new();
            push_str(&mut t, "缺少必填参数: ");
            let j = join_strings(&specs[a].keys, " / ");
            push_str(&mut t, j.as_str());
            assert(t@ =~= "缺少必填参数: "@ + join(ss[0].keys, " / "@));
            assert(first_missing(ss, params@) == Some(ss[0]));
            return Err(t);
        }
        a += 1;
    }
    assert(sv.skip(specs@.len() as int) =~= Seq::<ParamSpecView>::empty());
    // 3. value constraints
    let mut b: usize = 0;
    while b < specs.len()
        invariant
            b <= specs@.len(),
            sv == spec_views(specs@),
            korder == params.key_order(),
            first_unknown(korder, sv) is None,
            first_missing(sv, params@) is None,
            first_violation(sv.skip(b as int), params@) == first_violation(sv, params@),
        decreases specs.len() - b,
    {
        let ghost ss = sv.skip(b as int);
        assert(ss[0] == specs@[b as int]@);
        assert(ss.drop_first() =~= sv.skip(b as int + 1));
        match &specs[b].kind {
            ParamKind::Value(c) => {
                match valued_key(&specs[b], params) {
                    Some((k, s)) => {
                        match check_constraint(c, k, s) {
                            Some(t) => {
                                assert(ss[0].kind == ParamKindView::Value(c@));
                                assert(first_violation(ss, params@) == Some(t@));
                                return Err(t);
                            },
                            None => {},
                        }
                    },
                    None => {},
                }
            },
            ParamKind::Flag => {},
        }
        b += 1;
    }
    assert(sv.skip(specs@.len() as int) =~= Seq::<ParamSpecView>::empty());
    Ok(())
}

// ── trailing-argument complaint ──────────────────────────────────────────────

pub open spec fn dash_args(trailing: Seq<Seq<char>>) -> Seq<Seq<char>> {
    trailing.filter(|t: Seq<char>| t.len() > 0 && t[0] == '-')
}

/// The complaint sent when a simple command receives trailing arguments.
pub open spec fn trailing_error_spec(trailing: Seq<Seq<char>>, prefix: Seq<char>, name: Seq<char>) -> Seq<char> {
    let unknown = dash_args(trailing);
    if unknown.len() > 0 {
        "❌ 未知参数: "@ + join(unknown, ", "@) + "（输入 "@ + prefix + name + " -h 查看用法）"@
    } else {
        "❌ "@ + prefix + name + " 是简单命令，不接受额外参数（输入 "@ + prefix + name + " -h 查看用法）"@
    }
}

/// Builds the complaint for trailing arguments given to a simple command:
/// lists the arguments that look like options, or says the command takes none.
pub fn build_trailing_error_msg(trailing: &[String], cmd_prefix: &str, cmd_name: &str) -> (s: String)
    ensures
        s@ == trailing_error_spec(views(trailing@), cmd_prefix@, cmd_name@),
{
    let mut unknown: Vec<String> = Vec::new();
    let mut i: usize = 0;
    while i < trailing.len()
        invariant
            i <= trailing@.len(),
            views(unknown@) == dash_args(views(trailing@).take(i as int)),
        decreases trailing.len() - i,
    {
        let t = trailing[i].as_str();
        let cs = chars_of(t);
        let ghost tv = views(trailing@).take(i as int + 1);
        assert(tv.drop_last() =~= views(trailing@).take(i as int));
        assert(tv.last() == t@);
        proof {
            tv.filter_lemma(|t: Seq<char>| t.len() > 0 && t[0] == '-');
            reveal_with_fuel(Seq::<Seq<char>>::filter, 1);
        }
        if cs.len() > 0 && cs[0] == '-' {
            unknown.push(trailing[i].clone());
            assert(views(unknown@) =~= dash_args(views(trailing@).take(i as int)).push(t@));
        }
        i += 1;
    }
    assert(views(trailing@).take(trailing@.len() as int) =~= views(trailing@));
    let mut s = String::new();
    if unknown.len() > 0 {
        push_str(&mut s, "❌ 未知参数: ");
        let j = join_strings(&unknown, ", ");
        push_str(&mut s, j.as_str());
        push_str(&mut s, "（输入 ");
        push_str(&mut s, cmd_prefix);
        push_str(&mut s, cmd_name);
        push_str(&mut s, " -h 查看用法）");
    } else {
        push_str(&mut s, "❌ ");
        push_str(&mut s, cmd_prefix);
        push_str(&mut s, cmd_name);
        push_str(&mut s, " 是简单命令，不接受额外参数（输入 ");
        push_str(&mut s, cmd_prefix);
        push_str(&mut s, cmd_name);
        push_str(&mut s, " -h 查看用法）");
    }
    s
}


// ── laws of validation and help ──────────────────────────────────────────────

/// An integer constraint refuses exactly the values outside its declared
/// bounds: a value below the minimum or above the maximum gets a complaint,
/// one above the maximum (and not below the minimum) the complaint that
/// names the key, the maximum and the value, and a value inside the bounds
/// none.
pub proof fn law_integer_bounds(min: Option<i64>, max: Option<i64>, key: Seq<char>, s: Seq<char>, n: i64)
    requires
        parse_i64_spec(s) == Some(n),
    ensures
        (min matches Some(lo) && n < lo) ==> constraint_error(ConstraintView::Integer { min, max }, key, s) is Some,
        (max matches Some(hi) && n > hi) ==> constraint_error(ConstraintView::Integer { min, max }, key, s) is Some,
        (max matches Some(hi) && n > hi) && !(min matches Some(lo) && n < lo) ==> constraint_error(
            ConstraintView::Integer { min, max },
            key,
            s,
        ) == Some(key + " 不能大于 "@ + dec_int(max->0 as int) + "，收到: "@ + dec_int(n as int)),
        (min matches Some(lo) ==> lo <= n) && (max matches Some(hi) ==> n <= hi) ==> constraint_error(
            ConstraintView::Integer { min, max },
            key,
            s,
        ) is None,
{
}

/// Whether the spec's constraint refuses the value of its first valued key.
pub open spec fn refuses(p: ParamSpecView, m: Map<Seq<char>, ParamValueView>) -> bool {
    &&& p.kind matches ParamKindView::Value(c)
    &&& first_valued_key(p.keys, m) matches Some(kv)
    &&& constraint_error(c, kv.0, kv.1) is Some
}

proof fn lemma_violation_found(specs: Seq<ParamSpecView>, m: Map<Seq<char>, ParamValueView>, i: int)
    requires
        0 <= i < specs.len(),
        refuses(specs[i], m),
    ensures
        first_violation(specs, m) is Some,
    decreases i,
{
    if i > 0 {
        assert(specs.drop_first()[i - 1] == specs[i]);
        lemma_violation_found(specs.drop_first(), m, i - 1);
    }
}

/// Validation refuses a command as soon as one declared parameter's value
/// breaks its constraint (when no key is unknown and nothing required is
/// missing); in particular an integer above a declared maximum is refused.
pub proof fn law_validate_refuses_violation(
    keys: Seq<Seq<char>>,
    m: Map<Seq<char>, ParamValueView>,
    specs: Seq<ParamSpecView>,
    i: int,
)
    requires
        0 <= i < specs.len(),
        refuses(specs[i], m),
    ensures
        validate_spec(keys, m, specs) is Err,
{
    lemma_violation_found(specs, m, i);
}

/// The same for an integer parameter: a value above the declared maximum
/// makes validation fail.
pub proof fn law_validate_refuses_above_max(
    keys: Seq<Seq<char>>,
    m: Map<Seq<char>, ParamValueView>,
    specs: Seq<ParamSpecView>,
    i: int,
    n: i64,
)
    requires
        0 <= i < specs.len(),
        specs[i].kind matches ParamKindView::Value(ConstraintView::Integer { min, max }) && max matches Some(
            hi,
        ) && n > hi,
        first_valued_key(specs[i].keys, m) matches Some(kv) && parse_i64_spec(kv.1) == Some(n),
    ensures
        validate_spec(keys, m, specs) is Err,
{
    let kv = first_valued_key(specs[i].keys, m)->0;
    match specs[i].kind {
        ParamKindView::Value(c) => {
            match c {
                ConstraintView::Integer { min, max } => {
                    law_integer_bounds(min, max, kv.0, kv.1, n);
                },
                _ => {},
            }
        },
        _ => {},
    }
    lemma_violation_found(specs, m, i);
}

proof fn lemma_first_unknown(keys: Seq<Seq<char>>, specs: Seq<ParamSpecView>)
    ensures
        first_unknown(keys, specs) is None <==> forall|j: int| 0 <= j < keys.len() ==> declared(specs, #[trigger] keys[j]),
        first_unknown(keys, specs) matches Some(k) ==> keys.contains(k) && !declared(specs, k),
    decreases keys.len(),
{
    if keys.len() > 0 {
        lemma_first_unknown(keys.drop_first(), specs);
        if declared(specs, keys[0]) {
            assert forall|j: int| 0 <= j < keys.len() && (forall|i: int| 0 <= i < keys.drop_first().len() ==> declared(specs, #[trigger] keys.drop_first()[i]))
                implies declared(specs, #[trigger] keys[j]) by {
                if j > 0 {
                    assert(keys[j] == keys.drop_first()[j - 1]);
                }
            }
            if let Some(k) = first_unknown(keys, specs) {
                let i = choose|i: int| 0 <= i < keys.drop_first().len() && keys.drop_first()[i] == k;
                assert(keys[i + 1] == k);
            }
        } else {
            assert(keys[0] == keys[0]);
        }
    }
}

proof fn lemma_first_missing(specs: Seq<ParamSpecView>, m: Map<Seq<char>, ParamValueView>)
    ensures
        first_missing(specs, m) is None <==> forall|i: int| 0 <= i < specs.len() && (#[trigger] specs[i]).required
            ==> any_present(specs[i], m),
    decreases specs.len(),
{
    if specs.len() > 0 {
        lemma_first_missing(specs.drop_first(), m);
        assert forall|i: int| 0 < i < specs.len() implies specs[i] == specs.drop_first()[i - 1] by {}
    }
}

proof fn lemma_first_violation(specs: Seq<ParamSpecView>, m: Map<Seq<char>, ParamValueView>)
    ensures
        first_violation(specs, m) is None <==> forall|i: int| 0 <= i < specs.len() ==> !refuses(#[trigger] specs[i], m),
    decreases specs.len(),
{
    if specs.len() > 0 {
        lemma_first_violation(specs.drop_first(), m);
        assert forall|i: int| 0 < i < specs.len() implies specs[i] == specs.drop_first()[i - 1] by {}
    }
}

/// Validation accepts the parameters exactly when every given key is
/// declared, every required parameter is given under one of its keys, and
/// no declared parameter's value breaks its constraint. An unknown key is
/// reported by name.
pub proof fn law_validate_accepts_exactly(
    keys: Seq<Seq<char>>,
    m: Map<Seq<char>, ParamValueView>,
    specs: Seq<ParamSpecView>,
)
    ensures
        validate_spec(keys, m, specs) is Ok <==> {
            &&& forall|j: int| 0 <= j < keys.len() ==> declared(specs, #[trigger] keys[j])
            &&& forall|i: int| 0 <= i < specs.len() && (#[trigger] specs[i]).required ==> any_present(specs[i], m)
            &&& forall|i: int| 0 <= i < specs.len() ==> !refuses(#[trigger] specs[i], m)
        },
        (exists|j: int| 0 <= j < keys.len() && !declared(specs, #[trigger] keys[j])) ==> (validate_spec(keys, m, specs) matches Err(e)
            && exists|k: Seq<char>| keys.contains(k) && !declared(specs, k) && e == "未知参数: "@ + k),
{
    lemma_first_unknown(keys, specs);
    lemma_first_missing(specs, m);
    lemma_first_violation(specs, m);
}

/// A value outside a list of choices is refused and one inside accepted;
/// text that is not an integer is refused by an integer constraint.
pub proof fn law_choices_and_integers(choices: Seq<Seq<char>>, min: Option<i64>, max: Option<i64>, key: Seq<char>, s: Seq<char>)
    ensures
        constraint_error(ConstraintView::OneOf(choices), key, s) is None <==> choices.contains(s),
        constraint_error(ConstraintView::Any, key, s) is None,
        parse_i64_spec(s) is None ==> constraint_error(ConstraintView::Integer { min, max }, key, s) is Some,
{
}

/// A parameter line of the full help carries `[必填]` after its key column
/// exactly for a required parameter and `[可选]` exactly for an optional
/// one, followed by the parameter's help.
pub proof fn law_param_line_tag(p: ParamSpecView)
    ensures
        ({
            let col = "  "@ + pad_right(join(p.keys, ", "@) + type_tag_spec(p.kind), 24) + "  "@;
            let line = param_line_spec(p);
            &&& line.take(col.len() as int) == col
            &&& line.skip(col.len() as int).take(4) == (if p.required { "[必填]"@ } else { "[可选]"@ })
            &&& line.skip(col.len() as int + 6) == p.help
        }),
        "[必填]"@ != "[可选]"@,
{
    reveal_strlit("[必填]");
    reveal_strlit("[可选]");
    reveal_strlit("  ");
    let col = "  "@ + pad_right(join(p.keys, ", "@) + type_tag_spec(p.kind), 24) + "  "@;
    let tag = if p.required { "[必填]"@ } else { "[可选]"@ };
    let line = param_line_spec(p);
    assert(line == col + tag + "  "@ + p.help);
    assert(line.take(col.len() as int) =~= col);
    assert(line.skip(col.len() as int).take(4) =~= tag);
    assert(line.skip(col.len() as int + 6) =~= p.help);
    assert("[必填]"@[1] != "[可选]"@[1]);
}

} // verus!
