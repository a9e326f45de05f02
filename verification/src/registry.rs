//! The command registry: two tables, simple and advanced commands, from a
//! plain name or alias (no prefix) to a command.
use vstd::prelude::*;

use crate::command::{CommandInfo, CommandKind, Dependency};
use crate::order::{chars_lt, lemma_lex_asymmetric, lemma_lex_irreflexive, lemma_lex_total, lemma_lex_transitive, lex_lt};
use crate::strmap::StrMap;
use crate::text::{chars_of, first_line, first_line_of, join, join_strings, pad_right, push_padded, push_str, str_eq, views};

verus! {

/// Name of the command at an index.
pub open spec fn name_of(cmds: Seq<CommandInfo>, i: usize) -> Seq<char> {
    cmds[i as int].name@
}

/// Whether some index in `d` names a command called `n`.
pub open spec fn has_name(cmds: Seq<CommandInfo>, d: Seq<usize>, n: Seq<char>) -> bool {
    exists|j: int| 0 <= j < d.len() && name_of(cmds, d[j]) == n
}

/// Keeps the first index of each command name, in order.
pub open spec fn dedup_by_name(cmds: Seq<CommandInfo>, s: Seq<usize>) -> Seq<usize>
    decreases s.len(),
{
    if s.len() == 0 {
        Seq::empty()
    } else {
        let d = dedup_by_name(cmds, s.drop_last());
        if has_name(cmds, d, name_of(cmds, s.last())) {
            d
        } else {
            d.push(s.last())
        }
    }
}

/// Whether the names of the indexed commands strictly increase.
pub open spec fn sorted_by_name(cmds: Seq<CommandInfo>, s: Seq<usize>) -> bool {
    forall|i: int, j: int| 0 <= i < j < s.len() ==> lex_lt(name_of(cmds, s[i]), name_of(cmds, s[j]))
}

/// Whether the indexed commands have pairwise distinct names.
pub open spec fn distinct_names(cmds: Seq<CommandInfo>, s: Seq<usize>) -> bool {
    forall|i: int, j: int| 0 <= i < s.len() && 0 <= j < s.len() && i != j ==> name_of(cmds, s[i]) != name_of(cmds, s[j])
}

pub open spec fn all_below(s: Seq<usize>, n: nat) -> bool {
    forall|i: int| 0 <= i < s.len() ==> s[i] < n
}

/// `r` holds the same indices as `s`, ordered by name.
pub open spec fn sorted_permutation(cmds: Seq<CommandInfo>, r: Seq<usize>, s: Seq<usize>) -> bool {
    &&& r.len() == s.len()
    &&& forall|x: usize| r.contains(x) <==> s.contains(x)
    &&& sorted_by_name(cmds, r)
}

/// The description a command offers as a tool (empty when it offers none).
pub open spec fn tool_desc(c: CommandInfo) -> Seq<char> {
    match c.tool_description {
        Some(d) => d@,
        None => Seq::empty(),
    }
}

/// Keeps, in order, the indices of commands that offer a tool description.
pub open spec fn keep_tools(cmds: Seq<CommandInfo>, s: Seq<usize>) -> Seq<usize>
    decreases s.len(),
{
    if s.len() == 0 {
        Seq::empty()
    } else {
        let k = keep_tools(cmds, s.drop_last());
        if cmds[s.last() as int].tool_description is Some {
            k.push(s.last())
        } else {
            k
        }
    }
}

/// A simple command's line of the help list.
pub open spec fn simple_help_line(c: CommandInfo, prefix: Seq<char>) -> Seq<char> {
    "  "@ + prefix + pad_right(c.name@, 10) + "  "@ + first_line(c.help@)
}

/// `<name>`, followed by ` / <alias>` for each alias.
pub open spec fn advanced_name_part(c: CommandInfo) -> Seq<char> {
    if c.aliases@.len() == 0 {
        "<"@ + c.name@ + ">"@
    } else {
        "<"@ + c.name@ + "> / <"@ + join(views(c.aliases@), "> / <"@) + ">"@
    }
}

/// An advanced command's line of the help list.
pub open spec fn advanced_help_line(c: CommandInfo) -> Seq<char> {
    "  "@ + pad_right(advanced_name_part(c), 18) + "  "@ + first_line(c.help@)
}

/// The lines of the help list, given the simple and advanced commands in
/// the order in which they are listed.
pub open spec fn help_lines(cmds: Seq<CommandInfo>, rs: Seq<usize>, ra: Seq<usize>, prefix: Seq<char>) -> Seq<Seq<char>> {
    seq!["LianBot 命令列表"@, "── 简单命令 ──"@]
        + rs.map_values(|i: usize| simple_help_line(cmds[i as int], prefix))
        + seq!["── 复杂命令（<名称> [参数]）──"@]
        + ra.map_values(|i: usize| advanced_help_line(cmds[i as int]))
        + seq![Seq::<char>::empty(), "💡 输入 <命令> --help 查看详细参数"@]
}

pub proof fn lemma_dedup(cmds: Seq<CommandInfo>, s: Seq<usize>)
    requires
        all_below(s, cmds.len()),
    ensures
        distinct_names(cmds, dedup_by_name(cmds, s)),
        all_below(dedup_by_name(cmds, s), cmds.len()),
        forall|x: usize| dedup_by_name(cmds, s).contains(x) ==> s.contains(x),
        forall|i: int| 0 <= i < s.len() ==> has_name(cmds, dedup_by_name(cmds, s), name_of(cmds, s[i])),
    decreases s.len(),
{
    if s.len() > 0 {
        let p = s.drop_last();
        lemma_dedup(cmds, p);
        let d = dedup_by_name(cmds, p);
        let x = s.last();
        assert forall|y: usize| dedup_by_name(cmds, s).contains(y) implies s.contains(y) by {
            if d.contains(y) {
                assert(p.contains(y));
                let j = choose|j: int| 0 <= j < p.len() && p[j] == y;
                assert(s[j] == p[j]);
            } else {
                let e = dedup_by_name(cmds, s);
                let k = choose|k: int| 0 <= k < e.len() && e[k] == y;
                if has_name(cmds, d, name_of(cmds, x)) {
                    assert(d[k] == y);
                } else {
                    if k < d.len() {
                        assert(e[k] == d[k]);
                    }
                    assert(k == d.len());
                    assert(s[s.len() - 1] == y);
                }
            }
        }
        assert forall|i: int| 0 <= i < s.len() implies has_name(cmds, dedup_by_name(cmds, s), name_of(cmds, s[i])) by {
            if i < s.len() - 1 {
                assert(p[i] == s[i]);
                let j = choose|j: int| 0 <= j < d.len() && name_of(cmds, d[j]) == name_of(cmds, p[i]);
                if !has_name(cmds, d, name_of(cmds, x)) {
                    assert(d.push(x)[j] == d[j]);
                }
            } else {
                if !has_name(cmds, d, name_of(cmds, x)) {
                    assert(d.push(x)[d.len() as int] == x);
                }
            }
        }
    }
}

/// A registry entry for each name and alias; the later registration of a
/// name replaces the earlier one.
pub struct CommandRegistry {
    commands: Vec<CommandInfo>,
    simple: StrMap<usize>,
    advanced: StrMap<usize>,
}

/// Whether the command's dependencies are available.
pub open spec fn deps_ok(deps: Seq<Dependency>, pool_available: bool) -> bool {
    forall|i: int| 0 <= i < deps.len() ==> deps[i] != Dependency::Pool || pool_available
}

/// Inserts every name of `names`, in order, mapped to `idx`.
pub open spec fn insert_names(m: Map<Seq<char>, usize>, names: Seq<Seq<char>>, idx: usize) -> Map<Seq<char>, usize>
    decreases names.len(),
{
    if names.len() == 0 {
        m
    } else {
        insert_names(m.insert(names[0], idx), names.drop_first(), idx)
    }
}

proof fn lemma_insert_names_values(m: Map<Seq<char>, usize>, names: Seq<Seq<char>>, idx: usize, bound: nat)
    requires
        forall|k: Seq<char>| m.contains_key(k) ==> m[k] < bound,
        idx < bound,
    ensures
        forall|k: Seq<char>| insert_names(m, names, idx).contains_key(k) ==> insert_names(m, names, idx)[k] < bound,
    decreases names.len(),
{
    if names.len() > 0 {
        let m2 = m.insert(names[0], idx);
        assert forall|k: Seq<char>| m2.contains_key(k) implies m2[k] < bound by {
            if k != names[0] {
                assert(m.contains_key(k));
            }
        }
        lemma_insert_names_values(m2, names.drop_first(), idx, bound);
        assert(insert_names(m, names, idx) == insert_names(m2, names.drop_first(), idx));
    }
}

/// Registering a command makes each of its names and aliases resolve to it,
/// and leaves every other name as it was.
pub proof fn law_register_resolves_names(m: Map<Seq<char>, usize>, names: Seq<Seq<char>>, idx: usize, k: Seq<char>)
    ensures
        names.contains(k) ==> insert_names(m, names, idx).contains_key(k) && insert_names(m, names, idx)[k] == idx,
        !names.contains(k) ==> (insert_names(m, names, idx).contains_key(k) == m.contains_key(k)
            && (m.contains_key(k) ==> insert_names(m, names, idx)[k] == m[k])),
    decreases names.len(),
{
    if names.len() > 0 {
        let rest = names.drop_first();
        law_register_resolves_names(m.insert(names[0], idx), rest, idx, k);
        if names.contains(k) && !rest.contains(k) {
            let j = choose|j: int| 0 <= j < names.len() && names[j] == k;
            if j > 0 {
                assert(rest[j - 1] == k);
            }
        }
        if rest.contains(k) {
            let j = choose|j: int| 0 <= j < rest.len() && rest[j] == k;
            assert(names[j + 1] == k);
        }
        if !names.contains(k) {
            assert(names[0] != k);
        }
    }
}

/// The command a name looks up in a table.
pub open spec fn lookup(cmds: Seq<CommandInfo>, table: Map<Seq<char>, usize>, k: Seq<char>) -> Option<CommandInfo> {
    if table.contains_key(k) && table[k] < cmds.len() {
        Some(cmds[table[k] as int])
    } else {
        None
    }
}

/// Registering a command under `names` (its table gets each name inserted,
/// the command appended): each of the names looks up the new command, and
/// every other name looks up what it looked up before.
pub proof fn law_register_lookups(
    cmds: Seq<CommandInfo>,
    table: Map<Seq<char>, usize>,
    names: Seq<Seq<char>>,
    cmd: CommandInfo,
    k: Seq<char>,
)
    requires
        forall|x: Seq<char>| table.contains_key(x) ==> table[x] < cmds.len(),
        cmds.len() <= usize::MAX,
    ensures
        names.contains(k) ==> lookup(cmds.push(cmd), insert_names(table, names, cmds.len() as usize), k) == Some(cmd),
        !names.contains(k) ==> lookup(cmds.push(cmd), insert_names(table, names, cmds.len() as usize), k) == lookup(
            cmds,
            table,
            k,
        ),
{
    law_register_resolves_names(table, names, cmds.len() as usize, k);
    let nt = insert_names(table, names, cmds.len() as usize);
    if !names.contains(k) && table.contains_key(k) {
        assert(cmds.push(cmd)[table[k] as int] == cmds[table[k] as int]);
    }
}

fn insert_all(t: &mut StrMap<usize>, names: &Vec<String>, idx: usize)
    ensures
        final(t)@ == insert_names(old(t)@, views(names@), idx),
{
    let mut i: usize = 0;
    assert(views(names@).skip(0) =~= views(names@));
    while i < names.len()
        invariant
            i <= names@.len(),
            insert_names(t@, views(names@).skip(i as int), idx) == insert_names(old(t)@, views(names@), idx),
        decreases names.len() - i,
    {
        let ghost rest = views(names@).skip(i as int);
        assert(rest[0] == names@[i as int]@);
        assert(rest.drop_first() =~= views(names@).skip(i as int + 1));
        t.insert(names[i].clone(), idx);
        i += 1;
    }
    assert(views(names@).skip(names@.len() as int) =~= Seq::<Seq<char>>::empty());
}

impl CommandRegistry {
    #[verifier::type_invariant]
    closed spec fn inv(&self) -> bool {
        &&& forall|k: Seq<char>| self.simple@.contains_key(k) ==> self.simple@[k] < self.commands@.len()
        &&& forall|k: Seq<char>| self.advanced@.contains_key(k) ==> self.advanced@[k] < self.commands@.len()
    }

    /// Registered commands, in registration order.
    pub closed spec fn cmds(&self) -> Seq<CommandInfo> {
        self.commands@
    }

    /// Simple-command table: name or alias to command index.
    pub closed spec fn simple_table(&self) -> Map<Seq<char>, usize> {
        self.simple@
    }

    /// Advanced-command table: name or alias to command index.
    pub closed spec fn advanced_table(&self) -> Map<Seq<char>, usize> {
        self.advanced@
    }

    /// Indices reachable through the simple table, in table order.
    pub closed spec fn simple_order(&self) -> Seq<usize> {
        Seq::new(self.simple.spec_len(), |i: int| self.simple.value_at(i))
    }

    /// Indices reachable through the advanced table, in table order.
    pub closed spec fn advanced_order(&self) -> Seq<usize> {
        Seq::new(self.advanced.spec_len(), |i: int| self.advanced.value_at(i))
    }

    /// Every table entry points at a registered command (and the commands
    /// fit in memory).
    pub open spec fn tables_in_range(&self) -> bool {
        &&& self.cmds().len() <= usize::MAX
        &&& forall|k: Seq<char>| self.simple_table().contains_key(k) ==> self.simple_table()[k] < self.cmds().len()
        &&& forall|k: Seq<char>| self.advanced_table().contains_key(k) ==> self.advanced_table()[k] < self.cmds().len()
    }

    /// An empty registry.
    pub fn new() -> (r: Self)
        ensures
            r.tables_in_range(),
            r.cmds().len() == 0,
            r.simple_table() == Map::<Seq<char>, usize>::empty(),
            r.advanced_table() == Map::<Seq<char>, usize>::empty(),
    {
        CommandRegistry { commands: Vec::new(), simple: StrMap::new(), advanced: StrMap::new() }
    }

    /// Registers a command under its name and aliases, in the table of its
    /// kind. A command whose dependencies are missing is skipped.
    pub fn register(&mut self, cmd: CommandInfo, pool_available: bool)
        ensures
            old(self).tables_in_range(),
            final(self).tables_in_range(),
            !deps_ok(cmd.dependencies@, pool_available) ==> {
                &&& final(self).cmds() == old(self).cmds()
                &&& final(self).simple_table() == old(self).simple_table()
                &&& final(self).advanced_table() == old(self).advanced_table()
            },
            deps_ok(cmd.dependencies@, pool_available) ==> {
                let names = seq![cmd.name@] + views(cmd.aliases@);
                let idx = old(self).cmds().len() as usize;
                &&& final(self).cmds() == old(self).cmds().push(cmd)
                &&& cmd.kind == CommandKind::Simple ==> final(self).simple_table()
                    == insert_names(old(self).simple_table(), names, idx)
                    && final(self).advanced_table() == old(self).advanced_table()
                &&& cmd.kind == CommandKind::Advanced ==> final(self).advanced_table()
                    == insert_names(old(self).advanced_table(), names, idx)
                    && final(self).simple_table() == old(self).simple_table()
            },
            // what the lookups answer afterwards: the command under each of
            // its names in the table of its kind, and otherwise what they
            // answered before
            deps_ok(cmd.dependencies@, pool_available) ==> forall|k: Seq<char>|
                #![trigger lookup(final(self).cmds(), final(self).simple_table(), k)]
                #![trigger lookup(final(self).cmds(), final(self).advanced_table(), k)]
            {
                let names = seq![cmd.name@] + views(cmd.aliases@);
                &&& lookup(final(self).cmds(), final(self).simple_table(), k) == (if cmd.kind
                    == CommandKind::Simple && names.contains(k) {
                    Some(cmd)
                } else {
                    lookup(old(self).cmds(), old(self).simple_table(), k)
                })
                &&& lookup(final(self).cmds(), final(self).advanced_table(), k) == (if cmd.kind
                    == CommandKind::Advanced && names.contains(k) {
                    Some(cmd)
                } else {
                    lookup(old(self).cmds(), old(self).advanced_table(), k)
                })
            },
    {
        proof { use_type_invariant(&*self); }
        assert(self.commands@.len() == self.commands.len());
        assert(self.tables_in_range());
        let mut d: usize = 0;
        while d < cmd.dependencies.len()
            invariant
                d <= cmd.dependencies@.len(),
                old(self).tables_in_range(),
                self.tables_in_range(),
                forall|i: int| 0 <= i < d ==> cmd.dependencies@[i] != Dependency::Pool || pool_available,
            decreases cmd.dependencies.len() - d,
        {
            if cmd.dependencies[d] == Dependency::Pool && !pool_available {
                return;
            }
            d += 1;
        }
        let idx = self.commands.len();
        let mut names: Vec<String> = Vec::new();
        names.push(cmd.name.clone());
        let mut a: usize = 0;
        while a < cmd.aliases.len()
            invariant
                a <= cmd.aliases@.len(),
                views(names@) =~= seq![cmd.name@] + views(cmd.aliases@).take(a as int),
            decreases cmd.aliases.len() - a,
        {
            let ghost before = names@;
            names.push(cmd.aliases[a].clone());
            assert(views(names@) =~= views(before).push(cmd.aliases@[a as int]@));
            a += 1;
        }
        assert(views(cmd.aliases@).take(cmd.aliases@.len() as int) =~= views(cmd.aliases@));
        let kind = cmd.kind;
        let ghost old_cmds = self.commands@;
        let ghost old_s = self.simple@;
        let ghost old_a = self.advanced@;
        let mut s_tab: StrMap<usize> = StrMap::new();
        std::mem::swap(&mut s_tab, &mut self.simple);
        let mut a_tab: StrMap<usize> = StrMap::new();
        std::mem::swap(&mut a_tab, &mut self.advanced);
        let mut cmds: Vec<CommandInfo> = Vec::new();
        std::mem::swap(&mut cmds, &mut self.commands);
        cmds.push(cmd);
        self.commands = cmds;
        proof {
            lemma_insert_names_values(old_s, views(names@), idx, self.commands@.len());
            lemma_insert_names_values(old_a, views(names@), idx, self.commands@.len());
        }
        match kind {
            CommandKind::Simple => insert_all(&mut s_tab, &names, idx),
            CommandKind::Advanced => insert_all(&mut a_tab, &names, idx),
        }
        self.simple = s_tab;
        self.advanced = a_tab;
        assert(self.commands@.len() == self.commands.len());
        proof {
            let nm = seq![cmd.name@] + views(cmd.aliases@);
            assert(views(names@) == nm);
            assert forall|k: Seq<char>|
                #![trigger lookup(self.cmds(), self.simple_table(), k)]
                #![trigger lookup(self.cmds(), self.advanced_table(), k)]
                true implies {
                &&& lookup(self.cmds(), self.simple_table(), k) == (if cmd.kind == CommandKind::Simple
                    && nm.contains(k) {
                    Some(cmd)
                } else {
                    lookup(old_cmds, old_s, k)
                })
                &&& lookup(self.cmds(), self.advanced_table(), k) == (if cmd.kind == CommandKind::Advanced
                    && nm.contains(k) {
                    Some(cmd)
                } else {
                    lookup(old_cmds, old_a, k)
                })
            } by {
                law_register_lookups(old_cmds, old_s, nm, cmd, k);
                law_register_lookups(old_cmds, old_a, nm, cmd, k);
                law_register_lookups(old_cmds, old_s, Seq::empty(), cmd, k);
                law_register_lookups(old_cmds, old_a, Seq::empty(), cmd, k);
            }
        }
    }

    /// Looks up a simple command by plain name or alias.
    pub fn get_simple(&self, name: &str) -> (r: Option<&CommandInfo>)
        ensures
            self.tables_in_range(),
            match r {
                Some(c) => lookup(self.cmds(), self.simple_table(), name@) == Some(*c),
                None => lookup(self.cmds(), self.simple_table(), name@) is None,
            },
            match r {
                Some(c) => self.simple_table().contains_key(name@)
                    && *c == self.cmds()[self.simple_table()[name@] as int],
                None => !self.simple_table().contains_key(name@),
            },
    {
        proof { use_type_invariant(self); }
        assert(self.commands@.len() == self.commands.len());
        match self.simple.get(name) {
            Some(i) => Some(&self.commands[*i]),
            None => None,
        }
    }

    /// Looks up an advanced command by plain name or alias.
    pub fn get_advanced(&self, name: &str) -> (r: Option<&CommandInfo>)
        ensures
            self.tables_in_range(),
            match r {
                Some(c) => lookup(self.cmds(), self.advanced_table(), name@) == Some(*c),
                None => lookup(self.cmds(), self.advanced_table(), name@) is None,
            },
            match r {
                Some(c) => self.advanced_table().contains_key(name@)
                    && *c == self.cmds()[self.advanced_table()[name@] as int],
                None => !self.advanced_table().contains_key(name@),
            },
    {
        proof { use_type_invariant(self); }
        assert(self.commands@.len() == self.commands.len());
        match self.advanced.get(name) {
            Some(i) => Some(&self.commands[*i]),
            None => None,
        }
    }

    /// `(name, description)` of each command that offers itself as a tool,
    /// one entry per command name, sorted by name.
    pub fn tool_definitions(&self) -> (defs: Vec<(&str, &str)>)
        ensures
            exists|r: Seq<usize>| #![trigger keep_tools(self.cmds(), r)] {
                let t = keep_tools(self.cmds(), r);
                &&& sorted_permutation(self.cmds(), r, dedup_by_name(self.cmds(), self.simple_order() + self.advanced_order()))
                &&& defs@.len() == t.len()
                &&& forall|i: int| 0 <= i < t.len() ==> (#[trigger] defs@[i]).0@ == self.cmds()[t[i] as int].name@
                    && defs@[i].1@ == tool_desc(self.cmds()[t[i] as int])
            },
    {
        proof { use_type_invariant(self); }
        let mut all = self.order_of(true);
        let mut adv = self.order_of(false);
        all.append(&mut adv);
        let d = dedup_exec(&self.commands, &all);
        proof { lemma_dedup(self.commands@, all@); }
        let r = sort_by_name(&self.commands, &d);
        let mut defs: Vec<(&str, &str)> = Vec::new();
        let mut i: usize = 0;
        while i < r.len()
            invariant
                i <= r@.len(),
                all_below(r@, self.commands@.len()),
                defs@.len() == keep_tools(self.commands@, r@.take(i as int)).len(),
                forall|j: int| 0 <= j < defs@.len() ==> (#[trigger] defs@[j]).0@
                    == self.commands@[keep_tools(self.commands@, r@.take(i as int))[j] as int].name@
                    && defs@[j].1@ == tool_desc(self.commands@[keep_tools(self.commands@, r@.take(i as int))[j] as int]),
            decreases r.len() - i,
        {
            assert(r@.take(i as int + 1).drop_last() =~= r@.take(i as int));
            let c = &self.commands[r[i]];
            match &c.tool_description {
                Some(desc) => {
                    defs.push((c.name.as_str(), desc.as_str()));
                },
                None => {},
            }
            i += 1;
        }
        assert(r@.take(r@.len() as int) =~= r@);
        defs
    }

    /// The command list shown by `/help`: each command once, sorted by name,
    /// aliases beside advanced commands; `prefix` is shown before simple ones.
    pub fn help_text(&self, prefix: &str) -> (text: String)
        ensures
            exists|rs: Seq<usize>, ra: Seq<usize>| #![trigger help_lines(self.cmds(), rs, ra, prefix@)] {
                &&& sorted_permutation(self.cmds(), rs, dedup_by_name(self.cmds(), self.simple_order()))
                &&& sorted_permutation(self.cmds(), ra, dedup_by_name(self.cmds(), self.advanced_order()))
                &&& text@ == join(help_lines(self.cmds(), rs, ra, prefix@), "\n"@)
            },
    {
        proof { use_type_invariant(self); }
        let so = self.order_of(true);
        let sd = dedup_exec(&self.commands, &so);
        proof { lemma_dedup(self.commands@, so@); }
        let rs = sort_by_name(&self.commands, &sd);
        let ao = self.order_of(false);
        let ad = dedup_exec(&self.commands, &ao);
        proof { lemma_dedup(self.commands@, ao@); }
        let ra = sort_by_name(&self.commands, &ad);
        let ghost cmds = self.commands@;
        let ghost spec_lines = help_lines(cmds, rs@, ra@, prefix@);
        let mut lines: Vec<String> = Vec::new();
        lines.push("LianBot 命令列表".to_string());
        lines.push("── 简单命令 ──".to_string());
        let ghost head = views(lines@);
        let mut i: usize = 0;
        while i < rs.len()
            invariant
                i <= rs@.len(),
                all_below(rs@, cmds.len()),
                cmds == self.commands@,
                head == seq!["LianBot 命令列表"@, "── 简单命令 ──"@],
                views(lines@) =~= head + rs@.take(i as int).map_values(|k: usize| simple_help_line(cmds[k as int], prefix@)),
            decreases rs.len() - i,
        {
            let c = &self.commands[rs[i]];
            let mut line = String::new();
            push_str(&mut line, "  ");
            push_str(&mut line, prefix);
            push_padded(&mut line, c.name.as_str(), 10);
            push_str(&mut line, "  ");
            let fl = first_line_of(c.help.as_str());
            push_str(&mut line, fl.as_str());
            let ghost before = lines@;
            lines.push(line);
            assert(views(lines@) =~= views(before).push(line@));
            assert(rs@.take(i as int + 1).map_values(|k: usize| simple_help_line(cmds[k as int], prefix@))
                =~= rs@.take(i as int).map_values(|k: usize| simple_help_line(cmds[k as int], prefix@)).push(line@));
            i += 1;
        }
        assert(rs@.take(rs@.len() as int) =~= rs@);
        lines.push("── 复杂命令（<名称> [参数]）──".to_string());
        let ghost mid = views(lines@);
        assert(mid =~= head + rs@.map_values(|k: usize| simple_help_line(cmds[k as int], prefix@))
            + seq!["── 复杂命令（<名称> [参数]）──"@]);
        let mut j: usize = 0;
        while j < ra.len()
            invariant
                j <= ra@.len(),
                all_below(ra@, cmds.len()),
                cmds == self.commands@,
                views(lines@) =~= mid + ra@.take(j as int).map_values(|k: usize| advanced_help_line(cmds[k as int])),
            decreases ra.len() - j,
        {
            let c = &self.commands[ra[j]];
            let mut part = String::new();
            push_str(&mut part, "<");
            push_str(&mut part, c.name.as_str());
            if c.aliases.len() == 0 {
                push_str(&mut part, ">");
            } else {
                push_str(&mut part, "> / <");
                let al = join_strings(&c.aliases, "> / <");
                push_str(&mut part, al.as_str());
                push_str(&mut part, ">");
            }
            assert(part@ == advanced_name_part(*c));
            let mut line = String::new();
            push_str(&mut line, "  ");
            push_padded(&mut line, part.as_str(), 18);
            push_str(&mut line, "  ");
            let fl = first_line_of(c.help.as_str());
            push_str(&mut line, fl.as_str());
            let ghost before = lines@;
            lines.push(line);
            assert(views(lines@) =~= views(before).push(line@));
            assert(ra@.take(j as int + 1).map_values(|k: usize| advanced_help_line(cmds[k as int]))
                =~= ra@.take(j as int).map_values(|k: usize| advanced_help_line(cmds[k as int])).push(line@));
            j += 1;
        }
        assert(ra@.take(ra@.len() as int) =~= ra@);
        let ghost body = views(lines@);
        lines.push(String::new());
        lines.push("💡 输入 <命令> --help 查看详细参数".to_string());
        assert(views(lines@) =~= body + seq![Seq::<char>::empty(), "💡 输入 <命令> --help 查看详细参数"@]);
        assert(views(lines@) =~= spec_lines);
        join_strings(&lines, "\n")
    }

    fn order_of(&self, simple: bool) -> (r: Vec<usize>)
        ensures
            simple ==> r@ == self.simple_order(),
            !simple ==> r@ == self.advanced_order(),
            all_below(r@, self.cmds().len()),
    {
        proof { use_type_invariant(self); }
        if simple {
            table_values(&self.simple, self.commands.len())
        } else {
            table_values(&self.advanced, self.commands.len())
        }
    }
}

/// The values of a table in its key order.
fn table_values(t: &StrMap<usize>, bound: usize) -> (r: Vec<usize>)
    requires
        forall|k: Seq<char>| t@.contains_key(k) ==> t@[k] < bound,
    ensures
        r@ == Seq::new(t.spec_len(), |i: int| t.value_at(i)),
        all_below(r@, bound as nat),
{
    let es = t.entries();
    let ghost vals: Seq<usize> = Seq::new(t.spec_len(), |i: int| t.value_at(i));
    assert forall|j: int| 0 <= j < vals.len() implies vals[j] < bound by {
        assert(t@.contains_key(t.key_at(j)));
    }
    let mut r: Vec<usize> = Vec::new();
    let mut i: usize = 0;
    while i < es.len()
        invariant
            i <= es@.len(),
            es@.len() == vals.len(),
            forall|j: int| 0 <= j < es@.len() ==> #[trigger] es@[j].1@ == vals[j],
            all_below(vals, bound as nat),
            r@ =~= vals.take(i as int),
        decreases es.len() - i,
    {
        let v = *es[i].1;
        assert(v == vals[i as int]);
        r.push(v);
        i += 1;
    }
    assert(vals.take(es@.len() as int) =~= vals);
    r
}

fn has_name_exec(cmds: &Vec<CommandInfo>, d: &Vec<usize>, n: &str) -> (b: bool)
    requires
        all_below(d@, cmds@.len()),
    ensures
        b == has_name(cmds@, d@, n@),
{
    let mut j: usize = 0;
    while j < d.len()
        invariant
            j <= d@.len(),
            all_below(d@, cmds@.len()),
            forall|t: int| 0 <= t < j ==> name_of(cmds@, d@[t]) != n@,
        decreases d.len() - j,
    {
        if str_eq(cmds[d[j]].name.as_str(), n) {
            return true;
        }
        j += 1;
    }
    false
}

/// Keeps the first index for each command name.
fn dedup_exec(cmds: &Vec<CommandInfo>, s: &Vec<usize>) -> (r: Vec<usize>)
    requires
        all_below(s@, cmds@.len()),
    ensures
        r@ == dedup_by_name(cmds@, s@),
{
    let mut r: Vec<usize> = Vec::new();
    let mut i: usize = 0;
    while i < s.len()
        invariant
            i <= s@.len(),
            all_below(s@, cmds@.len()),
            r@ == dedup_by_name(cmds@, s@.take(i as int)),
        decreases s.len() - i,
    {
        proof {
            lemma_dedup(cmds@, s@.take(i as int));
            assert(s@.take(i as int + 1).drop_last() =~= s@.take(i as int));
            assert forall|x: usize| #[trigger] r@.contains(x) implies x < cmds@.len() by {
                let j = choose|j: int| 0 <= j < r@.len() && r@[j] == x;
            }
        }
        let x = s[i];
        if !has_name_exec(cmds, &r, cmds[x].name.as_str()) {
            r.push(x);
        }
        i += 1;
    }
    assert(s@.take(s@.len() as int) =~= s@);
    r
}

/// Sorts indices by command name (names distinct).
fn sort_by_name(cmds: &Vec<CommandInfo>, s: &Vec<usize>) -> (r: Vec<usize>)
    requires
        all_below(s@, cmds@.len()),
        distinct_names(cmds@, s@),
    ensures
        sorted_permutation(cmds@, r@, s@),
        all_below(r@, cmds@.len()),
{
    let mut r: Vec<usize> = Vec::new();
    let mut i: usize = 0;
    while i < s.len()
        invariant
            i <= s@.len(),
            all_below(s@, cmds@.len()),
            distinct_names(cmds@, s@),
            r@.len() == i,
            forall|x: usize| r@.contains(x) <==> s@.take(i as int).contains(x),
            sorted_by_name(cmds@, r@),
            all_below(r@, cmds@.len()),
        decreases s.len() - i,
    {
        let x = s[i];
        let xn = chars_of(cmds[x].name.as_str());
        let mut p: usize = 0;
        while p < r.len() && chars_lt(&chars_of(cmds[r[p]].name.as_str()), &xn)
            invariant
                p <= r@.len(),
                all_below(r@, cmds@.len()),
                xn@ == name_of(cmds@, x),
                x < cmds@.len(),
                forall|t: int| 0 <= t < p ==> lex_lt(name_of(cmds@, r@[t]), xn@),
            decreases r.len() - p,
        {
            p += 1;
        }
        proof {
            // x's name differs from every name already placed.
            assert forall|t: int| 0 <= t < r@.len() implies name_of(cmds@, r@[t]) != name_of(cmds@, x) by {
                assert(r@.contains(r@[t]));
                assert(s@.take(i as int).contains(r@[t]));
                let j = choose|j: int| 0 <= j < i && s@.take(i as int)[j] == r@[t];
                assert(s@[j] == r@[t]);
                assert(j != i);
            }
            if p < r@.len() {
                lemma_lex_total(name_of(cmds@, r@[p as int]), xn@);
            }
        }
        let ghost before = r@;
        r.insert(p, x);
        proof {
            assert forall|a: int, b: int| 0 <= a < b < r@.len() implies lex_lt(name_of(cmds@, r@[a]), name_of(cmds@, r@[b])) by {
                if b < p {
                    assert(r@[a] == before[a] && r@[b] == before[b]);
                } else if b == p {
                    assert(r@[a] == before[a]);
                } else if a == p {
                    assert(r@[b] == before[b - 1]);
                    if b - 1 > p {
                        lemma_lex_transitive(xn@, name_of(cmds@, before[p as int]), name_of(cmds@, before[b - 1]));
                    }
                } else if a < p {
                    assert(r@[a] == before[a] && r@[b] == before[b - 1]);
                } else {
                    assert(r@[a] == before[a - 1] && r@[b] == before[b - 1]);
                }
            }
            assert forall|y: usize| r@.contains(y) <==> s@.take(i as int + 1).contains(y) by {
                let t = s@.take(i as int + 1);
                if r@.contains(y) {
                    let j = choose|j: int| 0 <= j < r@.len() && r@[j] == y;
                    if j == p {
                        assert(t[i as int] == y);
                    } else {
                        let jj = if j < p { j } else { j - 1 };
                        assert(before[jj] == y);
                        assert(before.contains(y));
                        let q = choose|q: int| 0 <= q < i && s@.take(i as int)[q] == y;
                        assert(t[q] == y);
                    }
                }
                if t.contains(y) {
                    let q = choose|q: int| 0 <= q < i + 1 && t[q] == y;
                    if q == i {
                        assert(r@[p as int] == y);
                    } else {
                        assert(s@.take(i as int)[q] == y);
                        assert(before.contains(y));
                        let j = choose|j: int| 0 <= j < before.len() && before[j] == y;
                        if j < p {
                            assert(r@[j] == y);
                        } else {
                            assert(r@[j + 1] == y);
                        }
                    }
                }
            }
        }
        i += 1;
    }
    assert(s@.take(s@.len() as int) =~= s@);
    r
}

} // verus!
