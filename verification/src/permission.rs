//! Identity and access control: scopes, roles, the group whitelist and the
//! two-layer user blacklist (configuration layer plus runtime layer).
use vstd::prelude::*;

use crate::intmap::IntMap;
use crate::text::push_str;

verus! {

/// Where a message happened: a group chat or a private chat.
#[derive(Debug, Clone, Copy, PartialEq, Eq, Hash, Structural)]
pub enum Scope {
    /// Group chat, with the group id.
    Group(i64),
    /// Private chat, with the peer's QQ number.
    Private(i64),
}

/// The bot's virtual role for a user (global). `Member < Owner`.
#[derive(Debug, Clone, Copy, PartialEq, Eq, PartialOrd, Ord, Structural)]
pub enum Role {
    Member,
    Owner,
}

/// Rank of a role in the order `Member < Owner`.
pub open spec fn role_rank(r: Role) -> int {
    match r {
        Role::Member => 0,
        Role::Owner => 1,
    }
}

/// `a < b` in the role order.
pub fn role_lt(a: Role, b: Role) -> (r: bool)
    ensures
        r == (role_rank(a) < role_rank(b)),
{
    match (a, b) {
        (Role::Member, Role::Owner) => true,
        _ => false,
    }
}

/// A user's state: normal, or blocked.
#[derive(Debug, Clone, Copy, PartialEq, Eq, Structural)]
pub enum Status {
    Normal,
    Blocked,
}

/// The user behind one interaction, resolved once at the entry point.
#[derive(Debug, Clone, Copy, PartialEq, Eq, Structural)]
pub struct BotUser {
    pub user_id: i64,
    pub scope: Scope,
    pub role: Role,
    pub status: Status,
}

impl BotUser {
    /// Whether the user may trigger public commands (not blocked).
    pub fn can_use_public(&self) -> (b: bool)
        ensures
            b == (self.status == Status::Normal),
    {
        self.status == Status::Normal
    }

    /// Whether the user is the bot owner.
    pub fn is_owner(&self) -> (b: bool)
        ensures
            b == (self.role == Role::Owner),
    {
        self.role == Role::Owner
    }
}

/// The `[bot]` section of the runtime configuration.
pub struct BotConfig {
    /// The bot's own QQ number (used to detect @bot).
    pub bot_id: i64,
    /// The owner's QQ number (highest privilege, never blocked).
    pub owner: i64,
    /// Path of the permission database, `"permissions.db"` by default.
    pub db_path: String,
    /// Groups enabled at first start.
    pub initial_groups: Vec<i64>,
    /// Users ignored in every group.
    pub group_blacklist: Vec<i64>,
    /// Users ignored in private chat.
    pub private_blacklist: Vec<i64>,
}

pub open spec fn default_db_path_spec() -> Seq<char> {
    seq!['p', 'e', 'r', 'm', 'i', 's', 's', 'i', 'o', 'n', 's', '.', 'd', 'b']
}

/// The default permission database path.
pub fn default_db_path() -> (s: String)
    ensures
        s@ == default_db_path_spec(),
{
    let mut s = String::new();
    push_str(&mut s, "permissions.db");
    proof {
        reveal_strlit("permissions.db");
    }
    s
}

impl Default for BotConfig {
    fn default() -> (c: Self)
        ensures
            c.bot_id == 0,
            c.owner == 0,
            c.db_path@ == default_db_path_spec(),
            c.initial_groups@.len() == 0,
            c.group_blacklist@.len() == 0,
            c.private_blacklist@.len() == 0,
    {
        BotConfig {
            bot_id: 0,
            owner: 0,
            db_path: default_db_path(),
            initial_groups: Vec::new(),
            group_blacklist: Vec::new(),
            private_blacklist: Vec::new(),
        }
    }
}

// ── access control ───────────────────────────────────────────────────────────

/// Policy of one group.
#[derive(Debug, Clone, Copy, PartialEq, Eq, Structural)]
pub struct GroupPolicy {
    pub enabled: bool,
    /// Reserved: free-talk switch for the language model.
    pub llm_free: bool,
}

/// A runtime block entry: scope type (1 = group, 2 = private), scope id
/// (the group id, or 0 for private chat) and the user.
#[derive(Debug, Clone, Copy, PartialEq, Eq, Hash, Structural)]
pub struct BlockKey {
    pub scope_type: u8,
    pub scope_id: i64,
    pub user_id: i64,
}

/// The block entry that a scope and user denote.
pub open spec fn block_key(scope: Scope, user_id: i64) -> BlockKey {
    match scope {
        Scope::Group(gid) => BlockKey { scope_type: 1, scope_id: gid, user_id },
        Scope::Private(_) => BlockKey { scope_type: 2, scope_id: 0, user_id },
    }
}

/// Storage name, type code and id of a scope.
pub fn scope_parts(scope: &Scope) -> (r: (&'static str, u8, i64))
    ensures
        r.1 == block_key(*scope, 0).scope_type,
        r.2 == block_key(*scope, 0).scope_id,
        r.1 == 1 ==> r.0@ == seq!['g', 'r', 'o', 'u', 'p'],
        r.1 == 2 ==> r.0@ == seq!['p', 'r', 'i', 'v', 'a', 't', 'e'],
{
    proof {
        reveal_strlit("group");
        reveal_strlit("private");
    }
    match scope {
        Scope::Group(gid) => ("group", 1, *gid),
        Scope::Private(_) => ("private", 2, 0),
    }
}

/// Scope type code of a stored scope name: `"group"` → 1, `"private"` → 2, else 0.
pub fn scope_type_code(name: &str) -> (c: u8)
    ensures
        c == (if name@ == seq!['g', 'r', 'o', 'u', 'p'] {
            1u8
        } else if name@ == seq!['p', 'r', 'i', 'v', 'a', 't', 'e'] {
            2u8
        } else {
            0u8
        }),
{
    proof {
        reveal_strlit("group");
        reveal_strlit("private");
        assert("group"@ =~= seq!['g', 'r', 'o', 'u', 'p']);
        assert("private"@ =~= seq!['p', 'r', 'i', 'v', 'a', 't', 'e']);
    }
    if crate::text::str_eq(name, "group") {
        1
    } else if crate::text::str_eq(name, "private") {
        2
    } else {
        0
    }
}

/// Mathematical state of the access control.
pub struct AccessView {
    /// Known groups and their policies.
    pub groups: Map<i64, GroupPolicy>,
    /// Runtime block entries.
    pub blocked: Set<BlockKey>,
    /// Configuration blacklist for group chats (all groups).
    pub cfg_group: Set<i64>,
    /// Configuration blacklist for private chat.
    pub cfg_private: Set<i64>,
}

impl AccessView {
    pub open spec fn group_enabled(self, gid: i64) -> bool {
        self.groups.contains_key(gid) && self.groups[gid].enabled
    }

    /// Configuration layer and runtime layer together.
    pub open spec fn user_blocked(self, user_id: i64, scope: Scope) -> bool {
        match scope {
            Scope::Group(_) => self.cfg_group.contains(user_id) || self.blocked.contains(block_key(scope, user_id)),
            Scope::Private(_) => self.cfg_private.contains(user_id) || self.blocked.contains(block_key(scope, user_id)),
        }
    }

    pub open spec fn block(self, scope: Scope, user_id: i64) -> AccessView {
        AccessView { blocked: self.blocked.insert(block_key(scope, user_id)), ..self }
    }

    pub open spec fn unblock(self, scope: Scope, user_id: i64) -> AccessView {
        AccessView { blocked: self.blocked.remove(block_key(scope, user_id)), ..self }
    }

    pub open spec fn enable(self, gid: i64) -> AccessView {
        AccessView { groups: self.groups.insert(gid, GroupPolicy { enabled: true, llm_free: false }), ..self }
    }

    pub open spec fn disable(self, gid: i64) -> AccessView {
        if self.groups.contains_key(gid) {
            AccessView {
                groups: self.groups.insert(gid, GroupPolicy { enabled: false, llm_free: self.groups[gid].llm_free }),
                ..self
            }
        } else {
            self
        }
    }
}

/// Group whitelist and user blacklist, held in memory. The configuration
/// blacklist is fixed at construction; runtime blocks are layered on top.
pub struct AccessControl {
    groups: IntMap<GroupPolicy>,
    blocked: Vec<BlockKey>,
    cfg_group_blocked: Vec<i64>,
    cfg_private_blocked: Vec<i64>,
}

impl View for AccessControl {
    type V = AccessView;

    closed spec fn view(&self) -> AccessView {
        AccessView {
            groups: self.groups.view(),
            blocked: self.blocked@.to_set(),
            cfg_group: self.cfg_group_blocked@.to_set(),
            cfg_private: self.cfg_private_blocked@.to_set(),
        }
    }
}

fn contains_i64(v: &Vec<i64>, x: i64) -> (b: bool)
    ensures
        b == v@.contains(x),
{
    let mut i: usize = 0;
    while i < v.len()
        invariant
            i <= v.len(),
            forall|j: int| 0 <= j < i ==> v@[j] != x,
        decreases v.len() - i,
    {
        if v[i] == x {
            return true;
        }
        i += 1;
    }
    false
}

fn contains_key(v: &Vec<BlockKey>, x: BlockKey) -> (b: bool)
    ensures
        b == v@.contains(x),
{
    let mut i: usize = 0;
    while i < v.len()
        invariant
            i <= v.len(),
            forall|j: int| 0 <= j < i ==> v@[j] != x,
        decreases v.len() - i,
    {
        if v[i] == x {
            return true;
        }
        i += 1;
    }
    false
}

fn copy_ids(v: &[i64]) -> (r: Vec<i64>)
    ensures
        r@ == v@,
{
    let mut r: Vec<i64> = Vec::new();
    let mut i: usize = 0;
    while i < v.len()
        invariant
            i <= v.len(),
            r@ =~= v@.take(i as int),
        decreases v.len() - i,
    {
        r.push(v[i]);
        i += 1;
    }
    assert(v@.take(v.len() as int) =~= v@);
    r
}

/// The policy of the last row for the group, if any row names it.
pub open spec fn last_policy(rows: Seq<(i64, bool, bool)>, g: i64) -> Option<GroupPolicy>
    decreases rows.len(),
{
    if rows.len() == 0 {
        None
    } else if rows.last().0 == g {
        Some(GroupPolicy { enabled: rows.last().1, llm_free: rows.last().2 })
    } else {
        last_policy(rows.drop_last(), g)
    }
}

impl AccessControl {
    /// Builds the access control from the configuration: the initial groups
    /// are enabled, and the two blacklists form the configuration layer.
    pub fn from_config(
        initial_groups: &[i64],
        group_blacklist: &[i64],
        private_blacklist: &[i64],
    ) -> (ac: Self)
        ensures
            forall|g: i64| ac@.groups.contains_key(g) == initial_groups@.contains(g),
            forall|g: i64| ac@.groups.contains_key(g) ==> ac@.groups[g] == (GroupPolicy { enabled: true, llm_free: false }),
            ac@.blocked == Set::<BlockKey>::empty(),
            ac@.cfg_group == group_blacklist@.to_set(),
            ac@.cfg_private == private_blacklist@.to_set(),
    {
        let mut groups: IntMap<GroupPolicy> = IntMap::new();
        let mut i: usize = 0;
        while i < initial_groups.len()
            invariant
                i <= initial_groups.len(),
                forall|g: i64| groups.view().contains_key(g) == initial_groups@.take(i as int).contains(g),
                forall|g: i64| groups.view().contains_key(g) ==> groups.view()[g] == (GroupPolicy { enabled: true, llm_free: false }),
            decreases initial_groups.len() - i,
        {
            groups.insert(initial_groups[i], GroupPolicy { enabled: true, llm_free: false });
            proof {
                assert forall|g: i64| groups.view().contains_key(g) == initial_groups@.take(i as int + 1).contains(g) by {
                    let t = initial_groups@.take(i as int + 1);
                    if initial_groups@.take(i as int).contains(g) {
                        let j = choose|j: int| 0 <= j < i && initial_groups@.take(i as int)[j] == g;
                        assert(t[j] == g);
                    }
                    if t.contains(g) && g != initial_groups@[i as int] {
                        let j = choose|j: int| 0 <= j < i + 1 && t[j] == g;
                        assert(initial_groups@.take(i as int)[j] == g);
                    }
                    if g == initial_groups@[i as int] {
                        assert(t[i as int] == g);
                    }
                }
            }
            i += 1;
        }
        assert(initial_groups@.take(initial_groups.len() as int) =~= initial_groups@);
        let ac = AccessControl {
            groups,
            blocked: Vec::new(),
            cfg_group_blocked: copy_ids(group_blacklist),
            cfg_private_blocked: copy_ids(private_blacklist),
        };
        assert(ac@.blocked =~= Set::<BlockKey>::empty());
        ac
    }

    /// Builds the access control from stored state: group policies as
    /// `(group_id, enabled, llm_free)` (a later row for the same group wins),
    /// runtime block entries, and the configuration blacklists.
    pub fn from_state(
        groups: &[(i64, bool, bool)],
        blocked: &[BlockKey],
        group_blacklist: &[i64],
        private_blacklist: &[i64],
    ) -> (ac: Self)
        ensures
            forall|g: i64| #![auto] ac@.groups.contains_key(g) == (exists|j: int| 0 <= j < groups@.len() && groups@[j].0 == g),
            forall|g: i64| #![auto] ac@.groups.contains_key(g) ==> last_policy(groups@, g) == Some(ac@.groups[g]),
            ac@.blocked == blocked@.to_set(),
            ac@.cfg_group == group_blacklist@.to_set(),
            ac@.cfg_private == private_blacklist@.to_set(),
    {
        let mut m: IntMap<GroupPolicy> = IntMap::new();
        let mut i: usize = 0;
        while i < groups.len()
            invariant
                i <= groups.len(),
                forall|g: i64| #![auto] m.view().contains_key(g) == (exists|j: int| 0 <= j < i && groups@[j].0 == g),
                forall|g: i64| #![auto] m.view().contains_key(g) ==> last_policy(groups@.take(i as int), g) == Some(m.view()[g]),
            decreases groups.len() - i,
        {
            let (gid, enabled, llm_free) = groups[i];
            m.insert(gid, GroupPolicy { enabled, llm_free });
            proof {
                assert forall|g: i64| #![auto] m.view().contains_key(g) == (exists|j: int| 0 <= j < i + 1 && groups@[j].0 == g) by {
                    if g == gid {
                        assert(groups@[i as int].0 == g);
                    }
                }
                let t = groups@.take(i as int + 1);
                assert(t.drop_last() =~= groups@.take(i as int));
                assert(t.last() == groups@[i as int]);
            }
            i += 1;
        }
        assert(groups@.take(groups.len() as int) =~= groups@);
        let mut b: Vec<BlockKey> = Vec::new();
        let mut k: usize = 0;
        while k < blocked.len()
            invariant
                k <= blocked.len(),
                b@ =~= blocked@.take(k as int),
            decreases blocked.len() - k,
        {
            b.push(blocked[k]);
            k += 1;
        }
        assert(blocked@.take(blocked.len() as int) =~= blocked@);
        AccessControl {
            groups: m,
            blocked: b,
            cfg_group_blocked: copy_ids(group_blacklist),
            cfg_private_blocked: copy_ids(private_blacklist),
        }
    }

    /// Whether the group is known and enabled.
    pub fn is_group_enabled(&self, group_id: i64) -> (b: bool)
        ensures
            b == self@.group_enabled(group_id),
    {
        match self.groups.get(group_id) {
            Some(p) => p.enabled,
            None => false,
        }
    }

    /// The enabled groups, each once.
    pub fn enabled_groups(&self) -> (r: Vec<i64>)
        ensures
            r@.no_duplicates(),
            forall|g: i64| r@.contains(g) <==> self@.group_enabled(g),
    {
        let ks = self.groups.keys();
        let mut r: Vec<i64> = Vec::new();
        let mut i: usize = 0;
        while i < ks.len()
            invariant
                i <= ks@.len(),
                ks@.no_duplicates(),
                forall|g: i64| self.groups.view().contains_key(g) <==> ks@.contains(g),
                r@.no_duplicates(),
                forall|g: i64| r@.contains(g) ==> exists|j: int| 0 <= j < i && ks@[j] == g,
                forall|g: i64| r@.contains(g) <==> (exists|j: int| 0 <= j < i && ks@[j] == g) && self@.group_enabled(g),
            decreases ks.len() - i,
        {
            let g = ks[i];
            proof { assert(ks@.contains(g)); }
            let en = match self.groups.get(g) {
                Some(p) => p.enabled,
                None => false,
            };
            if en {
                proof {
                    assert forall|x: int, y: int| 0 <= x < r@.push(g).len() && 0 <= y < r@.push(g).len() && x != y
                        implies r@.push(g)[x] != r@.push(g)[y] by {
                        if x == r@.len() as int && y < r@.len() {
                            assert(r@.contains(r@[y]));
                        } else if y == r@.len() as int && x < r@.len() {
                            assert(r@.contains(r@[x]));
                        }
                    }
                }
                let ghost before = r@;
                r.push(g);
                proof {
                    assert forall|h: i64| r@.contains(h) <==> (exists|j: int| 0 <= j < i + 1 && ks@[j] == h) && self@.group_enabled(h) by {
                        if r@.contains(h) && h != g {
                            let t = choose|t: int| 0 <= t < r@.len() && r@[t] == h;
                            assert(before[t] == h);
                            assert(before.contains(h));
                        }
                        if h != g && (exists|j: int| 0 <= j < i + 1 && ks@[j] == h) && self@.group_enabled(h) {
                            let j = choose|j: int| 0 <= j < i + 1 && ks@[j] == h;
                            assert(j != i);
                            assert(before.contains(h));
                            let t = choose|t: int| 0 <= t < before.len() && before[t] == h;
                            assert(r@[t] == h);
                        }
                        if h == g {
                            assert(r@[before.len() as int] == g);
                        }
                    }
                }
            } else {
                proof {
                    assert forall|h: i64| r@.contains(h) <==> (exists|j: int| 0 <= j < i + 1 && ks@[j] == h) && self@.group_enabled(h) by {
                        if (exists|j: int| 0 <= j < i + 1 && ks@[j] == h) && self@.group_enabled(h) && h != g {
                            let j = choose|j: int| 0 <= j < i + 1 && ks@[j] == h;
                            assert(j != i);
                        }
                    }
                }
            }
            i += 1;
        }
        proof {
            assert forall|g: i64| r@.contains(g) <==> self@.group_enabled(g) by {
                if self@.group_enabled(g) {
                    assert(ks@.contains(g));
                }
            }
        }
        r
    }

    /// Whether a user is blocked in a scope: the configuration blacklist for
    /// that kind of chat, or a runtime block for the scope.
    pub fn is_user_blocked(&self, user_id: i64, scope: &Scope) -> (b: bool)
        ensures
            b == self@.user_blocked(user_id, *scope),
    {
        match scope {
            Scope::Group(gid) => {
                if contains_i64(&self.cfg_group_blocked, user_id) {
                    return true;
                }
                contains_key(&self.blocked, BlockKey { scope_type: 1, scope_id: *gid, user_id })
            },
            Scope::Private(_) => {
                if contains_i64(&self.cfg_private_blocked, user_id) {
                    return true;
                }
                contains_key(&self.blocked, BlockKey { scope_type: 2, scope_id: 0, user_id })
            },
        }
    }

    /// Adds a runtime block for the user in the scope.
    pub fn block_user(&mut self, scope: &Scope, user_id: i64)
        ensures
            final(self)@ == old(self)@.block(*scope, user_id),
    {
        let (_, st, sid) = scope_parts(scope);
        let key = BlockKey { scope_type: st, scope_id: sid, user_id };
        assert(key == block_key(*scope, user_id));
        let ghost before = self.blocked@;
        if !contains_key(&self.blocked, key) {
            self.blocked.push(key);
            proof {
                assert forall|x: BlockKey| self.blocked@.contains(x) <==> before.contains(x) || x == key by {
                    if before.contains(x) {
                        let j = choose|j: int| 0 <= j < before.len() && before[j] == x;
                        assert(self.blocked@[j] == x);
                    }
                    if self.blocked@.contains(x) && x != key {
                        let j = choose|j: int| 0 <= j < self.blocked@.len() && self.blocked@[j] == x;
                        assert(before[j] == x);
                    }
                    if x == key {
                        assert(self.blocked@[before.len() as int] == x);
                    }
                }
            }
        }
        assert(self@.blocked =~= old(self)@.blocked.insert(key));
    }

    /// Removes the runtime block for the user in the scope (the configuration
    /// blacklist is not touched).
    pub fn unblock_user(&mut self, scope: &Scope, user_id: i64)
        ensures
            final(self)@ == old(self)@.unblock(*scope, user_id),
    {
        let (_, st, sid) = scope_parts(scope);
        let key = BlockKey { scope_type: st, scope_id: sid, user_id };
        assert(key == block_key(*scope, user_id));
        let mut kept: Vec<BlockKey> = Vec::new();
        let mut i: usize = 0;
        while i < self.blocked.len()
            invariant
                i <= self.blocked@.len(),
                forall|k: BlockKey| kept@.contains(k) <==> (self.blocked@.take(i as int).contains(k) && k != key),
            decreases self.blocked.len() - i,
        {
            let k = self.blocked[i];
            let ghost before = kept@;
            if k != key {
                kept.push(k);
            }
            proof {
                let t = self.blocked@.take(i as int + 1);
                assert forall|x: BlockKey| kept@.contains(x) <==> (t.contains(x) && x != key) by {
                    if self.blocked@.take(i as int).contains(x) {
                        let j = choose|j: int| 0 <= j < i && self.blocked@.take(i as int)[j] == x;
                        assert(t[j] == x);
                    }
                    if t.contains(x) && x != k {
                        let j = choose|j: int| 0 <= j < i + 1 && t[j] == x;
                        assert(self.blocked@.take(i as int)[j] == x);
                    }
                    if x == k {
                        assert(t[i as int] == x);
                    }
                    if kept@.contains(x) && x != k {
                        let j = choose|j: int| 0 <= j < kept@.len() && kept@[j] == x;
                        if k != key {
                            assert(j < before.len());
                            assert(before[j] == x);
                        }
                        assert(before.contains(x));
                    }
                    if before.contains(x) {
                        let j = choose|j: int| 0 <= j < before.len() && before[j] == x;
                        assert(kept@[j] == x);
                    }
                    if x == k && k != key {
                        assert(kept@[before.len() as int] == x);
                    }
                }
            }
            i += 1;
        }
        assert(self.blocked@.take(self.blocked@.len() as int) =~= self.blocked@);
        self.blocked = kept;
        assert(self@.blocked =~= old(self)@.blocked.remove(key));
    }

    /// Enables a group (a new group gets `llm_free = false`).
    pub fn enable_group(&mut self, group_id: i64)
        ensures
            final(self)@ == old(self)@.enable(group_id),
    {
        self.groups.insert(group_id, GroupPolicy { enabled: true, llm_free: false });
        assert(self@.groups =~= old(self)@.groups.insert(group_id, GroupPolicy { enabled: true, llm_free: false }));
    }

    /// Disables a known group; an unknown group stays unknown.
    pub fn disable_group(&mut self, group_id: i64)
        ensures
            final(self)@ == old(self)@.disable(group_id),
    {
        let cur = match self.groups.get(group_id) {
            Some(p) => Some(*p),
            None => None,
        };
        match cur {
            Some(p) => {
                self.groups.insert(group_id, GroupPolicy { enabled: false, llm_free: p.llm_free });
                assert(self@.groups =~= old(self)@.groups.insert(group_id, GroupPolicy { enabled: false, llm_free: p.llm_free }));
            },
            None => {},
        }
    }
}

// ── laws ─────────────────────────────────────────────────────────────────────

/// After blocking a user in a scope, the user is blocked there.
pub proof fn law_block_then_blocked(a: AccessView, scope: Scope, user_id: i64)
    ensures
        a.block(scope, user_id).user_blocked(user_id, scope),
{
}

/// Unblocking undoes blocking: a user who was not blocked by the runtime
/// layer is back to the same state after a block and an unblock.
pub proof fn law_unblock_undoes_block(a: AccessView, scope: Scope, user_id: i64, s2: Scope, u2: i64)
    requires
        !a.blocked.contains(block_key(scope, user_id)),
    ensures
        a.block(scope, user_id).unblock(scope, user_id).user_blocked(u2, s2) == a.user_blocked(u2, s2),
{
    assert(a.block(scope, user_id).unblock(scope, user_id).blocked =~= a.blocked);
}

/// The configuration blacklist always wins: unblocking never releases a
/// user listed in it.
pub proof fn law_config_blacklist_persists(a: AccessView, scope: Scope, user_id: i64)
    requires
        match scope {
            Scope::Group(_) => a.cfg_group.contains(user_id),
            Scope::Private(_) => a.cfg_private.contains(user_id),
        },
    ensures
        a.unblock(scope, user_id).user_blocked(user_id, scope),
{
}

/// A runtime block in one group does not affect another group.
pub proof fn law_block_is_per_group(a: AccessView, g1: i64, g2: i64, user_id: i64)
    requires
        g1 != g2,
    ensures
        a.block(Scope::Group(g1), user_id).user_blocked(user_id, Scope::Group(g2))
            == a.user_blocked(user_id, Scope::Group(g2)),
{
}

/// Enabling a group enables it; disabling it afterwards disables it.
pub proof fn law_enable_disable(a: AccessView, gid: i64)
    ensures
        a.enable(gid).group_enabled(gid),
        !a.enable(gid).disable(gid).group_enabled(gid),
        !a.disable(gid).group_enabled(gid),
{
}

} // verus!
