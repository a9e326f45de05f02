//! Routing decisions for incoming messages: the gates in front of the
//! handlers, the command handler and the @bot handler. Each decision says
//! what to send or run; sending and running are left to the caller.
use vstd::prelude::*;

use crate::command::{
    brief_help_spec, build_trailing_error_msg, full_help_spec, spec_views, trailing_error_spec, try_help,
    validate_params, validate_spec, CommandInfo,
};
use crate::message::{at_target, concat_texts, full_text_of, seg_text, seg_views, MessageEvent, MessageSegment, MessageType, SegmentView};
use crate::parser::{parse_spec, CommandParser, ParamMap, ParamValue, ParamValueView, ParsedCommand, ParsedView};
use crate::permission::{role_lt, role_rank, AccessControl, BotUser, Role, Scope, Status};
use crate::pool::{built_from_event, event_fits, from_event, sender_name, PoolMessage, ProcessRecord};
use crate::registry::CommandRegistry;
use crate::text::{chars_of, join, join_strings, push_str, str_eq, string_of, trim, trim_chars, views};

verus! {

/// What the handlers know of a message that passed the gates.
pub struct MessageContext {
    pub scope: Scope,
    pub message_id: Option<i64>,
    pub bot_user: BotUser,
    pub segments: Vec<MessageSegment>,
    /// All text of the message.
    pub full_text: String,
    pub user_name: String,
    pub user_id: i64,
}

/// Outcome of a handler.
pub enum HandlerResult {
    /// Handled; later handlers are skipped. Carries the command's record
    /// when a command ran.
    Handled(Option<ProcessRecord>),
    /// Not handled; the next handler runs.
    Continue,
    /// Refused (such as for missing permission); later handlers are skipped.
    Skip,
}

/// The scope of a message: its group when it is a group message with a
/// group id, else the private chat with the sender.
pub open spec fn scope_spec(e: MessageEvent) -> Scope {
    match e.group_id {
        Some(g) => if e.message_type == MessageType::Group {
            Scope::Group(g)
        } else {
            Scope::Private(e.user_id)
        },
        None => Scope::Private(e.user_id),
    }
}

/// The scope of a message.
pub fn scope_of(event: &MessageEvent) -> (s: Scope)
    ensures
        s == scope_spec(*event),
{
    match event.group_id {
        Some(g) => if event.is_group() {
            Scope::Group(g)
        } else {
            Scope::Private(event.user_id)
        },
        None => Scope::Private(event.user_id),
    }
}

pub open spec fn resolved_user(user_id: i64, scope: Scope, owner: i64) -> BotUser {
    BotUser {
        user_id,
        scope,
        role: if user_id == owner { Role::Owner } else { Role::Member },
        status: Status::Normal,
    }
}

/// The user behind a message: the owner gets `Owner`, everyone else
/// `Member`. Blocked users never get this far, so the status is `Normal`.
pub fn resolve_user(user_id: i64, scope: Scope, owner: i64) -> (u: BotUser)
    ensures
        u == resolved_user(user_id, scope, owner),
{
    let role = if user_id == owner { Role::Owner } else { Role::Member };
    BotUser { user_id, scope, role, status: Status::Normal }
}

/// Whether the group gate stops a message before anything else: a group
/// that is not enabled, unless the owner wrote.
pub open spec fn group_gate_stops(scope: Scope, user_id: i64, owner: i64, access: crate::permission::AccessView) -> bool {
    match scope {
        Scope::Group(gid) => user_id != owner && !access.group_enabled(gid),
        Scope::Private(_) => false,
    }
}

/// A message after the gates.
pub struct Prepared {
    pub scope: Scope,
    /// The message to record in the pool, if the pool is in use.
    pub record: Option<PoolMessage>,
    /// The context for the handlers; `None` when the user is blocked or the
    /// message holds no text.
    pub context: Option<MessageContext>,
}

/// Gates an incoming message. `None`: the group gate stopped it. Otherwise
/// the message is recorded (when the pool is in use; blocked users' messages
/// are still part of the group's history), and reaches the handlers unless
/// the user is blocked (the owner never is) or the message holds no text.
pub fn prepare_context(event: MessageEvent, owner: i64, access: &AccessControl, pool_enabled: bool, now: i64) -> (r: Option<Prepared>)
    ensures
        r is None <==> group_gate_stops(scope_spec(event), event.user_id, owner, access@),
        r matches Some(p) ==> {
            &&& p.scope == scope_spec(event)
            &&& !pool_enabled ==> p.record is None
            &&& pool_enabled ==> (p.record is None <==> !event_fits(event, p.scope))
            &&& p.record matches Some(m) ==> built_from_event(event, p.scope, false, now, m)
            &&& p.context is None <==> ((event.user_id != owner && access@.user_blocked(event.user_id, p.scope))
                || full_text_of(seg_views(event.message@)).len() == 0)
            &&& p.context matches Some(c) ==> {
                &&& c.scope == p.scope
                &&& c.message_id == event.message_id
                &&& c.bot_user == resolved_user(event.user_id, p.scope, owner)
                &&& seg_views(c.segments@) == seg_views(event.message@)
                &&& c.full_text@ == full_text_of(seg_views(event.message@))
                &&& c.user_name@ == sender_name(event.sender)
                &&& c.user_id == event.user_id
            }
        },
{
    let scope = scope_of(&event);
    let is_owner = event.user_id == owner;
    match scope {
        Scope::Group(gid) => {
            if !is_owner && !access.is_group_enabled(gid) {
                return None;
            }
        },
        Scope::Private(_) => {},
    }
    let record = if pool_enabled {
        from_event(&event, scope, false, now)
    } else {
        None
    };
    let bot_user = resolve_user(event.user_id, scope, owner);
    if !is_owner && access.is_user_blocked(event.user_id, &scope) {
        return Some(Prepared { scope, record, context: None });
    }
    let full_text = event.full_text();
    if full_text.as_str().is_empty() {
        return Some(Prepared { scope, record, context: None });
    }
    let user_name = crate::pool::extract_nickname(&event.sender);
    let context = MessageContext {
        scope,
        message_id: event.message_id,
        bot_user,
        segments: event.message,
        full_text,
        user_name,
        user_id: event.user_id,
    };
    Some(Prepared { scope, record, context: Some(context) })
}

/// The pool record of a message the bot itself sent: recorded unless its
/// group is not enabled (no owner bypass here).
pub fn bot_message_record(event: &MessageEvent, access: &AccessControl, now: i64) -> (r: Option<PoolMessage>)
    ensures
        (scope_spec(*event) matches Scope::Group(gid) && !access@.group_enabled(gid)) ==> r is None,
        !(scope_spec(*event) matches Scope::Group(gid) && !access@.group_enabled(gid)) ==> {
            &&& r is None <==> !event_fits(*event, scope_spec(*event))
            &&& r matches Some(m) ==> built_from_event(*event, scope_spec(*event), true, now, m)
        },
{
    let scope = scope_of(event);
    match scope {
        Scope::Group(gid) => {
            if !access.is_group_enabled(gid) {
                return None;
            }
        },
        Scope::Private(_) => {},
    }
    from_event(event, scope, true, now)
}

// ── command decisions ────────────────────────────────────────────────────────

/// What to do with a message.
pub enum Decision<'a> {
    /// Leave it to the next handler.
    Pass,
    /// Handled, nothing to send.
    Done,
    /// Send the text; the message counts as handled.
    Reply(String),
    /// Send the text; the message is refused.
    Refuse(String),
    /// Run the command with these parameters.
    Execute { cmd: &'a CommandInfo, params: ParamMap },
}

pub enum DecisionView {
    Pass,
    Done,
    Reply(Seq<char>),
    Refuse(Seq<char>),
    Execute(CommandInfo, Map<Seq<char>, ParamValueView>),
}

impl<'a> View for Decision<'a> {
    type V = DecisionView;

    open spec fn view(&self) -> DecisionView {
        match self {
            Decision::Pass => DecisionView::Pass,
            Decision::Done => DecisionView::Done,
            Decision::Reply(t) => DecisionView::Reply(t@),
            Decision::Refuse(t) => DecisionView::Refuse(t@),
            Decision::Execute { cmd, params } => DecisionView::Execute(**cmd, params@),
        }
    }
}

/// Text sent when the user's role is below the command's.
pub open spec fn permission_denied() -> Seq<char> {
    "⛔ 权限不足，该命令仅限 Bot 管理员使用"@
}

pub open spec fn unknown_simple_text(prefix: Seq<char>, name: Seq<char>) -> Seq<char> {
    "❓ 未知命令: "@ + prefix + name + "，输入 "@ + prefix + "help 查看命令列表"@
}

pub open spec fn unknown_advanced_text(prefix: Seq<char>, name: Seq<char>) -> Seq<char> {
    "❓ 未知命令: <"@ + name + ">，输入 "@ + prefix + "help 查看命令列表"@
}

pub open spec fn invalid_params_text(detail: Seq<char>, name: Seq<char>) -> Seq<char> {
    "❌ "@ + detail + "\n输入 <"@ + name + "> --help 查看用法"@
}

/// The parameters a simple command that takes trailing arguments receives:
/// `_args`, the arguments joined by spaces, when there are any.
pub open spec fn trailing_params(trailing: Seq<Seq<char>>) -> Map<Seq<char>, ParamValueView> {
    if trailing.len() == 0 {
        Map::empty()
    } else {
        map!["_args"@ => ParamValueView::Value(join(trailing, " "@))]
    }
}

/// Decision for a simple command: unknown name, help request, missing
/// permission, trailing arguments (passed on, or refused), or execution.
pub open spec fn simple_decision(
    reg: CommandRegistry,
    role: Role,
    prefix: Seq<char>,
    name: Seq<char>,
    trailing: Seq<Seq<char>>,
) -> DecisionView {
    if !reg.simple_table().contains_key(name) {
        DecisionView::Reply(unknown_simple_text(prefix, name))
    } else {
        let cmd = reg.cmds()[reg.simple_table()[name] as int];
        if trailing.contains("--help"@) {
            DecisionView::Reply(full_help_spec(cmd.name@, cmd.help@, spec_views(cmd.params@)))
        } else if trailing.contains("-h"@) {
            DecisionView::Reply(brief_help_spec(cmd.name@, cmd.help@))
        } else if role_rank(role) < role_rank(cmd.required_role) {
            DecisionView::Refuse(permission_denied())
        } else if cmd.accepts_trailing {
            DecisionView::Execute(cmd, trailing_params(trailing))
        } else if trailing.len() > 0 {
            DecisionView::Reply(trailing_error_spec(trailing, prefix, name))
        } else {
            DecisionView::Execute(cmd, Map::empty())
        }
    }
}

/// Decision for an advanced command: unknown name, help request, missing
/// permission, invalid parameters (checked in key order `keys`), or
/// execution.
pub open spec fn advanced_decision(
    reg: CommandRegistry,
    role: Role,
    prefix: Seq<char>,
    name: Seq<char>,
    keys: Seq<Seq<char>>,
    params: Map<Seq<char>, ParamValueView>,
) -> DecisionView {
    if !reg.advanced_table().contains_key(name) {
        DecisionView::Reply(unknown_advanced_text(prefix, name))
    } else {
        let cmd = reg.cmds()[reg.advanced_table()[name] as int];
        if params.contains_key("--help"@) {
            DecisionView::Reply(full_help_spec(cmd.name@, cmd.help@, spec_views(cmd.params@)))
        } else if params.contains_key("-h"@) {
            DecisionView::Reply(brief_help_spec(cmd.name@, cmd.help@))
        } else if role_rank(role) < role_rank(cmd.required_role) {
            DecisionView::Refuse(permission_denied())
        } else {
            match validate_spec(keys, params, spec_views(cmd.params@)) {
                Err(detail) => DecisionView::Reply(invalid_params_text(detail, cmd.name@)),
                Ok(()) => DecisionView::Execute(cmd, params),
            }
        }
    }
}

/// `d` is the advanced decision for the parameters taken in some key order
/// (the order decides which unknown key is reported first).
pub open spec fn advanced_decision_in_some_order(
    reg: CommandRegistry,
    role: Role,
    prefix: Seq<char>,
    name: Seq<char>,
    params: Map<Seq<char>, ParamValueView>,
    d: DecisionView,
) -> bool {
    exists|keys: Seq<Seq<char>>| d == #[trigger] advanced_decision(reg, role, prefix, name, keys, params)
}

/// Whether one of the strings equals `f`.
fn contains_str(v: &Vec<String>, f: &str) -> (b: bool)
    ensures
        b == views(v@).contains(f@),
{
    let mut i: usize = 0;
    while i < v.len()
        invariant
            i <= v@.len(),
            forall|j: int| 0 <= j < i ==> v@[j]@ != f@,
        decreases v.len() - i,
    {
        if str_eq(v[i].as_str(), f) {
            assert(views(v@)[i as int] == f@);
            return true;
        }
        i += 1;
    }
    assert forall|j: int| 0 <= j < views(v@).len() implies views(v@)[j] != f@ by {
        assert(views(v@)[j] == v@[j]@);
    }
    false
}

fn permission_text() -> (s: String)
    ensures
        s@ == permission_denied(),
{
    "⛔ 权限不足，该命令仅限 Bot 管理员使用".to_string()
}

/// Handles `prefix + name + trailing`.
pub fn handle_simple<'a>(
    registry: &'a CommandRegistry,
    role: Role,
    prefix: &str,
    name: &str,
    trailing: &Vec<String>,
) -> (d: Decision<'a>)
    ensures
        d@ == simple_decision(*registry, role, prefix@, name@, views(trailing@)),
{
    match registry.get_simple(name) {
        None => {
            let mut t = String::new();
            push_str(&mut t, "❓ 未知命令: ");
            push_str(&mut t, prefix);
            push_str(&mut t, name);
            push_str(&mut t, "，输入 ");
            push_str(&mut t, prefix);
            push_str(&mut t, "help 查看命令列表");
            Decision::Reply(t)
        },
        Some(cmd) => {
            let has_flag = |f: &str| -> (b: bool)
                ensures
                    b == views(trailing@).contains(f@),
                { contains_str(trailing, f) };
            match try_help(cmd, has_flag) {
                Some(text) => {
                    return Decision::Reply(text);
                },
                None => {},
            }
            if role_lt(role, cmd.required_role) {
                return Decision::Refuse(permission_text());
            }
            if cmd.accepts_trailing {
                let mut params: ParamMap = ParamMap::new();
                if trailing.len() > 0 {
                    let joined = join_strings(trailing, " ");
                    params.insert("_args".to_string(), ParamValue::Value(joined));
                    assert(params@ =~= trailing_params(views(trailing@)));
                } else {
                    assert(params@ =~= trailing_params(views(trailing@)));
                }
                Decision::Execute { cmd, params }
            } else if trailing.len() > 0 {
                Decision::Reply(build_trailing_error_msg(trailing.as_slice(), prefix, name))
            } else {
                Decision::Execute { cmd, params: ParamMap::new() }
            }
        },
    }
}

/// Handles `<name> params`.
pub fn handle_advanced<'a>(
    registry: &'a CommandRegistry,
    role: Role,
    prefix: &str,
    name: &str,
    params: ParamMap,
) -> (d: Decision<'a>)
    ensures
        d@ == advanced_decision(*registry, role, prefix@, name@, params.key_order(), params@),
{
    match registry.get_advanced(name) {
        None => {
            let mut t = String::new();
            push_str(&mut t, "❓ 未知命令: <");
            push_str(&mut t, name);
            push_str(&mut t, ">，输入 ");
            push_str(&mut t, prefix);
            push_str(&mut t, "help 查看命令列表");
            Decision::Reply(t)
        },
        Some(cmd) => {
            let ps = &params;
            let has_flag = |f: &str| -> (b: bool)
                ensures
                    b == ps@.contains_key(f@),
                { ps.contains_key(f) };
            match try_help(cmd, has_flag) {
                Some(text) => {
                    return Decision::Reply(text);
                },
                None => {},
            }
            if role_lt(role, cmd.required_role) {
                return Decision::Refuse(permission_text());
            }
            match validate_params(&params, cmd.params.as_slice()) {
                Err(detail) => {
                    let mut t = String::new();
                    push_str(&mut t, "❌ ");
                    push_str(&mut t, detail.as_str());
                    push_str(&mut t, "\n输入 <");
                    push_str(&mut t, cmd.name.as_str());
                    push_str(&mut t, "> --help 查看用法");
                    Decision::Reply(t)
                },
                Ok(()) => Decision::Execute { cmd, params },
            }
        },
    }
}

/// The command handler: parses the message text and decides; `Pass` when
/// the text is no command.
pub fn command_decision<'a>(registry: &'a CommandRegistry, ctx: &MessageContext, prefix: &str) -> (d: Decision<'a>)
    ensures
        parse_spec(ctx.full_text@, prefix@) is None ==> d@ is Pass,
        parse_spec(ctx.full_text@, prefix@) matches Some(ParsedView::Simple { name, trailing })
            ==> d@ == simple_decision(*registry, ctx.bot_user.role, prefix@, name, trailing),
        parse_spec(ctx.full_text@, prefix@) matches Some(ParsedView::Advanced { name, params })
            ==> advanced_decision_in_some_order(*registry, ctx.bot_user.role, prefix@, name, params, d@),
{
    match CommandParser::parse(ctx.full_text.as_str(), prefix) {
        None => Decision::Pass,
        Some(ParsedCommand::Simple { name, trailing }) => {
            assert(views(trailing@) == trailing@.map_values(|t: String| t@));
            let d = handle_simple(registry, ctx.bot_user.role, prefix, name.as_str(), &trailing);
            assert(parse_spec(ctx.full_text@, prefix@) == Some(ParsedView::Simple { name: name@, trailing: views(trailing@) }));
            assert(d@ == simple_decision(*registry, ctx.bot_user.role, prefix@, name@, views(trailing@)));
            d
        },
        Some(ParsedCommand::Advanced { name, params }) => {
            let ghost keys = params.key_order();
            let d = handle_advanced(registry, ctx.bot_user.role, prefix, name.as_str(), params);
            assert(d@ == advanced_decision(*registry, ctx.bot_user.role, prefix@, name@, keys, params@));
            assert(parse_spec(ctx.full_text@, prefix@) == Some(ParsedView::Advanced { name: name@, params: params@ }));
            assert(advanced_decision_in_some_order(*registry, ctx.bot_user.role, prefix@, name@, params@, d@));
            d
        },
    }
}

// ── @bot ─────────────────────────────────────────────────────────────────────

/// Whether a segment mentions the bot.
pub open spec fn mentions(seg: SegmentView, bot_id: i64) -> bool {
    at_target(seg) == Some(bot_id)
}

/// The text of the segments, leaving out the mentions of the bot.
pub open spec fn question_text(segs: Seq<SegmentView>, bot_id: i64) -> Seq<char>
    decreases segs.len(),
{
    if segs.len() == 0 {
        Seq::empty()
    } else {
        let rest = question_text(segs.drop_last(), bot_id);
        let s = segs.last();
        if s.seg_type == "at"@ && mentions(s, bot_id) {
            rest
        } else {
            rest + match seg_text(s) {
                Some(t) => t,
                None => Seq::empty(),
            }
        }
    }
}

/// The question put to the bot: the trimmed text around a mention of the
/// bot; `None` when the bot id is unknown (0), the bot is not mentioned, or
/// nothing is left.
pub open spec fn question_spec(segs: Seq<SegmentView>, bot_id: i64) -> Option<Seq<char>> {
    if bot_id == 0 {
        None
    } else if !(exists|i: int| 0 <= i < segs.len() && #[trigger] mentions(segs[i], bot_id)) {
        None
    } else if trim(question_text(segs, bot_id)).len() == 0 {
        None
    } else {
        Some(trim(question_text(segs, bot_id)))
    }
}

/// The @bot handler's question, if the message is one.
pub fn at_bot_question(segments: &Vec<MessageSegment>, bot_id: i64) -> (q: Option<String>)
    ensures
        match question_spec(seg_views(segments@), bot_id) {
            Some(t) => q matches Some(s) && s@ == t,
            None => q is None,
        },
{
    let ghost v = seg_views(segments@);
    if bot_id == 0 {
        return None;
    }
    let mut found = false;
    let mut text = String::new();
    let mut i: usize = 0;
    while i < segments.len()
        invariant
            i <= segments@.len(),
            v == seg_views(segments@),
            bot_id != 0,
            found == exists|j: int| 0 <= j < i && #[trigger] mentions(v[j], bot_id),
            text@ == question_text(v.take(i as int), bot_id),
        decreases segments.len() - i,
    {
        let seg = &segments[i];
        assert(v[i as int] == seg@);
        assert(v.take(i as int + 1).drop_last() =~= v.take(i as int));
        let at_bot = match seg.at_qq_id() {
            Some(id) => id == bot_id,
            None => false,
        };
        assert(mentions(v[i as int], bot_id) == at_bot);
        if at_bot {
            found = true;
        }
        if !(seg.is_at() && at_bot) {
            match seg.as_text() {
                Some(t) => push_str(&mut text, t),
                None => {},
            }
        }
        i += 1;
    }
    assert(v.take(segments@.len() as int) =~= v);
    if !found {
        return None;
    }
    let cs = chars_of(text.as_str());
    let t = trim_chars(&cs);
    if t.len() == 0 {
        None
    } else {
        Some(string_of(&t))
    }
}

/// The command a tool call names, if it offers itself as a tool (simple
/// commands are looked up first).
pub open spec fn tool_command(reg: CommandRegistry, command: Seq<char>) -> Option<CommandInfo> {
    let c = if reg.simple_table().contains_key(command) {
        Some(reg.cmds()[reg.simple_table()[command] as int])
    } else if reg.advanced_table().contains_key(command) {
        Some(reg.cmds()[reg.advanced_table()[command] as int])
    } else {
        None
    };
    match c {
        Some(cmd) => if cmd.tool_description is Some { Some(cmd) } else { None },
        None => None,
    }
}

/// Routes a tool call made by the language model: unknown commands and
/// commands that are no tools are dropped; permissions apply as usual.
pub fn dispatch_tool_call<'a>(registry: &'a CommandRegistry, role: Role, command: &str) -> (d: Decision<'a>)
    ensures
        d@ == match tool_command(*registry, command@) {
            None => DecisionView::Done,
            Some(cmd) => if role_rank(role) < role_rank(cmd.required_role) {
                DecisionView::Refuse(permission_denied())
            } else {
                DecisionView::Execute(cmd, Map::empty())
            },
        },
{
    let found = match registry.get_simple(command) {
        Some(c) => Some(c),
        None => registry.get_advanced(command),
    };
    match found {
        Some(cmd) => {
            if cmd.tool_description.is_none() {
                return Decision::Done;
            }
            if role_lt(role, cmd.required_role) {
                return Decision::Refuse(permission_text());
            }
            Decision::Execute { cmd, params: ParamMap::new() }
        },
        None => Decision::Done,
    }
}


/// The owner passes the group gate in every scope, and private chats have
/// no group gate.
pub proof fn law_gate_exemptions(scope: Scope, user_id: i64, owner: i64, access: crate::permission::AccessView)
    ensures
        !group_gate_stops(scope, owner, owner, access),
        scope is Private ==> !group_gate_stops(scope, user_id, owner, access),
{
}

/// The owner is always resolved as `Owner`, everyone else as `Member`.
pub proof fn law_owner_role(user_id: i64, scope: Scope, owner: i64)
    ensures
        (resolved_user(user_id, scope, owner).role == Role::Owner) <==> user_id == owner,
{
}

} // verus!
