use lianbot::command::{CommandInfo, CommandKind, ParamKind, ParamSpec, ValueConstraint};
use lianbot::dispatch::{
    at_bot_question, bot_message_record, command_decision, dispatch_tool_call, handle_advanced, handle_simple,
    prepare_context, resolve_user, scope_of, Decision, MessageContext,
};
use lianbot::message::{MessageEvent, MessageSegment, MessageType, Sender};
use lianbot::parser::{ParamMap, ParamValue};
use lianbot::permission::{AccessControl, Role, Scope, Status};
use lianbot::registry::CommandRegistry;

fn cmd(name: &str, kind: CommandKind, role: Role, trailing: bool, tool: bool) -> CommandInfo {
    CommandInfo {
        name: name.to_string(),
        aliases: vec![],
        kind,
        help: format!("{name} 帮助"),
        required_role: role,
        accepts_trailing: trailing,
        params: vec![],
        tool_description: if tool { Some("工具".into()) } else { None },
        dependencies: vec![],
    }
}

fn registry() -> CommandRegistry {
    let mut r = CommandRegistry::new();
    r.register(cmd("ping", CommandKind::Simple, Role::Member, false, true), true);
    r.register(cmd("echo", CommandKind::Simple, Role::Member, true, false), true);
    r.register(cmd("ban", CommandKind::Simple, Role::Owner, false, true), true);
    let mut smy = cmd("smy", CommandKind::Advanced, Role::Member, false, true);
    smy.params = vec![ParamSpec {
        keys: vec!["-n".into()],
        kind: ParamKind::Value(ValueConstraint::Integer { min: Some(1), max: Some(100) }),
        required: false,
        help: "条数".into(),
    }];
    r.register(smy, true);
    r
}

fn reply(d: Decision) -> String {
    match d {
        Decision::Reply(t) => t,
        _ => panic!("expected a reply"),
    }
}

#[test]
fn simple_decisions() {
    let r = registry();
    let none: Vec<String> = vec![];
    assert!(matches!(handle_simple(&r, Role::Member, "!!", "ping", &none), Decision::Execute { .. }));
    assert_eq!(
        reply(handle_simple(&r, Role::Member, "!!", "nope", &none)),
        "❓ 未知命令: !!nope，输入 !!help 查看命令列表"
    );
    assert_eq!(reply(handle_simple(&r, Role::Member, "!!", "ping", &vec!["-h".to_string()])), "ping — ping 帮助");
    match handle_simple(&r, Role::Member, "!!", "ban", &none) {
        Decision::Refuse(t) => assert_eq!(t, "⛔ 权限不足，该命令仅限 Bot 管理员使用"),
        _ => panic!("expected a refusal"),
    }
    assert!(matches!(handle_simple(&r, Role::Owner, "!!", "ban", &none), Decision::Execute { .. }));
    assert_eq!(
        reply(handle_simple(&r, Role::Member, "!!", "ping", &vec!["x".to_string()])),
        "❌ !!ping 是简单命令，不接受额外参数（输入 !!ping -h 查看用法）"
    );
    match handle_simple(&r, Role::Member, "!!", "echo", &vec!["a".to_string(), "b".to_string()]) {
        Decision::Execute { cmd, params } => {
            assert_eq!(cmd.name, "echo");
            assert_eq!(params.get("_args"), Some(&ParamValue::Value("a b".into())));
        }
        _ => panic!("expected execution"),
    }
    match handle_simple(&r, Role::Member, "!!", "echo", &none) {
        Decision::Execute { params, .. } => assert_eq!(params.len(), 0),
        _ => panic!("expected execution"),
    }
}

#[test]
fn advanced_decisions() {
    let r = registry();
    let mut ok = ParamMap::new();
    ok.insert("-n".into(), ParamValue::Value("5".into()));
    assert!(matches!(handle_advanced(&r, Role::Member, "!!", "smy", ok), Decision::Execute { .. }));
    let mut bad = ParamMap::new();
    bad.insert("-x".into(), ParamValue::Flag);
    assert_eq!(
        reply(handle_advanced(&r, Role::Member, "!!", "smy", bad)),
        "❌ 未知参数: -x\n输入 <smy> --help 查看用法"
    );
    assert_eq!(
        reply(handle_advanced(&r, Role::Member, "!!", "zzz", ParamMap::new())),
        "❓ 未知命令: <zzz>，输入 !!help 查看命令列表"
    );
    let mut help = ParamMap::new();
    help.insert("--help".into(), ParamValue::Flag);
    assert!(reply(handle_advanced(&r, Role::Member, "!!", "smy", help)).starts_with("smy — smy 帮助\n\n参数："));
}

fn context(text: &str, role: Role) -> MessageContext {
    MessageContext {
        scope: Scope::Group(1),
        message_id: Some(1),
        bot_user: lianbot::permission::BotUser { user_id: 2, scope: Scope::Group(1), role, status: Status::Normal },
        segments: vec![MessageSegment::text(text)],
        full_text: text.to_string(),
        user_name: "u".into(),
        user_id: 2,
    }
}

#[test]
fn command_handler_routes_by_syntax() {
    let r = registry();
    assert!(matches!(command_decision(&r, &context("hello", Role::Member), "!!"), Decision::Pass));
    assert!(matches!(command_decision(&r, &context("!!ping", Role::Member), "!!"), Decision::Execute { .. }));
    assert!(matches!(command_decision(&r, &context("<smy> -n 3", Role::Member), "!!"), Decision::Execute { .. }));
}

fn event(t: MessageType, group: Option<i64>, user: i64, segs: Vec<MessageSegment>) -> MessageEvent {
    MessageEvent {
        message_type: t,
        message_id: Some(9),
        user_id: user,
        group_id: group,
        message: segs,
        raw_message: None,
        sender: Some(Sender { user_id: Some(user), nickname: Some("nick".into()), card: None, role: None }),
        time: Some(100),
    }
}

#[test]
fn gates() {
    let access = AccessControl::from_config(&[10], &[66], &[]);
    let owner = 1;
    // a group that is not enabled stops everyone but the owner
    assert!(prepare_context(event(MessageType::Group, Some(11), 5, vec![MessageSegment::text("hi")]), owner, &access, true, 0).is_none());
    let p = prepare_context(event(MessageType::Group, Some(11), owner, vec![MessageSegment::text("hi")]), owner, &access, true, 0).unwrap();
    assert_eq!(p.context.unwrap().bot_user.role, Role::Owner);
    // a blocked user is recorded but not handled
    let p = prepare_context(event(MessageType::Group, Some(10), 66, vec![MessageSegment::text("hi")]), owner, &access, true, 0).unwrap();
    assert!(p.record.is_some());
    assert!(p.context.is_none());
    // a message without text is recorded but not handled
    let p = prepare_context(event(MessageType::Group, Some(10), 5, vec![MessageSegment::image("x")]), owner, &access, true, 0).unwrap();
    assert!(p.record.is_some());
    assert!(p.context.is_none());
    // an ordinary message
    let p = prepare_context(event(MessageType::Group, Some(10), 5, vec![MessageSegment::text("hi")]), owner, &access, false, 0).unwrap();
    assert!(p.record.is_none());
    let c = p.context.unwrap();
    assert_eq!(c.full_text, "hi");
    assert_eq!(c.user_name, "nick");
    assert_eq!(c.bot_user.role, Role::Member);
    // private chats have no group gate
    let p = prepare_context(event(MessageType::Private, None, 5, vec![MessageSegment::text("hi")]), owner, &access, false, 0).unwrap();
    assert_eq!(p.scope, Scope::Private(5));
}

#[test]
fn scope_and_user() {
    assert_eq!(scope_of(&event(MessageType::Group, Some(3), 4, vec![])), Scope::Group(3));
    assert_eq!(scope_of(&event(MessageType::Private, Some(3), 4, vec![])), Scope::Private(4));
    assert_eq!(resolve_user(4, Scope::Private(4), 4).role, Role::Owner);
    assert_eq!(resolve_user(5, Scope::Private(5), 4).role, Role::Member);
}

#[test]
fn bot_messages_are_recorded_in_enabled_groups() {
    let access = AccessControl::from_config(&[10], &[], &[]);
    assert!(bot_message_record(&event(MessageType::Group, Some(10), 1, vec![]), &access, 0).unwrap().is_bot);
    assert!(bot_message_record(&event(MessageType::Group, Some(11), 1, vec![]), &access, 0).is_none());
}

#[test]
fn at_bot_questions() {
    let segs = vec![MessageSegment::at(99), MessageSegment::text("  今天天气如何  ")];
    assert_eq!(at_bot_question(&segs, 99).as_deref(), Some("今天天气如何"));
    assert_eq!(at_bot_question(&segs, 0), None);
    assert_eq!(at_bot_question(&segs, 98), None);
    assert_eq!(at_bot_question(&vec![MessageSegment::at(99), MessageSegment::text("  ")], 99), None);
}

#[test]
fn tool_calls() {
    let r = registry();
    assert!(matches!(dispatch_tool_call(&r, Role::Member, "ping"), Decision::Execute { .. }));
    assert!(matches!(dispatch_tool_call(&r, Role::Member, "echo"), Decision::Done));
    assert!(matches!(dispatch_tool_call(&r, Role::Member, "none"), Decision::Done));
    assert!(matches!(dispatch_tool_call(&r, Role::Member, "ban"), Decision::Refuse(_)));
    assert!(matches!(dispatch_tool_call(&r, Role::Member, "smy"), Decision::Execute { .. }));
}
