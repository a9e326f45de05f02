use lianbot::command::{CommandInfo, CommandKind, Dependency, ParamKind, ParamSpec, ValueConstraint};
use lianbot::permission::Role;
use lianbot::registry::CommandRegistry;

fn cmd(name: &str, aliases: &[&str], kind: CommandKind, help: &str, tool: Option<&str>) -> CommandInfo {
    CommandInfo {
        name: name.to_string(),
        aliases: aliases.iter().map(|s| s.to_string()).collect(),
        kind,
        help: help.to_string(),
        required_role: Role::Member,
        accepts_trailing: false,
        params: vec![],
        tool_description: tool.map(|s| s.to_string()),
        dependencies: vec![],
    }
}

fn registry() -> CommandRegistry {
    let mut r = CommandRegistry::new();
    r.register(cmd("ping", &["p"], CommandKind::Simple, "连通性测试\n更多说明", Some("检查机器人是否在线")), true);
    r.register(cmd("help", &[], CommandKind::Simple, "命令列表", None), true);
    r.register(cmd("smy", &["summary", "日报"], CommandKind::Advanced, "群聊日报", Some("生成日报")), true);
    r.register(cmd("acg", &[], CommandKind::Advanced, "随机图片", None), true);
    r
}

#[test]
fn lookup_by_name_and_alias() {
    let r = registry();
    assert_eq!(r.get_simple("ping").unwrap().name, "ping");
    assert_eq!(r.get_simple("p").unwrap().name, "ping");
    assert!(r.get_simple("smy").is_none());
    assert_eq!(r.get_advanced("summary").unwrap().name, "smy");
    assert_eq!(r.get_advanced("日报").unwrap().name, "smy");
    assert!(r.get_advanced("ping").is_none());
}

#[test]
fn later_registration_replaces() {
    let mut r = registry();
    r.register(cmd("ping", &[], CommandKind::Simple, "新的", None), true);
    assert_eq!(r.get_simple("ping").unwrap().help, "新的");
    // the alias still leads to the first registration
    assert_eq!(r.get_simple("p").unwrap().help, "连通性测试\n更多说明");
}

#[test]
fn missing_dependency_skips_registration() {
    let mut r = CommandRegistry::new();
    let mut c = cmd("smy", &[], CommandKind::Advanced, "日报", None);
    c.dependencies = vec![Dependency::Pool];
    r.register(c, false);
    assert!(r.get_advanced("smy").is_none());
    let mut c = cmd("smy", &[], CommandKind::Advanced, "日报", None);
    c.dependencies = vec![Dependency::Pool];
    r.register(c, true);
    assert!(r.get_advanced("smy").is_some());
}

#[test]
fn tool_definitions_sorted_and_unique() {
    let r = registry();
    let defs = r.tool_definitions();
    assert_eq!(defs, vec![("ping", "检查机器人是否在线"), ("smy", "生成日报")]);
}

#[test]
fn help_text_lists_each_command_once() {
    let r = registry();
    let text = r.help_text("!!");
    let expected = [
        "LianBot 命令列表",
        "── 简单命令 ──",
        "  !!help        命令列表",
        "  !!ping        连通性测试",
        "── 复杂命令（<名称> [参数]）──",
        "  <acg>               随机图片",
        "  <smy> / <summary> / <日报>  群聊日报",
        "",
        "💡 输入 <命令> --help 查看详细参数",
    ]
    .join("\n");
    assert_eq!(text, expected);
}

#[test]
fn help_text_of_an_empty_registry() {
    let r = CommandRegistry::new();
    assert_eq!(
        r.help_text("/"),
        "LianBot 命令列表\n── 简单命令 ──\n── 复杂命令（<名称> [参数]）──\n\n💡 输入 <命令> --help 查看详细参数"
    );
}

#[test]
fn param_spec_builds() {
    let p = ParamSpec {
        keys: vec!["-n".into()],
        kind: ParamKind::Value(ValueConstraint::Integer { min: Some(1), max: None }),
        required: false,
        help: "条数".into(),
    };
    assert_eq!(p.keys.len(), 1);
}

#[test]
fn registering_leaves_other_names() {
    let mut r = registry();
    r.register(cmd("echo", &["e"], CommandKind::Simple, "回声", None), true);
    assert_eq!(r.get_simple("e").unwrap().name, "echo");
    assert_eq!(r.get_simple("p").unwrap().name, "ping");
    assert_eq!(r.get_simple("help").unwrap().name, "help");
    assert_eq!(r.get_advanced("日报").unwrap().name, "smy");
    assert!(r.get_advanced("echo").is_none());
}
