use lianbot::text::utf8_len_gt;
use lianbot::parser::{CommandParser, ParamValue, ParsedCommand, ParserConfig};

fn simple(name: &str, trailing: &[&str]) -> ParsedCommand {
    ParsedCommand::Simple {
        name: name.to_string(),
        trailing: trailing.iter().map(|s| s.to_string()).collect(),
    }
}

#[test]
fn test_simple_command() {
    let r = CommandParser::parse("!!ping", "!!").unwrap();
    assert_eq!(r, simple("ping", &[]));
}

#[test]
fn test_simple_with_trailing() {
    let r = CommandParser::parse("!!help --help", "!!").unwrap();
    assert_eq!(r, simple("help", &["--help"]));
}

#[test]
fn test_custom_prefix() {
    let r = CommandParser::parse("/ping", "/").unwrap();
    assert_eq!(r, simple("ping", &[]));
}

#[test]
fn test_advanced_basic() {
    let r = CommandParser::parse("<img> -u https://example.com/a.png", "!!").unwrap();
    match r {
        ParsedCommand::Advanced { name, params } => {
            assert_eq!(name, "img");
            assert_eq!(
                params.get("-u").unwrap(),
                &ParamValue::Value("https://example.com/a.png".into())
            );
        }
        _ => panic!("Wrong variant"),
    }
}

#[test]
fn test_advanced_long_eq() {
    let r = CommandParser::parse("<smy> --count=50", "!!").unwrap();
    match r {
        ParsedCommand::Advanced { name, params } => {
            assert_eq!(name, "smy");
            assert_eq!(params.get("--count").unwrap(), &ParamValue::Value("50".into()));
        }
        _ => panic!("Wrong variant"),
    }
}

#[test]
fn test_multi_short_flags() {
    let params = CommandParser::parse_params("-abc");
    assert!(params.contains_key("-a"));
    assert!(params.contains_key("-b"));
    assert!(params.contains_key("-c"));
}

#[test]
fn test_quoted_value() {
    let params = CommandParser::parse_params(r#"-m "hello world""#);
    assert_eq!(params.get("-m").unwrap(), &ParamValue::Value("hello world".into()));
}

#[test]
fn test_not_command() {
    assert!(CommandParser::parse("普通消息", "!!").is_none());
    assert!(CommandParser::parse("", "!!").is_none());
    assert!(CommandParser::parse("/ping", "!!").is_none()); // wrong prefix
}

#[test]
fn test_ai_flags() {
    let params = CommandParser::parse_params("-a --ai");
    assert_eq!(params.get("-a"), Some(&ParamValue::Flag));
    assert_eq!(params.get("--ai"), Some(&ParamValue::Flag));
}

// ── further cases ────────────────────────────────────────────────────────────

#[test]
fn parse_trims_surrounding_whitespace() {
    let r = CommandParser::parse("  \t!!ping  now \n", "!!").unwrap();
    assert_eq!(r, simple("ping", &["now"]));
}

#[test]
fn prefix_alone_is_not_a_command() {
    assert!(CommandParser::parse("!!", "!!").is_none());
    assert!(CommandParser::parse("!!   ", "!!").is_none());
}

#[test]
fn advanced_with_empty_name_is_rejected() {
    assert!(CommandParser::parse("<  > -a", "!!").is_none());
    assert!(CommandParser::parse("<a", "!!").is_none());
}

#[test]
fn advanced_name_is_trimmed() {
    match CommandParser::parse("< smy > -n 3", "!!").unwrap() {
        ParsedCommand::Advanced { name, params } => {
            assert_eq!(name, "smy");
            assert_eq!(params.get("-n"), Some(&ParamValue::Value("3".into())));
            assert_eq!(params.len(), 1);
        }
        _ => panic!("Wrong variant"),
    }
}

#[test]
fn long_option_takes_next_value_and_rejects_short_long_forms() {
    let p = CommandParser::parse_params("--count 7 -- --x --name=a=b word");
    assert_eq!(p.get("--count"), Some(&ParamValue::Value("7".into())));
    assert!(!p.contains_key("--"));
    assert!(!p.contains_key("--x"));
    assert_eq!(p.get("--name"), Some(&ParamValue::Value("a=b".into())));
    assert!(!p.contains_key("word"));
    assert_eq!(p.len(), 2);
}

#[test]
fn short_option_value_and_flag_before_option() {
    let p = CommandParser::parse_params("-x -y val -z=1");
    assert_eq!(p.get("-x"), Some(&ParamValue::Flag));
    assert_eq!(p.get("-y"), Some(&ParamValue::Value("val".into())));
    assert_eq!(p.get("-z"), Some(&ParamValue::Value("1".into())));
}

#[test]
fn later_occurrence_replaces_earlier() {
    let p = CommandParser::parse_params("-a 1 -a 2");
    assert_eq!(p.get("-a"), Some(&ParamValue::Value("2".into())));
    assert_eq!(p.len(), 1);
}

#[test]
fn param_value_accessors() {
    assert_eq!(ParamValue::Value("v".into()).as_str(), Some("v"));
    assert_eq!(ParamValue::Flag.as_str(), None);
    assert!(ParamValue::Flag.is_flag());
    assert!(!ParamValue::Value("v".into()).is_flag());
}

#[test]
fn is_command_checks_prefixes() {
    assert!(CommandParser::is_command(" !!x", "!!"));
    assert!(CommandParser::is_command("<a> b", "!!"));
    assert!(!CommandParser::is_command("<a b", "!!"));
    assert!(!CommandParser::is_command("hello", "!!"));
}

#[test]
fn parser_config_default_prefix() {
    assert_eq!(ParserConfig::default().cmd_prefix, "!!");
}

#[test]
fn utf8_length_against_large_limits() {
    let s: Vec<char> = "日报ab".chars().collect();
    assert!(utf8_len_gt(&s, 7));
    assert!(!utf8_len_gt(&s, 8));
    assert!(!utf8_len_gt(&s, usize::MAX));
    assert!(!utf8_len_gt(&[], 0));
}
