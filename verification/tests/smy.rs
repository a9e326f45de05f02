use lianbot::smy::{filter_fits_at, plan_fetch, TIME_MODE_COUNT};
use lianbot::smy::collect_fetched;
use lianbot::message::{HistoryMessage, MessageSegment};
use lianbot::smy::{
    analyze, extract_segments, format_for_llm, llm_input, parse_duration, parse_raw_messages, sort_by_time,
    ChatMessage, LlmInput,
};
use lianbot::strmap::StrMap;

fn chat(uid: i64, name: &str, time: i64, text: &str, img: bool, emoji: u32) -> ChatMessage {
    ChatMessage {
        user_id: uid,
        nickname: name.to_string(),
        time,
        text: text.to_string(),
        has_image: img,
        emoji_count: emoji,
    }
}

#[test]
fn durations() {
    assert_eq!(parse_duration("30m"), Some(1800));
    assert_eq!(parse_duration(" 2h "), Some(7200));
    assert_eq!(parse_duration("1d"), Some(86400));
    assert_eq!(parse_duration("-1h"), Some(-3600));
    assert_eq!(parse_duration("5s"), None);
    assert_eq!(parse_duration("h"), None);
    assert_eq!(parse_duration(""), None);
    assert_eq!(parse_duration("   "), None);
    assert_eq!(parse_duration("1.5h"), None);
    assert_eq!(parse_duration("1天"), None);
    assert_eq!(parse_duration("30s"), None);
    assert_eq!(parse_duration("30"), None);
    assert_eq!(parse_duration("9223372036854775807d"), None);
    assert_eq!(parse_duration("106751991167300d"), Some(106_751_991_167_300 * 86400));
    assert_eq!(parse_duration("106751991167301d"), None);
}

fn seg(t: &str) -> MessageSegment {
    MessageSegment { seg_type: t.to_string(), data: StrMap::new() }
}

#[test]
fn segment_extraction() {
    let segs = vec![
        MessageSegment::text("  hello "),
        MessageSegment::text("   "),
        MessageSegment::image("x"),
        seg("face"),
        seg("sface"),
        MessageSegment::text("world"),
    ];
    assert_eq!(extract_segments(Some(&segs)), ("helloworld".to_string(), true, 2));
    assert_eq!(extract_segments(None), (String::new(), false, 0));
}

fn history(post: Option<&str>, uid: Option<i64>, time: Option<i64>, card: &str, nick: Option<&str>, segs: Vec<MessageSegment>) -> HistoryMessage {
    HistoryMessage {
        post_type: post.map(|s| s.to_string()),
        message_id: None,
        message_seq: None,
        user_id: uid,
        time,
        sender_card: Some(card.to_string()),
        sender_nickname: nick.map(|s| s.to_string()),
        message: Some(segs),
    }
}

#[test]
fn raw_messages() {
    let raw = vec![
        history(None, Some(1), Some(100), "卡片", Some("n1"), vec![MessageSegment::text("a")]),
        history(Some("message_sent"), Some(2), Some(100), "", Some("bot"), vec![MessageSegment::text("b")]),
        history(None, Some(3), Some(10), "", Some("n3"), vec![MessageSegment::text("old")]),
        history(None, Some(4), Some(200), "", None, vec![seg("face")]),
        history(None, None, Some(300), "", Some("n5"), vec![MessageSegment::image("p")]),
    ];
    let all = parse_raw_messages(&raw, None);
    assert_eq!(all.len(), 3);
    assert_eq!(all[0].nickname, "卡片");
    assert_eq!(all[1].text, "old");
    assert_eq!(all[2].user_id, 0);
    assert!(all[2].has_image);
    let recent = parse_raw_messages(&raw, Some(50));
    assert_eq!(recent.len(), 2);
    assert_eq!(recent[0].text, "a");
}

#[test]
fn statistics() {
    // 1_709_700_000 is 2024-03-06 04:40 UTC, 12:40 in UTC+8
    let msgs = vec![
        chat(1, "Alice", 1_709_700_000, "今天", false, 1),
        chat(2, "Bob", 1_709_701_000, "ok", true, 0),
        chat(1, "Alice2", 1_709_702_000, "再见", false, 2),
        chat(3, "Carol", 1_709_704_000, "", true, 0),
    ];
    let st = analyze(&msgs);
    assert_eq!(st.message_count, 4);
    assert_eq!(st.participant_count, 3);
    assert_eq!(st.total_characters, 6);
    assert_eq!(st.emoji_count, 3);
    assert_eq!(st.image_count, 2);
    assert_eq!(st.hourly_distribution[12], 2);
    assert_eq!(st.hourly_distribution[13], 2);
    assert_eq!(st.hourly_distribution.iter().sum::<u32>(), 4);
    // ties go to the later hour
    assert_eq!(st.most_active_hour, "13:00 - 14:00");
    assert_eq!(
        st.top_speakers,
        vec![("Alice".to_string(), 2), ("Bob".to_string(), 1), ("Carol".to_string(), 1)]
    );
}

#[test]
fn statistics_of_nothing() {
    let st = analyze(&[]);
    assert_eq!(st.message_count, 0);
    assert_eq!(st.most_active_hour, "23:00 - 00:00");
    assert!(st.top_speakers.is_empty());
}

#[test]
fn top_speakers_are_capped() {
    let msgs: Vec<ChatMessage> = (0..12).map(|i| chat(i, &format!("u{i}"), 0, "x", false, 0)).collect();
    let st = analyze(&msgs);
    assert_eq!(st.top_speakers.len(), 10);
    assert_eq!(st.top_speakers[0].0, "u0");
    assert_eq!(st.hourly_distribution[8], 12);
}

#[test]
fn chat_log_for_the_model() {
    let msgs = vec![
        chat(1, "Alice", 1_709_700_000, "你好", false, 0),
        chat(2, "Bob", 1_709_700_060, "", true, 0),
        chat(3, "Carol", 0, "早", false, 0),
        chat(4, "Dan", 9_000_000_000_000, "far", false, 0),
    ];
    assert_eq!(format_for_llm(&msgs), "[12:40] Alice: 你好\n[08:00] Carol: 早\n[??:??] Dan: far");
}

#[test]
fn model_input_size() {
    assert!(matches!(llm_input("short"), LlmInput::TooShort));
    let mid = "x".repeat(60);
    assert!(matches!(llm_input(&mid), LlmInput::Whole));
    let long = "y".repeat(80_010);
    assert!(matches!(llm_input(&long), LlmInput::Tail(10)));
}

#[test]
fn sorting_by_time_is_stable() {
    let msgs = vec![chat(1, "a", 30, "x", false, 0), chat(2, "b", 10, "y", false, 0), chat(3, "c", 30, "z", false, 0), chat(4, "d", 20, "w", false, 0)];
    let sorted = sort_by_time(&msgs);
    let ids: Vec<i64> = sorted.iter().map(|m| m.user_id).collect();
    assert_eq!(ids, vec![2, 4, 1, 3]);
}

#[test]
fn fetch_plans() {
    assert_eq!(plan_fetch(30, None, 1000), (30, None));
    assert_eq!(plan_fetch(30, Some("1d"), 100_000), (TIME_MODE_COUNT, Some(100_000 - 86400)));
    assert_eq!(plan_fetch(30, Some("2x"), 100), (30, None));
    assert!(filter_fits_at("1d", 0));
    assert!(filter_fits_at("1天", 0));
    assert!(filter_fits_at("9223372036854775807d", 0));
    assert!(filter_fits_at("nonsense", 0));
    assert!(!filter_fits_at("1d", i64::MIN));
    assert!(!filter_fits_at("-1m", i64::MAX));
    assert_eq!(plan_fetch(30, Some("1天"), 100), (30, None));
}

#[test]
fn fetched_messages_in_time_order() {
    let t = |x: &str| MessageSegment::text(x);
    let raw = vec![
        history(None, Some(1), Some(300), "", Some("A"), vec![t("late")]),
        history(None, Some(2), Some(100), "", Some("B"), vec![t("early")]),
        history(None, Some(3), Some(50), "", Some("C"), vec![t("too old")]),
        history(None, Some(4), Some(100), "", Some("D"), vec![t("early too")]),
    ];
    let all = collect_fetched(&raw, None);
    assert_eq!(all.iter().map(|m| m.text.as_str()).collect::<Vec<_>>(), vec!["late", "early", "too old", "early too"]);
    let recent = collect_fetched(&raw, Some(60));
    assert_eq!(recent.iter().map(|m| m.text.as_str()).collect::<Vec<_>>(), vec!["early", "early too", "late"]);
}

#[test]
fn chat_log_at_the_calendar_start() {
    let msgs = vec![
        chat(1, "Eve", -8_334_601_228_800, "first", false, 0),
        chat(2, "Fay", -8_334_601_228_801, "before", false, 0),
    ];
    assert_eq!(format_for_llm(&msgs), "[08:00] Eve: first\n[??:??] Fay: before");
}

#[test]
fn model_input_cut_at_a_character() {
    let long = format!("a{}", "日".repeat(30_000));
    match llm_input(&long) {
        LlmInput::Tail(k) => {
            assert_eq!(k, 10_003);
            assert!(long.is_char_boundary(k));
            assert_eq!(long[k..].len(), 79_998);
        }
        _ => panic!("expected a tail"),
    }
    let mixed = format!("{}{}", "b".repeat(10_001), "日".repeat(26_667));
    assert!(matches!(llm_input(&mixed), LlmInput::Tail(10_004)));
    let on_boundary = format!("{}{}", "b".repeat(10_002), "日".repeat(26_666));
    assert!(matches!(llm_input(&on_boundary), LlmInput::Tail(10_000)));
}
