use lianbot::bench::{
    bench_analyze, bench_format_for_llm, bench_html_escape, bench_next_page, bench_parse_raw_messages,
    bench_patch_html, bench_titles_prompt, bench_topics_prompt, build_relationships_prompt, clean_llm_json,
    llm_bench_result, sample_to_chat_messages, LlmCallOutcome, BenchMessage, BENCH_HEIGHT_PROBE, BENCH_PAGE_SIZE, SAMPLE_CHAT_TEXT,
};
use lianbot::message::{DataValue, HistoryMessage, MessageSegment};
use lianbot::strmap::StrMap;

fn seg(t: &str, kv: &[(&str, DataValue)]) -> MessageSegment {
    let mut data = StrMap::new();
    for (k, v) in kv {
        let v = match v {
            DataValue::Str(s) => DataValue::Str(s.clone()),
            DataValue::Int(n) => DataValue::Int(*n),
            DataValue::Json(s) => DataValue::Json(s.clone()),
        };
        data.insert(k.to_string(), v);
    }
    MessageSegment { seg_type: t.to_string(), data }
}

fn s(x: &str) -> DataValue {
    DataValue::Str(x.to_string())
}

fn entry(post: Option<&str>, uid: i64, time: i64, nick: &str, segs: Vec<MessageSegment>) -> HistoryMessage {
    HistoryMessage {
        post_type: post.map(str::to_string),
        message_id: None,
        message_seq: None,
        user_id: Some(uid),
        time: Some(time),
        sender_card: Some(String::new()),
        sender_nickname: Some(nick.to_string()),
        message: Some(segs),
    }
}

fn bench_msg(uid: i64, name: &str, time: i64, text: &str, faces: &[&str]) -> BenchMessage {
    BenchMessage {
        user_id: uid,
        nickname: name.to_string(),
        time,
        text: text.to_string(),
        emoji_count: faces.len() as u32,
        image_count: 0,
        reply_to: None,
        at_targets: vec![],
        face_ids: faces.iter().map(|f| f.to_string()).collect(),
    }
}

#[test]
fn cleans_model_answers() {
    assert_eq!(clean_llm_json("  ```json\n[1]\n```  "), "[1]");
    assert_eq!(clean_llm_json("```json```json[1]``````"), "[1]");
    assert_eq!(clean_llm_json("\u{feff}{\"a\":\u{1}1}\n"), "{\"a\":1}");
    assert_eq!(clean_llm_json("[\n\t1\r\n]"), "[\n\t1\r\n]");
    assert_eq!(clean_llm_json("plain"), "plain");
}

#[test]
fn benchmark_prompts() {
    let t = bench_topics_prompt("LOG");
    assert!(t.contains("群聊记录：\nLOG\n\n返回 JSON 数组"));
    let u = bench_titles_prompt("LOG");
    assert!(u.ends_with(r#"{"user_titles":[{"name":"","title":"","mbti":"","habit":"","reason":""}],"golden_quotes":[{"content":"","sender":"","reason":""}]}"#));
    let r = build_relationships_prompt("LOG");
    assert!(r.starts_with("你是一个善于解读人际关系的分析师。"));
    assert!(r.ends_with(r#"[{"type":"duo","members":[],"label":"","vibe":"","evidence":[]}]"#));
}

#[test]
fn reads_history_with_replies_mentions_and_faces() {
    let raw = vec![
        entry(
            None,
            1,
            100,
            "A",
            vec![
                seg("reply", &[("id", s("42"))]),
                seg("at", &[("qq", DataValue::Int(7))]),
                seg("text", &[("text", s(" hi "))]),
                seg("face", &[("id", DataValue::Int(14))]),
                seg("face", &[("id", s("x"))]),
                seg("reply", &[("id", DataValue::Int(9))]),
                seg("at", &[("qq", s("8"))]),
                seg("text", &[("text", s("there "))]),
            ],
        ),
        entry(Some("message_sent"), 2, 100, "Bot", vec![seg("text", &[("text", s("x"))])]),
        entry(None, 3, 50, "Old", vec![seg("text", &[("text", s("old"))])]),
        entry(None, 4, 100, "Img", vec![seg("image", &[]), seg("face", &[("id", DataValue::Json("18446744073709551615".into()))])]),
        entry(None, 5, 100, "Empty", vec![seg("text", &[("text", s("  "))])]),
    ];
    let ms = bench_parse_raw_messages(&raw, Some(60));
    assert_eq!(ms.len(), 2);
    assert_eq!(ms[0].text, "hi there");
    assert_eq!(ms[0].reply_to, Some(42));
    assert_eq!(ms[0].at_targets, vec![7, 8]);
    assert_eq!(ms[0].face_ids, vec!["14".to_string(), "x".to_string()]);
    assert_eq!(ms[0].emoji_count, 2);
    assert_eq!(ms[1].nickname, "Img");
    assert_eq!(ms[1].image_count, 1);
    assert_eq!(ms[1].face_ids, vec!["18446744073709551615".to_string()]);
    assert_eq!(ms[1].text, "");
}

#[test]
fn benchmark_statistics() {
    let ms = vec![
        bench_msg(1, "A", 3600, "ab", &["1", "2"]),
        bench_msg(2, "B", 3600 * 2, "c", &["2"]),
        bench_msg(1, "A2", 3600 * 2 + 5, "", &["3", "2", "1"]),
    ];
    let st = bench_analyze(&ms);
    assert_eq!(st.message_count, 3);
    assert_eq!(st.participant_count, 2);
    assert_eq!(st.total_characters, 3);
    assert_eq!(st.emoji_count, 6);
    assert_eq!(st.hourly_distribution[1], 1);
    assert_eq!(st.hourly_distribution[2], 2);
    assert_eq!(st.most_active_hour, "02:00 - 03:00");
    assert_eq!(st.hourly_distribution.iter().sum::<u32>(), 3);
    assert_eq!(st.top_speakers[0], (1, "A".to_string(), 2));
    assert_eq!(st.top_speakers[1], (2, "B".to_string(), 1));
    assert_eq!(st.top_faces, vec![("2".to_string(), 3), ("1".to_string(), 2), ("3".to_string(), 1)]);
    assert_eq!(st.reply_count, 0);
    assert_eq!(st.at_count, 0);
}

#[test]
fn benchmark_log_is_utc() {
    let ms = vec![bench_msg(1, "A", 3600 * 9 + 60 * 5, "hello", &[]), bench_msg(2, "B", 0, "", &[])];
    assert_eq!(bench_format_for_llm(&ms), "[09:05] A: hello");
    let far = vec![bench_msg(1, "A", i64::MAX, "x", &[])];
    assert_eq!(bench_format_for_llm(&far), "[00:00] A: x");
}

#[test]
fn sample_data() {
    let ms = sample_to_chat_messages(SAMPLE_CHAT_TEXT, 1000);
    assert_eq!(ms.len(), SAMPLE_CHAT_TEXT.lines().count());
    assert_eq!(ms[0].nickname, "小雪");
    assert_eq!(ms[0].text, "早上好各位！今天有人一起打球吗");
    assert_eq!(ms[0].user_id, 10001);
    assert_eq!(ms[7].user_id, 10002);
    assert_eq!(ms[7].time, 1000 + 7 * 60);
    let odd = sample_to_chat_messages("[1] a: b\r\nno\n[2]  c: d: e\n", 0);
    assert_eq!(odd.len(), 2);
    assert_eq!((odd[0].nickname.as_str(), odd[0].text.as_str()), ("a", "b"));
    assert_eq!((odd[1].nickname.as_str(), odd[1].text.as_str(), odd[1].time), ("c", "d: e", 120));
}

#[test]
fn history_paging() {
    assert_eq!(bench_next_page(&vec![], 0), None);
    let mut page: Vec<HistoryMessage> = (0..BENCH_PAGE_SIZE as i64).map(|i| entry(None, 1, 100 + i, "A", vec![])).collect();
    page[0].message_seq = Some(77);
    assert_eq!(bench_next_page(&page, 50), Some(Some(77)));
    assert_eq!(bench_next_page(&page, 100), None);
    page.pop();
    assert_eq!(bench_next_page(&page, 50), None);
}

#[test]
fn benchmark_escape_and_probe() {
    assert_eq!(bench_html_escape("<a href=\"x\">'&'</a>"), "&lt;a href=&quot;x&quot;&gt;'&amp;'&lt;/a&gt;");
    let page = bench_patch_html("<html><body>x</body></html>");
    assert_eq!(page, format!("<html><body>x{}</html>", BENCH_HEIGHT_PROBE));
    assert!(BENCH_HEIGHT_PROBE.ends_with("</script></body>"));
}

#[test]
fn llm_call_refused() {
    let r = llm_bench_result("topics", 12, 300, LlmCallOutcome::ConnectFailed { error: "timed out".to_string() });
    assert_eq!(r.name, "topics");
    assert_eq!((r.connect_ms, r.total_ms), (12, 12));
    assert_eq!((r.req_size, r.resp_size), (300, 0));
    assert!(!r.success);
    assert_eq!(r.content, "");
    assert_eq!(r.error.as_deref(), Some("连接失败: timed out"));
}

#[test]
fn llm_call_http_error() {
    let outcome = LlmCallOutcome::Answered {
        total_ms: 40,
        resp_size: 17,
        success: false,
        status: "502 Bad Gateway".to_string(),
        content: "ignored".to_string(),
    };
    let r = llm_bench_result("titles", 10, 250, outcome);
    assert_eq!((r.connect_ms, r.total_ms), (10, 40));
    assert_eq!((r.req_size, r.resp_size), (250, 17));
    assert!(!r.success);
    assert_eq!(r.content, "");
    assert_eq!(r.error.as_deref(), Some("HTTP 502 Bad Gateway"));
}

#[test]
fn llm_call_answered() {
    let outcome = LlmCallOutcome::Answered {
        total_ms: 900,
        resp_size: 2048,
        success: true,
        status: "200 OK".to_string(),
        content: "[]".to_string(),
    };
    let r = llm_bench_result("relationships", 30, 400, outcome);
    assert_eq!(r.name, "relationships");
    assert_eq!((r.connect_ms, r.total_ms), (30, 900));
    assert_eq!((r.req_size, r.resp_size), (400, 2048));
    assert!(r.success);
    assert_eq!(r.content, "[]");
    assert!(r.error.is_none());
}
