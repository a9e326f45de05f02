use lianbot::report::{
    build_titles_prompt, build_topics_prompt, clean_json, encode_screenshot, extract_title_height, html_escape,
    patch_html, render, render_quotes, render_topics, render_user_titles, screenshot_height, LlmResult, Quote, Topic,
    UserTitle,
};
use lianbot::report_text::{HEIGHT_PROBE_BODY_END, REPORT_HEAD, REPORT_TAIL, TOPICS_PROMPT_HEAD};
use lianbot::smy::Statistics;

#[test]
fn escaping() {
    assert_eq!(html_escape("a<b>&\"c'"), "a&lt;b&gt;&amp;&quot;c&#39;");
    assert_eq!(html_escape("纯文本"), "纯文本");
    assert_eq!(html_escape(""), "");
}

#[test]
fn fences_are_stripped() {
    assert_eq!(clean_json("```json\n[1]\n```"), "[1]");
    assert_eq!(clean_json("  ```\n{}\n```  "), "{}");
    assert_eq!(clean_json(" [2] "), "[2]");
    assert_eq!(clean_json("```json[3]"), "[3]");
}

#[test]
fn title_height() {
    assert_eq!(extract_title_height("<html><head><title> 1234 </title></head>"), Some(1234));
    assert_eq!(extract_title_height("<title>abc</title>"), None);
    assert_eq!(extract_title_height("<title>12"), None);
    assert_eq!(extract_title_height("no title"), None);
    assert_eq!(extract_title_height("<title>+7</title><title>9</title>"), Some(7));
}

#[test]
fn probe_replaces_every_body_end() {
    let html = "<body>a</body>|</body>";
    let patched = patch_html(html);
    assert_eq!(patched, format!("<body>a{0}|{0}", HEIGHT_PROBE_BODY_END));
    assert_eq!(patch_html("plain"), "plain");
}

#[test]
fn screenshot_heights() {
    assert_eq!(screenshot_height(Some(1000)), 1024);
    assert_eq!(screenshot_height(Some(10)), 600);
    assert_eq!(screenshot_height(Some(50_000)), 20_000);
    assert_eq!(screenshot_height(Some(u32::MAX)), 20_000);
    assert_eq!(screenshot_height(None), 4024);
}

#[test]
fn base64_of_a_screenshot() {
    assert_eq!(encode_screenshot(&b"\x89PNG\r\n\x1a\n".to_vec()), "iVBORw0KGgo=");
    assert_eq!(encode_screenshot(&b"hello".to_vec()), "aGVsbG8=");
}

#[test]
fn base64_groups_and_padding() {
    assert_eq!(encode_screenshot(&Vec::new()), "");
    assert_eq!(encode_screenshot(&b"M".to_vec()), "TQ==");
    assert_eq!(encode_screenshot(&b"Ma".to_vec()), "TWE=");
    assert_eq!(encode_screenshot(&b"Man".to_vec()), "TWFu");
    assert_eq!(encode_screenshot(&vec![0xfb, 0xff]), "+/8=");
    assert_eq!(encode_screenshot(&vec![0xff, 0xff, 0xff, 0x00]), "////AA==");
}

#[test]
fn prompts_wrap_the_log() {
    let p = build_topics_prompt("[10:00] a: b");
    assert!(p.starts_with(TOPICS_PROMPT_HEAD));
    assert!(p.contains("群聊记录：\n[10:00] a: b\n\n请严格返回如下JSON数组"));
    let t = build_titles_prompt("LOG");
    assert!(t.contains("群聊记录：\nLOG\n\n请严格返回如下JSON"));
    assert!(t.ends_with("}"));
}

fn topic(t: &str, c: &[&str], d: &str) -> Topic {
    Topic { topic: t.into(), contributors: c.iter().map(|s| s.to_string()).collect(), detail: d.into() }
}

#[test]
fn cards() {
    let html = render_topics(&[topic("A<B", &["x", "y&z"], "d")]);
    assert_eq!(
        html,
        r#"<div class="topic-item"><div class="topic-header"><div class="topic-number">1</div><div class="topic-title">A&lt;B</div></div><div class="topic-contributors">参与者: x、y&amp;z</div><div class="topic-detail">d</div></div>"#
    );
    let two = render_topics(&[topic("a", &[], "b"), topic("c", &[], "d")]);
    assert_eq!(two.matches('\n').count(), 1);
    assert!(two.contains(r#"<div class="topic-number">2</div>"#));
    let u = render_user_titles(&[UserTitle {
        name: "".into(),
        title: "t".into(),
        mbti: "INTP".into(),
        habit: "h".into(),
        reason: "r".into(),
    }]);
    assert!(u.starts_with(r#"<div class="user-card"><div class="user-card-header"><div class="user-avatar">?</div>"#));
    assert!(u.contains("「h」"));
    let q = render_quotes(&[Quote { content: "c".into(), sender: "s".into(), reason: "r".into() }]);
    assert_eq!(
        q,
        r#"<div class="quote-item"><div class="quote-content">"c"</div><div class="quote-author">—— s</div><div class="quote-reason">r</div></div>"#
    );
}

#[test]
fn the_page() {
    let stats = Statistics {
        message_count: 412,
        participant_count: 17,
        total_characters: 9365,
        emoji_count: 142,
        image_count: 28,
        most_active_hour: "11:00 - 12:00".to_string(),
        hourly_distribution: [0; 24],
        top_speakers: vec![],
    };
    let llm = LlmResult { topics: vec![], user_titles: vec![], golden_quotes: vec![] };
    let html = render(&stats, &llm, "群<1>", "2024年03月06日", "2024-03-06 12:40", "<chart/>");
    assert!(html.starts_with(REPORT_HEAD));
    assert!(html.ends_with(REPORT_TAIL));
    assert!(html.contains("群&lt;1&gt; · 2024年03月06日"));
    assert!(html.contains("<div class=\"stat-number\">412</div>"));
    assert!(html.contains("<chart/>"));
    assert!(!html.contains("💬 热门话题"));
    assert!(html.contains("由 LianBot 生成 · 2024-03-06 12:40 · Powered by DeepSeek"));
    let llm = LlmResult { topics: vec![topic("t", &[], "d")], user_titles: vec![], golden_quotes: vec![] };
    let html = render(&stats, &llm, "g", "d", "dt", "");
    assert!(html.contains("💬 热门话题"));
}

#[test]
fn preview_page_renders() {
    let mut hourly = [0u32; 24];
    hourly[9] = 8;
    hourly[10] = 12;
    hourly[11] = 16;
    hourly[21] = 6;
    let stats = Statistics {
        message_count: 412,
        participant_count: 17,
        total_characters: 9365,
        emoji_count: 142,
        image_count: 28,
        most_active_hour: "11:00 - 12:00".to_string(),
        hourly_distribution: hourly,
        top_speakers: vec![("Alice".to_string(), 68), ("Bob".to_string(), 59), ("Carol".to_string(), 42)],
    };
    let llm = LlmResult {
        topics: vec![
            topic("部署与性能优化", &["Alice", "Bob"], "@Alice 分享了部署脚本重构结果，@Bob 给出冷启动耗时对比并确认优化有效。"),
            topic("测试体系补强", &["Carol", "Alice"], "@Carol 提议补截图回归，@Alice 当场承诺在当晚完成。"),
        ],
        user_titles: vec![UserTitle {
            name: "Alice".to_string(),
            title: "效率推进器".to_string(),
            mbti: "ENTJ".to_string(),
            habit: "先做完再同步结论".to_string(),
            reason: "行动快、结果导向，推动讨论迅速落地。".to_string(),
        }],
        golden_quotes: vec![Quote {
            content: "冷启动从 28s 降到 12s，确实很顶。".to_string(),
            sender: "Bob".to_string(),
            reason: "一句话总结优化价值，信息密度高。".to_string(),
        }],
    };
    let html = render(&stats, &llm, "smy-preview (mock)", "2024年03月06日", "2024-03-06 12:40", "");
    assert!(html.contains("smy-preview (mock) · 2024年03月06日"));
    assert!(html.contains(r#"<div class="topic-number">2</div><div class="topic-title">测试体系补强</div>"#));
    assert!(html.contains(r#"<div class="user-avatar">A</div>"#));
    assert!(html.contains("—— Bob"));
    assert!(html.contains("<div class=\"time\">11:00 - 12:00</div>"));
    let patched = patch_html(&html);
    assert!(patched.contains(HEIGHT_PROBE_BODY_END));
    assert!(!html.contains(HEIGHT_PROBE_BODY_END));
}
