use lianbot::api::{image_file_id, image_source, ApiClient, GetImageResponse, ImageSource, MsgTarget, NapcatConfig};
use lianbot::config::{
    gemini_client, is_log_file, log_file_name, needs_rotation, retention_secs, GeminiCandidate, GeminiClient,
    GeminiConfig, GeminiReply, HttpConfig, LlmConfig, LogConfig, TimeConfig, DEFAULT_VISION_PROMPT,
    vision_outcome, vision_request, VisionResponse,
};
use lianbot::message::MessageSegment;
use lianbot::permission::Scope;
use lianbot::time::{hour_of_day, timestamp_of};

#[test]
fn defaults() {
    let h = HttpConfig::default();
    assert_eq!((h.timeout_secs, h.pool_idle_timeout_secs, h.pool_max_idle_per_host, h.tcp_keepalive_secs), (30, 30, 10, 60));
    let l = LlmConfig::default();
    assert_eq!(l.api_url, "https://api.deepseek.com/v1");
    assert_eq!(l.model, "deepseek-chat");
    assert_eq!(l.timeout_secs, 120);
    let g = GeminiConfig::default();
    assert_eq!(g.model, "gemini-2.5-flash");
    assert_eq!(g.timeout_secs, 60);
    let n = NapcatConfig::default();
    assert_eq!(n.url, "http://127.0.0.1:3000");
    assert_eq!((n.timeout_secs, n.history_timeout_secs), (30, 120));
    let lc = LogConfig::default();
    assert_eq!((lc.level.as_str(), lc.max_days), ("info", 30));
    assert_eq!(TimeConfig::default().timezone, 8);
}

#[test]
fn llm_addresses() {
    let l = LlmConfig { api_url: "https://x/v1//".into(), api_key: "k".into(), model: "m".into(), timeout_secs: 1 };
    assert_eq!(l.chat_url(), "https://x/v1/chat/completions");
    assert_eq!(l.bearer(), "Bearer k");
}

#[test]
fn gemini() {
    assert!(gemini_client(None).is_none());
    assert!(gemini_client(Some(GeminiConfig::default())).is_none());
    let mut cfg = GeminiConfig::default();
    cfg.api_key = "KEY".into();
    let c = gemini_client(Some(cfg)).unwrap();
    assert_eq!(c.model(), "gemini-2.5-flash");
    assert_eq!(c.timeout(), 60);
    assert_eq!(
        c.request_url(),
        "https://generativelanguage.googleapis.com/v1beta/models/gemini-2.5-flash:generateContent?key=KEY"
    );
    assert_eq!(c.vision_prompt(Some("p")), "p");
    assert_eq!(c.vision_prompt(None), DEFAULT_VISION_PROMPT);
    let reply = GeminiReply { candidates: Some(vec![GeminiCandidate { parts: Some(vec![Some("猫".into())]) }]) };
    assert_eq!(GeminiClient::reply_text(reply), Ok("猫".to_string()));
    let empty = GeminiReply { candidates: Some(vec![]) };
    assert_eq!(GeminiClient::reply_text(empty), Err("Gemini API 响应中没有有效的文本内容".to_string()));
}

#[test]
fn logging() {
    assert_eq!(log_file_name("lianbot.log", "2024-03-06"), "lianbot.log.2024-03-06");
    assert!(is_log_file("lianbot.log.2024-03-06"));
    assert!(!is_log_file("lianbot.log"));
    assert!(needs_rotation(None, "d"));
    assert!(needs_rotation(Some("c"), "d"));
    assert!(!needs_rotation(Some("d"), "d"));
    assert_eq!(retention_secs(30), 2_592_000);
}

#[test]
fn api_settings() {
    let c = ApiClient::with_config("http://127.0.0.1:3000//", Some("t".into()), 5, 9);
    assert_eq!(c.endpoint_url("/send_msg"), "http://127.0.0.1:3000/send_msg");
    assert_eq!(c.endpoint_url("get_image"), "http://127.0.0.1:3000/get_image");
    assert_eq!(c.auth_header().as_deref(), Some("Bearer t"));
    assert_eq!(c.timeout_for(None), 5);
    assert_eq!(c.timeout_for(Some(7)), 7);
    assert_eq!(c.history_timeout(), 9);
    let d = ApiClient::new("http://h", None);
    assert_eq!(d.auth_header(), None);
    assert_eq!(d.history_timeout(), 120);
    assert_eq!(MsgTarget::from(Scope::Group(3)), MsgTarget::Group(3));
    assert_eq!(MsgTarget::from(Scope::Private(4)).payload_fields(), ("private", "user_id", 4));
}

#[test]
fn images() {
    assert_eq!(image_file_id(&MessageSegment::image("abc.jpg")), Ok("abc.jpg"));
    assert_eq!(image_file_id(&MessageSegment::text("x")), Err("消息段不是图片类型".to_string()));
    let r = image_source(GetImageResponse { file: Some("/tmp/a".into()), url: Some("http://u".into()), size: None });
    assert!(matches!(r, Ok(ImageSource::LocalFile(p)) if p == "/tmp/a"));
    let r = image_source(GetImageResponse { file: None, url: Some("http://u".into()), size: None });
    assert!(matches!(r, Ok(ImageSource::Url(u)) if u == "http://u"));
    assert!(image_source(GetImageResponse { file: None, url: None, size: None }).is_err());
}

#[test]
fn hours() {
    assert_eq!(hour_of_day(0, 8), 8);
    assert_eq!(hour_of_day(1_709_700_000, 8), 12);
    assert_eq!(hour_of_day(-3600, 0), 23);
    assert_eq!(hour_of_day(i64::MAX, 8), 0);
}

#[test]
fn hours_at_calendar_edges() {
    assert_eq!(hour_of_day(8_210_266_876_799, 0), 23);
    assert_eq!(hour_of_day(8_210_266_876_800, 0), 0);
    assert_eq!(hour_of_day(-8_334_601_228_800 + 3 * 3600, 0), 3);
    assert_eq!(hour_of_day(-8_334_601_228_800 - 3600, 0), 0);
    assert_eq!(hour_of_day(-8_334_601_228_800 - 3600, 5), 0);
    assert_eq!(hour_of_day(-8_334_601_228_800, 5), 5);
}

#[test]
fn gemini_request_and_outcome() {
    let mut cfg = GeminiConfig::default();
    cfg.api_key = "KEY".into();
    let c = gemini_client(Some(cfg)).unwrap();
    let r = vision_request(&c, "QUJD", None);
    assert_eq!(r.text, DEFAULT_VISION_PROMPT);
    assert_eq!(r.mime_type, "image/jpeg");
    assert_eq!(r.data, "QUJD");
    assert_eq!(vision_request(&c, "x", Some("说说看")).text, "说说看");
    let mut cfg2 = GeminiConfig::default();
    cfg2.api_key = "K".into();
    cfg2.vision_prompt = Some("配置的".into());
    let c2 = gemini_client(Some(cfg2)).unwrap();
    assert_eq!(vision_request(&c2, "x", None).text, "配置的");

    let failed = VisionResponse::Failed { status: "403 Forbidden".into(), body: Some("denied".into()) };
    assert_eq!(vision_outcome(failed), Err("Gemini API 返回错误 403 Forbidden: denied".to_string()));
    let unread = VisionResponse::Failed { status: "500 Internal Server Error".into(), body: None };
    assert_eq!(vision_outcome(unread), Err("Gemini API 返回错误 500 Internal Server Error: 无法读取错误信息".to_string()));
    assert_eq!(vision_outcome(VisionResponse::Undecodable), Err("Gemini API 响应解析失败".to_string()));
    let reply = GeminiReply { candidates: Some(vec![GeminiCandidate { parts: Some(vec![Some("狗".into())]) }]) };
    assert_eq!(vision_outcome(VisionResponse::Decoded(reply)), Ok("狗".to_string()));
    let none = GeminiReply { candidates: None };
    assert_eq!(vision_outcome(VisionResponse::Decoded(none)), Err("Gemini API 响应中没有有效的文本内容".to_string()));
}

#[test]
fn timestamps_from_the_clock() {
    assert_eq!(timestamp_of(Some(1_709_700_000)), 1_709_700_000);
    assert_eq!(timestamp_of(None), 0);
    assert_eq!(timestamp_of(Some(u64::MAX)), -1);
}
