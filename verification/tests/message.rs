use lianbot::message::{DataValue, MessageEvent, MessageSegment, MessageType};
use lianbot::strmap::StrMap;

fn seg(t: &str, kv: &[(&str, DataValue)]) -> MessageSegment {
    let mut data = StrMap::new();
    for (k, v) in kv {
        let v = match v {
            DataValue::Str(s) => DataValue::Str(s.clone()),
            DataValue::Int(n) => DataValue::Int(*n),
            DataValue::Json(s) => DataValue::Json(s.clone()),
        };
        data.insert(k.to_string(), v);
    }
    MessageSegment { seg_type: t.to_string(), data }
}

fn event(segs: Vec<MessageSegment>) -> MessageEvent {
    MessageEvent {
        message_type: MessageType::Group,
        message_id: None,
        user_id: 1,
        group_id: Some(2),
        message: segs,
        raw_message: None,
        sender: None,
        time: None,
    }
}

#[test]
fn describe_shows_every_segment() {
    let e = event(vec![
        seg("at", &[("qq", DataValue::Str("123".into()))]),
        MessageSegment::text(" 你好 "),
        MessageSegment::image("x.png"),
        seg("mface", &[]),
        seg("at", &[("qq", DataValue::Int(456))]),
        seg("at", &[("qq", DataValue::Json("true".into()))]),
        seg("at", &[]),
        seg("reply", &[]),
        seg("forward", &[]),
        seg("record", &[]),
        seg("video", &[]),
        seg("file", &[]),
        seg("poke", &[]),
    ]);
    assert_eq!(
        e.describe(),
        "[@123] 你好 [图片][表情][@456][@?][@?][回复][转发][语音][视频][文件][poke]"
    );
}

#[test]
fn text_accessors() {
    let e = event(vec![
        MessageSegment::image("x"),
        MessageSegment::text("a"),
        seg("text", &[("text", DataValue::Int(5))]),
        MessageSegment::text("b"),
    ]);
    assert_eq!(e.first_text(), Some("a"));
    assert_eq!(e.full_text(), "ab");
    assert!(e.is_group());
    assert_eq!(event(vec![]).first_text(), None);
}

#[test]
fn segment_accessors() {
    let img = seg("image", &[("url", DataValue::Str("http://u".into())), ("file", DataValue::Str("f.jpg".into()))]);
    assert!(img.is_image());
    assert_eq!(img.image_url(), Some("http://u"));
    assert_eq!(img.image_file(), Some("f.jpg"));
    assert_eq!(img.as_text(), None);
    let at = MessageSegment::at(42);
    assert!(at.is_at());
    assert_eq!(at.at_qq(), Some("42"));
    assert_eq!(at.at_qq_id(), Some(42));
    assert_eq!(seg("at", &[("qq", DataValue::Int(7))]).at_qq_id(), Some(7));
    assert_eq!(seg("at", &[("qq", DataValue::Str("all".into()))]).at_qq_id(), None);
    assert_eq!(seg("text", &[("qq", DataValue::Int(7))]).at_qq_id(), None);
    assert!(seg("reply", &[]).is_reply());
    assert!(seg("face", &[]).is_face());
    assert_eq!(seg("forward", &[("id", DataValue::Str("abc".into()))]).forward_id(), Some("abc"));
    assert!(MessageSegment::text("t").is_text());
}
