use lianbot::message::{HistoryMessage, MessageEvent, MessageSegment, MessageType, Sender};
use lianbot::permission::Scope;
use lianbot::pool::{
    classify_kind, concat_text_segs, extract_nickname, from_api_value, from_event, seed_page, MemoryPool, MsgKind,
    MsgStatus, PoolConfig, PoolMessage, ProcessRecord,
};
use lianbot::time::unix_timestamp;

fn make_msg(scope: Scope, uid: i64, ts: i64, text: &str) -> PoolMessage {
    PoolMessage {
        msg_id: ts,
        scope,
        user_id: uid,
        nickname: "test".into(),
        timestamp: ts,
        kind: MsgKind::Text,
        text: if text.is_empty() { None } else { Some(text.into()) },
        segments: vec![MessageSegment::text(text)],
        status: MsgStatus::Pending,
        process: None,
        is_bot: false,
        description: None,
    }
}

fn pool(cap: usize, evict: i64) -> MemoryPool {
    MemoryPool::new(&PoolConfig { per_group_capacity: cap, evict_after_secs: evict })
}

fn g(id: i64) -> Scope {
    Scope::Group(id)
}

#[test]
fn test_push_and_recent() {
    let mut p = pool(5, i64::MAX);
    for i in 1..=3 {
        p.push(make_msg(g(1), 100, i, &format!("msg{i}")));
    }
    let r = p.recent_internal(&g(1), 10);
    assert_eq!(r.len(), 3);
    assert_eq!(r[0].timestamp, 1);
    assert_eq!(r[2].timestamp, 3);
}

#[test]
fn test_capacity_eviction() {
    let mut p = pool(3, i64::MAX);
    for i in 1..=5 {
        p.push(make_msg(g(1), 100, i, "x"));
    }
    let r = p.recent_internal(&g(1), 10);
    assert_eq!(r.len(), 3);
    assert_eq!(r[0].timestamp, 3);
}

#[test]
fn test_range() {
    let mut p = pool(100, i64::MAX);
    for i in 1..=10 {
        p.push(make_msg(g(1), 100, i * 1000, "x"));
    }
    let r = p.range(&g(1), 3000, 7000);
    assert_eq!(r.len(), 5);
}

#[test]
fn test_time_eviction() {
    let mut p = pool(100, 10);
    let now = unix_timestamp();
    p.push(make_msg(g(1), 100, now - 20, "old"));
    p.push(make_msg(g(1), 100, now, "new"));
    let r = p.recent_internal(&g(1), 10);
    assert_eq!(r.len(), 1);
    assert_eq!(r[0].text.as_deref(), Some("new"));
}

#[test]
fn test_dedup_msg_id() {
    let mut p = pool(100, i64::MAX);
    p.push(make_msg(g(1), 100, 1, "first"));
    p.push(make_msg(g(1), 200, 2, "second"));
    p.push(make_msg(g(1), 100, 1, "dup"));
    let r = p.recent_internal(&g(1), 10);
    assert_eq!(r.len(), 2);
    assert_eq!(r[0].text.as_deref(), Some("second"));
    assert_eq!(r[1].text.as_deref(), Some("dup"));
}

#[test]
fn push_at_evicts_by_the_given_clock() {
    let mut p = pool(100, 100);
    p.push_at(make_msg(g(1), 1, 50, "a"), 1000);
    p.push_at(make_msg(g(1), 1, 950, "b"), 1000);
    p.push_at(make_msg(g(1), 1, 899, "c"), 1000);
    let r = p.recent_internal(&g(1), 10);
    // "a" is older than 1000 - 100 and leaves from the front; "c" is older
    // than the cutoff too but stays behind the newer "b".
    assert_eq!(r.len(), 2);
    assert_eq!(r[0].text.as_deref(), Some("b"));
    assert_eq!(r[1].text.as_deref(), Some("c"));
}

#[test]
fn scopes_are_separate() {
    let mut p = pool(2, i64::MAX);
    p.push(make_msg(g(1), 1, 1, "g1"));
    p.push(make_msg(Scope::Private(7), 1, 2, "p7"));
    p.push(make_msg(g(1), 1, 3, "g1b"));
    p.push(make_msg(g(1), 1, 4, "g1c"));
    assert_eq!(p.recent_internal(&g(1), 10).len(), 2);
    assert_eq!(p.recent_internal(&Scope::Private(7), 10).len(), 1);
    assert_eq!(p.recent_internal(&g(2), 10).len(), 0);
    assert_eq!(p.oldest_timestamp(&g(1)), Some(3));
    assert_eq!(p.oldest_timestamp(&g(2)), None);
}

#[test]
fn recent_takes_the_newest() {
    let mut p = pool(10, i64::MAX);
    for i in 1..=5 {
        p.push(make_msg(g(1), 1, i, "x"));
    }
    let r = p.recent_internal(&g(1), 2);
    assert_eq!(r.len(), 2);
    assert_eq!(r[0].timestamp, 4);
    assert_eq!(r[1].timestamp, 5);
}

#[test]
fn mark_and_describe_then_get() {
    let mut p = pool(10, i64::MAX);
    p.push(make_msg(g(1), 1, 11, "x"));
    p.push(make_msg(g(1), 1, 12, "y"));
    p.mark(12, &g(1), MsgStatus::Done, ProcessRecord { command: "acg".into(), duration_ms: 5, error: None });
    p.update_description(11, &g(1), "a cat".into());
    let m = p.get_message(12, &g(1)).unwrap();
    assert_eq!(m.status, MsgStatus::Done);
    assert_eq!(m.process.as_ref().unwrap().command, "acg");
    assert_eq!(p.get_message(11, &g(1)).unwrap().description.as_deref(), Some("a cat"));
    assert!(p.get_message(13, &g(1)).is_none());
    assert!(p.get_message(12, &g(2)).is_none());
    // marking an unknown id changes nothing
    p.mark(99, &g(1), MsgStatus::Error, ProcessRecord { command: "x".into(), duration_ms: 0, error: Some("e".into()) });
    assert_eq!(p.get_message(11, &g(1)).unwrap().status, MsgStatus::Pending);
}

fn seg(t: &str) -> MessageSegment {
    MessageSegment { seg_type: t.to_string(), data: lianbot::strmap::StrMap::new() }
}

#[test]
fn classify_kind_priorities() {
    assert_eq!(classify_kind(&vec![MessageSegment::text("a"), seg("reply")]), MsgKind::Reply);
    assert_eq!(classify_kind(&vec![seg("file"), seg("reply")]), MsgKind::Reply);
    assert_eq!(classify_kind(&vec![seg("json"), seg("file")]), MsgKind::File);
    assert_eq!(classify_kind(&vec![MessageSegment::image("f"), seg("json")]), MsgKind::Card);
    assert_eq!(classify_kind(&vec![seg("json")]), MsgKind::Card);
    assert_eq!(classify_kind(&vec![MessageSegment::text("a"), MessageSegment::image("f")]), MsgKind::Mixed);
    assert_eq!(classify_kind(&vec![MessageSegment::image("f")]), MsgKind::Image);
    assert_eq!(classify_kind(&vec![MessageSegment::at(1), MessageSegment::text("a")]), MsgKind::At);
    assert_eq!(classify_kind(&vec![seg("face")]), MsgKind::Face);
    assert_eq!(classify_kind(&vec![seg("face"), MessageSegment::text("a")]), MsgKind::Text);
    assert_eq!(classify_kind(&vec![seg("record")]), MsgKind::Other);
    assert_eq!(classify_kind(&vec![]), MsgKind::Other);
}

#[test]
fn concat_and_nickname() {
    let segs = vec![MessageSegment::text("ab"), MessageSegment::image("x"), MessageSegment::text("cd")];
    assert_eq!(concat_text_segs(&segs).as_deref(), Some("abcd"));
    assert_eq!(concat_text_segs(&vec![MessageSegment::image("x")]), None);
    let s = Sender { user_id: None, nickname: Some("nick".into()), card: Some("".into()), role: None };
    assert_eq!(extract_nickname(&Some(s)), "nick");
    let s = Sender { user_id: None, nickname: Some("nick".into()), card: Some("card".into()), role: None };
    assert_eq!(extract_nickname(&Some(s)), "card");
    assert_eq!(extract_nickname(&None), "未知");
}

fn event(t: MessageType, group: Option<i64>) -> MessageEvent {
    MessageEvent {
        message_type: t,
        message_id: Some(42),
        user_id: 100,
        group_id: group,
        message: vec![MessageSegment::text("hi")],
        raw_message: None,
        sender: None,
        time: None,
    }
}

#[test]
fn from_event_builds_a_pending_message() {
    let m = from_event(&event(MessageType::Group, Some(5)), g(5), false, 777).unwrap();
    assert_eq!(m.msg_id, 42);
    assert_eq!(m.timestamp, 777);
    assert_eq!(m.nickname, "未知");
    assert_eq!(m.text.as_deref(), Some("hi"));
    assert_eq!(m.kind, MsgKind::Text);
    assert_eq!(m.status, MsgStatus::Pending);
    assert!(from_event(&event(MessageType::Private, None), g(5), false, 0).is_none());
    assert!(from_event(&event(MessageType::Private, None), Scope::Private(100), true, 0).unwrap().is_bot);
}

fn history(post_type: Option<&str>, user: Option<i64>, time: Option<i64>) -> HistoryMessage {
    HistoryMessage {
        post_type: post_type.map(|s| s.to_string()),
        message_id: Some(9),
        message_seq: Some(900),
        user_id: user,
        time,
        sender_card: Some("".into()),
        sender_nickname: Some("bob".into()),
        message: Some(vec![MessageSegment::text("yo")]),
    }
}

#[test]
fn from_api_value_skips_bot_and_anonymous() {
    let m = from_api_value(&history(None, Some(3), Some(10)), 8, 0).unwrap();
    assert_eq!(m.scope, g(8));
    assert_eq!(m.nickname, "bob");
    assert_eq!(m.timestamp, 10);
    assert!(from_api_value(&history(Some("message_sent"), Some(3), Some(10)), 8, 0).is_none());
    assert!(from_api_value(&history(None, None, Some(10)), 8, 0).is_none());
    assert_eq!(from_api_value(&history(None, Some(3), None), 8, 55).unwrap().timestamp, 55);
}

#[test]
fn seed_page_stops_at_the_cutoff() {
    let page = vec![history(None, Some(1), Some(100)), history(Some("message_sent"), Some(2), Some(50))];
    let r = seed_page(&page, 8, 60, None, 0);
    assert_eq!(r.messages.len(), 1);
    assert_eq!(r.next_seq, None);
    let r = seed_page(&vec![], 8, 60, None, 0);
    assert!(r.messages.is_empty());
    assert_eq!(r.next_seq, None);
    // a short page ends the seeding too
    let r = seed_page(&vec![history(None, Some(1), Some(100))], 8, 60, None, 0);
    assert_eq!(r.next_seq, None);
}

#[test]
fn seed_page_continues_on_a_full_page() {
    let page: Vec<HistoryMessage> = (0..3000).map(|_| history(None, Some(1), Some(100))).collect();
    let r = seed_page(&page, 8, 60, None, 0);
    assert_eq!(r.messages.len(), 3000);
    assert_eq!(r.next_seq, Some(900));
    let r = seed_page(&page, 8, 60, Some(900), 0);
    assert_eq!(r.next_seq, None);
}

#[test]
fn pool_config_defaults() {
    let c = PoolConfig::default();
    assert_eq!(c.per_group_capacity, 3000);
    assert_eq!(c.evict_after_secs, 90000);
}
