use lianbot::services::{status_reply, unconfigured_text, StatusBody};
use lianbot::permission::Scope;
use lianbot::services::{
    auto_sign_hour, plan_delivery, register, secs_until_hour, sign_alert, sign_reply_text, sign_url, status_url,
    unreachable_text, ServicesSummary, YiBanBridge,
};

#[test]
fn service_plan() {
    let p = register(true, true, 3, 2);
    assert!(p.scheduler && p.github && p.yiban);
    assert_eq!(p.summary.details, vec!["scheduler", "github (3 条订阅)", "yiban (2 条推送)"]);
    assert_eq!(p.summary.count, 3);
    let p = register(false, false, 0, 0);
    assert_eq!(p.summary.count, 0);
    assert_eq!(ServicesSummary::default().count, 0);
}

#[test]
fn schedule() {
    assert_eq!(secs_until_hour(0, 0), 86400);
    assert_eq!(secs_until_hour(3600, 2), 3600);
    assert_eq!(secs_until_hour(7200, 1), 86400 - 3600);
    assert_eq!(auto_sign_hour(Some(7)), Some(7));
    assert_eq!(auto_sign_hour(Some(24)), None);
    assert_eq!(auto_sign_hour(None), None);
}

#[test]
fn sign_in_texts() {
    assert_eq!(sign_url("http://h/", None).as_deref(), Some("http://h/sign"));
    assert_eq!(sign_url("http://h//", Some("bob")).as_deref(), Some("http://h/sign/bob"));
    assert_eq!(sign_url("", Some("bob")), None);
    assert_eq!(status_url("http://h").as_deref(), Some("http://h/status"));
    assert_eq!(sign_reply_text(true, 200, "x"), "签到已触发，稍后将收到结果通知");
    assert_eq!(sign_reply_text(false, 502, "bad"), "签到触发失败 (HTTP 502): bad");
    assert_eq!(unreachable_text("timeout"), "无法连接签到服务: timeout");
    assert_eq!(sign_alert("签到触发失败 (HTTP 502)", 9), Some((9, "⚠️ 每日自动签到异常\n签到触发失败 (HTTP 502)".to_string())));
    assert_eq!(sign_alert("无法连接签到服务: x", 0), None);
    assert_eq!(sign_alert("签到已触发", 9), None);
}

#[test]
fn delivery() {
    let matched = vec![(1, vec![10]), (2, vec![]), (1, vec![11, 12])];
    let d = plan_delivery(&matched, None, true);
    assert_eq!(d.groups, vec![(1, vec![10, 11, 12]), (2, vec![])]);
    assert_eq!(d.private, None);
    assert!(!d.skip);
    let d = plan_delivery(&vec![], Some((Scope::Group(5), false)), true);
    assert_eq!(d.groups, vec![(5, vec![])]);
    assert!(!d.skip);
    let d = plan_delivery(&vec![], Some((Scope::Private(7), false)), true);
    assert_eq!(d.private, Some(7));
    let d = plan_delivery(&vec![], Some((Scope::Private(7), true)), true);
    assert_eq!(d.private, None);
    assert!(!d.skip);
    let d = plan_delivery(&vec![], Some((Scope::Private(7), false)), false);
    assert!(d.skip);
    let d = plan_delivery(&vec![(1, vec![])], Some((Scope::Group(1), false)), true);
    assert_eq!(d.groups, vec![(1, vec![])]);
}

#[test]
fn bridge() {
    let mut b = YiBanBridge::new();
    assert!(b.take_origin().is_none());
    b.set_origin(Scope::Group(3));
    b.set_origin(Scope::Private(4));
    assert_eq!(b.take_origin().unwrap().scope, Scope::Private(4));
    assert!(b.take_origin().is_none());
}

#[test]
fn status_replies() {
    assert_eq!(status_reply("<html>", StatusBody::NotJson), "<html>");
    assert_eq!(status_reply("{}", StatusBody::NoData { msg: None }), "{}");
    assert_eq!(status_reply("{\"msg\":\"busy\"}", StatusBody::NoData { msg: Some("busy".into()) }), "busy");
    assert_eq!(status_reply("{\"data\":null}", StatusBody::NullData), "暂无签到记录");
    assert_eq!(status_reply("{}", StatusBody::Report("R".into())), "R");
    assert_eq!(status_reply("{\"data\":1}", StatusBody::BadReport), "解析签到数据失败: {\"data\":1}");
    assert_eq!(unconfigured_text(false), "未配置 api_url，无法调用签到服务");
    assert_eq!(unconfigured_text(true), "未配置 api_url，无法查询签到服务");
}
