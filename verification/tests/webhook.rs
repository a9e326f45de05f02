use lianbot::message::MessageSegment;
use lianbot::permission::Scope;
use lianbot::webhook::{build_notification, expired_after, verify_hmac_sha256, PendingOrigin};

const SIG: &str = "sha256=757107ea0eb2509fc211221cce984b8a37570b6d7586c22c46f4379c8b043e17";

#[test]
fn accepts_a_valid_signature() {
    assert!(verify_hmac_sha256("It's a Secret to Everybody", b"Hello, World!", SIG, false));
    let upper = SIG.to_uppercase().replace("SHA256=", "sha256=");
    assert!(verify_hmac_sha256("It's a Secret to Everybody", b"Hello, World!", &upper, false));
}

#[test]
fn rejects_bad_signatures() {
    assert!(!verify_hmac_sha256("It's a Secret to Everybody", b"Hello, World?", SIG, false));
    assert!(!verify_hmac_sha256("other", b"Hello, World!", SIG, false));
    assert!(!verify_hmac_sha256("It's a Secret to Everybody", b"Hello, World!", &SIG[7..], false));
    assert!(!verify_hmac_sha256("It's a Secret to Everybody", b"Hello, World!", "sha256=zz", false));
    assert!(!verify_hmac_sha256("It's a Secret to Everybody", b"Hello, World!", "sha256=abc", false));
    assert!(!verify_hmac_sha256("It's a Secret to Everybody", b"Hello, World!", &SIG[..SIG.len() - 2], false));
}

#[test]
fn empty_secret_skips_the_check() {
    assert!(verify_hmac_sha256("", b"x", "", true));
    assert!(!verify_hmac_sha256("", b"x", SIG, false));
}

fn texts(segs: &[MessageSegment]) -> Vec<String> {
    segs.iter()
        .map(|s| match s.as_text() {
            Some(t) => format!("text:{t}"),
            None => format!("{}:{}", s.seg_type, s.at_qq().unwrap_or("")),
        })
        .collect()
}

#[test]
fn notification_mentions_then_text() {
    let segs = build_notification("done", &[1, 2]);
    assert_eq!(texts(&segs), vec!["at:1", "at:2", "text:\n", "text:done"]);
    let segs = build_notification("done", &[]);
    assert_eq!(texts(&segs), vec!["text:done"]);
}

#[test]
fn origin_expiry() {
    assert!(!expired_after(300));
    assert!(expired_after(301));
    let p = PendingOrigin::new(Scope::Group(5));
    assert_eq!(p.scope, Scope::Group(5));
    assert!(!p.expired());
}
