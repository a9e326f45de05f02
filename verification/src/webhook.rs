//! Incoming webhooks: signature checks, the notification sent for an event,
//! and the chat that asked for a pending result.
use vstd::prelude::*;

use hmac::{Hmac, Mac};
use sha2::Sha256;
use std::time::{Duration, Instant};
use vstd::string::StringSliceAdditionalSpecFns;

use crate::message::{seg_views, DataValueView, MessageSegment, SegmentView};
use crate::permission::Scope;
use crate::text::dec_int;
use crate::time::whole_secs;

verus! {

// ── signatures ───────────────────────────────────────────────────────────────

/// HMAC-SHA256 of a message under a key.
pub uninterp spec fn hmac_sha256(key: Seq<u8>, msg: Seq<u8>) -> Seq<u8>;

/// `Hmac::<Sha256>::new_from_slice` (which takes keys of every length, so its
/// error arm is never taken), `update(msg)`, then `verify_slice(tag)`: true
/// exactly when the tag equals the HMAC-SHA256 of the message under the key
/// (compared in constant time).
#[verifier::external_body]
fn hmac_sha256_matches(key: &[u8], msg: &[u8], tag: &[u8]) -> (ok: bool)
    ensures
        ok == (tag@ == hmac_sha256(key@, msg@)),
{
    match <Hmac<Sha256> as Mac>::new_from_slice(key) {
        Ok(mut mac) => {
            mac.update(msg);
            mac.verify_slice(tag).is_ok()
        },
        Err(_) => false,
    }
}

/// The value of a hex digit (either case).
pub open spec fn hex_val(c: u8) -> Option<int> {
    if 0x30 <= c <= 0x39 {
        Some(c - 0x30)
    } else if 0x41 <= c <= 0x46 {
        Some(c - 0x41 + 10)
    } else if 0x61 <= c <= 0x66 {
        Some(c - 0x61 + 10)
    } else {
        None
    }
}

/// Hex text as bytes: an even number of hex digits, two per byte.
pub open spec fn hex_decode_spec(b: Seq<u8>) -> Option<Seq<u8>> {
    if b.len() % 2 != 0 {
        None
    } else if forall|i: int| 0 <= i < b.len() ==> #[trigger] hex_val(b[i]) is Some {
        Some(Seq::new(b.len() / 2, |i: int| (hex_val(b[2 * i])->0 * 16 + hex_val(b[2 * i + 1])->0) as u8))
    } else {
        None
    }
}

/// `hex::decode`: an odd length or a character that is no hex digit is an
/// error; otherwise each pair of digits gives one byte.
#[verifier::external_body]
fn hex_decode(data: &[u8]) -> (r: Option<Vec<u8>>)
    ensures
        match hex_decode_spec(data@) {
            Some(v) => r matches Some(x) && x@ == v,
            None => r is None,
        },
{
    hex::decode(data).ok()
}

/// The bytes of `sha256=`.
pub open spec fn sha256_prefix() -> Seq<u8> {
    seq![0x73u8, 0x68u8, 0x61u8, 0x32u8, 0x35u8, 0x36u8, 0x3du8]
}

/// Whether a signature header (`sha256=<hex>`) signs the body under the
/// secret. An empty secret means no check: `skip_empty` decides.
pub open spec fn signature_ok(secret: Seq<u8>, secret_empty: bool, body: Seq<u8>, header: Seq<u8>, skip_empty: bool) -> bool {
    if secret_empty {
        skip_empty
    } else if header.len() >= 7 && header.take(7) == sha256_prefix() {
        match hex_decode_spec(header.skip(7)) {
            Some(sig) => sig == hmac_sha256(secret, body),
            None => false,
        }
    } else {
        false
    }
}

/// Checks a webhook signature header of the form `sha256=<hex>` against the
/// HMAC-SHA256 of the body. With an empty secret the check is skipped and
/// `skip_empty` is the answer.
pub fn verify_hmac_sha256(secret: &str, body: &[u8], header: &str, skip_empty: bool) -> (ok: bool)
    ensures
        ok == signature_ok(secret.spec_bytes(), secret@.len() == 0, body@, header.spec_bytes(), skip_empty),
{
    if secret.is_empty() {
        return skip_empty;
    }
    let h = header.as_bytes();
    if h.len() < 7 {
        return false;
    }
    let prefix: [u8; 7] = [0x73, 0x68, 0x61, 0x32, 0x35, 0x36, 0x3d];
    let mut i: usize = 0;
    while i < 7
        invariant
            i <= 7,
            h@ == header.spec_bytes(),
            secret@.len() != 0,
            h@.len() >= 7,
            prefix@ == sha256_prefix(),
            forall|j: int| 0 <= j < i ==> h@[j] == prefix@[j],
        decreases 7 - i,
    {
        if h[i] != prefix[i] {
            assert(h@.take(7)[i as int] != sha256_prefix()[i as int]);
            return false;
        }
        i += 1;
    }
    assert(h@.take(7) =~= sha256_prefix());
    let mut hex_part: Vec<u8> = Vec::new();
    let mut k: usize = 7;
    while k < h.len()
        invariant
            7 <= k <= h@.len(),
            hex_part@ =~= h@.subrange(7, k as int),
        decreases h.len() - k,
    {
        hex_part.push(h[k]);
        k += 1;
    }
    assert(hex_part@ =~= h@.skip(7));
    match hex_decode(hex_part.as_slice()) {
        Some(sig) => hmac_sha256_matches(secret.as_bytes(), body, sig.as_slice()),
        None => false,
    }
}

// ── notifications ────────────────────────────────────────────────────────────

/// The segments of a notification: an @ for each QQ number, a line break
/// when there is any, then the text.
pub open spec fn notification_spec(text: Seq<char>, at: Seq<i64>) -> Seq<SegmentView> {
    let ats = Seq::new(at.len(), |i: int| SegmentView {
        seg_type: "at"@,
        data: map!["qq"@ => DataValueView::Str(dec_int(at[i] as int))],
    });
    let text_seg = |t: Seq<char>| SegmentView { seg_type: "text"@, data: map!["text"@ => DataValueView::Str(t)] };
    if at.len() > 0 {
        ats.push(text_seg("\n"@)).push(text_seg(text))
    } else {
        ats.push(text_seg(text))
    }
}

/// The message sent for an event: the mentions, a line break, the text.
pub fn build_notification(text: &str, at: &[i64]) -> (segs: Vec<MessageSegment>)
    ensures
        seg_views(segs@) == notification_spec(text@, at@),
{
    let mut segs: Vec<MessageSegment> = Vec::new();
    let mut i: usize = 0;
    while i < at.len()
        invariant
            i <= at@.len(),
            seg_views(segs@) =~= Seq::new(i as nat, |j: int| SegmentView {
                seg_type: "at"@,
                data: map!["qq"@ => DataValueView::Str(dec_int(at@[j] as int))],
            }),
        decreases at.len() - i,
    {
        let seg = MessageSegment::at(at[i]);
        let ghost before = segs@;
        segs.push(seg);
        assert(seg_views(segs@) =~= seg_views(before).push(segs@.last()@));
        i += 1;
    }
    if segs.len() > 0 {
        let ghost before = segs@;
        segs.push(MessageSegment::text("\n"));
        assert(seg_views(segs@) =~= seg_views(before).push(segs@.last()@));
    }
    let ghost before = segs@;
    segs.push(MessageSegment::text(text));
    assert(seg_views(segs@) =~= seg_views(before).push(segs@.last()@));
    segs
}

// ── the chat waiting for a result ────────────────────────────────────────────

#[verifier::external_type_specification]
#[verifier::external_body]
pub struct ExInstant(std::time::Instant);

/// `Instant::now`. Nothing is claimed of the value.
#[verifier::external_body]
fn instant_now() -> Instant {
    Instant::now()
}

/// `Instant::elapsed`. Nothing is claimed of the value.
#[verifier::external_body]
fn elapsed(t: &Instant) -> Duration {
    t.elapsed()
}

/// A request is answered in the chat it came from for this many seconds.
pub const ORIGIN_TTL_SECS: u64 = 300;

/// The chat that asked for a result which arrives later (by webhook).
pub struct PendingOrigin {
    pub scope: Scope,
    pub created_at: Instant,
}

/// Whether an origin that has waited this long is out of date.
pub fn expired_after(elapsed_secs: u64) -> (b: bool)
    ensures
        b == (elapsed_secs > ORIGIN_TTL_SECS),
{
    elapsed_secs > ORIGIN_TTL_SECS
}

impl PendingOrigin {
    /// An origin created now.
    pub fn new(scope: Scope) -> (p: Self)
        ensures
            p.scope == scope,
    {
        PendingOrigin { scope, created_at: instant_now() }
    }

    /// Whether more than five minutes have passed since the request.
    pub fn expired(&self) -> bool {
        let d = elapsed(&self.created_at);
        expired_after(whole_secs(&d))
    }
}

} // verus!
