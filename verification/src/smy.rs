//! Group-chat daily report: message extraction from the history, time
//! filters, statistics, prompts for the language model and the HTML report.
use vstd::prelude::*;

use crate::message::{data_str, seg_views, HistoryMessage, MessageSegment, SegmentView};
use crate::pool::{display_name, opt_view, sent_by_bot, time_or_zero};
use crate::text::{join, join_strings, views};
use chrono::{TimeZone, Timelike};
use crate::text::{
    chars_of, dec_int, is_ws, parse_i64, parse_i64_spec, push_chars, push_str, slice_chars, string_of, trim,
    trim_chars,
};

verus! {

// ── messages ─────────────────────────────────────────────────────────────────

/// A chat message reduced to what the report reads.
pub struct ChatMessage {
    pub user_id: i64,
    pub nickname: String,
    pub time: i64,
    pub text: String,
    pub has_image: bool,
    pub emoji_count: u32,
}

pub struct ChatView {
    pub user_id: i64,
    pub nickname: Seq<char>,
    pub time: i64,
    pub text: Seq<char>,
    pub has_image: bool,
    pub emoji_count: u32,
}

impl View for ChatMessage {
    type V = ChatView;

    open spec fn view(&self) -> ChatView {
        ChatView {
            user_id: self.user_id,
            nickname: self.nickname@,
            time: self.time,
            text: self.text@,
            has_image: self.has_image,
            emoji_count: self.emoji_count,
        }
    }
}

pub open spec fn chat_views(v: Seq<ChatMessage>) -> Seq<ChatView> {
    v.map_values(|m: ChatMessage| m@)
}

impl ChatMessage {
    /// A copy of the message.
    pub fn duplicate(&self) -> (r: Self)
        ensures
            r@ == self@,
    {
        ChatMessage {
            user_id: self.user_id,
            nickname: self.nickname.clone(),
            time: self.time,
            text: self.text.clone(),
            has_image: self.has_image,
            emoji_count: self.emoji_count,
        }
    }
}

// ── time filter ──────────────────────────────────────────────────────────────

/// Seconds per unit: `m` minutes, `h` hours, `d` days.
pub open spec fn unit_secs(c: char) -> Option<int> {
    if c == 'm' {
        Some(60)
    } else if c == 'h' {
        Some(3600)
    } else if c == 'd' {
        Some(86400)
    } else {
        None
    }
}

/// `"30m"`, `"2h"`, `"1d"` in seconds: the trimmed text is an integer
/// followed by a unit, and the seconds fit in an `i64`.
pub open spec fn parse_duration_spec(s: Seq<char>) -> Option<int> {
    let t = trim(s);
    if t.len() == 0 {
        None
    } else {
        match parse_i64_spec(t.drop_last()) {
            Some(n) => match unit_secs(t.last()) {
                Some(k) => if i64::MIN <= n * k <= i64::MAX {
                    Some(n * k)
                } else {
                    None
                },
                None => None,
            },
            None => None,
        }
    }
}

/// Parses a duration such as `"30m"`, `"2h"` or `"1d"` into seconds. Any
/// other text gives `None`, and so does a duration whose seconds do not fit
/// in an `i64`.
pub fn parse_duration(s: &str) -> (r: Option<i64>)
    ensures
        match parse_duration_spec(s@) {
            Some(v) => r == Some(v as i64),
            None => r is None,
        },
{
    let raw = chars_of(s);
    let t = trim_chars(&raw);
    if t.len() == 0 {
        return None;
    }
    let num = slice_chars(&t, 0, t.len() - 1);
    assert(num@ =~= t@.drop_last());
    let n = match parse_i64(&num) {
        Some(n) => n,
        None => {
            return None;
        },
    };
    let unit = t[t.len() - 1];
    if unit == 'm' {
        n.checked_mul(60)
    } else if unit == 'h' {
        n.checked_mul(3600)
    } else if unit == 'd' {
        n.checked_mul(86400)
    } else {
        None
    }
}

// ── extraction from the history ──────────────────────────────────────────────

pub open spec fn is_face_kind(t: Seq<char>) -> bool {
    t == "face"@ || t == "mface"@ || t == "bface"@ || t == "sface"@
}

/// The trimmed text of a text segment (empty otherwise).
pub open spec fn seg_trimmed_text(s: SegmentView) -> Seq<char> {
    if s.seg_type == "text"@ {
        match data_str(s, "text"@) {
            Some(t) => trim(t),
            None => Seq::empty(),
        }
    } else {
        Seq::empty()
    }
}

/// The trimmed texts joined.
pub open spec fn segs_text(segs: Seq<SegmentView>) -> Seq<char>
    decreases segs.len(),
{
    if segs.len() == 0 {
        Seq::empty()
    } else {
        segs_text(segs.drop_last()) + seg_trimmed_text(segs.last())
    }
}

/// Number of emoticon segments.
pub open spec fn face_count(segs: Seq<SegmentView>) -> nat
    decreases segs.len(),
{
    if segs.len() == 0 {
        0
    } else {
        face_count(segs.drop_last()) + if is_face_kind(segs.last().seg_type) { 1nat } else { 0nat }
    }
}

pub open spec fn has_seg_type(segs: Seq<SegmentView>, t: Seq<char>) -> bool {
    exists|i: int| 0 <= i < segs.len() && segs[i].seg_type == t
}

/// Text, image presence and emoticon count of a segment list.
pub open spec fn extract_spec(segs: Option<Seq<SegmentView>>) -> (Seq<char>, bool, nat) {
    match segs {
        None => (Seq::empty(), false, 0),
        Some(s) => (segs_text(s), has_seg_type(s, "image"@), face_count(s)),
    }
}

pub open spec fn opt_seg_views(m: Option<Vec<MessageSegment>>) -> Option<Seq<SegmentView>> {
    match m {
        Some(v) => Some(seg_views(v@)),
        None => None,
    }
}

proof fn lemma_kind_literals()
    ensures
        "text"@ != "image"@,
        !is_face_kind("text"@),
        !is_face_kind("image"@),
{
    reveal_strlit("text");
    reveal_strlit("image");
    reveal_strlit("face");
    reveal_strlit("mface");
    reveal_strlit("bface");
    reveal_strlit("sface");
    assert("text"@[0] != "face"@[0]);
    assert("image"@[0] != "face"@[0]);
}

/// Each emoticon segment (`face`, `mface`, `bface` or `sface`) adds one to a
/// message's emoticon count, and any other segment adds nothing; text and
/// image presence do not depend on emoticon segments.
pub proof fn law_emoticon_count(segs: Seq<SegmentView>, s: SegmentView)
    ensures
        extract_spec(Some(segs.push(s))).2 == extract_spec(Some(segs)).2 + (if s.seg_type == "face"@ || s.seg_type
            == "mface"@ || s.seg_type == "bface"@ || s.seg_type == "sface"@ {
            1nat
        } else {
            0nat
        }),
        extract_spec(Some(seq![s])).2 == (if s.seg_type == "face"@ || s.seg_type == "mface"@ || s.seg_type
            == "bface"@ || s.seg_type == "sface"@ {
            1nat
        } else {
            0nat
        }),
{
    assert(segs.push(s).drop_last() =~= segs);
    assert(seq![s].drop_last() =~= Seq::<SegmentView>::empty());
    assert(face_count(Seq::<SegmentView>::empty()) == 0);
}

fn face_type(t: &str) -> (b: bool)
    ensures
        b == is_face_kind(t@),
{
    crate::text::str_eq(t, "face") || crate::text::str_eq(t, "mface") || crate::text::str_eq(t, "bface")
        || crate::text::str_eq(t, "sface")
}

/// Text (trimmed pieces joined), whether there is an image, and how many
/// emoticons a segment list holds.
pub fn extract_segments(segments: Option<&Vec<MessageSegment>>) -> (r: (String, bool, u32))
    requires
        segments matches Some(v) ==> v@.len() <= u32::MAX,
    ensures
        (r.0@, r.1, r.2 as nat) == extract_spec(match segments { Some(v) => Some(seg_views(v@)), None => None }),
{
    let segs = match segments {
        None => {
            return (String::new(), false, 0);
        },
        Some(v) => v,
    };
    let ghost sv = seg_views(segs@);
    let mut text = String::new();
    let mut has_image = false;
    let mut emoji: u32 = 0;
    let mut i: usize = 0;
    while i < segs.len()
        invariant
            i <= segs@.len(),
            segs@.len() <= u32::MAX,
            sv == seg_views(segs@),
            text@ == segs_text(sv.take(i as int)),
            has_image == exists|j: int| 0 <= j < i && sv[j].seg_type == "image"@,
            emoji as nat == face_count(sv.take(i as int)),
            emoji <= i,
        decreases segs.len() - i,
    {
        let seg = &segs[i];
        assert(sv[i as int] == seg@);
        assert(sv.take(i as int + 1).drop_last() =~= sv.take(i as int));
        let t = seg.seg_type.as_str();
        if crate::text::str_eq(t, "text") {
            match seg.data.get("text") {
                Some(crate::message::DataValue::Str(s)) => {
                    let cs = chars_of(s.as_str());
                    let tr = trim_chars(&cs);
                    push_chars(&mut text, tr.as_slice());
                },
                _ => {},
            }
        } else if crate::text::str_eq(t, "image") {
            has_image = true;
        } else if face_type(t) {
            emoji = emoji + 1;
        }
        assert(sv.take(i as int + 1).last() == sv[i as int]);
        proof { lemma_kind_literals(); }
        i += 1;
    }
    assert(sv.take(segs@.len() as int) =~= sv);
    (text, has_image, emoji)
}

/// A history entry as a chat message: the bot's own messages, entries older
/// than the cutoff and entries with neither text nor image are left out.
pub open spec fn chat_of(v: HistoryMessage, cutoff: Option<i64>) -> Option<ChatView> {
    let time = time_or_zero(v);
    let e = extract_spec(opt_seg_views(v.message));
    if sent_by_bot(v) {
        None
    } else if cutoff matches Some(c) && time < c {
        None
    } else if e.0.len() == 0 && !e.1 {
        None
    } else {
        Some(ChatView {
            user_id: match v.user_id { Some(u) => u, None => 0 },
            nickname: display_name(opt_view(v.sender_card), opt_view(v.sender_nickname)),
            time,
            text: e.0,
            has_image: e.1,
            emoji_count: e.2 as u32,
        })
    }
}

/// The chat messages of a history, in order.
pub open spec fn chats_of(raw: Seq<HistoryMessage>, cutoff: Option<i64>) -> Seq<ChatView>
    decreases raw.len(),
{
    if raw.len() == 0 {
        Seq::empty()
    } else {
        let r = chats_of(raw.drop_last(), cutoff);
        match chat_of(raw.last(), cutoff) {
            Some(c) => r.push(c),
            None => r,
        }
    }
}

/// Whether every entry's segment list has at most `u32::MAX` segments.
pub open spec fn segment_counts_fit(raw: Seq<HistoryMessage>) -> bool {
    forall|i: int| 0 <= i < raw.len() ==> (#[trigger] raw[i]).segments().len() <= u32::MAX
}

pub(crate) fn display_name_of(card: &Option<String>, nickname: &Option<String>) -> (r: String)
    ensures
        r@ == display_name(opt_view(*card), opt_view(*nickname)),
{
    let mut r = String::new();
    match card {
        Some(c) => {
            if !c.as_str().is_empty() {
                push_str(&mut r, c.as_str());
                return r;
            }
        },
        None => {},
    }
    match nickname {
        Some(n) => push_str(&mut r, n.as_str()),
        None => push_str(&mut r, "未知"),
    }
    r
}

/// Turns a message history into chat messages, dropping the bot's own
/// messages, those older than `cutoff`, and empty ones.
pub fn parse_raw_messages(raw: &Vec<HistoryMessage>, cutoff: Option<i64>) -> (r: Vec<ChatMessage>)
    requires
        segment_counts_fit(raw@),
    ensures
        chat_views(r@) == chats_of(raw@, cutoff),
{
    let mut messages: Vec<ChatMessage> = Vec::new();
    let mut i: usize = 0;
    while i < raw.len()
        invariant
            i <= raw@.len(),
            segment_counts_fit(raw@),
            chat_views(messages@) =~= chats_of(raw@.take(i as int), cutoff),
        decreases raw.len() - i,
    {
        let msg = &raw[i];
        assert(raw@.take(i as int + 1).drop_last() =~= raw@.take(i as int));
        assert(raw@.take(i as int + 1).last() == *msg);
        let ghost before = messages@;
        let mut skip = false;
        match &msg.post_type {
            Some(p) => {
                if crate::text::str_eq(p.as_str(), "message_sent") {
                    skip = true;
                }
            },
            None => {},
        }
        let time = match msg.time {
            Some(t) => t,
            None => 0,
        };
        if !skip {
            match cutoff {
                Some(c) => {
                    if time < c {
                        skip = true;
                    }
                },
                None => {},
            }
        }
        if !skip {
            assert(raw@[i as int].segments().len() <= u32::MAX);
            let (text, has_image, emoji_count) = match &msg.message {
                Some(m) => extract_segments(Some(m)),
                None => extract_segments(None),
            };
            if !(text.as_str().is_empty() && !has_image) {
                let nickname = display_name_of(&msg.sender_card, &msg.sender_nickname);
                let user_id = match msg.user_id {
                    Some(u) => u,
                    None => 0,
                };
                messages.push(ChatMessage { user_id, nickname, time, text, has_image, emoji_count });
                assert(chat_views(messages@) =~= chat_views(before).push(messages@.last()@));
            }
        }
        i += 1;
    }
    assert(raw@.take(raw@.len() as int) =~= raw@);
    messages
}

} // verus!

verus! {

// ── statistics ───────────────────────────────────────────────────────────────

/// Counts of one report.
pub struct Statistics {
    pub message_count: usize,
    pub participant_count: usize,
    pub total_characters: usize,
    pub emoji_count: u32,
    pub image_count: usize,
    /// Such as `"21:00 - 22:00"`.
    pub most_active_hour: String,
    /// Messages per hour of the day (UTC+8).
    pub hourly_distribution: [u32; 24],
    /// The most active speakers: (nickname, messages), most messages first.
    pub top_speakers: Vec<(String, usize)>,
}

/// Remainder of the division truncated toward zero (Rust's `%`).
pub open spec fn trem(t: int, m: int) -> int {
    if t >= 0 { t % m } else { -((-t) % m) }
}

/// Hour bucket of a time, in UTC+8, as the report computes it.
pub open spec fn hour_bucket(t: i64) -> int {
    ((trem(t as int, 86400) + 28800) % 86400) / 3600
}

/// Whether the hour computation of a time stays in range (its shifted
/// remainder is not negative).
pub open spec fn bucket_defined(t: i64) -> bool {
    trem(t as int, 86400) + 28800 >= 0
}

/// Speakers in order of first appearance: id, the nickname of their first
/// message, and their number of messages.
pub open spec fn speakers_of(ms: Seq<ChatView>) -> Seq<(i64, Seq<char>, nat)>
    decreases ms.len(),
{
    if ms.len() == 0 {
        Seq::empty()
    } else {
        let s = speakers_of(ms.drop_last());
        let m = ms.last();
        match speaker_index(s, m.user_id) {
            Some(k) => s.update(k, (s[k].0, s[k].1, s[k].2 + 1)),
            None => s.push((m.user_id, m.nickname, 1nat)),
        }
    }
}

/// The index of a speaker's entry.
pub open spec fn speaker_index(s: Seq<(i64, Seq<char>, nat)>, id: i64) -> Option<int>
    decreases s.len(),
{
    if s.len() == 0 {
        None
    } else if s.last().0 == id {
        Some(s.len() - 1)
    } else {
        speaker_index(s.drop_last(), id)
    }
}

pub open spec fn total_chars(ms: Seq<ChatView>) -> nat
    decreases ms.len(),
{
    if ms.len() == 0 { 0 } else { total_chars(ms.drop_last()) + ms.last().text.len() }
}

pub open spec fn total_emoji(ms: Seq<ChatView>) -> nat
    decreases ms.len(),
{
    if ms.len() == 0 { 0 } else { total_emoji(ms.drop_last()) + ms.last().emoji_count as nat }
}

pub open spec fn image_messages(ms: Seq<ChatView>) -> nat
    decreases ms.len(),
{
    if ms.len() == 0 { 0 } else { image_messages(ms.drop_last()) + if ms.last().has_image { 1nat } else { 0nat } }
}

/// Messages per hour bucket.
pub open spec fn hour_counts(ms: Seq<ChatView>) -> Seq<nat>
    decreases ms.len(),
{
    if ms.len() == 0 {
        Seq::new(24, |h: int| 0nat)
    } else {
        let c = hour_counts(ms.drop_last());
        let h = hour_bucket(ms.last().time);
        c.update(h, c[h] + 1)
    }
}

/// The hour with the most messages; the last such hour on a tie.
pub open spec fn peak_of(c: Seq<nat>) -> int
    decreases c.len(),
{
    if c.len() <= 1 {
        0
    } else {
        let p = peak_of(c.drop_last());
        if c.last() >= c[p] { c.len() - 1 } else { p }
    }
}

/// Two-digit hour.
pub open spec fn two_digits(h: nat) -> Seq<char> {
    if h < 10 { seq!['0'] + crate::text::dec_nat(h) } else { crate::text::dec_nat(h) }
}

/// `"HH:00 - HH:00"` for an hour and the next.
pub open spec fn hour_range_text(h: nat) -> Seq<char> {
    two_digits(h) + ":00 - "@ + two_digits(((h + 1) % 24) as nat) + ":00"@
}

/// Whether the counters of a report fit their integer types and every
/// message's hour can be computed.
pub open spec fn analyzable(ms: Seq<ChatView>) -> bool {
    &&& ms.len() <= u32::MAX
    &&& total_chars(ms) <= usize::MAX
    &&& total_emoji(ms) <= u32::MAX
    &&& forall|i: int| 0 <= i < ms.len() ==> bucket_defined(#[trigger] ms[i].time)
}

pub proof fn lemma_hour_bucket(t: i64)
    requires
        bucket_defined(t),
    ensures
        0 <= hour_bucket(t) < 24,
{
}


pub open spec fn counts_of(s: Seq<(i64, Seq<char>, nat)>) -> Seq<nat> {
    s.map_values(|e: (i64, Seq<char>, nat)| e.2)
}

/// `r` lists the indices of `c` ordered by count, largest first, ties in
/// index order.
pub open spec fn rank_ok(c: Seq<nat>, r: Seq<usize>) -> bool {
    &&& r.len() == c.len()
    &&& forall|i: int| 0 <= i < r.len() ==> #[trigger] r[i] < c.len()
    &&& forall|k: usize| k < c.len() ==> r.contains(k)
    &&& forall|i: int, j: int| 0 <= i < j < r.len() ==> (c[r[i] as int] > c[r[j] as int] || (c[r[i] as int]
        == c[r[j] as int] && r[i] < r[j]))
}

/// Orders indices by count, largest first; equal counts keep index order.
pub(crate) fn rank_by_count(c: &Vec<usize>) -> (r: Vec<usize>)
    ensures
        rank_ok(c@.map_values(|x: usize| x as nat), r@),
{
    let ghost cn = c@.map_values(|x: usize| x as nat);
    let mut r: Vec<usize> = Vec::new();
    let mut k: usize = 0;
    while k < c.len()
        invariant
            k <= c@.len(),
            cn == c@.map_values(|x: usize| x as nat),
            r@.len() == k,
            forall|i: int| 0 <= i < r@.len() ==> #[trigger] r@[i] < k,
            forall|x: usize| x < k ==> r@.contains(x),
            forall|i: int, j: int| 0 <= i < j < r@.len() ==> (cn[r@[i] as int] > cn[r@[j] as int] || (cn[r@[i] as int]
                == cn[r@[j] as int] && r@[i] < r@[j])),
        decreases c.len() - k,
    {
        let ck = c[k];
        let mut p: usize = 0;
        while p < r.len() && c[r[p]] >= ck
            invariant
                p <= r@.len(),
                k < c@.len(),
                ck == c@[k as int],
                cn == c@.map_values(|x: usize| x as nat),
                forall|i: int| 0 <= i < r@.len() ==> #[trigger] r@[i] < k,
                forall|t: int| 0 <= t < p ==> cn[r@[t] as int] >= cn[k as int],
            decreases r.len() - p,
        {
            p += 1;
        }
        let ghost before = r@;
        r.insert(p, k);
        proof {
            assert forall|i: int, j: int| 0 <= i < j < r@.len() implies (cn[r@[i] as int] > cn[r@[j] as int] || (
            cn[r@[i] as int] == cn[r@[j] as int] && r@[i] < r@[j])) by {
                if j < p {
                    assert(r@[i] == before[i] && r@[j] == before[j]);
                } else if j == p {
                    assert(r@[i] == before[i]);
                } else if i == p {
                    assert(r@[j] == before[j - 1]);
                    if j - 1 > p {
                        assert(cn[before[p as int] as int] >= cn[before[j - 1] as int]);
                    }
                } else if i < p {
                    assert(r@[i] == before[i] && r@[j] == before[j - 1]);
                } else {
                    assert(r@[i] == before[i - 1] && r@[j] == before[j - 1]);
                }
            }
            assert forall|x: usize| x < k + 1 implies r@.contains(x) by {
                if x == k {
                    assert(r@[p as int] == k);
                } else {
                    assert(before.contains(x));
                    let j = choose|j: int| 0 <= j < before.len() && before[j] == x;
                    if j < p {
                        assert(r@[j] == x);
                    } else {
                        assert(r@[j + 1] == x);
                    }
                }
            }
            assert forall|i: int| 0 <= i < r@.len() implies #[trigger] r@[i] < k + 1 by {
                if i < p {
                    assert(r@[i] == before[i]);
                } else if i > p {
                    assert(r@[i] == before[i - 1]);
                }
            }
        }
        k += 1;
    }
    r
}

pub open spec fn speaker_views(v: Seq<(i64, String, usize)>) -> Seq<(i64, Seq<char>, nat)> {
    v.map_values(|e: (i64, String, usize)| (e.0, e.1@, e.2 as nat))
}

proof fn lemma_totals_prefix(ms: Seq<ChatView>, i: int)
    requires
        0 <= i <= ms.len(),
    ensures
        total_chars(ms.take(i)) <= total_chars(ms),
        total_emoji(ms.take(i)) <= total_emoji(ms),
    decreases ms.len() - i,
{
    if i < ms.len() {
        assert(ms.drop_last().take(i) =~= ms.take(i));
        lemma_totals_prefix(ms.drop_last(), i);
    } else {
        assert(ms.take(i) =~= ms);
    }
}

proof fn lemma_hour_counts(ms: Seq<ChatView>)
    requires
        forall|i: int| 0 <= i < ms.len() ==> bucket_defined(#[trigger] ms[i].time),
    ensures
        hour_counts(ms).len() == 24,
        forall|h: int| 0 <= h < 24 ==> #[trigger] hour_counts(ms)[h] <= ms.len(),
    decreases ms.len(),
{
    if ms.len() > 0 {
        let p = ms.drop_last();
        assert forall|i: int| 0 <= i < p.len() implies bucket_defined(#[trigger] p[i].time) by {
            assert(p[i] == ms[i]);
        }
        lemma_hour_counts(p);
        assert(bucket_defined(ms[ms.len() - 1].time));
        lemma_hour_bucket(ms.last().time);
    }
}

pub(crate) proof fn lemma_speaker_index(s: Seq<(i64, Seq<char>, nat)>, id: i64)
    ensures
        speaker_index(s, id) matches Some(k) ==> 0 <= k < s.len() && s[k].0 == id,
        speaker_index(s, id) is None ==> forall|k: int| 0 <= k < s.len() ==> s[k].0 != id,
    decreases s.len(),
{
    if s.len() > 0 {
        lemma_speaker_index(s.drop_last(), id);
        assert forall|k: int| 0 <= k < s.len() - 1 implies s[k] == s.drop_last()[k] by {}
    }
}

pub(crate) proof fn lemma_speaker_counts(ms: Seq<ChatView>)
    ensures
        speakers_of(ms).len() <= ms.len(),
        forall|k: int| 0 <= k < speakers_of(ms).len() ==> #[trigger] speakers_of(ms)[k].2 <= ms.len(),
    decreases ms.len(),
{
    if ms.len() > 0 {
        lemma_speaker_counts(ms.drop_last());
        lemma_speaker_index(speakers_of(ms.drop_last()), ms.last().user_id);
    }
}

pub(crate) fn push_two_digits(out: &mut String, h: usize)
    requires
        h < 24,
    ensures
        final(out)@ == old(out)@ + two_digits(h as nat),
{
    if h < 10 {
        crate::text::push_char(out, '0');
    }
    crate::text::push_u64(out, h as u64);
}

/// The hour bucket of a message time.
fn bucket_of(t: i64) -> (h: usize)
    requires
        bucket_defined(t),
    ensures
        h as int == hour_bucket(t),
        h < 24,
{
    proof { lemma_hour_bucket(t); }
    let w = t as i128;
    let r: i128 = if w >= 0 {
        ((w as u128) % 86400) as i128
    } else {
        let m = ((-w) as u128) % 86400;
        -(m as i128)
    };
    assert(r == trem(t as int, 86400));
    let v = ((r + 28800) as u128 % 86400) / 3600;
    v as usize
}

/// Counts messages, participants, characters, emoticons and images, the
/// messages per hour (UTC+8), the most active hour (the last one on a tie)
/// and the ten most active speakers.
pub fn analyze(messages: &[ChatMessage]) -> (st: Statistics)
    requires
        analyzable(chat_views(messages@)),
    ensures
        st.message_count == messages@.len(),
        st.participant_count == speakers_of(chat_views(messages@)).len(),
        st.total_characters == total_chars(chat_views(messages@)),
        st.emoji_count == total_emoji(chat_views(messages@)),
        st.image_count == image_messages(chat_views(messages@)),
        forall|h: int| 0 <= h < 24 ==> st.hourly_distribution@[h] == #[trigger] hour_counts(chat_views(messages@))[h],
        st.most_active_hour@ == hour_range_text(peak_of(hour_counts(chat_views(messages@))) as nat),
        exists|r: Seq<usize>| #![trigger rank_ok(counts_of(speakers_of(chat_views(messages@))), r)] {
            let sp = speakers_of(chat_views(messages@));
            &&& rank_ok(counts_of(sp), r)
            &&& st.top_speakers@.len() == (if sp.len() < 10 { sp.len() } else { 10 })
            &&& forall|t: int| 0 <= t < st.top_speakers@.len() ==> (#[trigger] st.top_speakers@[t]).0@ == sp[r[t] as int].1
                && st.top_speakers@[t].1 == sp[r[t] as int].2
        },
{
    let ghost ms = chat_views(messages@);
    let mut total: usize = 0;
    let mut emoji: u32 = 0;
    let mut images: usize = 0;
    let mut hourly: [u32; 24] = [0; 24];
    let mut speakers: Vec<(i64, String, usize)> = Vec::new();
    proof {
        assert(ms.take(0) =~= Seq::<ChatView>::empty());
        assert(hourly@ =~= Seq::new(24, |h: int| 0u32));
    }
    let mut i: usize = 0;
    while i < messages.len()
        invariant
            i <= messages@.len(),
            ms == chat_views(messages@),
            analyzable(ms),
            total == total_chars(ms.take(i as int)),
            emoji == total_emoji(ms.take(i as int)),
            images == image_messages(ms.take(i as int)),
            images <= i,
            hourly@.len() == 24,
            forall|h: int| 0 <= h < 24 ==> hourly@[h] == #[trigger] hour_counts(ms.take(i as int))[h],
            speaker_views(speakers@) == speakers_of(ms.take(i as int)),
        decreases messages.len() - i,
    {
        let m = &messages[i];
        let ghost pre = ms.take(i as int);
        let ghost cur = ms.take(i as int + 1);
        assert(cur.drop_last() =~= pre);
        assert(cur.last() == m@);
        proof {
            lemma_totals_prefix(ms, i as int + 1);
            assert(bucket_defined(ms[i as int].time));
            lemma_hour_counts(pre);
            lemma_speaker_counts(pre);
            lemma_speaker_index(speakers_of(pre), m.user_id);
        }
        let n = chars_of(m.text.as_str()).len();
        total = total + n;
        emoji = emoji + m.emoji_count;
        if m.has_image {
            images = images + 1;
        }
        let h = bucket_of(m.time);
        let cnt = hourly[h];
        assert(hourly@[h as int] == hour_counts(pre)[h as int]);
        hourly.set(h, cnt + 1);
        assert forall|x: int| 0 <= x < 24 implies hourly@[x] == #[trigger] hour_counts(cur)[x] by {
            assert(hour_counts(cur) == hour_counts(pre).update(h as int, hour_counts(pre)[h as int] + 1));
        }
        // speaker entry, searched from the end
        let mut k = speakers.len();
        assert(speaker_views(speakers@).take(k as int) =~= speaker_views(speakers@));
        while k > 0 && speakers[k - 1].0 != m.user_id
            invariant
                k <= speakers@.len(),
                speaker_index(speaker_views(speakers@), m.user_id) == speaker_index(speaker_views(speakers@).take(k as int), m.user_id),
            decreases k,
        {
            assert(speaker_views(speakers@).take(k as int).drop_last() =~= speaker_views(speakers@).take(k as int - 1));
            k -= 1;
        }
        let ghost sv0 = speaker_views(speakers@);
        if k > 0 {
            assert(sv0.take(k as int).last() == sv0[k as int - 1]);
            assert(speaker_index(sv0, m.user_id) == Some(k as int - 1));
            let (sid, name, c) = speakers.remove(k - 1);
            assert(c <= i);
            speakers.insert(k - 1, (sid, name, c + 1));
            assert(speaker_views(speakers@) =~= sv0.update(k as int - 1, (sv0[k as int - 1].0, sv0[k as int - 1].1, sv0[k as int - 1].2 + 1)));
        } else {
            assert(sv0.take(0) =~= Seq::<(i64, Seq<char>, nat)>::empty());
            assert(speaker_index(sv0, m.user_id) is None);
            speakers.push((m.user_id, m.nickname.clone(), 1));
            assert(speaker_views(speakers@) =~= sv0.push((m.user_id, m.nickname@, 1nat)));
        }
        i += 1;
    }
    assert(ms.take(messages@.len() as int) =~= ms);
    // the most active hour, the last one on a tie
    let ghost hc = hour_counts(ms);
    proof {
        lemma_hour_counts(ms);
        assert(hc.take(1).drop_last().len() == 0);
    }
    let mut peak: usize = 0;
    let mut x: usize = 1;
    while x < 24
        invariant
            1 <= x <= 24,
            hourly@.len() == 24,
            hc.len() == 24,
            forall|h: int| 0 <= h < 24 ==> hourly@[h] == #[trigger] hc[h],
            peak < x,
            peak as int == peak_of(hc.take(x as int)),
        decreases 24 - x,
    {
        assert(hc.take(x as int + 1).drop_last() =~= hc.take(x as int));
        assert(hc.take(x as int + 1).last() == hc[x as int]);
        if hourly[x] >= hourly[peak] {
            peak = x;
        }
        x += 1;
    }
    assert(hc.take(24) =~= hc);
    let mut label = String::new();
    push_two_digits(&mut label, peak);
    push_str(&mut label, ":00 - ");
    push_two_digits(&mut label, (peak + 1) % 24);
    push_str(&mut label, ":00");
    // the ten most active speakers
    let mut counts: Vec<usize> = Vec::new();
    let mut j: usize = 0;
    while j < speakers.len()
        invariant
            j <= speakers@.len(),
            counts@.len() == j,
            forall|t: int| 0 <= t < j ==> #[trigger] counts@[t] == speakers@[t].2,
        decreases speakers.len() - j,
    {
        counts.push(speakers[j].2);
        j += 1;
    }
    let ghost sp = speakers_of(ms);
    assert(counts@.map_values(|x: usize| x as nat) =~= counts_of(sp));
    let r = rank_by_count(&counts);
    let limit = if speakers.len() < 10 { speakers.len() } else { 10 };
    let mut top: Vec<(String, usize)> = Vec::new();
    let mut t: usize = 0;
    while t < limit
        invariant
            t <= limit,
            limit <= speakers@.len(),
            limit == (if sp.len() < 10 { sp.len() } else { 10 }),
            speaker_views(speakers@) == sp,
            rank_ok(counts_of(sp), r@),
            top@.len() == t,
            forall|u: int| 0 <= u < t ==> (#[trigger] top@[u]).0@ == sp[r@[u] as int].1 && top@[u].1 == sp[r@[u] as int].2,
        decreases limit - t,
    {
        let k = r[t];
        assert(r@[t as int] < counts_of(sp).len());
        top.push((speakers[k].1.clone(), speakers[k].2));
        t += 1;
    }
    Statistics {
        message_count: messages.len(),
        participant_count: speakers.len(),
        total_characters: total,
        emoji_count: emoji,
        image_count: images,
        most_active_hour: label,
        hourly_distribution: hourly,
        top_speakers: top,
    }
}

// ── the chat log for the language model ──────────────────────────────────────

/// The first and last Unix second of `chrono`'s calendar (years -262143 to
/// 262142).
pub open spec fn chrono_min_ts() -> int {
    -8334601228800
}

pub open spec fn chrono_max_ts() -> int {
    8210266876799
}

/// Hour and minute of a Unix time in UTC+8.
pub open spec fn utc8_hm(ts: i64) -> (int, int) {
    let d = (ts + 28800) % 86400;
    (d / 3600, (d % 3600) / 60)
}

/// `Utc.timestamp_opt(ts, 0).single()`, plus eight hours (`Add<TimeDelta>`),
/// then `hour()` and `minute()`. Claims: a time is returned exactly inside
/// the calendar range, and it is the UTC+8 clock time. The addition panics
/// past the calendar's last second, which the `requires` leaves out.
#[verifier::external_body]
fn utc8_clock(ts: i64) -> (r: Option<(u32, u32)>)
    requires
        !(chrono_max_ts() - 28800 < ts <= chrono_max_ts()),
    ensures
        r is Some <==> chrono_min_ts() <= ts <= chrono_max_ts(),
        r matches Some(hm) ==> hm.0 == utc8_hm(ts).0 && hm.1 == utc8_hm(ts).1,
{
    match chrono::Utc.timestamp_opt(ts, 0).single() {
        Some(t) => {
            let t8 = t + chrono::Duration::hours(8);
            Some((t8.hour(), t8.minute()))
        },
        None => None,
    }
}

/// `HH:MM` in UTC+8, or `??:??` outside the calendar.
pub open spec fn clock_text(ts: i64) -> Seq<char> {
    if chrono_min_ts() <= ts <= chrono_max_ts() {
        two_digits(utc8_hm(ts).0 as nat) + seq![':'] + two_digits(utc8_hm(ts).1 as nat)
    } else {
        "??:??"@
    }
}

/// `[HH:MM] nickname: text`.
pub open spec fn llm_line(m: ChatView) -> Seq<char> {
    seq!['['] + clock_text(m.time) + "] "@ + m.nickname + ": "@ + m.text
}

/// One line per message with text.
pub open spec fn llm_lines(ms: Seq<ChatView>) -> Seq<Seq<char>>
    decreases ms.len(),
{
    if ms.len() == 0 {
        Seq::empty()
    } else {
        let r = llm_lines(ms.drop_last());
        if ms.last().text.len() > 0 { r.push(llm_line(ms.last())) } else { r }
    }
}

/// Whether adding eight hours to the time stays inside the calendar (or the
/// time lies outside it altogether).
pub open spec fn clock_defined(ts: i64) -> bool {
    !(chrono_max_ts() - 28800 < ts <= chrono_max_ts())
}

fn push_clock(out: &mut String, ts: i64)
    requires
        clock_defined(ts),
    ensures
        final(out)@ == old(out)@ + clock_text(ts),
{
    match utc8_clock(ts) {
        Some((h, m)) => {
            assert(h < 24 && m < 60);
            push_two_digits(out, h as usize);
            push_char_colon(out);
            push_two_digits_60(out, m as usize);
        },
        None => push_str(out, "??:??"),
    }
}

fn push_char_colon(out: &mut String)
    ensures
        final(out)@ == old(out)@ + seq![':'],
{
    crate::text::push_char(out, ':');
}

pub(crate) fn push_two_digits_60(out: &mut String, m: usize)
    requires
        m < 60,
    ensures
        final(out)@ == old(out)@ + two_digits(m as nat),
{
    if m < 10 {
        crate::text::push_char(out, '0');
    }
    crate::text::push_u64(out, m as u64);
}

/// The chat log as plain lines `[HH:MM] nickname: text` (UTC+8), skipping
/// messages without text.
pub fn format_for_llm(messages: &[ChatMessage]) -> (s: String)
    requires
        forall|i: int| 0 <= i < messages@.len() ==> clock_defined(#[trigger] messages@[i].time),
    ensures
        s@ == join(llm_lines(chat_views(messages@)), "\n"@),
{
    let ghost ms = chat_views(messages@);
    let mut lines: Vec<String> = Vec::new();
    let mut i: usize = 0;
    while i < messages.len()
        invariant
            i <= messages@.len(),
            ms == chat_views(messages@),
            forall|j: int| 0 <= j < messages@.len() ==> clock_defined(#[trigger] messages@[j].time),
            views(lines@) =~= llm_lines(ms.take(i as int)),
        decreases messages.len() - i,
    {
        let m = &messages[i];
        assert(ms.take(i as int + 1).drop_last() =~= ms.take(i as int));
        assert(ms.take(i as int + 1).last() == m@);
        if !m.text.as_str().is_empty() {
            let mut line = String::new();
            crate::text::push_char(&mut line, '[');
            assert(clock_defined(messages@[i as int].time));
            push_clock(&mut line, m.time);
            push_str(&mut line, "] ");
            push_str(&mut line, m.nickname.as_str());
            push_str(&mut line, ": ");
            push_str(&mut line, m.text.as_str());
            let ghost before = lines@;
            lines.push(line);
            assert(views(lines@) =~= views(before).push(line@));
        }
        i += 1;
    }
    assert(ms.take(messages@.len() as int) =~= ms);
    join_strings(&lines, "\n")
}

/// What part of the chat log goes to the language model.
pub enum LlmInput {
    /// Too short to be worth analysing.
    TooShort,
    /// All of it.
    Whole,
    /// The tail from this byte offset: the first character boundary at or
    /// after the start of the last 80000 bytes.
    Tail(usize),
}

/// Whether byte offset `k` is the first character boundary of `bytes` at or
/// after `from`.
pub open spec fn first_boundary_from(bytes: Seq<u8>, from: int, k: int) -> bool {
    &&& from <= k
    &&& vstd::utf8::is_char_boundary(bytes, k)
    &&& forall|j: int| from <= j < k ==> !vstd::utf8::is_char_boundary(bytes, j)
}

/// Logs under 50 bytes are not analysed; logs over 80000 bytes are cut to
/// about their last 80000 bytes (the model's context is limited), starting
/// at a character boundary.
pub fn llm_input(formatted: &str) -> (r: LlmInput)
    ensures
        vstd::utf8::encode_utf8(formatted@).len() < 50 ==> r is TooShort,
        50 <= vstd::utf8::encode_utf8(formatted@).len() <= 80000 ==> r is Whole,
        vstd::utf8::encode_utf8(formatted@).len() > 80000 ==> (r matches LlmInput::Tail(k) && first_boundary_from(
            vstd::utf8::encode_utf8(formatted@),
            vstd::utf8::encode_utf8(formatted@).len() - 80000,
            k as int,
        )),
{
    let bytes = formatted.as_bytes();
    let n = bytes.len();
    if n < 50 {
        LlmInput::TooShort
    } else if n > 80000 {
        proof {
            vstd::utf8::encode_utf8_valid_utf8(formatted@);
            vstd::utf8::is_char_boundary_start_end_of_seq(vstd::utf8::encode_utf8(formatted@));
        }
        let from: usize = n - 80000;
        let mut k: usize = from;
        while k < n && !formatted.is_char_boundary(k)
            invariant
                n == vstd::utf8::encode_utf8(formatted@).len(),
                vstd::utf8::is_char_boundary(vstd::utf8::encode_utf8(formatted@), n as int),
                from <= k <= n,
                forall|j: int| from <= j < k ==> !vstd::utf8::is_char_boundary(vstd::utf8::encode_utf8(formatted@), j),
            decreases n - k,
        {
            k += 1;
        }
        LlmInput::Tail(k)
    } else {
        LlmInput::Whole
    }
}

/// Sorts messages by time; messages with the same time keep their order.
pub fn sort_by_time(messages: &Vec<ChatMessage>) -> (r: Vec<ChatMessage>)
    ensures
        exists|ord: Seq<usize>| #![trigger time_order_ok(chat_views(messages@), ord)] {
            &&& time_order_ok(chat_views(messages@), ord)
            &&& chat_views(r@) == Seq::new(ord.len(), |i: int| chat_views(messages@)[ord[i] as int])
        },
{
    let mut ord: Vec<usize> = Vec::new();
    let mut k: usize = 0;
    while k < messages.len()
        invariant
            k <= messages@.len(),
            ord@.len() == k,
            forall|i: int| 0 <= i < ord@.len() ==> #[trigger] ord@[i] < k,
            forall|x: usize| x < k ==> ord@.contains(x),
            forall|i: int, j: int| 0 <= i < j < ord@.len() ==> (messages@[ord@[i] as int].time < messages@[ord@[j] as int].time
                || (messages@[ord@[i] as int].time == messages@[ord@[j] as int].time && ord@[i] < ord@[j])),
        decreases messages.len() - k,
    {
        let tk = messages[k].time;
        let mut p: usize = ord.len();
        while p > 0 && messages[ord[p - 1]].time > tk
            invariant
                p <= ord@.len(),
                k < messages@.len(),
                tk == messages@[k as int].time,
                forall|i: int| 0 <= i < ord@.len() ==> #[trigger] ord@[i] < k,
                forall|t: int| p <= t < ord@.len() ==> messages@[ord@[t] as int].time > tk,
            decreases p,
        {
            p -= 1;
        }
        let ghost before = ord@;
        ord.insert(p, k);
        proof {
            assert forall|i: int, j: int| 0 <= i < j < ord@.len() implies (messages@[ord@[i] as int].time
                < messages@[ord@[j] as int].time || (messages@[ord@[i] as int].time == messages@[ord@[j] as int].time
                && ord@[i] < ord@[j])) by {
                if j < p {
                    assert(ord@[i] == before[i] && ord@[j] == before[j]);
                } else if j == p {
                    assert(ord@[i] == before[i]);
                    if i < p - 1 {
                        assert(messages@[before[i] as int].time <= messages@[before[p as int - 1] as int].time);
                    }
                } else if i == p {
                    assert(ord@[j] == before[j - 1]);
                } else if i < p {
                    assert(ord@[i] == before[i] && ord@[j] == before[j - 1]);
                } else {
                    assert(ord@[i] == before[i - 1] && ord@[j] == before[j - 1]);
                }
            }
            assert forall|x: usize| x < k + 1 implies ord@.contains(x) by {
                if x == k {
                    assert(ord@[p as int] == k);
                } else {
                    assert(before.contains(x));
                    let j = choose|j: int| 0 <= j < before.len() && before[j] == x;
                    if j < p {
                        assert(ord@[j] == x);
                    } else {
                        assert(ord@[j + 1] == x);
                    }
                }
            }
            assert forall|i: int| 0 <= i < ord@.len() implies #[trigger] ord@[i] < k + 1 by {
                if i < p {
                    assert(ord@[i] == before[i]);
                } else if i > p {
                    assert(ord@[i] == before[i - 1]);
                }
            }
        }
        k += 1;
    }
    let mut r: Vec<ChatMessage> = Vec::new();
    let mut t: usize = 0;
    while t < ord.len()
        invariant
            t <= ord@.len(),
            ord@.len() == messages@.len(),
            forall|i: int| 0 <= i < ord@.len() ==> #[trigger] ord@[i] < messages@.len(),
            chat_views(r@) =~= Seq::new(t as nat, |i: int| chat_views(messages@)[ord@[i] as int]),
        decreases ord.len() - t,
    {
        let m = messages[ord[t]].duplicate();
        let ghost before = r@;
        r.push(m);
        assert(chat_views(r@) =~= chat_views(before).push(m@));
        t += 1;
    }
    assert(time_order_ok(chat_views(messages@), ord@));
    r
}

/// `ord` lists the message indices by time, earliest first; equal times keep
/// index order.
pub open spec fn time_order_ok(ms: Seq<ChatView>, ord: Seq<usize>) -> bool {
    &&& ord.len() == ms.len()
    &&& forall|i: int| 0 <= i < ord.len() ==> #[trigger] ord[i] < ms.len()
    &&& forall|k: usize| k < ms.len() ==> ord.contains(k)
    &&& forall|i: int, j: int| 0 <= i < j < ord.len() ==> (ms[ord[i] as int].time < ms[ord[j] as int].time || (
        ms[ord[i] as int].time == ms[ord[j] as int].time && ord[i] < ord[j]))
}

/// The sum of a sequence of counts.
pub open spec fn seq_sum(c: Seq<nat>) -> nat
    decreases c.len(),
{
    if c.len() == 0 { 0 } else { seq_sum(c.drop_last()) + c.last() }
}

pub(crate) proof fn lemma_sum_update(c: Seq<nat>, h: int)
    requires
        0 <= h < c.len(),
    ensures
        seq_sum(c.update(h, c[h] + 1)) == seq_sum(c) + 1,
    decreases c.len(),
{
    if h < c.len() - 1 {
        lemma_sum_update(c.drop_last(), h);
        assert(c.update(h, c[h] + 1).drop_last() =~= c.drop_last().update(h, c[h] + 1));
    } else {
        assert(c.update(h, c[h] + 1).drop_last() =~= c.drop_last());
    }
}

pub(crate) proof fn lemma_sum_zeros(n: nat)
    ensures
        seq_sum(Seq::new(n, |h: int| 0nat)) == 0,
    decreases n,
{
    if n > 0 {
        assert(Seq::new(n, |h: int| 0nat).drop_last() =~= Seq::new((n - 1) as nat, |h: int| 0nat));
        lemma_sum_zeros((n - 1) as nat);
    }
}

/// Every message falls in exactly one hour: the hourly distribution adds up
/// to the number of messages.
pub proof fn law_hourly_total(ms: Seq<ChatView>)
    requires
        forall|i: int| 0 <= i < ms.len() ==> bucket_defined(#[trigger] ms[i].time),
    ensures
        hour_counts(ms).len() == 24,
        seq_sum(hour_counts(ms)) == ms.len(),
    decreases ms.len(),
{
    if ms.len() == 0 {
        lemma_sum_zeros(24);
    } else {
        let p = ms.drop_last();
        assert forall|i: int| 0 <= i < p.len() implies bucket_defined(#[trigger] p[i].time) by {
            assert(p[i] == ms[i]);
        }
        law_hourly_total(p);
        assert(bucket_defined(ms[ms.len() - 1].time));
        lemma_hour_bucket(ms.last().time);
        lemma_sum_update(hour_counts(p), hour_bucket(ms.last().time));
    }
}

/// With a cutoff, every extracted message is at least as recent as it, and
/// none is empty.
pub proof fn law_cutoff_respected(raw: Seq<HistoryMessage>, c: i64)
    ensures
        forall|i: int| 0 <= i < chats_of(raw, Some(c)).len() ==> #[trigger] chats_of(raw, Some(c))[i].time >= c
            && (chats_of(raw, Some(c))[i].text.len() > 0 || chats_of(raw, Some(c))[i].has_image),
    decreases raw.len(),
{
    if raw.len() > 0 {
        law_cutoff_respected(raw.drop_last(), c);
        let r = chats_of(raw.drop_last(), Some(c));
        match chat_of(raw.last(), Some(c)) {
            Some(x) => {
                assert(chats_of(raw, Some(c)) == r.push(x));
                assert forall|i: int| 0 <= i < r.len() + 1 implies #[trigger] r.push(x)[i].time >= c
                    && (r.push(x)[i].text.len() > 0 || r.push(x)[i].has_image) by {
                    if i < r.len() {
                        assert(r.push(x)[i] == r[i]);
                    }
                }
            },
            None => {},
        }
    }
}


// ── fetching ─────────────────────────────────────────────────────────────────

/// How many history entries a time-filtered fetch asks for at once.
pub const TIME_MODE_COUNT: u32 = 2000;

/// Whether the cutoff a time filter gives from `now` fits in `i64` (it
/// always does when the filter cannot be read).
pub open spec fn filter_fits(tf: Seq<char>, now: i64) -> bool {
    parse_duration_spec(tf) matches Some(v) ==> i64::MIN <= now - v <= i64::MAX
}

/// Decides `filter_fits`: whether `plan_fetch` can compute the cutoff.
pub fn filter_fits_at(tf: &str, now: i64) -> (b: bool)
    ensures
        b == filter_fits(tf@, now),
{
    match parse_duration(tf) {
        Some(v) => now.checked_sub(v).is_some(),
        None => true,
    }
}

/// The cutoff a time filter gives at `now`: `None` without a filter or when
/// it cannot be read.
pub open spec fn fetch_cutoff(time_filter: Option<Seq<char>>, now: i64) -> Option<i64> {
    match time_filter {
        Some(tf) => match parse_duration_spec(tf) {
            Some(v) => Some((now - v) as i64),
            None => None,
        },
        None => None,
    }
}

/// What a history fetch asks for: how many entries, and the cutoff that
/// filters them. With a usable time filter the fetch asks for
/// `TIME_MODE_COUNT` entries and keeps those since the cutoff; otherwise it
/// asks for the last `count`.
pub fn plan_fetch(count: u32, time_filter: Option<&str>, now: i64) -> (r: (u32, Option<i64>))
    requires
        time_filter matches Some(tf) ==> filter_fits(tf@, now),
    ensures
        r.1 == fetch_cutoff(
            match time_filter {
                Some(tf) => Some(tf@),
                None => None,
            },
            now,
        ),
        r.1 is None ==> r.0 == count,
        r.1 is Some ==> r.0 == TIME_MODE_COUNT,
{
    let cutoff = match time_filter {
        Some(tf) => match parse_duration(tf) {
            Some(secs) => Some(now - secs),
            None => None,
        },
        None => None,
    };
    match cutoff {
        Some(c) => (TIME_MODE_COUNT, Some(c)),
        None => (count, None),
    }
}

/// The chat messages of a fetched history: without a cutoff as the history
/// gives them; with one, those since the cutoff in time order, messages of
/// the same second in history order.
pub fn collect_fetched(raw: &Vec<HistoryMessage>, cutoff: Option<i64>) -> (r: Vec<ChatMessage>)
    requires
        segment_counts_fit(raw@),
    ensures
        cutoff is None ==> chat_views(r@) == chats_of(raw@, None),
        cutoff is Some ==> exists|ord: Seq<usize>| #![trigger time_order_ok(chats_of(raw@, cutoff), ord)] {
            &&& time_order_ok(chats_of(raw@, cutoff), ord)
            &&& chat_views(r@) == Seq::new(ord.len(), |i: int| chats_of(raw@, cutoff)[ord[i] as int])
        },
{
    let messages = parse_raw_messages(raw, cutoff);
    match cutoff {
        Some(_) => sort_by_time(&messages),
        None => messages,
    }
}

} // verus!
