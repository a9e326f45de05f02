//! The pipeline benchmark's own steps: its message model (replies, mentions
//! and faces kept), statistics, prompts, answer cleaning and sample data.
use vstd::prelude::*;

use crate::message::{data_str, seg_views, DataValue, DataValueView, HistoryMessage, MessageSegment, SegmentView};
use crate::pool::{display_name, opt_view, sent_by_bot, time_or_zero};
use crate::report::{find_from, find_sub, lemma_find_from_bounds, replace_all, replace_body_end};
use crate::smy::{
    chrono_max_ts, chrono_min_ts, counts_of, display_name_of, hour_range_text, lemma_speaker_counts, lemma_speaker_index,
    lemma_sum_update, lemma_sum_zeros, opt_seg_views, peak_of, push_two_digits, push_two_digits_60, rank_by_count,
    rank_ok, segment_counts_fit, seq_sum, speaker_index, speakers_of, total_chars, total_emoji, two_digits, ChatView,
};
use crate::text::{
    all_digits, chars_of, dec_nat, ends_with, find_char, first_index_of, has_prefix, has_suffix, is_digit,
    is_whitespace, join, join_strings, lemma_first_index_of, lemma_first_index_unique, parse_i64, parse_i64_spec,
    push_char, push_i64, push_str, slice_chars, starts_with, str_eq, trim, trim_chars, trim_start, views,
};
use chrono::Timelike;

verus! {

// ── prompts ──────────────────────────────────────────────────────────────────

/// Text of the benchmark's topics prompt before the chat log.
pub const BENCH_TOPICS_HEAD: &'static str = r#"你是一个群聊信息总结助手。请分析以下群聊记录，提取出讨论最热烈、信息量最大的主要话题，最多 8 个。

要求：
- 每个话题包含：话题名称、主要参与者（最多5人）、详细描述（包含谁发起、谁参与、讨论内容、是否有结论）
- 描述中提及群友时，必须使用 @名字 格式

群聊记录：
"#;
/// Text of the benchmark's topics prompt after the chat log.
pub const BENCH_TOPICS_TAIL: &'static str = r#"

返回 JSON 数组：[{"topic":"","contributors":[],"detail":""}]"#;
/// Text of the benchmark's titles prompt before the chat log.
pub const BENCH_TITLES_HEAD: &'static str = r#"你是一个有趣的群聊分析师。请为最活跃的群友（最多6人）生成专属称号。

每人提供：昵称、称号（4-8字）、MBTI、发言习惯、理由
同时挑选最多5条"群圣经"（令人印象深刻的发言）

群聊记录：
"#;
/// Text of the benchmark's titles prompt after the chat log.
pub const BENCH_TITLES_TAIL: &'static str = r#"

返回 JSON：{"user_titles":[{"name":"","title":"","mbti":"","habit":"","reason":""}],"golden_quotes":[{"content":"","sender":"","reason":""}]}"#;
/// Text of the benchmark's relationships prompt before the chat log.
pub const BENCH_RELATIONSHIPS_HEAD: &'static str = r#"你是一个善于解读人际关系的分析师。请分析以下群聊记录中 2-6 组最有趣的关系。

每组提供：type（duo/group）、members、label（4-8字标签）、vibe（一句话点评）、evidence（1-3条原文佐证）

群聊记录：
"#;
/// Text of the benchmark's relationships prompt after the chat log.
pub const BENCH_RELATIONSHIPS_TAIL: &'static str = r#"

返回 JSON 数组：[{"type":"duo","members":[],"label":"","vibe":"","evidence":[]}]"#;

/// The benchmark's topics prompt around a chat log.
pub fn bench_topics_prompt(text: &str) -> (p: String)
    ensures
        p@ == BENCH_TOPICS_HEAD@ + text@ + BENCH_TOPICS_TAIL@,
{
    let mut p = String::new();
    push_str(&mut p, BENCH_TOPICS_HEAD);
    push_str(&mut p, text);
    push_str(&mut p, BENCH_TOPICS_TAIL);
    p
}

/// The benchmark's titles prompt around a chat log.
pub fn bench_titles_prompt(text: &str) -> (p: String)
    ensures
        p@ == BENCH_TITLES_HEAD@ + text@ + BENCH_TITLES_TAIL@,
{
    let mut p = String::new();
    push_str(&mut p, BENCH_TITLES_HEAD);
    push_str(&mut p, text);
    push_str(&mut p, BENCH_TITLES_TAIL);
    p
}

/// The benchmark's relationships prompt around a chat log.
pub fn build_relationships_prompt(text: &str) -> (p: String)
    ensures
        p@ == BENCH_RELATIONSHIPS_HEAD@ + text@ + BENCH_RELATIONSHIPS_TAIL@,
{
    let mut p = String::new();
    push_str(&mut p, BENCH_RELATIONSHIPS_HEAD);
    push_str(&mut p, text);
    push_str(&mut p, BENCH_RELATIONSHIPS_TAIL);
    p
}

// ── cleaning the model's answers ─────────────────────────────────────────────

/// `s` without every leading copy of `p`.
pub open spec fn strip_leading(s: Seq<char>, p: Seq<char>) -> Seq<char>
    decreases s.len(),
{
    if p.len() > 0 && starts_with(s, p) {
        strip_leading(s.skip(p.len() as int), p)
    } else {
        s
    }
}

/// `s` without every trailing copy of `p`.
pub open spec fn strip_trailing(s: Seq<char>, p: Seq<char>) -> Seq<char>
    decreases s.len(),
{
    if p.len() > 0 && ends_with(s, p) {
        strip_trailing(s.take(s.len() - p.len()), p)
    } else {
        s
    }
}

/// Control characters (Unicode category Cc).
pub open spec fn is_control(c: char) -> bool {
    (c as u32) <= 0x1f || (0x7f <= (c as u32) && (c as u32) <= 0x9f)
}

/// Characters that survive cleaning: no byte-order mark, no control
/// character but line feed, carriage return and tab.
pub open spec fn kept_char(c: char) -> bool {
    c != '\u{feff}' && (!is_control(c) || c == '\n' || c == '\r' || c == '\t')
}

/// The kept characters of `s`, in order.
pub open spec fn kept_chars(s: Seq<char>) -> Seq<char>
    decreases s.len(),
{
    if s.len() == 0 {
        Seq::empty()
    } else if kept_char(s.last()) {
        kept_chars(s.drop_last()).push(s.last())
    } else {
        kept_chars(s.drop_last())
    }
}

/// An answer without its code fence (every leading ```` ```json ```` and
/// ```` ``` ````, every trailing ```` ``` ````), byte-order marks and control
/// characters.
pub open spec fn clean_llm_json_spec(raw: Seq<char>) -> Seq<char> {
    let s = trim(raw);
    let inner = if starts_with(s, "```"@) {
        trim(strip_trailing(strip_leading(strip_leading(s, "```json"@), "```"@), "```"@))
    } else {
        s
    };
    kept_chars(inner)
}

fn strip_leading_chars(s: Vec<char>, p: &Vec<char>) -> (r: Vec<char>)
    requires
        p@.len() > 0,
    ensures
        r@ == strip_leading(s@, p@),
{
    let mut cur = s;
    while has_prefix(&cur, p)
        invariant
            p@.len() > 0,
            strip_leading(cur@, p@) == strip_leading(s@, p@),
        decreases cur@.len(),
    {
        let next = slice_chars(&cur, p.len(), cur.len());
        assert(next@ =~= cur@.skip(p@.len() as int));
        cur = next;
    }
    cur
}

fn strip_trailing_chars(s: Vec<char>, p: &Vec<char>) -> (r: Vec<char>)
    requires
        p@.len() > 0,
    ensures
        r@ == strip_trailing(s@, p@),
{
    let mut cur = s;
    while has_suffix(&cur, p)
        invariant
            p@.len() > 0,
            strip_trailing(cur@, p@) == strip_trailing(s@, p@),
        decreases cur@.len(),
    {
        let next = slice_chars(&cur, 0, cur.len() - p.len());
        assert(next@ =~= cur@.take(cur@.len() - p@.len()));
        cur = next;
    }
    cur
}

fn is_kept(c: char) -> (b: bool)
    ensures
        b == kept_char(c),
{
    let u = c as u32;
    c != '\u{feff}' && (!(u <= 0x1f || (0x7f <= u && u <= 0x9f)) || c == '\n' || c == '\r' || c == '\t')
}

/// Cleans a model's JSON answer: the code fence, byte-order marks and
/// control characters (but line breaks and tabs) go.
pub fn clean_llm_json(raw: &str) -> (r: String)
    ensures
        r@ == clean_llm_json_spec(raw@),
{
    proof {
        reveal_strlit("```json");
        reveal_strlit("```");
    }
    let cs = chars_of(raw);
    let s = trim_chars(&cs);
    let fence = chars_of("```");
    let inner = if has_prefix(&s, &fence) {
        let fence_json = chars_of("```json");
        let a = strip_leading_chars(s, &fence_json);
        let b = strip_leading_chars(a, &fence);
        let c = strip_trailing_chars(b, &fence);
        trim_chars(&c)
    } else {
        s
    };
    let mut r = String::new();
    let mut i: usize = 0;
    while i < inner.len()
        invariant
            i <= inner@.len(),
            r@ == kept_chars(inner@.take(i as int)),
        decreases inner@.len() - i,
    {
        assert(inner@.take(i as int + 1).drop_last() =~= inner@.take(i as int));
        let c = inner[i];
        if is_kept(c) {
            push_char(&mut r, c);
        }
        i += 1;
    }
    assert(inner@.take(inner@.len() as int) =~= inner@);
    r
}


// ── messages ─────────────────────────────────────────────────────────────────

/// A chat message as the benchmark keeps it: besides the text, the counts of
/// emoticons and images, the replied message, the mentioned users and the
/// emoticon ids.
pub struct BenchMessage {
    pub user_id: i64,
    pub nickname: String,
    pub time: i64,
    pub text: String,
    pub emoji_count: u32,
    pub image_count: u32,
    pub reply_to: Option<i64>,
    pub at_targets: Vec<i64>,
    pub face_ids: Vec<String>,
}

pub struct BenchView {
    pub user_id: i64,
    pub nickname: Seq<char>,
    pub time: i64,
    pub text: Seq<char>,
    pub emoji_count: u32,
    pub image_count: u32,
    pub reply_to: Option<i64>,
    pub at_targets: Seq<i64>,
    pub face_ids: Seq<Seq<char>>,
}

pub open spec fn string_views(v: Seq<String>) -> Seq<Seq<char>> {
    v.map_values(|s: String| s@)
}

impl View for BenchMessage {
    type V = BenchView;

    open spec fn view(&self) -> BenchView {
        BenchView {
            user_id: self.user_id,
            nickname: self.nickname@,
            time: self.time,
            text: self.text@,
            emoji_count: self.emoji_count,
            image_count: self.image_count,
            reply_to: self.reply_to,
            at_targets: self.at_targets@,
            face_ids: string_views(self.face_ids@),
        }
    }
}

pub open spec fn bench_views(v: Seq<BenchMessage>) -> Seq<BenchView> {
    v.map_values(|m: BenchMessage| m@)
}

/// The integer under `key`: an integer value, or a string that parses as one.
pub open spec fn data_i64(seg: SegmentView, key: Seq<char>) -> Option<i64> {
    if seg.data.contains_key(key) {
        match seg.data[key] {
            DataValueView::Str(s) => parse_i64_spec(s),
            DataValueView::Int(n) => Some(n),
            DataValueView::Json(_) => None,
        }
    } else {
        None
    }
}

/// An emoticon's id: a string, or a non-negative integer in decimal.
pub open spec fn face_id(seg: SegmentView) -> Option<Seq<char>> {
    if seg.data.contains_key("id"@) {
        match seg.data["id"@] {
            DataValueView::Str(s) => Some(s),
            DataValueView::Int(n) => if n >= 0 { Some(dec_nat(n as nat)) } else { None },
            DataValueView::Json(s) => if s.len() > 0 && all_digits(s) { Some(s) } else { None },
        }
    } else {
        None
    }
}

/// What a segment list holds for the benchmark.
pub struct BenchFields {
    pub text: Seq<char>,
    pub emoji: nat,
    pub images: nat,
    pub reply: Option<i64>,
    pub at: Seq<i64>,
    pub faces: Seq<Seq<char>>,
}

/// Text pieces joined as they are, emoticons (`face`) counted with their
/// ids, images counted, the first reply target, and the mentioned users.
pub open spec fn fields_of(segs: Seq<SegmentView>) -> BenchFields
    decreases segs.len(),
{
    if segs.len() == 0 {
        BenchFields { text: Seq::empty(), emoji: 0, images: 0, reply: None, at: Seq::empty(), faces: Seq::empty() }
    } else {
        let f = fields_of(segs.drop_last());
        let s = segs.last();
        if s.seg_type == "text"@ {
            BenchFields {
                text: f.text + match data_str(s, "text"@) {
                    Some(t) => t,
                    None => Seq::empty(),
                },
                emoji: f.emoji,
                images: f.images,
                reply: f.reply,
                at: f.at,
                faces: f.faces,
            }
        } else if s.seg_type == "face"@ {
            BenchFields {
                text: f.text,
                emoji: f.emoji + 1,
                images: f.images,
                reply: f.reply,
                at: f.at,
                faces: match face_id(s) {
                    Some(id) => f.faces.push(id),
                    None => f.faces,
                },
            }
        } else if s.seg_type == "image"@ {
            BenchFields {
                text: f.text,
                emoji: f.emoji,
                images: f.images + 1,
                reply: f.reply,
                at: f.at,
                faces: f.faces,
            }
        } else if s.seg_type == "reply"@ {
            BenchFields {
                text: f.text,
                emoji: f.emoji,
                images: f.images,
                reply: if f.reply is None { data_i64(s, "id"@) } else { f.reply },
                at: f.at,
                faces: f.faces,
            }
        } else if s.seg_type == "at"@ {
            BenchFields {
                text: f.text,
                emoji: f.emoji,
                images: f.images,
                reply: f.reply,
                at: match data_i64(s, "qq"@) {
                    Some(q) => f.at.push(q),
                    None => f.at,
                },
                faces: f.faces,
            }
        } else {
            f
        }
    }
}

/// A history entry as the benchmark reads it: the bot's own messages,
/// entries older than the cutoff and entries with neither text nor image
/// are left out; the text is trimmed.
pub open spec fn bench_of(v: HistoryMessage, cutoff: Option<i64>) -> Option<BenchView> {
    let time = time_or_zero(v);
    let f = fields_of(
        match opt_seg_views(v.message) {
            Some(s) => s,
            None => Seq::empty(),
        },
    );
    let text = trim(f.text);
    if sent_by_bot(v) {
        None
    } else if cutoff matches Some(c) && time < c {
        None
    } else if text.len() == 0 && f.images == 0 {
        None
    } else {
        Some(BenchView {
            user_id: match v.user_id {
                Some(u) => u,
                None => 0,
            },
            nickname: display_name(opt_view(v.sender_card), opt_view(v.sender_nickname)),
            time,
            text,
            emoji_count: f.emoji as u32,
            image_count: f.images as u32,
            reply_to: f.reply,
            at_targets: f.at,
            face_ids: f.faces,
        })
    }
}

/// The benchmark's messages of a history, in order.
pub open spec fn benches_of(raw: Seq<HistoryMessage>, cutoff: Option<i64>) -> Seq<BenchView>
    decreases raw.len(),
{
    if raw.len() == 0 {
        Seq::empty()
    } else {
        let r = benches_of(raw.drop_last(), cutoff);
        match bench_of(raw.last(), cutoff) {
            Some(b) => r.push(b),
            None => r,
        }
    }
}

proof fn lemma_kind_literals()
    ensures
        "text"@ != "face"@,
        "text"@ != "image"@,
        "text"@ != "reply"@,
        "text"@ != "at"@,
        "face"@ != "image"@,
        "face"@ != "reply"@,
        "face"@ != "at"@,
        "image"@ != "reply"@,
        "image"@ != "at"@,
        "reply"@ != "at"@,
{
    reveal_strlit("text");
    reveal_strlit("face");
    reveal_strlit("image");
    reveal_strlit("reply");
    reveal_strlit("at");
    assert("text"@[0] != "face"@[0]);
    assert("text"@[0] != "image"@[0]);
    assert("text"@[0] != "reply"@[0]);
    assert("text"@[0] != "at"@[0]);
    assert("face"@[0] != "image"@[0]);
    assert("face"@[0] != "reply"@[0]);
    assert("face"@[0] != "at"@[0]);
    assert("image"@[0] != "reply"@[0]);
    assert("image"@[0] != "at"@[0]);
    assert("reply"@[0] != "at"@[0]);
}

fn data_integer(seg: &MessageSegment, key: &str) -> (r: Option<i64>)
    ensures
        r == data_i64(seg@, key@),
{
    match seg.data.get(key) {
        Some(DataValue::Str(s)) => {
            let cs = chars_of(s.as_str());
            parse_i64(&cs)
        },
        Some(DataValue::Int(n)) => Some(*n),
        _ => None,
    }
}

fn digits_only(s: &str) -> (b: bool)
    ensures
        b == (s@.len() > 0 && all_digits(s@)),
{
    let cs = chars_of(s);
    if cs.len() == 0 {
        return false;
    }
    let mut i: usize = 0;
    while i < cs.len()
        invariant
            i <= cs@.len(),
            cs@ == s@,
            forall|j: int| 0 <= j < i ==> is_digit(#[trigger] cs@[j]),
        decreases cs.len() - i,
    {
        if !('0' <= cs[i] && cs[i] <= '9') {
            assert(!is_digit(cs@[i as int]));
            return false;
        }
        i += 1;
    }
    true
}

fn face_id_of(seg: &MessageSegment) -> (r: Option<String>)
    ensures
        match r {
            Some(s) => face_id(seg@) == Some(s@),
            None => face_id(seg@) is None,
        },
{
    proof { reveal_strlit("id"); }
    match seg.data.get("id") {
        Some(DataValue::Str(s)) => Some(s.clone()),
        Some(DataValue::Int(n)) => {
            if *n >= 0 {
                let mut t = String::new();
                push_i64(&mut t, *n);
                Some(t)
            } else {
                None
            }
        },
        Some(DataValue::Json(s)) => {
            if digits_only(s.as_str()) {
                Some(s.clone())
            } else {
                None
            }
        },
        None => None,
    }
}

/// Gathers the benchmark's fields from a segment list.
fn bench_fields(
    segs: &Vec<MessageSegment>,
) -> (r: (String, u32, u32, Option<i64>, Vec<i64>, Vec<String>))
    requires
        segs@.len() <= u32::MAX,
    ensures
        ({
            let f = fields_of(seg_views(segs@));
            &&& r.0@ == f.text
            &&& r.1 as nat == f.emoji
            &&& r.2 as nat == f.images
            &&& r.3 == f.reply
            &&& r.4@ == f.at
            &&& string_views(r.5@) == f.faces
        }),
{
    let ghost sv = seg_views(segs@);
    let mut text = String::new();
    let mut emoji: u32 = 0;
    let mut images: u32 = 0;
    let mut reply: Option<i64> = None;
    let mut at: Vec<i64> = Vec::new();
    let mut faces: Vec<String> = Vec::new();
    let mut i: usize = 0;
    while i < segs.len()
        invariant
            i <= segs@.len(),
            segs@.len() <= u32::MAX,
            sv == seg_views(segs@),
            text@ == fields_of(sv.take(i as int)).text,
            emoji as nat == fields_of(sv.take(i as int)).emoji,
            images as nat == fields_of(sv.take(i as int)).images,
            emoji + images <= i,
            reply == fields_of(sv.take(i as int)).reply,
            at@ == fields_of(sv.take(i as int)).at,
            string_views(faces@) == fields_of(sv.take(i as int)).faces,
        decreases segs.len() - i,
    {
        let seg = &segs[i];
        assert(sv[i as int] == seg@);
        assert(sv.take(i as int + 1).drop_last() =~= sv.take(i as int));
        assert(sv.take(i as int + 1).last() == sv[i as int]);
        proof { lemma_kind_literals(); }
        let t = seg.seg_type.as_str();
        if str_eq(t, "text") {
            match seg.data.get("text") {
                Some(DataValue::Str(s)) => push_str(&mut text, s.as_str()),
                _ => {},
            }
            proof { reveal_strlit("text"); }
        } else if str_eq(t, "face") {
            emoji = emoji + 1;
            match face_id_of(seg) {
                Some(id) => {
                    let ghost before = faces@;
                    faces.push(id);
                    assert(string_views(faces@) =~= string_views(before).push(id@));
                },
                None => {},
            }
        } else if str_eq(t, "image") {
            images = images + 1;
        } else if str_eq(t, "reply") {
            if reply.is_none() {
                proof { reveal_strlit("id"); }
                reply = data_integer(seg, "id");
            }
        } else if str_eq(t, "at") {
            proof { reveal_strlit("qq"); }
            match data_integer(seg, "qq") {
                Some(q) => at.push(q),
                None => {},
            }
        }
        i += 1;
    }
    assert(sv.take(segs@.len() as int) =~= sv);
    (text, emoji, images, reply, at, faces)
}


/// Reads a message history as the benchmark does: the bot's own messages,
/// entries older than the cutoff and entries with neither text nor image
/// are left out.
pub fn bench_parse_raw_messages(raw: &Vec<HistoryMessage>, cutoff: Option<i64>) -> (r: Vec<BenchMessage>)
    requires
        segment_counts_fit(raw@),
    ensures
        bench_views(r@) == benches_of(raw@, cutoff),
{
    let empty: Vec<MessageSegment> = Vec::new();
    assert(seg_views(empty@) =~= Seq::<SegmentView>::empty());
    let mut messages: Vec<BenchMessage> = Vec::new();
    let mut i: usize = 0;
    while i < raw.len()
        invariant
            i <= raw@.len(),
            segment_counts_fit(raw@),
            empty@.len() == 0,
            seg_views(empty@) == Seq::<SegmentView>::empty(),
            bench_views(messages@) =~= benches_of(raw@.take(i as int), cutoff),
        decreases raw.len() - i,
    {
        let msg = &raw[i];
        assert(raw@.take(i as int + 1).drop_last() =~= raw@.take(i as int));
        assert(raw@.take(i as int + 1).last() == *msg);
        let ghost before = messages@;
        let mut skip = false;
        match &msg.post_type {
            Some(p) => {
                if str_eq(p.as_str(), "message_sent") {
                    skip = true;
                }
            },
            None => {},
        }
        let time = match msg.time {
            Some(t) => t,
            None => 0,
        };
        if !skip {
            match cutoff {
                Some(c) => {
                    if time < c {
                        skip = true;
                    }
                },
                None => {},
            }
        }
        if !skip {
            assert(raw@[i as int].segments().len() <= u32::MAX);
            let segs: &Vec<MessageSegment> = match &msg.message {
                Some(m) => m,
                None => &empty,
            };
            let (joined, emoji_count, image_count, reply_to, at_targets, face_ids) = bench_fields(segs);
            let cs = chars_of(joined.as_str());
            let tc = trim_chars(&cs);
            if !(tc.len() == 0 && image_count == 0) {
                let text = crate::text::string_of(tc.as_slice());
                let nickname = display_name_of(&msg.sender_card, &msg.sender_nickname);
                let user_id = match msg.user_id {
                    Some(u) => u,
                    None => 0,
                };
                messages.push(
                    BenchMessage {
                        user_id,
                        nickname,
                        time,
                        text,
                        emoji_count,
                        image_count,
                        reply_to,
                        at_targets,
                        face_ids,
                    },
                );
                assert(bench_views(messages@) =~= bench_views(before).push(messages@.last()@));
            }
        }
        i += 1;
    }
    assert(raw@.take(raw@.len() as int) =~= raw@);
    messages
}


// ── statistics ───────────────────────────────────────────────────────────────

/// Hour and minute of a Unix time in UTC.
pub open spec fn utc_hm(ts: i64) -> (int, int) {
    let d = ts % 86400;
    (d / 3600, (d % 3600) / 60)
}

/// `DateTime::from_timestamp(ts, 0)`, then `hour()` and `minute()`. Claims:
/// a time is returned exactly inside the calendar range, and it is the UTC
/// clock time of `ts`.
#[verifier::external_body]
fn utc_clock(ts: i64) -> (r: Option<(u32, u32)>)
    ensures
        r is Some <==> chrono_min_ts() <= ts <= chrono_max_ts(),
        r matches Some(hm) ==> hm.0 == utc_hm(ts).0 && hm.1 == utc_hm(ts).1,
{
    chrono::DateTime::from_timestamp(ts, 0).map(|t| (t.hour(), t.minute()))
}

/// The UTC hour of a time; 0 outside the calendar (the epoch stands in).
pub open spec fn bench_hour(t: i64) -> int {
    if chrono_min_ts() <= t <= chrono_max_ts() {
        utc_hm(t).0
    } else {
        0
    }
}

/// Messages per UTC hour.
pub open spec fn bench_hour_counts(ms: Seq<BenchView>) -> Seq<nat>
    decreases ms.len(),
{
    if ms.len() == 0 {
        Seq::new(24, |h: int| 0nat)
    } else {
        let c = bench_hour_counts(ms.drop_last());
        let h = bench_hour(ms.last().time);
        c.update(h, c[h] + 1)
    }
}

/// A message seen as a report message (its id, nickname, time and text).
pub open spec fn as_chat(b: BenchView) -> ChatView {
    ChatView {
        user_id: b.user_id,
        nickname: b.nickname,
        time: b.time,
        text: b.text,
        has_image: b.image_count > 0,
        emoji_count: b.emoji_count,
    }
}

pub open spec fn chats(ms: Seq<BenchView>) -> Seq<ChatView> {
    ms.map_values(|b: BenchView| as_chat(b))
}

pub open spec fn total_images(ms: Seq<BenchView>) -> nat
    decreases ms.len(),
{
    if ms.len() == 0 { 0 } else { total_images(ms.drop_last()) + ms.last().image_count as nat }
}

/// Messages that reply to another.
pub open spec fn replies(ms: Seq<BenchView>) -> nat
    decreases ms.len(),
{
    if ms.len() == 0 { 0 } else { replies(ms.drop_last()) + if ms.last().reply_to is Some { 1nat } else { 0nat } }
}

/// Mentions over all messages.
pub open spec fn total_ats(ms: Seq<BenchView>) -> nat
    decreases ms.len(),
{
    if ms.len() == 0 { 0 } else { total_ats(ms.drop_last()) + ms.last().at_targets.len() }
}

/// Every emoticon id of the messages, in order.
pub open spec fn all_faces(ms: Seq<BenchView>) -> Seq<Seq<char>>
    decreases ms.len(),
{
    if ms.len() == 0 { Seq::empty() } else { all_faces(ms.drop_last()) + ms.last().face_ids }
}

/// The index of an id's entry in a tally.
pub open spec fn tally_index(t: Seq<(Seq<char>, nat)>, id: Seq<char>) -> Option<int>
    decreases t.len(),
{
    if t.len() == 0 {
        None
    } else if t.last().0 == id {
        Some(t.len() - 1)
    } else {
        tally_index(t.drop_last(), id)
    }
}

/// Ids in order of first appearance, with how often each occurs.
pub open spec fn tally(ids: Seq<Seq<char>>) -> Seq<(Seq<char>, nat)>
    decreases ids.len(),
{
    if ids.len() == 0 {
        Seq::empty()
    } else {
        let t = tally(ids.drop_last());
        match tally_index(t, ids.last()) {
            Some(k) => t.update(k, (t[k].0, t[k].1 + 1)),
            None => t.push((ids.last(), 1nat)),
        }
    }
}

pub open spec fn tally_counts(t: Seq<(Seq<char>, nat)>) -> Seq<nat> {
    t.map_values(|e: (Seq<char>, nat)| e.1)
}

pub open spec fn tally_views(v: Seq<(String, usize)>) -> Seq<(Seq<char>, nat)> {
    v.map_values(|e: (String, usize)| (e.0@, e.1 as nat))
}

proof fn lemma_tally_index(t: Seq<(Seq<char>, nat)>, id: Seq<char>)
    ensures
        tally_index(t, id) matches Some(k) ==> 0 <= k < t.len() && t[k].0 == id,
        tally_index(t, id) is None ==> forall|k: int| 0 <= k < t.len() ==> t[k].0 != id,
    decreases t.len(),
{
    if t.len() > 0 {
        lemma_tally_index(t.drop_last(), id);
        assert forall|k: int| 0 <= k < t.len() - 1 implies t[k] == t.drop_last()[k] by {}
    }
}

proof fn lemma_tally_counts(ids: Seq<Seq<char>>)
    ensures
        tally(ids).len() <= ids.len(),
        forall|k: int| 0 <= k < tally(ids).len() ==> #[trigger] tally(ids)[k].1 <= ids.len(),
    decreases ids.len(),
{
    if ids.len() > 0 {
        lemma_tally_counts(ids.drop_last());
        lemma_tally_index(tally(ids.drop_last()), ids.last());
    }
}

/// Whether the benchmark's counters fit their integer types.
pub open spec fn bench_analyzable(ms: Seq<BenchView>) -> bool {
    &&& ms.len() <= u32::MAX
    &&& total_chars(chats(ms)) <= usize::MAX
    &&& total_emoji(chats(ms)) <= u32::MAX
    &&& total_images(ms) <= usize::MAX
    &&& total_ats(ms) <= usize::MAX
    &&& all_faces(ms).len() <= usize::MAX
}

proof fn lemma_prefix_totals(ms: Seq<BenchView>, i: int)
    requires
        0 <= i <= ms.len(),
    ensures
        total_chars(chats(ms.take(i))) <= total_chars(chats(ms)),
        total_emoji(chats(ms.take(i))) <= total_emoji(chats(ms)),
        total_images(ms.take(i)) <= total_images(ms),
        total_ats(ms.take(i)) <= total_ats(ms),
        all_faces(ms.take(i)).len() <= all_faces(ms).len(),
        replies(ms.take(i)) <= i,
    decreases ms.len() - i,
{
    if i < ms.len() {
        assert(ms.drop_last().take(i) =~= ms.take(i));
        assert(chats(ms).drop_last() =~= chats(ms.drop_last()));
        lemma_prefix_totals(ms.drop_last(), i);
    } else {
        assert(ms.take(i) =~= ms);
        lemma_replies_bound(ms);
    }
}

proof fn lemma_replies_bound(ms: Seq<BenchView>)
    ensures
        replies(ms) <= ms.len(),
    decreases ms.len(),
{
    if ms.len() > 0 {
        lemma_replies_bound(ms.drop_last());
    }
}

proof fn lemma_bench_hour(t: i64)
    ensures
        0 <= bench_hour(t) < 24,
{
}

proof fn lemma_bench_hour_counts(ms: Seq<BenchView>)
    ensures
        bench_hour_counts(ms).len() == 24,
        forall|h: int| 0 <= h < 24 ==> #[trigger] bench_hour_counts(ms)[h] <= ms.len(),
    decreases ms.len(),
{
    if ms.len() > 0 {
        lemma_bench_hour_counts(ms.drop_last());
        lemma_bench_hour(ms.last().time);
    }
}

fn hour_of(t: i64) -> (h: usize)
    ensures
        h as int == bench_hour(t),
        h < 24,
{
    match utc_clock(t) {
        Some((h, _)) => h as usize,
        None => 0,
    }
}


/// The benchmark's statistics of a message list.
pub struct BenchStatistics {
    pub message_count: usize,
    pub participant_count: usize,
    pub total_characters: usize,
    pub emoji_count: u32,
    pub image_count: usize,
    /// Such as `"21:00 - 22:00"`.
    pub most_active_hour: String,
    /// Messages per hour of the day (UTC).
    pub hourly_distribution: [u32; 24],
    /// The most active speakers: (id, nickname, messages), most messages first.
    pub top_speakers: Vec<(i64, String, usize)>,
    pub reply_count: usize,
    pub at_count: usize,
    /// The most used emoticons: (id, uses), most used first.
    pub top_faces: Vec<(String, usize)>,
}

/// The speaker list of the messages: (id, first nickname, messages), in
/// order of first appearance.
fn bench_speakers(messages: &[BenchMessage]) -> (r: Vec<(i64, String, usize)>)
    requires
        messages@.len() <= u32::MAX,
    ensures
        crate::smy::speaker_views(r@) == speakers_of(chats(bench_views(messages@))),
{
    let ghost ms = chats(bench_views(messages@));
    let mut speakers: Vec<(i64, String, usize)> = Vec::new();
    let mut i: usize = 0;
    while i < messages.len()
        invariant
            i <= messages@.len(),
            messages@.len() <= u32::MAX,
            ms == chats(bench_views(messages@)),
            crate::smy::speaker_views(speakers@) == speakers_of(ms.take(i as int)),
        decreases messages.len() - i,
    {
        let m = &messages[i];
        let ghost pre = ms.take(i as int);
        let ghost cur = ms.take(i as int + 1);
        assert(cur.drop_last() =~= pre);
        assert(cur.last() == as_chat(m@));
        proof {
            lemma_speaker_counts(pre);
            lemma_speaker_index(speakers_of(pre), m.user_id);
        }
        let mut k = speakers.len();
        assert(crate::smy::speaker_views(speakers@).take(k as int) =~= crate::smy::speaker_views(speakers@));
        while k > 0 && speakers[k - 1].0 != m.user_id
            invariant
                k <= speakers@.len(),
                speaker_index(crate::smy::speaker_views(speakers@), m.user_id) == speaker_index(
                    crate::smy::speaker_views(speakers@).take(k as int),
                    m.user_id,
                ),
            decreases k,
        {
            assert(crate::smy::speaker_views(speakers@).take(k as int).drop_last() =~= crate::smy::speaker_views(
                speakers@,
            ).take(k as int - 1));
            k -= 1;
        }
        let ghost sv0 = crate::smy::speaker_views(speakers@);
        if k > 0 {
            assert(sv0.take(k as int).last() == sv0[k as int - 1]);
            assert(speaker_index(sv0, m.user_id) == Some(k as int - 1));
            let (sid, name, c) = speakers.remove(k - 1);
            assert(c <= i);
            speakers.insert(k - 1, (sid, name, c + 1));
            assert(crate::smy::speaker_views(speakers@) =~= sv0.update(
                k as int - 1,
                (sv0[k as int - 1].0, sv0[k as int - 1].1, sv0[k as int - 1].2 + 1),
            ));
        } else {
            assert(sv0.take(0) =~= Seq::<(i64, Seq<char>, nat)>::empty());
            assert(speaker_index(sv0, m.user_id) is None);
            speakers.push((m.user_id, m.nickname.clone(), 1));
            assert(crate::smy::speaker_views(speakers@) =~= sv0.push((m.user_id, m.nickname@, 1nat)));
        }
        i += 1;
    }
    assert(ms.take(messages@.len() as int) =~= ms);
    speakers
}

/// The emoticon tally of the messages: (id, uses), in order of first use.
fn bench_faces(messages: &[BenchMessage]) -> (r: Vec<(String, usize)>)
    requires
        all_faces(bench_views(messages@)).len() <= usize::MAX,
    ensures
        tally_views(r@) == tally(all_faces(bench_views(messages@))),
{
    let ghost ms = bench_views(messages@);
    let mut faces: Vec<(String, usize)> = Vec::new();
    let mut i: usize = 0;
    while i < messages.len()
        invariant
            i <= messages@.len(),
            ms == bench_views(messages@),
            all_faces(ms).len() <= usize::MAX,
            tally_views(faces@) == tally(all_faces(ms.take(i as int))),
        decreases messages.len() - i,
    {
        let m = &messages[i];
        assert(ms.take(i as int + 1).drop_last() =~= ms.take(i as int));
        assert(ms.take(i as int + 1).last() == m@);
        let ghost base = all_faces(ms.take(i as int));
        let ghost ids = m@.face_ids;
        proof {
            lemma_prefix_totals(ms, i as int + 1);
        }
        assert(base + ids == all_faces(ms.take(i as int + 1)));
        assert(base + ids.take(0) =~= base);
        let mut j: usize = 0;
        while j < m.face_ids.len()
            invariant
                j <= ids.len(),
                ids == string_views(m.face_ids@),
                base.len() + ids.len() <= usize::MAX,
                tally_views(faces@) == tally(base + ids.take(j as int)),
            decreases m.face_ids.len() - j,
        {
            let id = &m.face_ids[j];
            let ghost seq_now = base + ids.take(j as int);
            let ghost seq_next = base + ids.take(j as int + 1);
            assert(seq_next.drop_last() =~= seq_now);
            assert(seq_next.last() == id@);
            proof {
                lemma_tally_counts(seq_now);
                lemma_tally_index(tally(seq_now), id@);
            }
            let mut k = faces.len();
            assert(tally_views(faces@).take(k as int) =~= tally_views(faces@));
            while k > 0 && !str_eq(faces[k - 1].0.as_str(), id.as_str())
                invariant
                    k <= faces@.len(),
                    tally_index(tally_views(faces@), id@) == tally_index(tally_views(faces@).take(k as int), id@),
                decreases k,
            {
                assert(tally_views(faces@).take(k as int).drop_last() =~= tally_views(faces@).take(k as int - 1));
                k -= 1;
            }
            let ghost tv0 = tally_views(faces@);
            if k > 0 {
                assert(tv0.take(k as int).last() == tv0[k as int - 1]);
                assert(tally_index(tv0, id@) == Some(k as int - 1));
                let (fid, c) = faces.remove(k - 1);
                assert(c <= seq_now.len());
                faces.insert(k - 1, (fid, c + 1));
                assert(tally_views(faces@) =~= tv0.update(k as int - 1, (tv0[k as int - 1].0, tv0[k as int - 1].1 + 1)));
            } else {
                assert(tv0.take(0) =~= Seq::<(Seq<char>, nat)>::empty());
                assert(tally_index(tv0, id@) is None);
                faces.push((id.clone(), 1));
                assert(tally_views(faces@) =~= tv0.push((id@, 1nat)));
            }
            j += 1;
        }
        assert(ids.take(ids.len() as int) =~= ids);
        i += 1;
    }
    assert(ms.take(messages@.len() as int) =~= ms);
    faces
}


/// The benchmark's statistics: counts of messages, participants,
/// characters, emoticons, images, replies and mentions; messages per UTC
/// hour and the most active hour (the last one on a tie); the ten most
/// active speakers and the three most used emoticons (ties in order of
/// first appearance).
pub fn bench_analyze(messages: &[BenchMessage]) -> (st: BenchStatistics)
    requires
        bench_analyzable(bench_views(messages@)),
    ensures
        ({
            let ms = bench_views(messages@);
            let sp = speakers_of(chats(ms));
            let fc = tally(all_faces(ms));
            &&& st.message_count == ms.len()
            &&& st.participant_count == sp.len()
            &&& st.total_characters == total_chars(chats(ms))
            &&& st.emoji_count == total_emoji(chats(ms))
            &&& st.image_count == total_images(ms)
            &&& st.reply_count == replies(ms)
            &&& st.at_count == total_ats(ms)
            &&& forall|h: int| 0 <= h < 24 ==> st.hourly_distribution@[h] == #[trigger] bench_hour_counts(ms)[h]
            &&& st.most_active_hour@ == hour_range_text(peak_of(bench_hour_counts(ms)) as nat)
            &&& exists|r: Seq<usize>| #![trigger rank_ok(counts_of(sp), r)] {
                &&& rank_ok(counts_of(sp), r)
                &&& st.top_speakers@.len() == (if sp.len() < 10 { sp.len() } else { 10 })
                &&& forall|t: int| 0 <= t < st.top_speakers@.len() ==> (#[trigger] st.top_speakers@[t]).0 == sp[r[t] as int].0
                    && st.top_speakers@[t].1@ == sp[r[t] as int].1 && st.top_speakers@[t].2 == sp[r[t] as int].2
            }
            &&& exists|r: Seq<usize>| #![trigger rank_ok(tally_counts(fc), r)] {
                &&& rank_ok(tally_counts(fc), r)
                &&& st.top_faces@.len() == (if fc.len() < 3 { fc.len() } else { 3 })
                &&& forall|t: int| 0 <= t < st.top_faces@.len() ==> (#[trigger] st.top_faces@[t]).0@ == fc[r[t] as int].0
                    && st.top_faces@[t].1 == fc[r[t] as int].1
            }
        }),
{
    let ghost ms = bench_views(messages@);
    let mut total: usize = 0;
    let mut emoji: u32 = 0;
    let mut images: usize = 0;
    let mut reply_count: usize = 0;
    let mut at_count: usize = 0;
    let mut hourly: [u32; 24] = [0; 24];
    proof {
        assert(ms.take(0) =~= Seq::<BenchView>::empty());
        assert(chats(ms.take(0)) =~= Seq::<ChatView>::empty());
        assert(hourly@ =~= Seq::new(24, |h: int| 0u32));
    }
    let mut i: usize = 0;
    while i < messages.len()
        invariant
            i <= messages@.len(),
            ms == bench_views(messages@),
            bench_analyzable(ms),
            total == total_chars(chats(ms.take(i as int))),
            emoji == total_emoji(chats(ms.take(i as int))),
            images == total_images(ms.take(i as int)),
            reply_count == replies(ms.take(i as int)),
            at_count == total_ats(ms.take(i as int)),
            hourly@.len() == 24,
            forall|h: int| 0 <= h < 24 ==> hourly@[h] == #[trigger] bench_hour_counts(ms.take(i as int))[h],
        decreases messages.len() - i,
    {
        let m = &messages[i];
        let ghost pre = ms.take(i as int);
        let ghost cur = ms.take(i as int + 1);
        assert(cur.drop_last() =~= pre);
        assert(cur.last() == m@);
        assert(chats(cur).drop_last() =~= chats(pre));
        assert(chats(cur).last() == as_chat(m@));
        proof {
            lemma_prefix_totals(ms, i as int + 1);
            lemma_prefix_totals(ms, i as int);
            lemma_bench_hour_counts(pre);
        }
        let n = chars_of(m.text.as_str()).len();
        total = total + n;
        emoji = emoji + m.emoji_count;
        images = images + m.image_count as usize;
        if m.reply_to.is_some() {
            reply_count = reply_count + 1;
        }
        at_count = at_count + m.at_targets.len();
        let h = hour_of(m.time);
        let cnt = hourly[h];
        assert(hourly@[h as int] == bench_hour_counts(pre)[h as int]);
        hourly.set(h, cnt + 1);
        assert forall|x: int| 0 <= x < 24 implies hourly@[x] == #[trigger] bench_hour_counts(cur)[x] by {
            assert(bench_hour_counts(cur) == bench_hour_counts(pre).update(h as int, bench_hour_counts(pre)[h as int] + 1));
        }
        i += 1;
    }
    assert(ms.take(messages@.len() as int) =~= ms);
    // the most active hour, the last one on a tie
    let ghost hc = bench_hour_counts(ms);
    proof {
        lemma_bench_hour_counts(ms);
        assert(hc.take(1).drop_last().len() == 0);
    }
    let mut peak: usize = 0;
    let mut x: usize = 1;
    while x < 24
        invariant
            1 <= x <= 24,
            hourly@.len() == 24,
            hc.len() == 24,
            forall|h: int| 0 <= h < 24 ==> hourly@[h] == #[trigger] hc[h],
            peak < x,
            peak as int == peak_of(hc.take(x as int)),
        decreases 24 - x,
    {
        assert(hc.take(x as int + 1).drop_last() =~= hc.take(x as int));
        assert(hc.take(x as int + 1).last() == hc[x as int]);
        if hourly[x] >= hourly[peak] {
            peak = x;
        }
        x += 1;
    }
    assert(hc.take(24) =~= hc);
    let mut label = String::new();
    push_two_digits(&mut label, peak);
    push_str(&mut label, ":00 - ");
    push_two_digits(&mut label, (peak + 1) % 24);
    push_str(&mut label, ":00");
    // the ten most active speakers
    let speakers = bench_speakers(messages);
    let ghost sp = speakers_of(chats(ms));
    let mut counts: Vec<usize> = Vec::new();
    let mut j: usize = 0;
    while j < speakers.len()
        invariant
            j <= speakers@.len(),
            counts@.len() == j,
            forall|t: int| 0 <= t < j ==> #[trigger] counts@[t] == speakers@[t].2,
        decreases speakers.len() - j,
    {
        counts.push(speakers[j].2);
        j += 1;
    }
    assert(counts@.map_values(|x: usize| x as nat) =~= counts_of(sp));
    let r = rank_by_count(&counts);
    let limit = if speakers.len() < 10 { speakers.len() } else { 10 };
    let mut top: Vec<(i64, String, usize)> = Vec::new();
    let mut t: usize = 0;
    while t < limit
        invariant
            t <= limit,
            limit <= speakers@.len(),
            limit == (if sp.len() < 10 { sp.len() } else { 10 }),
            crate::smy::speaker_views(speakers@) == sp,
            rank_ok(counts_of(sp), r@),
            top@.len() == t,
            forall|u: int| 0 <= u < t ==> (#[trigger] top@[u]).0 == sp[r@[u] as int].0 && top@[u].1@ == sp[r@[u] as int].1
                && top@[u].2 == sp[r@[u] as int].2,
        decreases limit - t,
    {
        let k = r[t];
        assert(r@[t as int] < counts_of(sp).len());
        top.push((speakers[k].0, speakers[k].1.clone(), speakers[k].2));
        t += 1;
    }
    // the three most used emoticons
    let faces = bench_faces(messages);
    let ghost fc = tally(all_faces(ms));
    let mut fcounts: Vec<usize> = Vec::new();
    let mut j2: usize = 0;
    while j2 < faces.len()
        invariant
            j2 <= faces@.len(),
            fcounts@.len() == j2,
            forall|t: int| 0 <= t < j2 ==> #[trigger] fcounts@[t] == faces@[t].1,
        decreases faces.len() - j2,
    {
        fcounts.push(faces[j2].1);
        j2 += 1;
    }
    assert(fcounts@.map_values(|x: usize| x as nat) =~= tally_counts(fc));
    let rf = rank_by_count(&fcounts);
    let flimit = if faces.len() < 3 { faces.len() } else { 3 };
    let mut top_faces: Vec<(String, usize)> = Vec::new();
    let mut u: usize = 0;
    while u < flimit
        invariant
            u <= flimit,
            flimit <= faces@.len(),
            flimit == (if fc.len() < 3 { fc.len() } else { 3 }),
            tally_views(faces@) == fc,
            rank_ok(tally_counts(fc), rf@),
            top_faces@.len() == u,
            forall|v: int| 0 <= v < u ==> (#[trigger] top_faces@[v]).0@ == fc[rf@[v] as int].0 && top_faces@[v].1
                == fc[rf@[v] as int].1,
        decreases flimit - u,
    {
        let k = rf[u];
        assert(rf@[u as int] < tally_counts(fc).len());
        top_faces.push((faces[k].0.clone(), faces[k].1));
        u += 1;
    }
    BenchStatistics {
        message_count: messages.len(),
        participant_count: speakers.len(),
        total_characters: total,
        emoji_count: emoji,
        image_count: images,
        most_active_hour: label,
        hourly_distribution: hourly,
        top_speakers: top,
        reply_count,
        at_count,
        top_faces,
    }
}


// ── the chat log for the model ───────────────────────────────────────────────

/// `HH:MM` in UTC; the epoch's `00:00` outside the calendar.
pub open spec fn bench_clock_text(ts: i64) -> Seq<char> {
    if chrono_min_ts() <= ts <= chrono_max_ts() {
        two_digits(utc_hm(ts).0 as nat) + seq![':'] + two_digits(utc_hm(ts).1 as nat)
    } else {
        "00:00"@
    }
}

/// `[HH:MM] nickname: text`.
pub open spec fn bench_llm_line(m: BenchView) -> Seq<char> {
    seq!['['] + bench_clock_text(m.time) + "] "@ + m.nickname + ": "@ + m.text
}

/// One line per message with text.
pub open spec fn bench_llm_lines(ms: Seq<BenchView>) -> Seq<Seq<char>>
    decreases ms.len(),
{
    if ms.len() == 0 {
        Seq::empty()
    } else {
        let r = bench_llm_lines(ms.drop_last());
        if ms.last().text.len() > 0 { r.push(bench_llm_line(ms.last())) } else { r }
    }
}

fn push_bench_clock(out: &mut String, ts: i64)
    ensures
        final(out)@ == old(out)@ + bench_clock_text(ts),
{
    match utc_clock(ts) {
        Some((h, m)) => {
            assert(h < 24 && m < 60);
            push_two_digits(out, h as usize);
            push_char(out, ':');
            push_two_digits_60(out, m as usize);
        },
        None => push_str(out, "00:00"),
    }
}

/// The chat log as the benchmark writes it: `[HH:MM] nickname: text` per
/// message with text (UTC), one per line.
pub fn bench_format_for_llm(messages: &[BenchMessage]) -> (s: String)
    ensures
        s@ == join(bench_llm_lines(bench_views(messages@)), "\n"@),
{
    let ghost ms = bench_views(messages@);
    let mut lines: Vec<String> = Vec::new();
    let mut i: usize = 0;
    while i < messages.len()
        invariant
            i <= messages@.len(),
            ms == bench_views(messages@),
            views(lines@) =~= bench_llm_lines(ms.take(i as int)),
        decreases messages.len() - i,
    {
        let m = &messages[i];
        assert(ms.take(i as int + 1).drop_last() =~= ms.take(i as int));
        assert(ms.take(i as int + 1).last() == m@);
        if !m.text.as_str().is_empty() {
            let mut line = String::new();
            push_char(&mut line, '[');
            push_bench_clock(&mut line, m.time);
            push_str(&mut line, "] ");
            push_str(&mut line, m.nickname.as_str());
            push_str(&mut line, ": ");
            push_str(&mut line, m.text.as_str());
            let ghost before = lines@;
            lines.push(line);
            assert(views(lines@) =~= views(before).push(line@));
        }
        i += 1;
    }
    assert(ms.take(messages@.len() as int) =~= ms);
    join_strings(&lines, "\n")
}


// ── sample data ──────────────────────────────────────────────────────────────

/// A sample chat log, one `[HH:MM] name: text` line per message.
pub const SAMPLE_CHAT_TEXT: &'static str = r#"[09:00] 小雪: 早上好各位！今天有人一起打球吗
[09:01] 阿明: 下午可以，几点？
[09:02] 小雪: 3点老地方？
[09:03] 大佬: 我也去 这次一定要赢你
[09:05] 阿明: 大佬你上次打了个3:11 还立什么flag
[09:06] 大佬: 那是战术性放水 你不懂
[09:07] 小雪: 哈哈哈哈哈 战术性放水 我都笑了
[09:10] 路人甲: 你们打球我看看 我去当裁判
[09:15] 小白: 说到运动 昨天看了那个新出的动漫 主角也是打乒乓球的
[09:16] 阿明: 乒乓还是羽毛球啊 我们打的是羽毛球
[09:17] 小白: 哦哦 搞混了 反正都是球
[09:20] 程序猿: 各位大佬 有没有人用过Rust的tokio 我昨天写的异步代码死锁了
[09:21] 大佬: 看下有没有 await 忘写
[09:22] 程序猿: 确实有一个忘写了…谢谢大佬
[09:23] 阿明: @程序猿 你的代码跟你的球技一样 需要多练
[09:25] 路人甲: 哈哈哈 开始人身攻击了
[09:30] 小雪: 话说周末有人去那个新开的火锅店吗？听说巨好吃
[09:31] 大佬: 去去去 吃完正好消化一下
[09:32] 小白: 我也想去！在哪里
[09:33] 小雪: 就在地铁站旁边那个 叫什么来着…海底世界？
[09:34] 路人甲: 海底捞吧…海底世界是水族馆
[09:35] 小雪: 对对对 海底捞！脑子不好使了
[09:36] 阿明: 小雪你这记性 难怪球打不好
[09:37] 小雪: 你再说！下午加倍打你！
[10:00] 程序猿: 各位 我又有问题了 这个借用检查器也太严厉了
[10:01] 大佬: 贴代码看看
[10:02] 程序猿: fn process(data: &mut Vec<i32>) { let first = &data[0]; data.push(42); println!("{}", first); }
[10:03] 大佬: 经典同时持有可变和不可变引用 你先 clone 或者调整顺序
[10:04] 程序猿: 哦！谢谢 我还以为是bug
[10:05] 阿明: Rust编译器：这不是bug 这是feature
[10:06] 路人甲: 编译器："不是我不讲道理，是你不讲规矩"
[10:10] 小白: 你们程序员的世界好复杂
[10:11] 大佬: 比打球简单多了 至少编译器会告诉你哪里错了
[10:12] 阿明: 球也可以告诉你 球飞出界了说明你力量控制有问题
[10:15] 小雪: 行了行了 下午3点不见不散！"#;

/// A line without one carriage return at its end.
pub open spec fn strip_cr(l: Seq<char>) -> Seq<char> {
    if l.len() > 0 && l.last() == '\r' { l.drop_last() } else { l }
}

/// The lines of a text as `str::lines` gives them: split after each line
/// feed, which goes with one carriage return before it; a last line
/// without a line feed stays as it is, and an empty rest is no line.
pub open spec fn text_lines(s: Seq<char>) -> Seq<Seq<char>>
    decreases s.len(),
{
    match first_index_of(s, '\n') {
        Some(k) => {
            proof { lemma_first_index_of(s, '\n'); }
            seq![strip_cr(s.take(k))] + text_lines(s.skip(k + 1))
        },
        None => if s.len() == 0 { Seq::empty() } else { seq![s] },
    }
}

/// The name and text of a line `[time] name: text`: the part after the
/// first `]`, without leading whitespace, split at its first `": "`.
pub open spec fn sample_fields(line: Seq<char>) -> Option<(Seq<char>, Seq<char>)> {
    if line.len() > 0 && line[0] == '[' {
        let rest = line.skip(1);
        match first_index_of(rest, ']') {
            Some(e) => {
                let after = trim_start(rest.skip(e + 1));
                match find_from(after, ": "@, 0) {
                    Some(p) => Some((after.take(p), after.skip(p + 2))),
                    None => None,
                }
            },
            None => None,
        }
    } else {
        None
    }
}

/// The sample message of line `i`: user `10001 + i % 6`, a minute per line
/// after `base_ts`.
pub open spec fn sample_message(name: Seq<char>, text: Seq<char>, i: int, base_ts: i64) -> BenchView {
    BenchView {
        user_id: (i % 6 + 10001) as i64,
        nickname: name,
        time: (base_ts + i * 60) as i64,
        text,
        emoji_count: 0,
        image_count: 0,
        reply_to: None,
        at_targets: Seq::empty(),
        face_ids: Seq::empty(),
    }
}

/// The messages of the lines that have the sample form, in order.
pub open spec fn sample_messages(lines: Seq<Seq<char>>, base_ts: i64) -> Seq<BenchView>
    decreases lines.len(),
{
    if lines.len() == 0 {
        Seq::empty()
    } else {
        let r = sample_messages(lines.drop_last(), base_ts);
        match sample_fields(lines.last()) {
            Some(f) => r.push(sample_message(f.0, f.1, lines.len() - 1, base_ts)),
            None => r,
        }
    }
}

fn strip_cr_chars(l: Vec<char>) -> (r: Vec<char>)
    ensures
        r@ == strip_cr(l@),
{
    if l.len() > 0 && l[l.len() - 1] == '\r' {
        let r = slice_chars(&l, 0, l.len() - 1);
        assert(r@ =~= l@.drop_last());
        r
    } else {
        l
    }
}

/// Splits a text into lines as `str::lines` does.
fn split_lines(s: &Vec<char>) -> (r: Vec<Vec<char>>)
    ensures
        r@.map_values(|l: Vec<char>| l@) == text_lines(s@),
{
    let mut lines: Vec<Vec<char>> = Vec::new();
    let mut start: usize = 0;
    let mut i: usize = 0;
    assert(s@.skip(0) =~= s@);
    assert(lines@.map_values(|l: Vec<char>| l@) + text_lines(s@) =~= text_lines(s@));
    while i < s.len()
        invariant
            start <= i <= s@.len(),
            forall|j: int| start <= j < i ==> s@[j] != '\n',
            lines@.map_values(|l: Vec<char>| l@) + text_lines(s@.skip(start as int)) == text_lines(s@),
        decreases s.len() - i,
    {
        if s[i] == '\n' {
            let ghost rest = s@.skip(start as int);
            assert forall|j: int| 0 <= j < i - start implies rest[j] != '\n' by {
                assert(rest[j] == s@[start + j]);
            }
            assert(rest[i - start] == '\n');
            proof { lemma_first_index_unique(rest, '\n', i - start); }
            let piece = slice_chars(s, start, i);
            assert(piece@ =~= rest.take(i - start));
            assert(rest.skip(i - start + 1) =~= s@.skip(i as int + 1));
            let line = strip_cr_chars(piece);
            let ghost before = lines@;
            lines.push(line);
            assert(lines@.map_values(|l: Vec<char>| l@) =~= before.map_values(|l: Vec<char>| l@).push(line@));
            assert(text_lines(rest) == seq![strip_cr(rest.take(i - start))] + text_lines(rest.skip(i - start + 1)));
            assert(lines@.map_values(|l: Vec<char>| l@) + text_lines(s@.skip(i as int + 1)) =~= before.map_values(
                |l: Vec<char>| l@,
            ) + text_lines(rest));
            start = i + 1;
        }
        i += 1;
    }
    let ghost rest = s@.skip(start as int);
    assert forall|j: int| 0 <= j < rest.len() implies rest[j] != '\n' by {
        assert(rest[j] == s@[start + j]);
    }
    proof { lemma_first_index_of(rest, '\n'); }
    if start < s.len() {
        let piece = slice_chars(s, start, s.len());
        assert(piece@ =~= rest);
        let ghost before = lines@;
        lines.push(piece);
        assert(lines@.map_values(|l: Vec<char>| l@) =~= before.map_values(|l: Vec<char>| l@).push(rest));
        assert(lines@.map_values(|l: Vec<char>| l@) =~= before.map_values(|l: Vec<char>| l@) + text_lines(rest));
    } else {
        assert(rest.len() == 0);
        assert(lines@.map_values(|l: Vec<char>| l@) =~= lines@.map_values(|l: Vec<char>| l@) + text_lines(rest));
    }
    lines
}

fn trim_start_chars(s: &Vec<char>) -> (r: Vec<char>)
    ensures
        r@ == trim_start(s@),
{
    let mut k: usize = 0;
    assert(s@.skip(0) =~= s@);
    while k < s.len() && is_whitespace(s[k])
        invariant
            k <= s@.len(),
            trim_start(s@.skip(k as int)) == trim_start(s@),
        decreases s.len() - k,
    {
        assert(s@.skip(k as int).drop_first() =~= s@.skip(k as int + 1));
        k += 1;
    }
    let r = slice_chars(s, k, s.len());
    assert(r@ =~= s@.skip(k as int));
    r
}

fn sample_fields_of(line: &Vec<char>) -> (r: Option<(String, String)>)
    ensures
        match r {
            Some(f) => sample_fields(line@) == Some((f.0@, f.1@)),
            None => sample_fields(line@) is None,
        },
{
    if line.len() == 0 || line[0] != '[' {
        return None;
    }
    let rest = slice_chars(line, 1, line.len());
    assert(rest@ =~= line@.skip(1));
    let e = match find_char(&rest, ']') {
        Some(e) => e,
        None => {
            return None;
        },
    };
    let tail = slice_chars(&rest, e + 1, rest.len());
    assert(tail@ =~= rest@.skip(e + 1));
    let after = trim_start_chars(&tail);
    proof { reveal_strlit(": "); }
    let sep = chars_of(": ");
    assert(sep@.len() == 2);
    match find_sub(&after, &sep, 0) {
        Some(p) => {
            assert(find_from(after@, sep@, 0) == Some(p as int));
            proof { lemma_find_from_bounds(after@, sep@, 0); }
            let alen = after.len();
            assert(p + 2 <= alen);
            let name = slice_chars(&after, 0, p);
            let text = slice_chars(&after, p + 2, alen);
            assert(name@ =~= after@.take(p as int));
            assert(text@ =~= after@.skip(p + 2));
            Some((crate::text::string_of(name.as_slice()), crate::text::string_of(text.as_slice())))
        },
        None => None,
    }
}

/// The messages of a sample chat log, line `i` (counting every line) by
/// user `10001 + i % 6` at `base_ts + 60 i`; lines without the form
/// `[time] name: text` give none.
pub fn sample_to_chat_messages(text: &str, base_ts: i64) -> (r: Vec<BenchMessage>)
    requires
        text_lines(text@).len() * 60 <= i64::MAX,
        base_ts + text_lines(text@).len() * 60 <= i64::MAX,
    ensures
        bench_views(r@) == sample_messages(text_lines(text@), base_ts),
{
    let cs = chars_of(text);
    let lines = split_lines(&cs);
    let ghost ls = text_lines(text@);
    assert(lines@.map_values(|l: Vec<char>| l@) == ls);
    let mut msgs: Vec<BenchMessage> = Vec::new();
    let mut i: usize = 0;
    while i < lines.len()
        invariant
            i <= lines@.len(),
            lines@.map_values(|l: Vec<char>| l@) == ls,
            ls.len() * 60 <= i64::MAX,
            base_ts + ls.len() * 60 <= i64::MAX,
            bench_views(msgs@) =~= sample_messages(ls.take(i as int), base_ts),
        decreases lines.len() - i,
    {
        assert(ls.take(i as int + 1).drop_last() =~= ls.take(i as int));
        assert(ls.take(i as int + 1).last() == lines@[i as int]@);
        let ghost before = msgs@;
        match sample_fields_of(&lines[i]) {
            Some((name, content)) => {
                let user_id: i64 = (i % 6) as i64 + 10001;
                assert(i * 60 <= ls.len() * 60) by (nonlinear_arith)
                    requires
                        i <= ls.len(),
                ;
                let time: i64 = base_ts + (i as i64) * 60;
                msgs.push(
                    BenchMessage {
                        user_id,
                        nickname: name,
                        time,
                        text: content,
                        emoji_count: 0,
                        image_count: 0,
                        reply_to: None,
                        at_targets: Vec::new(),
                        face_ids: Vec::new(),
                    },
                );
                assert(bench_views(msgs@) =~= bench_views(before).push(msgs@.last()@));
                assert(string_views(msgs@.last().face_ids@) =~= Seq::<Seq<char>>::empty());
            },
            None => {},
        }
        i += 1;
    }
    assert(ls.take(lines@.len() as int) =~= ls);
    msgs
}


// ── fetching ─────────────────────────────────────────────────────────────────

/// Entries asked for per history page.
pub const BENCH_PAGE_SIZE: u32 = 5000;

/// At most this many pages are asked for.
pub const BENCH_MAX_PAGES: usize = 50;

/// Whether another page follows this one, and where it starts: no more after
/// an empty or short page or once the page's first entry (a missing time
/// counts as the latest) is at or before the cutoff; else the next page
/// starts at the first entry's sequence number, which may be missing.
pub open spec fn bench_next_spec(page: Seq<HistoryMessage>, cutoff: i64) -> Option<Option<i64>> {
    if page.len() == 0 {
        None
    } else {
        let t = match page[0].time {
            Some(t) => t,
            None => i64::MAX,
        };
        if t <= cutoff || page.len() < BENCH_PAGE_SIZE {
            None
        } else {
            Some(page[0].message_seq)
        }
    }
}

/// Decides whether the benchmark fetches another history page.
pub fn bench_next_page(page: &Vec<HistoryMessage>, cutoff: i64) -> (r: Option<Option<i64>>)
    ensures
        r == bench_next_spec(page@, cutoff),
{
    if page.len() == 0 {
        return None;
    }
    let t = match page[0].time {
        Some(t) => t,
        None => i64::MAX,
    };
    if t <= cutoff || page.len() < BENCH_PAGE_SIZE as usize {
        None
    } else {
        Some(page[0].message_seq)
    }
}

// ── HTML ─────────────────────────────────────────────────────────────────────

/// The benchmark's escape of one character: `&`, `<`, `>` and `"`.
pub open spec fn bench_escape_char(c: char) -> Seq<char> {
    if c == '&' {
        "&amp;"@
    } else if c == '<' {
        "&lt;"@
    } else if c == '>' {
        "&gt;"@
    } else if c == '"' {
        "&quot;"@
    } else {
        seq![c]
    }
}

pub open spec fn bench_escape_spec(s: Seq<char>) -> Seq<char>
    decreases s.len(),
{
    if s.len() == 0 {
        Seq::empty()
    } else {
        bench_escape_spec(s.drop_last()) + bench_escape_char(s.last())
    }
}

/// Escapes `&`, `<`, `>` and `"` for HTML (quotes `'` stay).
pub fn bench_html_escape(s: &str) -> (r: String)
    ensures
        r@ == bench_escape_spec(s@),
{
    let cs = chars_of(s);
    let mut r = String::new();
    let mut i: usize = 0;
    while i < cs.len()
        invariant
            i <= cs@.len(),
            cs@ == s@,
            r@ == bench_escape_spec(cs@.take(i as int)),
        decreases cs.len() - i,
    {
        assert(cs@.take(i as int + 1).drop_last() =~= cs@.take(i as int));
        let c = cs[i];
        if c == '&' {
            push_str(&mut r, "&amp;");
        } else if c == '<' {
            push_str(&mut r, "&lt;");
        } else if c == '>' {
            push_str(&mut r, "&gt;");
        } else if c == '"' {
            push_str(&mut r, "&quot;");
        } else {
            push_char(&mut r, c);
        }
        i += 1;
    }
    assert(cs@.take(cs@.len() as int) =~= cs@);
    r
}


/// The benchmark's height probe: a script that writes the page's content
/// height into its title, then the closing body tag.
pub const BENCH_HEIGHT_PROBE: &'static str = r#"<script>(function(){const de=document.documentElement;const b=document.body;const scrollH=Math.max(de?de.scrollHeight:0,de?de.offsetHeight:0,de?de.clientHeight:0,b?b.scrollHeight:0,b?b.offsetHeight:0,b?b.clientHeight:0);let mb=0;if(b){const m=document.createElement('div');m.style.cssText='display:block;height:1px;width:1px;';b.appendChild(m);mb=m.getBoundingClientRect().bottom+(window.scrollY||window.pageYOffset||0);const bs=window.getComputedStyle(b);mb+=parseFloat(bs.paddingBottom)||0;}const h=Math.ceil(Math.max(scrollH,mb));document.title=String(h);})();</script></body>"#;

/// Puts the benchmark's height probe in place of `</body>`.
pub fn bench_patch_html(html: &str) -> (r: String)
    ensures
        r@ == replace_all(html@, "</body>"@, BENCH_HEIGHT_PROBE@),
{
    replace_body_end(html, BENCH_HEIGHT_PROBE)
}


// ── laws ─────────────────────────────────────────────────────────────────────

/// Cleaning leaves no byte-order mark and no control character but line
/// feed, carriage return and tab.
pub proof fn law_clean_leaves_no_controls(raw: Seq<char>)
    ensures
        forall|i: int| 0 <= i < clean_llm_json_spec(raw).len() ==> kept_char(#[trigger] clean_llm_json_spec(raw)[i]),
{
    let s = trim(raw);
    let inner = if starts_with(s, "```"@) {
        trim(strip_trailing(strip_leading(strip_leading(s, "```json"@), "```"@), "```"@))
    } else {
        s
    };
    lemma_kept_chars(inner);
}

proof fn lemma_kept_chars(s: Seq<char>)
    ensures
        forall|i: int| 0 <= i < kept_chars(s).len() ==> kept_char(#[trigger] kept_chars(s)[i]),
    decreases s.len(),
{
    if s.len() > 0 {
        lemma_kept_chars(s.drop_last());
        let k = kept_chars(s.drop_last());
        if kept_char(s.last()) {
            assert forall|i: int| 0 <= i < k.len() + 1 implies kept_char(#[trigger] k.push(s.last())[i]) by {
                if i < k.len() {
                    assert(k.push(s.last())[i] == k[i]);
                }
            }
        }
    }
}

/// Every message falls in exactly one UTC hour: the benchmark's hourly
/// distribution adds up to the number of messages.
pub proof fn law_bench_hourly_total(ms: Seq<BenchView>)
    ensures
        bench_hour_counts(ms).len() == 24,
        seq_sum(bench_hour_counts(ms)) == ms.len(),
    decreases ms.len(),
{
    if ms.len() == 0 {
        lemma_sum_zeros(24);
    } else {
        law_bench_hourly_total(ms.drop_last());
        lemma_bench_hour(ms.last().time);
        lemma_sum_update(bench_hour_counts(ms.drop_last()), bench_hour(ms.last().time));
    }
}

/// With a cutoff, every message the benchmark reads is at least as recent
/// as it and has text or an image.
pub proof fn law_bench_cutoff_respected(raw: Seq<HistoryMessage>, c: i64)
    requires
        segment_counts_fit(raw),
    ensures
        forall|i: int| 0 <= i < benches_of(raw, Some(c)).len() ==> #[trigger] benches_of(raw, Some(c))[i].time >= c
            && (benches_of(raw, Some(c))[i].text.len() > 0 || benches_of(raw, Some(c))[i].image_count > 0),
    decreases raw.len(),
{
    if raw.len() > 0 {
        assert(segment_counts_fit(raw.drop_last())) by {
            assert forall|i: int| 0 <= i < raw.drop_last().len() implies (#[trigger] raw.drop_last()[i]).segments().len()
                <= u32::MAX by {
                assert(raw.drop_last()[i] == raw[i]);
            }
        }
        law_bench_cutoff_respected(raw.drop_last(), c);
        let r = benches_of(raw.drop_last(), Some(c));
        let v = raw.last();
        assert(v.segments().len() <= u32::MAX);
        let segs = match opt_seg_views(v.message) {
            Some(sv) => sv,
            None => Seq::empty(),
        };
        assert(segs.len() == v.segments().len());
        lemma_fields_bounds(segs);
        match bench_of(raw.last(), Some(c)) {
            Some(x) => {
                assert(benches_of(raw, Some(c)) == r.push(x));
                assert forall|i: int| 0 <= i < r.len() + 1 implies #[trigger] r.push(x)[i].time >= c && (
                r.push(x)[i].text.len() > 0 || r.push(x)[i].image_count > 0) by {
                    if i < r.len() {
                        assert(r.push(x)[i] == r[i]);
                    }
                }
            },
            None => {},
        }
    }
}


proof fn lemma_fields_bounds(segs: Seq<SegmentView>)
    ensures
        fields_of(segs).images <= segs.len(),
    decreases segs.len(),
{
    if segs.len() > 0 {
        lemma_fields_bounds(segs.drop_last());
    }
}

// ── one timed chat-completions call ──────────────────────────────────────────

/// What the chat-completions request of one benchmark call came back with.
pub enum LlmCallOutcome {
    /// The request could not be sent; `error` is the transport's error text.
    ConnectFailed { error: String },
    /// A response arrived `total_ms` after the request started. `status` is
    /// the text of its status line, `success` whether the status is a 2xx
    /// one, `resp_size` the body's length in bytes and `content` the text of
    /// the first choice's message.
    Answered { total_ms: u64, resp_size: usize, success: bool, status: String, content: String },
}

/// The record of one benchmark call to the language model.
pub struct LlmBenchResult {
    pub name: String,
    pub connect_ms: u64,
    pub total_ms: u64,
    pub req_size: usize,
    pub resp_size: usize,
    pub content: String,
    pub success: bool,
    pub error: Option<String>,
}

/// Builds the record of the call named `name`, whose request body had
/// `req_size` bytes, from how long the request took to be answered or
/// refused (`connect_ms`) and what came back: a refused request counts its
/// connect time as its total, has no response bytes and reads
/// `连接失败: <error>`; a non-2xx answer reads `HTTP <status>` and keeps no
/// content; a 2xx answer keeps its content and has no error.
pub fn llm_bench_result(name: &str, connect_ms: u64, req_size: usize, outcome: LlmCallOutcome) -> (r: LlmBenchResult)
    ensures
        r.name@ == name@,
        r.connect_ms == connect_ms,
        r.req_size == req_size,
        match outcome {
            LlmCallOutcome::ConnectFailed { error } => {
                &&& r.total_ms == connect_ms
                &&& r.resp_size == 0
                &&& r.content@.len() == 0
                &&& !r.success
                &&& r.error matches Some(t) && t@ == "连接失败: "@ + error@
            },
            LlmCallOutcome::Answered { total_ms, resp_size, success, status, content } => {
                &&& r.total_ms == total_ms
                &&& r.resp_size == resp_size
                &&& r.success == success
                &&& success ==> r.content@ == content@ && r.error is None
                &&& !success ==> r.content@.len() == 0 && (r.error matches Some(t) && t@ == "HTTP "@ + status@)
            },
        },
{
    let mut label = String::new();
    push_str(&mut label, name);
    match outcome {
        LlmCallOutcome::ConnectFailed { error } => {
            let mut t = String::new();
            push_str(&mut t, "连接失败: ");
            push_str(&mut t, error.as_str());
            LlmBenchResult {
                name: label,
                connect_ms,
                total_ms: connect_ms,
                req_size,
                resp_size: 0,
                content: String::new(),
                success: false,
                error: Some(t),
            }
        },
        LlmCallOutcome::Answered { total_ms, resp_size, success, status, content } => {
            if success {
                LlmBenchResult { name: label, connect_ms, total_ms, req_size, resp_size, content, success: true, error: None }
            } else {
                let mut t = String::new();
                push_str(&mut t, "HTTP ");
                push_str(&mut t, status.as_str());
                LlmBenchResult {
                    name: label,
                    connect_ms,
                    total_ms,
                    req_size,
                    resp_size,
                    content: String::new(),
                    success: false,
                    error: Some(t),
                }
            }
        },
    }
}

} // verus!
