//! The in-memory message pool: one queue per scope, bounded in length and
//! evicted by age.
use vstd::prelude::*;

use crate::message::{
    concat_texts, duplicate_segments, full_text_of, seg_views, HistoryMessage, MessageEvent,
    MessageSegment, SegmentView, Sender,
};
use crate::permission::Scope;
use crate::text::{push_str, str_eq};
use crate::time::unix_timestamp;

verus! {

// ── configuration ────────────────────────────────────────────────────────────

/// The `[pool]` section of the runtime configuration.
pub struct PoolConfig {
    /// Maximum number of messages kept per scope (3000 by default).
    pub per_group_capacity: usize,
    /// Messages older than this many seconds are evicted (90000 by default:
    /// one hour more than the daily report window).
    pub evict_after_secs: i64,
}

impl PoolConfig {
    pub fn default_capacity() -> (n: usize)
        ensures
            n == 3000,
    {
        3000
    }

    pub fn default_evict() -> (n: i64)
        ensures
            n == 90000,
    {
        90000
    }
}

impl Default for PoolConfig {
    fn default() -> (c: Self)
        ensures
            c.per_group_capacity == 3000,
            c.evict_after_secs == 90000,
    {
        PoolConfig { per_group_capacity: Self::default_capacity(), evict_after_secs: Self::default_evict() }
    }
}

// ── messages ─────────────────────────────────────────────────────────────────

/// Classification of a message by its segments.
#[derive(Debug, Clone, Copy, PartialEq, Eq, Structural)]
pub enum MsgKind {
    /// Text only.
    Text,
    /// Holds an image.
    Image,
    /// QQ emoticons only.
    Face,
    /// Quotes another message.
    Reply,
    /// Mentions someone (and quotes nothing).
    At,
    /// A shared card (`json` segment).
    Card,
    /// A group file.
    File,
    /// Text together with an image.
    Mixed,
    Other,
}

/// Processing state of a pooled message.
#[derive(Debug, Clone, Copy, PartialEq, Eq, Structural)]
pub enum MsgStatus {
    /// Pooled, not handled by any command.
    Pending,
    /// A command handled it successfully.
    Done,
    /// A command failed on it.
    Error,
}

/// What a command did with a message.
pub struct ProcessRecord {
    /// The command's plain name, such as `"acg"`.
    pub command: String,
    pub duration_ms: u64,
    /// The failure, if the command failed.
    pub error: Option<String>,
}

/// A message as the pool keeps it.
pub struct PoolMessage {
    pub msg_id: i64,
    pub scope: Scope,
    pub user_id: i64,
    /// Group card, else nickname.
    pub nickname: String,
    /// Unix time in seconds.
    pub timestamp: i64,
    pub kind: MsgKind,
    /// All text segments joined; `None` when there is no text.
    pub text: Option<String>,
    pub segments: Vec<MessageSegment>,
    pub status: MsgStatus,
    /// Set once a command has handled the message.
    pub process: Option<ProcessRecord>,
    /// Whether the bot itself sent the message.
    pub is_bot: bool,
    /// A cached description of the message's image.
    pub description: Option<String>,
}

/// Whether some segment has type `t`.
pub open spec fn has_type(segs: Seq<SegmentView>, t: Seq<char>) -> bool {
    exists|i: int| 0 <= i < segs.len() && segs[i].seg_type == t
}

/// Classification by priority over the whole message, whatever the segment
/// order: reply, file, card, then image with text, image, @, emoticons
/// without text, text, other.
pub open spec fn kind_of(segs: Seq<SegmentView>) -> MsgKind {
    let t = has_type(segs, "text"@);
    let i = has_type(segs, "image"@);
    let f = has_type(segs, "face"@);
    let a = has_type(segs, "at"@);
    if has_type(segs, "reply"@) {
        MsgKind::Reply
    } else if has_type(segs, "file"@) {
        MsgKind::File
    } else if has_type(segs, "json"@) {
        MsgKind::Card
    } else if i && t {
        MsgKind::Mixed
    } else if i {
        MsgKind::Image
    } else if a {
        MsgKind::At
    } else if f && !t {
        MsgKind::Face
    } else if t {
        MsgKind::Text
    } else {
        MsgKind::Other
    }
}

/// Classifies a message by its segments.
pub fn classify_kind(segments: &Vec<MessageSegment>) -> (k: MsgKind)
    ensures
        k == kind_of(seg_views(segments@)),
{
    let ghost v = seg_views(segments@);
    let mut has_reply = false;
    let mut has_file = false;
    let mut has_json = false;
    let mut has_text = false;
    let mut has_image = false;
    let mut has_face = false;
    let mut has_at = false;
    let mut i: usize = 0;
    while i < segments.len()
        invariant
            i <= segments@.len(),
            v == seg_views(segments@),
            has_reply == exists|j: int| 0 <= j < i && v[j].seg_type == "reply"@,
            has_file == exists|j: int| 0 <= j < i && v[j].seg_type == "file"@,
            has_json == exists|j: int| 0 <= j < i && v[j].seg_type == "json"@,
            has_text == exists|j: int| 0 <= j < i && v[j].seg_type == "text"@,
            has_image == exists|j: int| 0 <= j < i && v[j].seg_type == "image"@,
            has_face == exists|j: int| 0 <= j < i && v[j].seg_type == "face"@,
            has_at == exists|j: int| 0 <= j < i && v[j].seg_type == "at"@,
        decreases segments.len() - i,
    {
        let seg = &segments[i];
        assert(v[i as int] == seg@);
        if seg.is_reply() {
            has_reply = true;
        }
        if str_eq(seg.seg_type.as_str(), "file") {
            has_file = true;
        }
        if str_eq(seg.seg_type.as_str(), "json") {
            has_json = true;
        }
        if seg.is_text() {
            has_text = true;
        }
        if seg.is_image() {
            has_image = true;
        }
        if seg.is_face() {
            has_face = true;
        }
        if seg.is_at() {
            has_at = true;
        }
        i += 1;
    }
    assert(has_reply == has_type(v, "reply"@));
    assert(has_file == has_type(v, "file"@));
    assert(has_json == has_type(v, "json"@));
    assert(has_text == has_type(v, "text"@));
    assert(has_image == has_type(v, "image"@));
    assert(has_face == has_type(v, "face"@));
    assert(has_at == has_type(v, "at"@));
    if has_reply {
        return MsgKind::Reply;
    }
    if has_file {
        return MsgKind::File;
    }
    if has_json {
        return MsgKind::Card;
    }
    if has_image && has_text {
        return MsgKind::Mixed;
    }
    if has_image {
        return MsgKind::Image;
    }
    if has_at {
        return MsgKind::At;
    }
    if has_face && !has_text {
        return MsgKind::Face;
    }
    if has_text {
        return MsgKind::Text;
    }
    MsgKind::Other
}

/// The text of the segments, or `None` when they hold no text.
pub open spec fn text_of(segs: Seq<SegmentView>) -> Option<Seq<char>> {
    if full_text_of(segs).len() == 0 {
        None
    } else {
        Some(full_text_of(segs))
    }
}

pub open spec fn opt_view(o: Option<String>) -> Option<Seq<char>> {
    match o {
        Some(s) => Some(s@),
        None => None,
    }
}

/// All text segments joined; `None` when that is empty.
pub fn concat_text_segs(segments: &Vec<MessageSegment>) -> (r: Option<String>)
    ensures
        opt_view(r) == text_of(seg_views(segments@)),
{
    let s = concat_texts(segments);
    if s.as_str().is_empty() {
        None
    } else {
        Some(s)
    }
}

/// The name shown for a sender: a non-empty card, else the nickname, else
/// `"未知"`.
pub open spec fn display_name(card: Option<Seq<char>>, nickname: Option<Seq<char>>) -> Seq<char> {
    let c = match card {
        Some(c) => c,
        None => Seq::empty(),
    };
    if c.len() == 0 {
        match nickname {
            Some(n) => n,
            None => "未知"@,
        }
    } else {
        c
    }
}

/// The name shown for an optional sender.
pub open spec fn sender_name(sender: Option<Sender>) -> Seq<char> {
    match sender {
        Some(s) => display_name(opt_view(s.card), opt_view(s.nickname)),
        None => "未知"@,
    }
}

fn name_from(card: &Option<String>, nickname: &Option<String>) -> (r: String)
    ensures
        r@ == display_name(opt_view(*card), opt_view(*nickname)),
{
    let mut r = String::new();
    match card {
        Some(c) => {
            if !c.as_str().is_empty() {
                push_str(&mut r, c.as_str());
                return r;
            }
        },
        None => {},
    }
    match nickname {
        Some(n) => push_str(&mut r, n.as_str()),
        None => push_str(&mut r, "未知"),
    }
    r
}

/// The display name of a sender (card, else nickname, else `"未知"`).
pub fn extract_nickname(sender: &Option<Sender>) -> (r: String)
    ensures
        r@ == sender_name(*sender),
{
    match sender {
        Some(s) => name_from(&s.card, &s.nickname),
        None => "未知".to_string(),
    }
}

/// Whether a pushed event belongs in a pool message of this scope: a group
/// scope takes group messages only.
pub open spec fn event_fits(event: MessageEvent, scope: Scope) -> bool {
    scope is Group ==> event.message_type == crate::message::MessageType::Group
}

/// `m` is the pool message built from the event for the scope.
pub open spec fn built_from_event(event: MessageEvent, scope: Scope, is_bot: bool, now: i64, m: PoolMessage) -> bool {
    &&& m.msg_id == (match event.message_id { Some(id) => id, None => 0 })
    &&& m.scope == scope
    &&& m.user_id == event.user_id
    &&& m.nickname@ == sender_name(event.sender)
    &&& m.timestamp == (match event.time { Some(t) => t, None => now })
    &&& seg_views(m.segments@) == seg_views(event.message@)
    &&& opt_view(m.text) == text_of(seg_views(event.message@))
    &&& m.kind == kind_of(seg_views(event.message@))
    &&& m.status == MsgStatus::Pending
    &&& m.process is None
    &&& m.is_bot == is_bot
    &&& m.description is None
}

/// Builds a pool message from a pushed message event; `now` stands in for a
/// missing event time. `None` when a group scope is given for a message that
/// is not a group message.
pub fn from_event(event: &MessageEvent, scope: Scope, is_bot: bool, now: i64) -> (r: Option<PoolMessage>)
    ensures
        r is None <==> !event_fits(*event, scope),
        r matches Some(m) ==> built_from_event(*event, scope, is_bot, now, m),
{
    match scope {
        Scope::Group(_) => {
            if !event.is_group() {
                return None;
            }
        },
        Scope::Private(_) => {},
    }
    let msg_id = match event.message_id {
        Some(id) => id,
        None => 0,
    };
    let timestamp = match event.time {
        Some(t) => t,
        None => now,
    };
    let nickname = extract_nickname(&event.sender);
    let segments = duplicate_segments(&event.message);
    let text = concat_text_segs(&segments);
    let kind = classify_kind(&segments);
    Some(PoolMessage {
        msg_id,
        scope,
        user_id: event.user_id,
        nickname,
        timestamp,
        kind,
        text,
        segments,
        status: MsgStatus::Pending,
        process: None,
        is_bot,
        description: None,
    })
}

/// Whether a history entry was sent by the bot itself.
pub open spec fn sent_by_bot(v: HistoryMessage) -> bool {
    opt_view(v.post_type) == Some("message_sent"@)
}

/// Whether a history entry is left out of the pool: the bot's own messages
/// and entries without a sender id.
pub open spec fn skipped_history(v: HistoryMessage) -> bool {
    sent_by_bot(v) || v.user_id is None
}

/// `m` is the pool message built from history entry `v` of the group.
pub open spec fn built_from_history(v: HistoryMessage, group_id: i64, now: i64, m: PoolMessage) -> bool {
    &&& m.msg_id == (match v.message_id { Some(id) => id, None => 0 })
    &&& m.scope == Scope::Group(group_id)
    &&& Some(m.user_id) == v.user_id
    &&& m.nickname@ == display_name(opt_view(v.sender_card), opt_view(v.sender_nickname))
    &&& m.timestamp == (match v.time { Some(t) => t, None => now })
    &&& seg_views(m.segments@) == seg_views(v.segments())
    &&& opt_view(m.text) == text_of(seg_views(v.segments()))
    &&& m.kind == kind_of(seg_views(v.segments()))
    &&& m.status == MsgStatus::Pending
    &&& m.process is None
    &&& !m.is_bot
    &&& m.description is None
}

/// Builds a pool message from a message-history entry of a group (used to
/// fill the pool at start-up); `now` stands in for a missing time. `None`
/// for the bot's own messages and for entries without a sender id.
pub fn from_api_value(value: &HistoryMessage, group_id: i64, now: i64) -> (r: Option<PoolMessage>)
    ensures
        r is None <==> skipped_history(*value),
        r matches Some(m) ==> built_from_history(*value, group_id, now, m),
{
    match &value.post_type {
        Some(p) => {
            if str_eq(p.as_str(), "message_sent") {
                return None;
            }
        },
        None => {},
    }
    let user_id = match value.user_id {
        Some(u) => u,
        None => {
            return None;
        },
    };
    let msg_id = match value.message_id {
        Some(id) => id,
        None => 0,
    };
    let timestamp = match value.time {
        Some(t) => t,
        None => now,
    };
    let nickname = name_from(&value.sender_card, &value.sender_nickname);
    let segments = match &value.message {
        Some(m) => duplicate_segments(m),
        None => Vec::new(),
    };
    assert(seg_views(segments@) == seg_views(value.segments()));
    let text = concat_text_segs(&segments);
    let kind = classify_kind(&segments);
    Some(PoolMessage {
        msg_id,
        scope: Scope::Group(group_id),
        user_id,
        nickname,
        timestamp,
        kind,
        text,
        segments,
        status: MsgStatus::Pending,
        process: None,
        is_bot: false,
        description: None,
    })
}

// ── start-up seeding ─────────────────────────────────────────────────────────

/// Messages asked for per history page.
pub const SEED_PAGE_SIZE: usize = 3000;

/// At most this many pages are read per group.
pub const SEED_MAX_PAGES: usize = 20;

/// Indices of the page's entries that go into the pool, in order.
pub open spec fn kept_indices(page: Seq<HistoryMessage>) -> Seq<int>
    decreases page.len(),
{
    if page.len() == 0 {
        Seq::empty()
    } else {
        let k = kept_indices(page.drop_last());
        if skipped_history(page.last()) {
            k
        } else {
            k.push(page.len() - 1)
        }
    }
}

/// Whether some entry of the page is older than the cutoff (a missing time
/// counts as 0).
pub open spec fn reaches_cutoff(page: Seq<HistoryMessage>, cutoff: i64) -> bool {
    exists|i: int| 0 <= i < page.len() && #[trigger] time_or_zero(page[i]) < cutoff
}

/// The entry's time, 0 when missing.
pub open spec fn time_or_zero(v: HistoryMessage) -> i64 {
    match v.time {
        Some(t) => t,
        None => 0,
    }
}

/// Where the next (older) page starts: the first entry's sequence number,
/// else its message id; `None` to stop — on an empty or short page, once the
/// cutoff is reached, or when the start would not move.
pub open spec fn next_page_seq(page: Seq<HistoryMessage>, cutoff: i64, page_seq: Option<i64>) -> Option<i64> {
    if page.len() == 0 || reaches_cutoff(page, cutoff) || page.len() < SEED_PAGE_SIZE {
        None
    } else {
        let n = match page[0].message_seq {
            Some(q) => Some(q),
            None => page[0].message_id,
        };
        if n is None || n == page_seq {
            None
        } else {
            n
        }
    }
}

/// What one page of history gives: the messages to push and where the next
/// page starts (`None`: stop).
pub struct SeedPage {
    pub messages: Vec<PoolMessage>,
    pub next_seq: Option<i64>,
}

/// Processes one page of a group's message history read at `page_seq`.
pub fn seed_page(page: &Vec<HistoryMessage>, group_id: i64, cutoff: i64, page_seq: Option<i64>, now: i64) -> (r: SeedPage)
    ensures
        r.messages@.len() == kept_indices(page@).len(),
        forall|i: int| 0 <= i < r.messages@.len() ==> built_from_history(
            page@[kept_indices(page@)[i]],
            group_id,
            now,
            #[trigger] r.messages@[i],
        ),
        r.next_seq == next_page_seq(page@, cutoff, page_seq),
{
    let mut messages: Vec<PoolMessage> = Vec::new();
    let mut reached = false;
    let mut i: usize = 0;
    while i < page.len()
        invariant
            i <= page@.len(),
            messages@.len() == kept_indices(page@.take(i as int)).len(),
            forall|j: int| 0 <= j < messages@.len() ==> built_from_history(
                page@[kept_indices(page@.take(i as int))[j]],
                group_id,
                now,
                #[trigger] messages@[j],
            ),
            forall|j: int| 0 <= j < kept_indices(page@.take(i as int)).len() ==> 0 <= #[trigger] kept_indices(page@.take(i as int))[j] < i,
            reached == exists|j: int| 0 <= j < i && #[trigger] time_or_zero(page@[j]) < cutoff,
        decreases page.len() - i,
    {
        let v = &page[i];
        let ts = match v.time {
            Some(t) => t,
            None => 0,
        };
        assert(ts == time_or_zero(page@[i as int]));
        if ts < cutoff {
            reached = true;
        }
        let ghost prev = kept_indices(page@.take(i as int));
        assert(page@.take(i as int + 1).drop_last() =~= page@.take(i as int));
        assert(page@.take(i as int + 1).last() == page@[i as int]);
        match from_api_value(v, group_id, now) {
            Some(m) => {
                messages.push(m);
                assert(kept_indices(page@.take(i as int + 1)) == prev.push(i as int));
            },
            None => {
                assert(kept_indices(page@.take(i as int + 1)) == prev);
            },
        }
        i += 1;
    }
    assert(page@.take(page@.len() as int) =~= page@);
    assert(reached == reaches_cutoff(page@, cutoff));
    let next_seq = if page.len() == 0 || reached || page.len() < SEED_PAGE_SIZE {
        None
    } else {
        let n = match page[0].message_seq {
            Some(q) => Some(q),
            None => page[0].message_id,
        };
        if n.is_none() || n == page_seq {
            None
        } else {
            n
        }
    };
    SeedPage { messages, next_seq }
}

// ── queue operations, as specifications ──────────────────────────────────────

/// The index of the first message with the id.
pub open spec fn find_id(q: Seq<PoolMessage>, id: i64) -> Option<int>
    decreases q.len(),
{
    if q.len() == 0 {
        None
    } else if q[0].msg_id == id {
        Some(0)
    } else {
        match find_id(q.drop_first(), id) {
            Some(i) => Some(i + 1),
            None => None,
        }
    }
}

/// The queue without the (first) message of the id.
pub open spec fn without_id(q: Seq<PoolMessage>, id: i64) -> Seq<PoolMessage> {
    match find_id(q, id) {
        Some(i) => q.remove(i),
        None => q,
    }
}

/// Number of leading messages older than `cutoff`.
pub open spec fn leading_expired(q: Seq<PoolMessage>, cutoff: i64) -> nat
    decreases q.len(),
{
    if q.len() > 0 && q[0].timestamp < cutoff {
        1 + leading_expired(q.drop_first(), cutoff)
    } else {
        0
    }
}

/// The queue after evicting old messages from its front.
pub open spec fn drop_expired(q: Seq<PoolMessage>, cutoff: i64) -> Seq<PoolMessage> {
    q.skip(leading_expired(q, cutoff) as int)
}

/// The last `cap` messages of the queue.
pub open spec fn keep_last(q: Seq<PoolMessage>, cap: nat) -> Seq<PoolMessage> {
    if q.len() > cap {
        q.skip(q.len() - cap)
    } else {
        q
    }
}

/// `now - evict`, saturated to the range of `i64`.
pub open spec fn cutoff_of(now: i64, evict: i64) -> i64 {
    let d = now - evict;
    if d < i64::MIN {
        i64::MIN
    } else if d > i64::MAX {
        i64::MAX
    } else {
        d as i64
    }
}

/// A queue after pushing a message: an older message with the same id is
/// dropped, the message is appended, messages older than the cutoff are
/// evicted from the front, then the oldest beyond the capacity.
pub open spec fn push_result(q: Seq<PoolMessage>, msg: PoolMessage, cutoff: i64, cap: nat) -> Seq<PoolMessage> {
    keep_last(drop_expired(without_id(q, msg.msg_id).push(msg), cutoff), cap)
}

/// No two messages of the queue share an id.
pub open spec fn ids_unique(q: Seq<PoolMessage>) -> bool {
    forall|i: int, j: int| 0 <= i < q.len() && 0 <= j < q.len() && i != j ==> q[i].msg_id != q[j].msg_id
}

/// Messages with `since <= timestamp <= until`, in order.
pub open spec fn in_window(q: Seq<PoolMessage>, since: i64, until: i64) -> Seq<PoolMessage>
    decreases q.len(),
{
    if q.len() == 0 {
        Seq::empty()
    } else {
        let r = in_window(q.drop_last(), since, until);
        if since <= q.last().timestamp <= until {
            r.push(q.last())
        } else {
            r
        }
    }
}

/// The message with its processing state set.
pub open spec fn with_process(m: PoolMessage, status: MsgStatus, record: ProcessRecord) -> PoolMessage {
    PoolMessage { status, process: Some(record), ..m }
}

/// The message with its image description set.
pub open spec fn with_description(m: PoolMessage, d: String) -> PoolMessage {
    PoolMessage { description: Some(d), ..m }
}

/// The queue with the message of the id marked as processed.
pub open spec fn mark_result(q: Seq<PoolMessage>, id: i64, status: MsgStatus, record: ProcessRecord) -> Seq<PoolMessage> {
    match find_id(q, id) {
        Some(i) => q.update(i, with_process(q[i], status, record)),
        None => q,
    }
}

/// The queue with the message of the id given a description.
pub open spec fn describe_result(q: Seq<PoolMessage>, id: i64, d: String) -> Seq<PoolMessage> {
    match find_id(q, id) {
        Some(i) => q.update(i, with_description(q[i], d)),
        None => q,
    }
}

/// In a queue without repeated ids, each message is found at its own place.
pub proof fn lemma_find_each(q: Seq<PoolMessage>)
    requires
        ids_unique(q),
    ensures
        forall|i: int| 0 <= i < q.len() ==> find_id(q, #[trigger] q[i].msg_id) == Some(i),
{
    assert forall|i: int| 0 <= i < q.len() implies find_id(q, #[trigger] q[i].msg_id) == Some(i) by {
        lemma_find_id(q, q[i].msg_id);
    }
}

pub proof fn lemma_find_id(q: Seq<PoolMessage>, id: i64)
    ensures
        find_id(q, id) matches Some(i) ==> 0 <= i < q.len() && q[i].msg_id == id
            && forall|j: int| 0 <= j < i ==> q[j].msg_id != id,
        find_id(q, id) is None ==> forall|j: int| 0 <= j < q.len() ==> q[j].msg_id != id,
    decreases q.len(),
{
    if q.len() > 0 {
        lemma_find_id(q.drop_first(), id);
        assert forall|j: int| 0 < j < q.len() implies q[j] == q.drop_first()[j - 1] by {}
    }
}

pub proof fn lemma_leading_expired(q: Seq<PoolMessage>, cutoff: i64)
    ensures
        leading_expired(q, cutoff) <= q.len(),
        forall|j: int| 0 <= j < leading_expired(q, cutoff) ==> q[j].timestamp < cutoff,
        leading_expired(q, cutoff) < q.len() ==> q[leading_expired(q, cutoff) as int].timestamp >= cutoff,
    decreases q.len(),
{
    if q.len() > 0 && q[0].timestamp < cutoff {
        lemma_leading_expired(q.drop_first(), cutoff);
        assert forall|j: int| 0 < j < q.len() implies q[j] == q.drop_first()[j - 1] by {}
    }
}

proof fn lemma_unique_sub(q: Seq<PoolMessage>, k: int)
    requires
        ids_unique(q),
        0 <= k <= q.len(),
    ensures
        ids_unique(q.skip(k)),
{
    assert forall|i: int, j: int| 0 <= i < q.skip(k).len() && 0 <= j < q.skip(k).len() && i != j
        implies q.skip(k)[i].msg_id != q.skip(k)[j].msg_id by {
        assert(q.skip(k)[i] == q[i + k] && q.skip(k)[j] == q[j + k]);
    }
}

/// Pushing keeps the queue's ids unique and its length within the capacity.
pub proof fn law_push_bounded_unique(q: Seq<PoolMessage>, msg: PoolMessage, cutoff: i64, cap: nat)
    requires
        ids_unique(q),
    ensures
        ids_unique(push_result(q, msg, cutoff, cap)),
        push_result(q, msg, cutoff, cap).len() <= cap,
{
    let w = without_id(q, msg.msg_id);
    lemma_find_id(q, msg.msg_id);
    assert(forall|j: int| 0 <= j < w.len() ==> w[j].msg_id != msg.msg_id) by {
        match find_id(q, msg.msg_id) {
            Some(i) => {
                assert forall|j: int| 0 <= j < w.len() implies w[j].msg_id != msg.msg_id by {
                    if j < i {
                        assert(w[j] == q[j]);
                    } else {
                        assert(w[j] == q[j + 1]);
                    }
                }
            },
            None => {},
        }
    }
    assert(ids_unique(w)) by {
        match find_id(q, msg.msg_id) {
            Some(i) => {
                assert forall|a: int, b: int| 0 <= a < w.len() && 0 <= b < w.len() && a != b
                    implies w[a].msg_id != w[b].msg_id by {
                    let aa = if a < i { a } else { a + 1 };
                    let bb = if b < i { b } else { b + 1 };
                    assert(w[a] == q[aa] && w[b] == q[bb]);
                }
            },
            None => {},
        }
    }
    let p = w.push(msg);
    assert(ids_unique(p)) by {
        assert forall|a: int, b: int| 0 <= a < p.len() && 0 <= b < p.len() && a != b
            implies p[a].msg_id != p[b].msg_id by {
            if a < w.len() && b < w.len() {
                assert(p[a] == w[a] && p[b] == w[b]);
            } else if a < w.len() {
                assert(p[a] == w[a]);
            } else if b < w.len() {
                assert(p[b] == w[b]);
            }
        }
    }
    lemma_leading_expired(p, cutoff);
    let d = drop_expired(p, cutoff);
    lemma_unique_sub(p, leading_expired(p, cutoff) as int);
    if d.len() > cap {
        lemma_unique_sub(d, d.len() - cap);
    }
}

/// A pushed message that is not older than the cutoff stays in the queue,
/// as its newest entry, and is the one found under its id.
pub proof fn law_push_then_find(q: Seq<PoolMessage>, msg: PoolMessage, cutoff: i64, cap: nat)
    requires
        ids_unique(q),
        cap > 0,
        msg.timestamp >= cutoff,
    ensures
        push_result(q, msg, cutoff, cap).len() > 0,
        push_result(q, msg, cutoff, cap).last() == msg,
        find_id(push_result(q, msg, cutoff, cap), msg.msg_id) == Some((push_result(q, msg, cutoff, cap).len() - 1) as int),
{
    law_push_bounded_unique(q, msg, cutoff, cap);
    let w = without_id(q, msg.msg_id);
    let p = w.push(msg);
    lemma_leading_expired(p, cutoff);
    let k = leading_expired(p, cutoff);
    assert(k < p.len()) by {
        if k == p.len() {
            assert(p[p.len() - 1].timestamp < cutoff);
        }
    }
    let d = drop_expired(p, cutoff);
    assert(d.last() == msg);
    let r = push_result(q, msg, cutoff, cap);
    assert(r.last() == msg);
    lemma_find_id(r, msg.msg_id);
    match find_id(r, msg.msg_id) {
        Some(i) => {
            if i != r.len() - 1 {
                assert(r[i].msg_id == r[r.len() - 1].msg_id);
            }
        },
        None => {
            assert(r[r.len() - 1].msg_id == msg.msg_id);
        },
    }
}

/// Marking a message changes only its processing state; the message found
/// under its id then carries the new state.
pub proof fn law_mark_then_find(q: Seq<PoolMessage>, id: i64, status: MsgStatus, record: ProcessRecord)
    ensures
        mark_result(q, id, status, record).len() == q.len(),
        find_id(mark_result(q, id, status, record), id) == find_id(q, id),
        find_id(q, id) matches Some(i) ==> mark_result(q, id, status, record)[i]
            == with_process(q[i], status, record),
{
    lemma_find_id(q, id);
    let r = mark_result(q, id, status, record);
    lemma_find_id(r, id);
    match find_id(q, id) {
        Some(i) => {
            assert(r[i].msg_id == id);
            match find_id(r, id) {
                Some(j) => {
                    if j < i {
                        assert(r[j] == q[j]);
                    }
                    if j > i {
                        assert(r[i].msg_id == id);
                    }
                },
                None => {
                    assert(r[i].msg_id == id);
                },
            }
        },
        None => {},
    }
}

// ── the pool ─────────────────────────────────────────────────────────────────

/// `now - evict`, saturated.
fn cutoff(now: i64, evict: i64) -> (c: i64)
    ensures
        c == cutoff_of(now, evict),
{
    match now.checked_sub(evict) {
        Some(d) => d,
        None => {
            if evict > 0 {
                i64::MIN
            } else {
                i64::MAX
            }
        },
    }
}

/// Message buffer: one queue per scope, oldest first.
///
/// Eviction on every push: a message with the same id is replaced (the old
/// one dropped, the new one appended), messages older than
/// `now - evict_after_secs` leave from the front, then the oldest beyond the
/// capacity.
pub struct MemoryPool {
    scopes: Vec<(Scope, Vec<PoolMessage>)>,
    capacity: usize,
    evict_after_secs: i64,
}

impl MemoryPool {
    /// Scopes are distinct; every queue has unique ids and fits the capacity.
    #[verifier::type_invariant]
    pub closed spec fn inv(&self) -> bool {
        &&& forall|i: int, j: int| 0 <= i < self.scopes@.len() && 0 <= j < self.scopes@.len() && i != j
            ==> self.scopes@[i].0 != self.scopes@[j].0
        &&& forall|i: int| 0 <= i < self.scopes@.len() ==> ids_unique(#[trigger] self.scopes@[i].1@)
        &&& forall|i: int| 0 <= i < self.scopes@.len() ==> (#[trigger] self.scopes@[i].1@).len() <= self.capacity
    }

    closed spec fn has_scope(&self, s: Scope) -> bool {
        exists|i: int| 0 <= i < self.scopes@.len() && self.scopes@[i].0 == s
    }

    /// The queue of a scope, oldest first (empty when the scope has none).
    pub closed spec fn queue(&self, s: Scope) -> Seq<PoolMessage> {
        if self.has_scope(s) {
            self.scopes@[choose|i: int| 0 <= i < self.scopes@.len() && self.scopes@[i].0 == s].1@
        } else {
            Seq::empty()
        }
    }

    pub closed spec fn capacity(&self) -> nat {
        self.capacity as nat
    }

    pub closed spec fn evict_after(&self) -> i64 {
        self.evict_after_secs
    }

    /// The queue of the scope at index `i` is the scope's queue.
    proof fn lemma_queue_at(&self, i: int)
        requires
            self.inv(),
            0 <= i < self.scopes@.len(),
        ensures
            self.queue(self.scopes@[i].0) == self.scopes@[i].1@,
    {
        let s = self.scopes@[i].0;
        assert(self.has_scope(s));
    }

    /// Every queue has unique ids and respects the capacity.
    pub proof fn lemma_queue_bounds(&self, s: Scope)
        requires
            self.inv(),
        ensures
            ids_unique(self.queue(s)),
            self.queue(s).len() <= self.capacity(),
    {
        if self.has_scope(s) {
            let i = choose|i: int| 0 <= i < self.scopes@.len() && self.scopes@[i].0 == s;
            assert(ids_unique(self.scopes@[i].1@));
            assert(self.scopes@[i].1@.len() <= self.capacity);
        }
    }

    /// Every queued message is the one found under its id, so `get_message`
    /// with its id and scope returns it.
    pub proof fn law_queued_found(&self, s: Scope)
        requires
            self.inv(),
        ensures
            forall|i: int| 0 <= i < self.queue(s).len() ==> find_id(self.queue(s), #[trigger] self.queue(s)[i].msg_id) == Some(i),
    {
        self.lemma_queue_bounds(s);
        lemma_find_each(self.queue(s));
    }

    /// An empty pool with the configured limits.
    pub fn new(cfg: &PoolConfig) -> (p: Self)
        ensures
            p.capacity() == cfg.per_group_capacity,
            p.evict_after() == cfg.evict_after_secs,
            forall|s: Scope| p.queue(s) == Seq::<PoolMessage>::empty(),
    {
        MemoryPool { scopes: Vec::new(), capacity: cfg.per_group_capacity, evict_after_secs: cfg.evict_after_secs }
    }

    fn scope_index(&self, s: &Scope) -> (r: Option<usize>)
        requires
            self.inv(),
        ensures
            r matches Some(i) ==> i < self.scopes@.len() && self.scopes@[i as int].0 == *s
                && self.queue(*s) == self.scopes@[i as int].1@,
            r is None ==> !self.has_scope(*s) && self.queue(*s) == Seq::<PoolMessage>::empty(),
    {
        let mut i: usize = 0;
        while i < self.scopes.len()
            invariant
                i <= self.scopes@.len(),
                self.inv(),
                forall|j: int| 0 <= j < i ==> self.scopes@[j].0 != *s,
            decreases self.scopes.len() - i,
        {
            if self.scopes[i].0 == *s {
                proof { self.lemma_queue_at(i as int); }
                return Some(i);
            }
            i += 1;
        }
        None
    }

    /// Pushes a message at time `now` (Unix seconds), with eviction.
    pub fn push_at(&mut self, msg: PoolMessage, now: i64)
        ensures
            final(self).capacity() == old(self).capacity(),
            final(self).evict_after() == old(self).evict_after(),
            final(self).queue(msg.scope) == push_result(
                old(self).queue(msg.scope),
                msg,
                cutoff_of(now, old(self).evict_after()),
                old(self).capacity(),
            ),
            forall|s: Scope| s != msg.scope ==> final(self).queue(s) == old(self).queue(s),
            // a message not older than the cutoff is then the newest of its
            // scope and the one found under its id
            old(self).capacity() > 0 && msg.timestamp >= cutoff_of(now, old(self).evict_after()) ==> {
                let q = final(self).queue(msg.scope);
                &&& q.len() > 0
                &&& q.last() == msg
                &&& find_id(q, msg.msg_id) == Some((q.len() - 1) as int)
            },
    {
        proof { use_type_invariant(&*self); }
        let ghost old_self = *self;
        let ghost m0 = msg;
        let cut = cutoff(now, self.evict_after_secs);
        let scope = msg.scope;
        let found = self.scope_index(&scope);
        let mut scopes: Vec<(Scope, Vec<PoolMessage>)> = Vec::new();
        std::mem::swap(&mut scopes, &mut self.scopes);
        let ghost old_scopes = scopes@;
        let (pos, mut q) = match found {
            Some(i) => {
                let (_, q) = scopes.remove(i);
                (i, q)
            },
            None => (scopes.len(), Vec::new()),
        };
        let ghost q0 = q@;
        proof { old_self.lemma_queue_bounds(scope); }
        assert(q0 == old_self.queue(scope));
        // drop an older message with the same id
        let mut k: usize = 0;
        assert(q0.skip(0) =~= q0);
        while k < q.len() && q[k].msg_id != msg.msg_id
            invariant
                k <= q@.len(),
                q@ == q0,
                find_id(q0, m0.msg_id) == (match find_id(q0.skip(k as int), m0.msg_id) {
                    Some(j) => Some(j + k),
                    None => None,
                }),
                msg == m0,
            decreases q.len() - k,
        {
            assert(q0.skip(k as int).drop_first() =~= q0.skip(k as int + 1));
            assert(q0.skip(k as int)[0] == q0[k as int]);
            k += 1;
        }
        if k < q.len() {
            assert(q0.skip(k as int)[0] == q0[k as int]);
            q.remove(k);
        } else {
            assert(q0.skip(k as int).len() == 0);
        }
        assert(q@ == without_id(q0, m0.msg_id));
        q.push(msg);
        let ghost p = q@;
        // evict expired messages from the front
        let mut e: usize = 0;
        assert(p.skip(0) =~= p);
        while e < q.len() && q[e].timestamp < cut
            invariant
                e <= q@.len(),
                q@ == p,
                leading_expired(p, cut) == e + leading_expired(p.skip(e as int), cut),
            decreases q.len() - e,
        {
            assert(p.skip(e as int).drop_first() =~= p.skip(e as int + 1));
            assert(p.skip(e as int)[0] == p[e as int]);
            e += 1;
        }
        proof {
            if e < p.len() {
                assert(p.skip(e as int)[0] == p[e as int]);
            }
        }
        assert(leading_expired(p, cut) == e);
        let mut q2 = q.split_off(e);
        assert(q2@ =~= drop_expired(p, cut));
        // evict the oldest beyond the capacity
        let q3 = if q2.len() > self.capacity {
            let at = q2.len() - self.capacity;
            let t = q2.split_off(at);
            assert(t@ =~= keep_last(drop_expired(p, cut), old_self.capacity()));
            t
        } else {
            q2
        };
        assert(q3@ == push_result(q0, m0, cut, old_self.capacity()));
        proof {
            law_push_bounded_unique(q0, m0, cut, old_self.capacity());
        }
        scopes.insert(pos, (scope, q3));
        proof {
            if found is Some {
                assert(scopes@ =~= old_scopes.update(pos as int, (scope, q3)));
            } else {
                assert(scopes@ =~= old_scopes.push((scope, q3)));
            }
            assert forall|i: int, j: int| 0 <= i < scopes@.len() && 0 <= j < scopes@.len() && i != j
                implies scopes@[i].0 != scopes@[j].0 by {
                if i != pos && j != pos {
                    assert(scopes@[i] == old_scopes[i] && scopes@[j] == old_scopes[j]);
                } else if i == pos && found is None {
                    assert(scopes@[j] == old_scopes[j]);
                    assert(old_self.scopes@[j].0 != scope);
                } else if j == pos && found is None {
                    assert(scopes@[i] == old_scopes[i]);
                    assert(old_self.scopes@[i].0 != scope);
                } else if i == pos {
                    assert(scopes@[j] == old_scopes[j]);
                } else {
                    assert(scopes@[i] == old_scopes[i]);
                }
            }
            assert forall|i: int| 0 <= i < scopes@.len() implies ids_unique(#[trigger] scopes@[i].1@)
                && scopes@[i].1@.len() <= old_self.capacity by {
                if i != pos {
                    assert(scopes@[i] == old_scopes[i]);
                }
            }
        }
        self.scopes = scopes;
        proof {
            use_type_invariant(&*self);
            self.lemma_queue_at(pos as int);
            assert forall|s: Scope| s != scope implies self.queue(s) == old_self.queue(s) by {
                if old_self.has_scope(s) {
                    let j = choose|j: int| 0 <= j < old_self.scopes@.len() && old_self.scopes@[j].0 == s;
                    old_self.lemma_queue_at(j);
                    assert(j != pos);
                    assert(self.scopes@[j] == old_self.scopes@[j]);
                    self.lemma_queue_at(j);
                } else if self.has_scope(s) {
                    let j = choose|j: int| 0 <= j < self.scopes@.len() && self.scopes@[j].0 == s;
                    assert(j != pos);
                    assert(self.scopes@[j] == old_self.scopes@[j]);
                }
            }
            if old_self.capacity() > 0 && m0.timestamp >= cut {
                law_push_then_find(q0, m0, cut, old_self.capacity());
            }
        }
    }
}


impl MemoryPool {
    /// Pushes a message at the current time, with eviction.
    pub fn push(&mut self, msg: PoolMessage)
        ensures
            final(self).capacity() == old(self).capacity(),
            final(self).evict_after() == old(self).evict_after(),
            exists|now: i64| {
                &&& final(self).queue(msg.scope) == #[trigger] push_result(
                    old(self).queue(msg.scope),
                    msg,
                    cutoff_of(now, old(self).evict_after()),
                    old(self).capacity(),
                )
                &&& old(self).capacity() > 0 && msg.timestamp >= cutoff_of(now, old(self).evict_after()) ==> {
                    let q = final(self).queue(msg.scope);
                    &&& q.len() > 0
                    &&& q.last() == msg
                    &&& find_id(q, msg.msg_id) == Some((q.len() - 1) as int)
                }
            },
            forall|s: Scope| s != msg.scope ==> final(self).queue(s) == old(self).queue(s),
    {
        let now = unix_timestamp();
        self.push_at(msg, now);
    }

    /// The last `n` messages of a scope, oldest first.
    pub fn recent_internal(&self, scope: &Scope, n: usize) -> (r: Vec<&PoolMessage>)
        ensures
            r@.len() == (if n >= self.queue(*scope).len() { self.queue(*scope).len() } else { n as nat }),
            forall|i: int| 0 <= i < r@.len() ==> *r@[i] == self.queue(*scope)[self.queue(*scope).len() - r@.len() + i],
    {
        proof { use_type_invariant(self); }
        let mut r: Vec<&PoolMessage> = Vec::new();
        match self.scope_index(scope) {
            None => r,
            Some(p) => {
                let q = &self.scopes[p].1;
                let start = if n >= q.len() { 0 } else { q.len() - n };
                let mut i = start;
                while i < q.len()
                    invariant
                        start <= i <= q@.len(),
                        start == (if n >= q@.len() { 0 } else { q@.len() - n }),
                        r@.len() == i - start,
                        forall|j: int| 0 <= j < r@.len() ==> *r@[j] == q@[start + j],
                    decreases q.len() - i,
                {
                    r.push(&q[i]);
                    i += 1;
                }
                r
            },
        }
    }

    /// The messages of a scope with `since <= timestamp <= until`, in order.
    pub fn range(&self, scope: &Scope, since: i64, until: i64) -> (r: Vec<&PoolMessage>)
        ensures
            r@.map_values(|m: &PoolMessage| *m) == in_window(self.queue(*scope), since, until),
    {
        proof { use_type_invariant(self); }
        let mut r: Vec<&PoolMessage> = Vec::new();
        match self.scope_index(scope) {
            None => {
                assert(r@.map_values(|m: &PoolMessage| *m) =~= Seq::<PoolMessage>::empty());
                r
            },
            Some(p) => {
                let q = &self.scopes[p].1;
                let mut i: usize = 0;
                while i < q.len()
                    invariant
                        i <= q@.len(),
                        r@.map_values(|m: &PoolMessage| *m) =~= in_window(q@.take(i as int), since, until),
                    decreases q.len() - i,
                {
                    assert(q@.take(i as int + 1).drop_last() =~= q@.take(i as int));
                    let m = &q[i];
                    if m.timestamp >= since && m.timestamp <= until {
                        r.push(m);
                    }
                    i += 1;
                }
                assert(q@.take(q@.len() as int) =~= q@);
                r
            },
        }
    }

    /// The time of the oldest message of a scope, if it has any.
    pub fn oldest_timestamp(&self, scope: &Scope) -> (r: Option<i64>)
        ensures
            r == (if self.queue(*scope).len() > 0 { Some(self.queue(*scope)[0].timestamp) } else { None::<i64> }),
    {
        proof { use_type_invariant(self); }
        match self.scope_index(scope) {
            None => None,
            Some(p) => {
                if self.scopes[p].1.len() > 0 {
                    Some(self.scopes[p].1[0].timestamp)
                } else {
                    None
                }
            },
        }
    }

    /// The message of a scope with the id.
    pub fn get_message(&self, msg_id: i64, scope: &Scope) -> (r: Option<&PoolMessage>)
        ensures
            r matches Some(m) ==> find_id(self.queue(*scope), msg_id) matches Some(i) && *m == self.queue(*scope)[i],
            r is None ==> find_id(self.queue(*scope), msg_id) is None,
    {
        proof { use_type_invariant(self); }
        match self.scope_index(scope) {
            None => None,
            Some(p) => {
                let q = &self.scopes[p].1;
                match find_index(q, msg_id) {
                    Some(i) => Some(&q[i]),
                    None => None,
                }
            },
        }
    }

    proof fn lemma_replaced(old_pool: MemoryPool, new_pool: MemoryPool, p: int)
        requires
            old_pool.inv(),
            new_pool.inv(),
            0 <= p < old_pool.scopes@.len(),
            new_pool.scopes@.len() == old_pool.scopes@.len(),
            new_pool.scopes@[p].0 == old_pool.scopes@[p].0,
            forall|j: int| 0 <= j < old_pool.scopes@.len() && j != p ==> new_pool.scopes@[j] == old_pool.scopes@[j],
        ensures
            new_pool.queue(old_pool.scopes@[p].0) == new_pool.scopes@[p].1@,
            forall|t: Scope| t != old_pool.scopes@[p].0 ==> new_pool.queue(t) == old_pool.queue(t),
    {
        new_pool.lemma_queue_at(p);
        let s0 = old_pool.scopes@[p].0;
        assert forall|t: Scope| t != s0 implies new_pool.queue(t) == old_pool.queue(t) by {
            if old_pool.has_scope(t) {
                let j = choose|j: int| 0 <= j < old_pool.scopes@.len() && old_pool.scopes@[j].0 == t;
                old_pool.lemma_queue_at(j);
                new_pool.lemma_queue_at(j);
            } else if new_pool.has_scope(t) {
                let j = choose|j: int| 0 <= j < new_pool.scopes@.len() && new_pool.scopes@[j].0 == t;
                assert(new_pool.scopes@[j] == old_pool.scopes@[j]);
            }
        }
    }

    /// Records how a command handled a message: its status and record.
    pub fn mark(&mut self, msg_id: i64, scope: &Scope, status: MsgStatus, record: ProcessRecord)
        ensures
            final(self).capacity() == old(self).capacity(),
            final(self).evict_after() == old(self).evict_after(),
            final(self).queue(*scope) == mark_result(old(self).queue(*scope), msg_id, status, record),
            forall|s: Scope| s != *scope ==> final(self).queue(s) == old(self).queue(s),
    {
        proof { use_type_invariant(&*self); }
        let ghost old_self = *self;
        match self.scope_index(scope) {
            None => {},
            Some(p) => {
                let mut scopes: Vec<(Scope, Vec<PoolMessage>)> = Vec::new();
                std::mem::swap(&mut scopes, &mut self.scopes);
                let ghost old_scopes = scopes@;
                let (s, mut q) = scopes.remove(p);
                let ghost q0 = q@;
                match find_index(&q, msg_id) {
                    Some(i) => {
                        let mut m = q.remove(i);
                        m.status = status;
                        m.process = Some(record);
                        q.insert(i, m);
                        assert(q@ =~= q0.update(i as int, with_process(q0[i as int], status, record)));
                    },
                    None => {},
                }
                assert(q@ == mark_result(q0, msg_id, status, record));
                assert(forall|j: int| 0 <= j < q@.len() ==> q@[j].msg_id == q0[j].msg_id);
                assert(ids_unique(q@)) by {
                    assert(ids_unique(old_scopes[p as int].1@));
                }
                scopes.insert(p, (s, q));
                proof {
                    assert(scopes@ =~= old_scopes.update(p as int, (s, q)));
                    assert(forall|j: int| 0 <= j < scopes@.len() && j != p ==> scopes@[j] == old_scopes[j]);
                    assert forall|i: int| 0 <= i < scopes@.len() implies ids_unique(#[trigger] scopes@[i].1@)
                        && scopes@[i].1@.len() <= old_self.capacity by {
                        if i != p {
                            assert(scopes@[i] == old_scopes[i]);
                        }
                    }
                    assert forall|i: int, j: int| 0 <= i < scopes@.len() && 0 <= j < scopes@.len() && i != j
                        implies scopes@[i].0 != scopes@[j].0 by {
                        assert(scopes@[i].0 == old_scopes[i].0 && scopes@[j].0 == old_scopes[j].0);
                    }
                }
                self.scopes = scopes;
                proof {
                    use_type_invariant(&*self);
                    Self::lemma_replaced(old_self, *self, p as int);
                }
            },
        }
    }

    /// Caches the description of a message's image.
    pub fn update_description(&mut self, msg_id: i64, scope: &Scope, description: String)
        ensures
            final(self).capacity() == old(self).capacity(),
            final(self).evict_after() == old(self).evict_after(),
            final(self).queue(*scope) == describe_result(old(self).queue(*scope), msg_id, description),
            forall|s: Scope| s != *scope ==> final(self).queue(s) == old(self).queue(s),
    {
        proof { use_type_invariant(&*self); }
        let ghost old_self = *self;
        match self.scope_index(scope) {
            None => {},
            Some(p) => {
                let mut scopes: Vec<(Scope, Vec<PoolMessage>)> = Vec::new();
                std::mem::swap(&mut scopes, &mut self.scopes);
                let ghost old_scopes = scopes@;
                let (s, mut q) = scopes.remove(p);
                let ghost q0 = q@;
                match find_index(&q, msg_id) {
                    Some(i) => {
                        let mut m = q.remove(i);
                        m.description = Some(description);
                        q.insert(i, m);
                        assert(q@ =~= q0.update(i as int, with_description(q0[i as int], description)));
                    },
                    None => {},
                }
                assert(q@ == describe_result(q0, msg_id, description));
                assert(forall|j: int| 0 <= j < q@.len() ==> q@[j].msg_id == q0[j].msg_id);
                assert(ids_unique(q@)) by {
                    assert(ids_unique(old_scopes[p as int].1@));
                }
                scopes.insert(p, (s, q));
                proof {
                    assert(scopes@ =~= old_scopes.update(p as int, (s, q)));
                    assert(forall|j: int| 0 <= j < scopes@.len() && j != p ==> scopes@[j] == old_scopes[j]);
                    assert forall|i: int| 0 <= i < scopes@.len() implies ids_unique(#[trigger] scopes@[i].1@)
                        && scopes@[i].1@.len() <= old_self.capacity by {
                        if i != p {
                            assert(scopes@[i] == old_scopes[i]);
                        }
                    }
                    assert forall|i: int, j: int| 0 <= i < scopes@.len() && 0 <= j < scopes@.len() && i != j
                        implies scopes@[i].0 != scopes@[j].0 by {
                        assert(scopes@[i].0 == old_scopes[i].0 && scopes@[j].0 == old_scopes[j].0);
                    }
                }
                self.scopes = scopes;
                proof {
                    use_type_invariant(&*self);
                    Self::lemma_replaced(old_self, *self, p as int);
                }
            },
        }
    }
}

/// The index of the first message with the id.
fn find_index(q: &Vec<PoolMessage>, id: i64) -> (r: Option<usize>)
    ensures
        r matches Some(k) ==> find_id(q@, id) == Some(k as int) && k < q@.len() && q@[k as int].msg_id == id,
        r is None ==> find_id(q@, id) is None,
{
    proof { lemma_find_id(q@, id); }
    let mut k: usize = 0;
    assert(q@.skip(0) =~= q@);
    while k < q.len() && q[k].msg_id != id
        invariant
            k <= q@.len(),
            find_id(q@, id) == (match find_id(q@.skip(k as int), id) {
                Some(j) => Some(j + k),
                None => None,
            }),
        decreases q.len() - k,
    {
        assert(q@.skip(k as int).drop_first() =~= q@.skip(k as int + 1));
        assert(q@.skip(k as int)[0] == q@[k as int]);
        k += 1;
    }
    if k < q.len() {
        assert(q@.skip(k as int)[0] == q@[k as int]);
        Some(k)
    } else {
        assert(q@.skip(k as int).len() == 0);
        None
    }
}

} // verus!
