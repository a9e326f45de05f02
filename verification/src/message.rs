//! OneBot v11 message model: segments and message events.
//!
//! A segment is a type tag plus a `data` object. The object's values are
//! held as plain values: strings, integers that fit `i64`, and any other
//! JSON value as its serialized text.
use vstd::prelude::*;

use crate::strmap::StrMap;
use crate::text::{chars_of, dec_int, parse_i64, parse_i64_spec, push_i64, push_str, str_eq};

verus! {

/// A value of a segment's `data` object.
pub enum DataValue {
    /// A JSON string.
    Str(String),
    /// A JSON number that fits `i64`.
    Int(i64),
    /// Any other JSON value, as its serialized text.
    Json(String),
}

pub enum DataValueView {
    Str(Seq<char>),
    Int(i64),
    Json(Seq<char>),
}

impl View for DataValue {
    type V = DataValueView;

    open spec fn view(&self) -> DataValueView {
        match self {
            DataValue::Str(s) => DataValueView::Str(s@),
            DataValue::Int(n) => DataValueView::Int(*n),
            DataValue::Json(s) => DataValueView::Json(s@),
        }
    }
}

/// One segment of a message: `{"type": ..., "data": {...}}`.
pub struct MessageSegment {
    /// text / image / at / face / record / video / ...
    pub seg_type: String,
    /// The `data` object.
    pub data: StrMap<DataValue>,
}

/// A segment as plain values.
pub struct SegmentView {
    pub seg_type: Seq<char>,
    pub data: Map<Seq<char>, DataValueView>,
}

impl View for MessageSegment {
    type V = SegmentView;

    open spec fn view(&self) -> SegmentView {
        SegmentView { seg_type: self.seg_type@, data: self.data@ }
    }
}

/// The views of a list of segments.
pub open spec fn seg_views(v: Seq<MessageSegment>) -> Seq<SegmentView> {
    v.map_values(|s: MessageSegment| s@)
}

/// The string stored under `key` in the segment's data, if it is a string.
pub open spec fn data_str(seg: SegmentView, key: Seq<char>) -> Option<Seq<char>> {
    if seg.data.contains_key(key) {
        match seg.data[key] {
            DataValueView::Str(s) => Some(s),
            _ => None,
        }
    } else {
        None
    }
}

/// The data string under `key` when the segment has type `ty`.
pub open spec fn typed_str(seg: SegmentView, ty: Seq<char>, key: Seq<char>) -> Option<Seq<char>> {
    if seg.seg_type == ty {
        data_str(seg, key)
    } else {
        None
    }
}

/// The text of a text segment.
pub open spec fn seg_text(seg: SegmentView) -> Option<Seq<char>> {
    typed_str(seg, "text"@, "text"@)
}

/// The numeric target of an @ segment: its `qq` value as an integer, or as
/// a string that parses as one.
pub open spec fn at_target(seg: SegmentView) -> Option<i64> {
    if seg.seg_type == "at"@ && seg.data.contains_key("qq"@) {
        match seg.data["qq"@] {
            DataValueView::Str(s) => parse_i64_spec(s),
            DataValueView::Int(n) => Some(n),
            DataValueView::Json(_) => None,
        }
    } else {
        None
    }
}

impl MessageSegment {
    fn data_string(&self, key: &str) -> (r: Option<&str>)
        ensures
            match r {
                Some(s) => data_str(self@, key@) == Some(s@),
                None => data_str(self@, key@).is_none(),
            },
    {
        match self.data.get(key) {
            Some(DataValue::Str(s)) => Some(s.as_str()),
            _ => None,
        }
    }

    fn typed_string(&self, ty: &str, key: &str) -> (r: Option<&str>)
        ensures
            match r {
                Some(s) => typed_str(self@, ty@, key@) == Some(s@),
                None => typed_str(self@, ty@, key@).is_none(),
            },
    {
        if str_eq(self.seg_type.as_str(), ty) {
            self.data_string(key)
        } else {
            None
        }
    }

    pub fn is_text(&self) -> (b: bool)
        ensures
            b == (self.seg_type@ == "text"@),
    {
        str_eq(self.seg_type.as_str(), "text")
    }

    /// The text of a text segment.
    pub fn as_text(&self) -> (r: Option<&str>)
        ensures
            match r {
                Some(s) => seg_text(self@) == Some(s@),
                None => seg_text(self@).is_none(),
            },
    {
        self.typed_string("text", "text")
    }

    pub fn is_image(&self) -> (b: bool)
        ensures
            b == (self.seg_type@ == "image"@),
    {
        str_eq(self.seg_type.as_str(), "image")
    }

    /// The `url` of an image segment.
    pub fn image_url(&self) -> (r: Option<&str>)
        ensures
            match r {
                Some(s) => typed_str(self@, "image"@, "url"@) == Some(s@),
                None => typed_str(self@, "image"@, "url"@).is_none(),
            },
    {
        self.typed_string("image", "url")
    }

    /// The `file` of an image segment (a `base64://` payload or a path).
    pub fn image_file(&self) -> (r: Option<&str>)
        ensures
            match r {
                Some(s) => typed_str(self@, "image"@, "file"@) == Some(s@),
                None => typed_str(self@, "image"@, "file"@).is_none(),
            },
    {
        self.typed_string("image", "file")
    }

    pub fn is_at(&self) -> (b: bool)
        ensures
            b == (self.seg_type@ == "at"@),
    {
        str_eq(self.seg_type.as_str(), "at")
    }

    /// The target of an @ segment as a string (`"all"` means everyone).
    pub fn at_qq(&self) -> (r: Option<&str>)
        ensures
            match r {
                Some(s) => typed_str(self@, "at"@, "qq"@) == Some(s@),
                None => typed_str(self@, "at"@, "qq"@).is_none(),
            },
    {
        self.typed_string("at", "qq")
    }

    /// The target of an @ segment as a QQ number.
    pub fn at_qq_id(&self) -> (r: Option<i64>)
        ensures
            r == at_target(self@),
    {
        if !self.is_at() {
            return None;
        }
        match self.data.get("qq") {
            Some(DataValue::Str(s)) => {
                let cs = chars_of(s.as_str());
                parse_i64(&cs)
            },
            Some(DataValue::Int(n)) => Some(*n),
            _ => None,
        }
    }

    pub fn is_reply(&self) -> (b: bool)
        ensures
            b == (self.seg_type@ == "reply"@),
    {
        str_eq(self.seg_type.as_str(), "reply")
    }

    pub fn is_face(&self) -> (b: bool)
        ensures
            b == (self.seg_type@ == "face"@),
    {
        str_eq(self.seg_type.as_str(), "face")
    }

    /// The id of a forward segment.
    pub fn forward_id(&self) -> (r: Option<&str>)
        ensures
            match r {
                Some(s) => typed_str(self@, "forward"@, "id"@) == Some(s@),
                None => typed_str(self@, "forward"@, "id"@).is_none(),
            },
    {
        self.typed_string("forward", "id")
    }

    /// A text segment.
    pub fn text(content: &str) -> (seg: Self)
        ensures
            seg.seg_type@ == "text"@,
            seg.data@ == map!["text"@ => DataValueView::Str(content@)],
            seg_text(seg@) == Some(content@),
    {
        let mut data: StrMap<DataValue> = StrMap::new();
        data.insert("text".to_string(), DataValue::Str(content.to_string()));
        let seg = MessageSegment { seg_type: "text".to_string(), data };
        assert(seg.data@ =~= map!["text"@ => DataValueView::Str(content@)]);
        seg
    }

    /// An @ segment mentioning a QQ number (given as text, as the protocol
    /// writes it).
    pub fn at(qq: i64) -> (seg: Self)
        ensures
            seg.seg_type@ == "at"@,
            seg.data@ == map!["qq"@ => DataValueView::Str(dec_int(qq as int))],
    {
        let mut text = String::new();
        push_i64(&mut text, qq);
        let mut data: StrMap<DataValue> = StrMap::new();
        data.insert("qq".to_string(), DataValue::Str(text));
        let seg = MessageSegment { seg_type: "at".to_string(), data };
        assert(seg.data@ =~= map!["qq"@ => DataValueView::Str(dec_int(qq as int))]);
        seg
    }

    /// An image segment (a URL or a `base64://` payload).
    pub fn image(file: &str) -> (seg: Self)
        ensures
            seg.seg_type@ == "image"@,
            seg.data@ == map!["file"@ => DataValueView::Str(file@)],
    {
        let mut data: StrMap<DataValue> = StrMap::new();
        data.insert("file".to_string(), DataValue::Str(file.to_string()));
        let seg = MessageSegment { seg_type: "image".to_string(), data };
        assert(seg.data@ =~= map!["file"@ => DataValueView::Str(file@)]);
        seg
    }
}

/// A copy of a data value.
pub fn duplicate_value(v: &DataValue) -> (r: DataValue)
    ensures
        r@ == v@,
{
    match v {
        DataValue::Str(s) => DataValue::Str(s.clone()),
        DataValue::Int(n) => DataValue::Int(*n),
        DataValue::Json(s) => DataValue::Json(s.clone()),
    }
}

/// A copy of a data object, in the same key order.
pub fn duplicate_data(m: &StrMap<DataValue>) -> (r: StrMap<DataValue>)
    ensures
        r@ == m@,
{
    let es = m.entries();
    let mut r: StrMap<DataValue> = StrMap::new();
    let mut i: usize = 0;
    while i < es.len()
        invariant
            i <= es@.len(),
            es@.len() == m.spec_len(),
            forall|j: int| 0 <= j < es@.len() ==> (#[trigger] es@[j]).0@ == m.key_at(j) && es@[j].1@ == m.value_at(j),
            forall|j: int| #![trigger m.key_at(j)] 0 <= j < es@.len() ==> m@.contains_key(m.key_at(j)) && m@[m.key_at(j)] == m.value_at(j),
            forall|k: Seq<char>| m@.contains_key(k) ==> exists|j: int| 0 <= j < es@.len() && m.key_at(j) == k,
            forall|k: Seq<char>| #![trigger r@.contains_key(k)] r@.contains_key(k) ==> m@.contains_key(k) && r@[k] == m@[k] && exists|j: int| 0 <= j < i && m.key_at(j) == k,
            forall|j: int| #![trigger m.key_at(j)] 0 <= j < i ==> r@.contains_key(m.key_at(j)),
        decreases es.len() - i,
    {
        let (k, v) = es[i];
        assert(k@ == m.key_at(i as int));
        let ghost old_r = r@;
        let ks = k.to_string();
        assert(ks@ == k@);
        r.insert(ks, duplicate_value(v));
        assert(r@ == old_r.insert(k@, v@));
        proof {
            let kk = m.key_at(i as int);
            assert(m@.contains_key(kk) && m@[kk] == m.value_at(i as int));
            assert forall|q: Seq<char>| #![trigger r@.contains_key(q)] r@.contains_key(q) implies m@.contains_key(q) && r@[q] == m@[q]
                && exists|j: int| 0 <= j < i + 1 && m.key_at(j) == q by {
                if q != kk {
                    assert(old_r.contains_key(q));
                    let j = choose|j: int| 0 <= j < i && m.key_at(j) == q;
                    assert(0 <= j < i + 1 && m.key_at(j) == q);
                } else {
                    assert(m.key_at(i as int) == q);
                }
            }
            assert forall|j: int| #![trigger m.key_at(j)] 0 <= j < i + 1 implies r@.contains_key(m.key_at(j)) by {
                if j < i {
                    assert(old_r.contains_key(m.key_at(j)));
                }
            }
        }
        i += 1;
    }
    assert(r@ =~= m@) by {
        assert forall|k: Seq<char>| m@.contains_key(k) implies r@.contains_key(k) by {
            let j = choose|j: int| 0 <= j < es@.len() && m.key_at(j) == k;
            assert(r@.contains_key(m.key_at(j)));
        }
    }
    r
}

impl MessageSegment {
    /// A copy of the segment.
    pub fn duplicate(&self) -> (r: Self)
        ensures
            r@ == self@,
    {
        MessageSegment { seg_type: self.seg_type.clone(), data: duplicate_data(&self.data) }
    }
}

/// A copy of a list of segments.
pub fn duplicate_segments(v: &Vec<MessageSegment>) -> (r: Vec<MessageSegment>)
    ensures
        seg_views(r@) == seg_views(v@),
{
    let mut r: Vec<MessageSegment> = Vec::new();
    let mut i: usize = 0;
    while i < v.len()
        invariant
            i <= v@.len(),
            seg_views(r@) =~= seg_views(v@).take(i as int),
        decreases v.len() - i,
    {
        let ghost before = r@;
        r.push(v[i].duplicate());
        assert(seg_views(r@) =~= seg_views(before).push(v@[i as int]@));
        i += 1;
    }
    assert(seg_views(v@).take(v@.len() as int) =~= seg_views(v@));
    r
}

/// An entry of the message history as the protocol side returns it.
pub struct HistoryMessage {
    /// `"message_sent"` for the bot's own messages.
    pub post_type: Option<String>,
    pub message_id: Option<i64>,
    /// Sequence number, used to page backwards.
    pub message_seq: Option<i64>,
    pub user_id: Option<i64>,
    pub time: Option<i64>,
    pub sender_card: Option<String>,
    pub sender_nickname: Option<String>,
    /// The segments (absent when the entry holds no segment list).
    pub message: Option<Vec<MessageSegment>>,
}

impl HistoryMessage {
    /// The segments, or none.
    pub open spec fn segments(self) -> Seq<MessageSegment> {
        match self.message {
            Some(m) => m@,
            None => Seq::empty(),
        }
    }
}

// ── message events ───────────────────────────────────────────────────────────

/// Whether a message came from a group or a private chat.
#[derive(Debug, Clone, Copy, PartialEq, Eq, Structural)]
pub enum MessageType {
    Group,
    Private,
}

/// Sender information of a message.
pub struct Sender {
    pub user_id: Option<i64>,
    pub nickname: Option<String>,
    /// Group card (display name in the group).
    pub card: Option<String>,
    /// "owner" | "admin" | "member"
    pub role: Option<String>,
}

/// A message event pushed by the protocol side.
pub struct MessageEvent {
    pub message_type: MessageType,
    pub message_id: Option<i64>,
    /// The sender's QQ number.
    pub user_id: i64,
    /// The group (absent in private chat).
    pub group_id: Option<i64>,
    pub message: Vec<MessageSegment>,
    /// The raw message text (CQ code).
    pub raw_message: Option<String>,
    pub sender: Option<Sender>,
    pub time: Option<i64>,
}

/// The text of the first segment that carries text.
pub open spec fn first_text_of(segs: Seq<SegmentView>) -> Option<Seq<char>>
    decreases segs.len(),
{
    if segs.len() == 0 {
        None
    } else {
        match seg_text(segs[0]) {
            Some(t) => Some(t),
            None => first_text_of(segs.drop_first()),
        }
    }
}

/// All text of the segments, concatenated in order.
pub open spec fn full_text_of(segs: Seq<SegmentView>) -> Seq<char>
    decreases segs.len(),
{
    if segs.len() == 0 {
        Seq::empty()
    } else {
        full_text_of(segs.drop_last()) + match seg_text(segs.last()) {
            Some(t) => t,
            None => Seq::empty(),
        }
    }
}

/// Whether a segment type is one of the emoticon kinds.
pub open spec fn is_face_type(t: Seq<char>) -> bool {
    t == "face"@ || t == "mface"@ || t == "bface"@ || t == "sface"@
}

/// The `qq` value of an @ segment as it is shown in a summary.
pub open spec fn at_label(seg: SegmentView) -> Seq<char> {
    if seg.data.contains_key("qq"@) {
        match seg.data["qq"@] {
            DataValueView::Str(s) => s,
            DataValueView::Int(n) => dec_int(n as int),
            DataValueView::Json(_) => "?"@,
        }
    } else {
        "?"@
    }
}

/// How one segment is shown in a readable summary.
pub open spec fn describe_seg(seg: SegmentView) -> Seq<char> {
    let t = seg.seg_type;
    if t == "text"@ {
        match seg_text(seg) {
            Some(s) => s,
            None => Seq::empty(),
        }
    } else if t == "image"@ {
        "[图片]"@
    } else if is_face_type(t) {
        "[表情]"@
    } else if t == "at"@ {
        "[@"@ + at_label(seg) + "]"@
    } else if t == "reply"@ {
        "[回复]"@
    } else if t == "forward"@ {
        "[转发]"@
    } else if t == "record"@ {
        "[语音]"@
    } else if t == "video"@ {
        "[视频]"@
    } else if t == "file"@ {
        "[文件]"@
    } else {
        seq!['['] + t + seq![']']
    }
}

/// A readable summary of all segments.
pub open spec fn describe_all(segs: Seq<SegmentView>) -> Seq<char>
    decreases segs.len(),
{
    if segs.len() == 0 {
        Seq::empty()
    } else {
        describe_all(segs.drop_last()) + describe_seg(segs.last())
    }
}

/// Whether the segment type is an emoticon kind.
pub fn face_type(t: &str) -> (b: bool)
    ensures
        b == is_face_type(t@),
{
    str_eq(t, "face") || str_eq(t, "mface") || str_eq(t, "bface") || str_eq(t, "sface")
}

fn describe_one(out: &mut String, seg: &MessageSegment)
    ensures
        final(out)@ == old(out)@ + describe_seg(seg@),
{
    let t = seg.seg_type.as_str();
    if str_eq(t, "text") {
        match seg.as_text() {
            Some(s) => push_str(out, s),
            None => {},
        }
    } else if str_eq(t, "image") {
        push_str(out, "[图片]");
    } else if face_type(t) {
        push_str(out, "[表情]");
    } else if str_eq(t, "at") {
        push_str(out, "[@");
        match seg.data.get("qq") {
            Some(DataValue::Str(s)) => push_str(out, s.as_str()),
            Some(DataValue::Int(n)) => push_i64(out, *n),
            _ => push_str(out, "?"),
        }
        push_str(out, "]");
    } else if str_eq(t, "reply") {
        push_str(out, "[回复]");
    } else if str_eq(t, "forward") {
        push_str(out, "[转发]");
    } else if str_eq(t, "record") {
        push_str(out, "[语音]");
    } else if str_eq(t, "video") {
        push_str(out, "[视频]");
    } else if str_eq(t, "file") {
        push_str(out, "[文件]");
    } else {
        push_str(out, "[");
        push_str(out, t);
        push_str(out, "]");
        proof {
            reveal_strlit("[");
            reveal_strlit("]");
        }
    }
}

/// Concatenates the text of all text segments.
pub fn concat_texts(segs: &Vec<MessageSegment>) -> (s: String)
    ensures
        s@ == full_text_of(seg_views(segs@)),
{
    let mut s = String::new();
    let mut i: usize = 0;
    while i < segs.len()
        invariant
            i <= segs@.len(),
            s@ == full_text_of(seg_views(segs@).take(i as int)),
        decreases segs.len() - i,
    {
        assert(seg_views(segs@).take(i as int + 1).drop_last() =~= seg_views(segs@).take(i as int));
        match segs[i].as_text() {
            Some(t) => push_str(&mut s, t),
            None => {},
        }
        i += 1;
    }
    assert(seg_views(segs@).take(segs@.len() as int) =~= seg_views(segs@));
    s
}

impl MessageEvent {
    /// The text of the first text segment (used for command parsing).
    pub fn first_text(&self) -> (r: Option<&str>)
        ensures
            match r {
                Some(s) => first_text_of(seg_views(self.message@)) == Some(s@),
                None => first_text_of(seg_views(self.message@)).is_none(),
            },
    {
        let mut i: usize = 0;
        assert(seg_views(self.message@).skip(0) =~= seg_views(self.message@));
        while i < self.message.len()
            invariant
                i <= self.message@.len(),
                first_text_of(seg_views(self.message@)) == first_text_of(seg_views(self.message@).skip(i as int)),
            decreases self.message.len() - i,
        {
            assert(seg_views(self.message@).skip(i as int).drop_first() =~= seg_views(self.message@).skip(i as int + 1));
            assert(seg_views(self.message@).skip(i as int)[0] == self.message@[i as int]@);
            match self.message[i].as_text() {
                Some(t) => {
                    return Some(t);
                },
                None => {},
            }
            i += 1;
        }
        None
    }

    /// All text segments joined (for keyword matching and chat).
    pub fn full_text(&self) -> (s: String)
        ensures
            s@ == full_text_of(seg_views(self.message@)),
    {
        concat_texts(&self.message)
    }

    /// A readable summary of the message in which every segment shows, such
    /// as `"[@123] 你好 [图片]"`.
    pub fn describe(&self) -> (s: String)
        ensures
            s@ == describe_all(seg_views(self.message@)),
    {
        let mut s = String::new();
        let mut i: usize = 0;
        while i < self.message.len()
            invariant
                i <= self.message@.len(),
                s@ == describe_all(seg_views(self.message@).take(i as int)),
            decreases self.message.len() - i,
        {
            assert(seg_views(self.message@).take(i as int + 1).drop_last() =~= seg_views(self.message@).take(i as int));
            describe_one(&mut s, &self.message[i]);
            i += 1;
        }
        assert(seg_views(self.message@).take(self.message@.len() as int) =~= seg_views(self.message@));
        s
    }

    /// Whether the message came from a group.
    pub fn is_group(&self) -> (b: bool)
        ensures
            b == (self.message_type == MessageType::Group),
    {
        self.message_type == MessageType::Group
    }
}

} // verus!
