//! The protocol-side HTTP API (NapCat / OneBot v11): connection settings,
//! request addresses, send targets and the decisions around image download
//! and forwarded messages. The requests themselves are made by the caller.
use vstd::prelude::*;

use crate::message::{typed_str, MessageSegment};
use crate::permission::Scope;
use crate::text::{chars_of, push_str, slice_chars, string_of};

verus! {

/// The `[napcat]` section of the runtime configuration.
pub struct NapcatConfig {
    /// API address, such as `"http://127.0.0.1:3000"`.
    pub url: String,
    /// Bearer token, if any.
    pub token: Option<String>,
    /// Timeout of ordinary requests, in seconds (30 by default).
    pub timeout_secs: u64,
    /// Timeout of slow requests (history, forwarded messages), in seconds
    /// (120 by default).
    pub history_timeout_secs: u64,
}

impl NapcatConfig {
    pub fn default_url() -> (s: String)
        ensures
            s@ == "http://127.0.0.1:3000"@,
    {
        "http://127.0.0.1:3000".to_string()
    }

    pub fn default_timeout() -> (n: u64)
        ensures
            n == 30,
    {
        30
    }

    pub fn default_history_timeout() -> (n: u64)
        ensures
            n == 120,
    {
        120
    }
}

impl Default for NapcatConfig {
    fn default() -> (c: Self)
        ensures
            c.url@ == "http://127.0.0.1:3000"@,
            c.token is None,
            c.timeout_secs == 30,
            c.history_timeout_secs == 120,
    {
        NapcatConfig {
            url: Self::default_url(),
            token: None,
            timeout_secs: Self::default_timeout(),
            history_timeout_secs: Self::default_history_timeout(),
        }
    }
}

/// Where a message is sent.
#[derive(Debug, Clone, Copy, PartialEq, Eq, Structural)]
pub enum MsgTarget {
    /// A group, with its id.
    Group(i64),
    /// A private chat, with the peer's QQ number.
    Private(i64),
}

pub open spec fn target_of(scope: Scope) -> MsgTarget {
    match scope {
        Scope::Group(gid) => MsgTarget::Group(gid),
        Scope::Private(uid) => MsgTarget::Private(uid),
    }
}

impl From<Scope> for MsgTarget {
    fn from(scope: Scope) -> (t: Self) {
        match scope {
            Scope::Group(gid) => MsgTarget::Group(gid),
            Scope::Private(uid) => MsgTarget::Private(uid),
        }
    }
}

impl vstd::std_specs::convert::FromSpecImpl<Scope> for MsgTarget {
    open spec fn obeys_from_spec() -> bool {
        true
    }

    open spec fn from_spec(scope: Scope) -> MsgTarget {
        target_of(scope)
    }
}

impl MsgTarget {
    /// The target's fields of a send payload: the message type, the name of
    /// the id field and the id.
    pub fn payload_fields(&self) -> (r: (&'static str, &'static str, i64))
        ensures
            match *self {
                MsgTarget::Group(id) => r.0@ == "group"@ && r.1@ == "group_id"@ && r.2 == id,
                MsgTarget::Private(id) => r.0@ == "private"@ && r.1@ == "user_id"@ && r.2 == id,
            },
    {
        match self {
            MsgTarget::Group(id) => ("group", "group_id", *id),
            MsgTarget::Private(id) => ("private", "user_id", *id),
        }
    }
}

/// The text without its trailing `c` characters.
pub open spec fn trim_end_char(s: Seq<char>, c: char) -> Seq<char>
    decreases s.len(),
{
    if s.len() > 0 && s.last() == c {
        trim_end_char(s.drop_last(), c)
    } else {
        s
    }
}

/// The text without its leading `c` characters.
pub open spec fn trim_start_char(s: Seq<char>, c: char) -> Seq<char>
    decreases s.len(),
{
    if s.len() > 0 && s[0] == c {
        trim_start_char(s.drop_first(), c)
    } else {
        s
    }
}

pub fn strip_end(s: &str, c: char) -> (r: String)
    ensures
        r@ == trim_end_char(s@, c),
{
    let cs = chars_of(s);
    let mut n = cs.len();
    assert(cs@.take(n as int) =~= cs@);
    while n > 0 && cs[n - 1] == c
        invariant
            n <= cs@.len(),
            trim_end_char(cs@.take(n as int), c) == trim_end_char(s@, c),
            cs@ == s@,
        decreases n,
    {
        assert(cs@.take(n as int).drop_last() =~= cs@.take(n as int - 1));
        n -= 1;
    }
    let t = slice_chars(&cs, 0, n);
    assert(t@ =~= cs@.take(n as int));
    string_of(&t)
}

fn strip_start(s: &str, c: char) -> (r: String)
    ensures
        r@ == trim_start_char(s@, c),
{
    let cs = chars_of(s);
    let mut k: usize = 0;
    assert(cs@.skip(0) =~= cs@);
    while k < cs.len() && cs[k] == c
        invariant
            k <= cs@.len(),
            trim_start_char(cs@.skip(k as int), c) == trim_start_char(s@, c),
            cs@ == s@,
        decreases cs.len() - k,
    {
        assert(cs@.skip(k as int).drop_first() =~= cs@.skip(k as int + 1));
        k += 1;
    }
    let t = slice_chars(&cs, k, cs.len());
    assert(t@ =~= cs@.skip(k as int));
    string_of(&t)
}

/// Connection settings of the protocol-side HTTP API.
pub struct ApiClient {
    base_url: String,
    token: Option<String>,
    timeout_secs: u64,
    history_timeout_secs: u64,
}

impl ApiClient {
    pub closed spec fn base(&self) -> Seq<char> {
        self.base_url@
    }

    pub closed spec fn token_view(&self) -> Option<Seq<char>> {
        match self.token {
            Some(t) => Some(t@),
            None => None,
        }
    }

    pub closed spec fn timeout(&self) -> u64 {
        self.timeout_secs
    }

    pub closed spec fn history_timeout_spec(&self) -> u64 {
        self.history_timeout_secs
    }

    /// Settings with the default timeouts (30 s and 120 s).
    pub fn new(base_url: &str, token: Option<String>) -> (c: Self)
        ensures
            c.base() == trim_end_char(base_url@, '/'),
            c.token_view() == (match token { Some(t) => Some(t@), None => None::<Seq<char>> }),
            c.timeout() == 30,
            c.history_timeout_spec() == 120,
    {
        Self::with_config(base_url, token, 30, 120)
    }

    /// Settings; trailing `/` of the address are dropped.
    pub fn with_config(base_url: &str, token: Option<String>, timeout_secs: u64, history_timeout_secs: u64) -> (c: Self)
        ensures
            c.base() == trim_end_char(base_url@, '/'),
            c.token_view() == (match token { Some(t) => Some(t@), None => None::<Seq<char>> }),
            c.timeout() == timeout_secs,
            c.history_timeout_spec() == history_timeout_secs,
    {
        ApiClient { base_url: strip_end(base_url, '/'), token, timeout_secs, history_timeout_secs }
    }

    /// The address of an endpoint: the base, `/`, and the endpoint without
    /// its leading `/`.
    pub fn endpoint_url(&self, endpoint: &str) -> (u: String)
        ensures
            u@ == self.base() + "/"@ + trim_start_char(endpoint@, '/'),
    {
        let mut u = String::new();
        push_str(&mut u, self.base_url.as_str());
        push_str(&mut u, "/");
        let e = strip_start(endpoint, '/');
        push_str(&mut u, e.as_str());
        u
    }

    /// The `Authorization` header value, when a token is set.
    pub fn auth_header(&self) -> (h: Option<String>)
        ensures
            match self.token_view() {
                Some(t) => h matches Some(v) && v@ == "Bearer "@ + t,
                None => h is None,
            },
    {
        match &self.token {
            Some(t) => {
                let mut v = String::new();
                push_str(&mut v, "Bearer ");
                push_str(&mut v, t.as_str());
                Some(v)
            },
            None => None,
        }
    }

    /// The timeout of a request: the one asked for, else the configured one.
    pub fn timeout_for(&self, custom: Option<u64>) -> (t: u64)
        ensures
            t == (match custom { Some(c) => c, None => self.timeout() }),
    {
        match custom {
            Some(c) => c,
            None => self.timeout_secs,
        }
    }

    /// The timeout of slow requests (history, forwarded messages).
    pub fn history_timeout(&self) -> (t: u64)
        ensures
            t == self.history_timeout_spec(),
    {
        self.history_timeout_secs
    }
}

// ── images ───────────────────────────────────────────────────────────────────

/// The answer of `get_image`.
pub struct GetImageResponse {
    /// Local path, when the protocol side has the file cached.
    pub file: Option<String>,
    /// A URL to download the image from.
    pub url: Option<String>,
    /// Size in bytes.
    pub size: Option<u64>,
}

/// Where an image's bytes are read from.
pub enum ImageSource {
    /// A local file path.
    LocalFile(String),
    /// A URL to download.
    Url(String),
}

/// The `file` id of an image segment, which `get_image` takes.
pub fn image_file_id(seg: &MessageSegment) -> (r: Result<&str, String>)
    ensures
        seg@.seg_type != "image"@ ==> (r matches Err(e) && e@ == "消息段不是图片类型"@),
        seg@.seg_type == "image"@ ==> match typed_str(seg@, "image"@, "file"@) {
            Some(f) => r matches Ok(s) && s@ == f,
            None => r matches Err(e) && e@ == "图片消息段缺少 file 字段"@,
        },
{
    if !seg.is_image() {
        return Err("消息段不是图片类型".to_string());
    }
    match seg.image_file() {
        Some(f) => Ok(f),
        None => Err("图片消息段缺少 file 字段".to_string()),
    }
}

/// Chooses where to read an image from: the cached local file first, else
/// the URL.
pub fn image_source(resp: GetImageResponse) -> (r: Result<ImageSource, String>)
    ensures
        match (resp.file, resp.url) {
            (Some(f), _) => r matches Ok(ImageSource::LocalFile(p)) && p@ == f@,
            (None, Some(u)) => r matches Ok(ImageSource::Url(v)) && v@ == u@,
            (None, None) => r matches Err(e) && e@ == "get_image 返回的数据中既没有 file 也没有 url"@,
        },
{
    match resp.file {
        Some(f) => Ok(ImageSource::LocalFile(f)),
        None => match resp.url {
            Some(u) => Ok(ImageSource::Url(u)),
            None => Err("get_image 返回的数据中既没有 file 也没有 url".to_string()),
        },
    }
}

// ── forwarded messages ───────────────────────────────────────────────────────

/// Nested forwards are expanded down to this depth.
pub const MAX_FORWARD_DEPTH: u8 = 5;

/// A node of a forwarded message, with the forwards nested in it.
pub struct ForwardNode {
    pub sender_id: i64,
    pub nickname: String,
    pub time: i64,
    pub segments: Vec<MessageSegment>,
    pub nested: Vec<ForwardNode>,
}

/// Whether a forward found at `depth` is still expanded.
pub fn should_expand(depth: u8) -> (b: bool)
    ensures
        b == (depth < MAX_FORWARD_DEPTH),
{
    depth < MAX_FORWARD_DEPTH
}

/// A forward node from the fields of one forwarded message; a missing sender
/// id or time reads as 0, a missing nickname as `"未知"`.
pub fn forward_node(
    sender_id: Option<i64>,
    nickname: Option<String>,
    time: Option<i64>,
    segments: Vec<MessageSegment>,
    nested: Vec<ForwardNode>,
) -> (n: ForwardNode)
    ensures
        n.sender_id == (match sender_id { Some(v) => v, None => 0 }),
        n.nickname@ == (match nickname { Some(v) => v@, None => "未知"@ }),
        n.time == (match time { Some(v) => v, None => 0 }),
        n.segments == segments,
        n.nested == nested,
{
    ForwardNode {
        sender_id: match sender_id {
            Some(v) => v,
            None => 0,
        },
        nickname: match nickname {
            Some(v) => v,
            None => "未知".to_string(),
        },
        time: match time {
            Some(v) => v,
            None => 0,
        },
        segments,
        nested,
    }
}

} // verus!
