//! Runtime configuration sections and the settings derived from them: the
//! shared HTTP client, the language models, logging and the time zone.
use vstd::prelude::*;

use crate::api::{strip_end, trim_end_char};
use crate::text::{push_str, starts_with, str_eq};

verus! {

// ── HTTP ─────────────────────────────────────────────────────────────────────

/// The `[http]` section: settings of the shared HTTP client.
pub struct HttpConfig {
    /// Request timeout in seconds (30 by default).
    pub timeout_secs: u64,
    /// Idle pooled connections are closed after this many seconds (30).
    pub pool_idle_timeout_secs: u64,
    /// Idle connections kept per host (10).
    pub pool_max_idle_per_host: usize,
    /// TCP keep-alive in seconds (60).
    pub tcp_keepalive_secs: u64,
}

impl HttpConfig {
    pub fn default_timeout() -> (n: u64)
        ensures
            n == 30,
    {
        30
    }

    pub fn default_pool_idle_timeout() -> (n: u64)
        ensures
            n == 30,
    {
        30
    }

    pub fn default_pool_max_idle() -> (n: usize)
        ensures
            n == 10,
    {
        10
    }

    pub fn default_tcp_keepalive() -> (n: u64)
        ensures
            n == 60,
    {
        60
    }
}

impl Default for HttpConfig {
    fn default() -> (c: Self)
        ensures
            c.timeout_secs == 30,
            c.pool_idle_timeout_secs == 30,
            c.pool_max_idle_per_host == 10,
            c.tcp_keepalive_secs == 60,
    {
        HttpConfig {
            timeout_secs: Self::default_timeout(),
            pool_idle_timeout_secs: Self::default_pool_idle_timeout(),
            pool_max_idle_per_host: Self::default_pool_max_idle(),
            tcp_keepalive_secs: Self::default_tcp_keepalive(),
        }
    }
}

// ── the chat model ───────────────────────────────────────────────────────────

/// The `[llm]` section: an OpenAI-compatible chat API.
pub struct LlmConfig {
    pub api_url: String,
    pub api_key: String,
    /// Default model.
    pub model: String,
    /// Request timeout in seconds (120 by default).
    pub timeout_secs: u64,
}

impl LlmConfig {
    pub fn default_url() -> (s: String)
        ensures
            s@ == "https://api.deepseek.com/v1"@,
    {
        "https://api.deepseek.com/v1".to_string()
    }

    pub fn default_api_key() -> (s: String)
        ensures
            s@.len() == 0,
    {
        String::new()
    }

    pub fn default_model() -> (s: String)
        ensures
            s@ == "deepseek-chat"@,
    {
        "deepseek-chat".to_string()
    }

    pub fn default_timeout() -> (n: u64)
        ensures
            n == 120,
    {
        120
    }

    /// The chat-completions address: the API address without trailing `/`,
    /// then `/chat/completions`.
    pub fn chat_url(&self) -> (u: String)
        ensures
            u@ == trim_end_char(self.api_url@, '/') + "/chat/completions"@,
    {
        let mut u = strip_end(self.api_url.as_str(), '/');
        push_str(&mut u, "/chat/completions");
        u
    }

    /// The `Authorization` header value.
    pub fn bearer(&self) -> (h: String)
        ensures
            h@ == "Bearer "@ + self.api_key@,
    {
        let mut h = String::new();
        push_str(&mut h, "Bearer ");
        push_str(&mut h, self.api_key.as_str());
        h
    }
}

impl Default for LlmConfig {
    fn default() -> (c: Self)
        ensures
            c.api_url@ == "https://api.deepseek.com/v1"@,
            c.api_key@.len() == 0,
            c.model@ == "deepseek-chat"@,
            c.timeout_secs == 120,
    {
        LlmConfig {
            api_url: Self::default_url(),
            api_key: Self::default_api_key(),
            model: Self::default_model(),
            timeout_secs: Self::default_timeout(),
        }
    }
}

// ── the vision model ─────────────────────────────────────────────────────────

/// The `[gemini]` section.
pub struct GeminiConfig {
    pub api_key: String,
    /// Model name (`gemini-2.5-flash` by default).
    pub model: String,
    /// Request timeout in seconds (60 by default).
    pub timeout_secs: u64,
    /// Prompt for describing images; a built-in one when absent.
    pub vision_prompt: Option<String>,
}

impl GeminiConfig {
    pub fn default_api_key() -> (s: String)
        ensures
            s@.len() == 0,
    {
        String::new()
    }

    pub fn default_model() -> (s: String)
        ensures
            s@ == "gemini-2.5-flash"@,
    {
        "gemini-2.5-flash".to_string()
    }

    pub fn default_timeout() -> (n: u64)
        ensures
            n == 60,
    {
        60
    }
}

impl Default for GeminiConfig {
    fn default() -> (c: Self)
        ensures
            c.api_key@.len() == 0,
            c.model@ == "gemini-2.5-flash"@,
            c.timeout_secs == 60,
            c.vision_prompt is None,
    {
        GeminiConfig {
            api_key: Self::default_api_key(),
            model: Self::default_model(),
            timeout_secs: Self::default_timeout(),
            vision_prompt: None,
        }
    }
}

/// The built-in prompt for describing an image.
pub const DEFAULT_VISION_PROMPT: &'static str = "请详细描述这张图片的内容。重点说明：\n- 图片的主要内容和主体\n- 图片中的文字（如果有，请完整引用）\n- 如果是表情包或梗图，请说明其含义、情绪或梗的背景\n- 图片中值得注意的细节\n\n请用自然的语言描述，不需要分点列举。";

/// Client settings of the vision model.
pub struct GeminiClient {
    config: GeminiConfig,
    timeout_secs: u64,
}

/// The first text of the first part of the first candidate of an answer:
/// `None` stands for a missing list, content or text at any level.
pub struct GeminiReply {
    pub candidates: Option<Vec<GeminiCandidate>>,
}

pub struct GeminiCandidate {
    /// The texts of the content's parts (`None` when the content or its part
    /// list is missing).
    pub parts: Option<Vec<Option<String>>>,
}

pub open spec fn reply_text_spec(r: GeminiReply) -> Option<Seq<char>> {
    match r.candidates {
        Some(cs) => if cs@.len() > 0 {
            match cs@[0].parts {
                Some(ps) => if ps@.len() > 0 {
                    match ps@[0] {
                        Some(t) => Some(t@),
                        None => None,
                    }
                } else {
                    None
                },
                None => None,
            }
        } else {
            None
        },
        None => None,
    }
}

impl GeminiClient {
    pub closed spec fn config_spec(&self) -> GeminiConfig {
        self.config
    }

    pub closed spec fn timeout_spec(&self) -> u64 {
        self.timeout_secs
    }

    pub fn new(config: GeminiConfig) -> (c: Self)
        ensures
            c.config_spec() == config,
            c.timeout_spec() == config.timeout_secs,
    {
        let timeout_secs = config.timeout_secs;
        GeminiClient { config, timeout_secs }
    }

    /// The model name.
    pub fn model(&self) -> (m: &str)
        ensures
            m@ == self.config_spec().model@,
    {
        self.config.model.as_str()
    }

    /// The request timeout in seconds.
    pub fn timeout(&self) -> (t: u64)
        ensures
            t == self.timeout_spec(),
    {
        self.timeout_secs
    }

    /// The prompt for an image: the one given, else the configured one, else
    /// the built-in one.
    pub fn vision_prompt<'a>(&'a self, prompt: Option<&'a str>) -> (p: &'a str)
        ensures
            p@ == (match prompt {
                Some(q) => q@,
                None => match self.config_spec().vision_prompt {
                    Some(v) => v@,
                    None => DEFAULT_VISION_PROMPT@,
                },
            }),
    {
        match prompt {
            Some(q) => q,
            None => match &self.config.vision_prompt {
                Some(v) => v.as_str(),
                None => DEFAULT_VISION_PROMPT,
            },
        }
    }

    /// The `generateContent` address of the configured model and key.
    pub fn request_url(&self) -> (u: String)
        ensures
            u@ == "https://generativelanguage.googleapis.com/v1beta/models/"@ + self.config_spec().model@
                + ":generateContent?key="@ + self.config_spec().api_key@,
    {
        let mut u = String::new();
        push_str(&mut u, "https://generativelanguage.googleapis.com/v1beta/models/");
        push_str(&mut u, self.config.model.as_str());
        push_str(&mut u, ":generateContent?key=");
        push_str(&mut u, self.config.api_key.as_str());
        u
    }

    /// The description in an answer, or the complaint that it holds none.
    pub fn reply_text(reply: GeminiReply) -> (r: Result<String, String>)
        ensures
            match reply_text_spec(reply) {
                Some(t) => r matches Ok(s) && s@ == t,
                None => r matches Err(e) && e@ == "Gemini API 响应中没有有效的文本内容"@,
            },
    {
        let missing = "Gemini API 响应中没有有效的文本内容";
        match reply.candidates {
            Some(cs) => {
                if cs.len() == 0 {
                    return Err(missing.to_string());
                }
                match &cs[0].parts {
                    Some(ps) => {
                        if ps.len() == 0 {
                            return Err(missing.to_string());
                        }
                        match &ps[0] {
                            Some(t) => Ok(t.clone()),
                            None => Err(missing.to_string()),
                        }
                    },
                    None => Err(missing.to_string()),
                }
            },
            None => Err(missing.to_string()),
        }
    }
}

/// The body of a `generateContent` request for one image: a single content
/// whose parts are this text and then this inline image, in that order.
pub struct VisionRequest {
    /// The text part: the prompt.
    pub text: String,
    /// The MIME type of the inline image part.
    pub mime_type: String,
    /// The inline image, base64.
    pub data: String,
}

/// What the `generateContent` request came back with.
pub enum VisionResponse {
    /// A status outside 2xx: its status-line text and the body, if it could
    /// be read.
    Failed { status: String, body: Option<String> },
    /// A 2xx answer whose body does not decode as an answer.
    Undecodable,
    /// A 2xx answer, decoded.
    Decoded(GeminiReply),
}

/// The request that asks for a description of a base64 JPEG image, with the
/// prompt chosen by `vision_prompt`.
pub fn vision_request(c: &GeminiClient, image_b64: &str, prompt: Option<&str>) -> (r: VisionRequest)
    ensures
        r.text@ == (match prompt {
            Some(q) => q@,
            None => match c.config_spec().vision_prompt {
                Some(v) => v@,
                None => DEFAULT_VISION_PROMPT@,
            },
        }),
        r.mime_type@ == "image/jpeg"@,
        r.data@ == image_b64@,
{
    let mut text = String::new();
    push_str(&mut text, c.vision_prompt(prompt));
    let mut mime_type = String::new();
    push_str(&mut mime_type, "image/jpeg");
    let mut data = String::new();
    push_str(&mut data, image_b64);
    VisionRequest { text, mime_type, data }
}

/// The result of a description request: a non-2xx status is an error that
/// names the status and the body, an undecodable answer is an error, and a
/// decoded answer gives its text (`reply_text`).
pub fn vision_outcome(response: VisionResponse) -> (r: Result<String, String>)
    ensures
        match response {
            VisionResponse::Failed { status, body } => r matches Err(e) && e@ == "Gemini API 返回错误 "@ + status@
                + ": "@ + (match body {
                Some(b) => b@,
                None => "无法读取错误信息"@,
            }),
            VisionResponse::Undecodable => r matches Err(e) && e@ == "Gemini API 响应解析失败"@,
            VisionResponse::Decoded(reply) => match reply_text_spec(reply) {
                Some(t) => r matches Ok(s) && s@ == t,
                None => r matches Err(e) && e@ == "Gemini API 响应中没有有效的文本内容"@,
            },
        },
{
    match response {
        VisionResponse::Failed { status, body } => {
            let mut e = String::new();
            push_str(&mut e, "Gemini API 返回错误 ");
            push_str(&mut e, status.as_str());
            push_str(&mut e, ": ");
            match &body {
                Some(b) => push_str(&mut e, b.as_str()),
                None => push_str(&mut e, "无法读取错误信息"),
            }
            Err(e)
        },
        VisionResponse::Undecodable => {
            let mut e = String::new();
            push_str(&mut e, "Gemini API 响应解析失败");
            Err(e)
        },
        VisionResponse::Decoded(reply) => GeminiClient::reply_text(reply),
    }
}

/// The vision client, when the section is present and has a key.
pub fn gemini_client(cfg: Option<GeminiConfig>) -> (c: Option<GeminiClient>)
    ensures
        match cfg {
            Some(g) => if g.api_key@.len() > 0 {
                c matches Some(cl) && cl.config_spec() == g && cl.timeout_spec() == g.timeout_secs
            } else {
                c is None
            },
            None => c is None,
        },
{
    match cfg {
        Some(g) => {
            if g.api_key.as_str().is_empty() {
                None
            } else {
                Some(GeminiClient::new(g))
            }
        },
        None => None,
    }
}

// ── logging ──────────────────────────────────────────────────────────────────

/// The `[log]` section.
pub struct LogConfig {
    /// Directory of the daily log files; standard output only when absent.
    pub log_dir: Option<String>,
    /// Log files older than this many days are removed (30 by default).
    pub max_days: u32,
    /// Filter level (`info` by default).
    pub level: String,
}

impl LogConfig {
    pub fn default_level() -> (s: String)
        ensures
            s@ == "info"@,
    {
        "info".to_string()
    }

    pub fn default_max_days() -> (n: u32)
        ensures
            n == 30,
    {
        30
    }
}

impl Default for LogConfig {
    fn default() -> (c: Self)
        ensures
            c.log_dir is None,
            c.max_days == 30,
            c.level@ == "info"@,
    {
        LogConfig { log_dir: None, max_days: Self::default_max_days(), level: Self::default_level() }
    }
}

/// Keeps buffered log output alive; logging to standard output only needs
/// no state.
pub struct LogGuard;

/// Prefix of the daily log files.
pub const LOG_PREFIX: &'static str = "lianbot.log";

/// The log file of a day: `prefix.YYYY-MM-DD`.
pub fn log_file_name(prefix: &str, date: &str) -> (n: String)
    ensures
        n@ == prefix@ + "."@ + date@,
{
    let mut n = String::new();
    push_str(&mut n, prefix);
    push_str(&mut n, ".");
    push_str(&mut n, date);
    n
}

/// Whether a file in the log directory is one of the daily log files.
pub fn is_log_file(name: &str) -> (b: bool)
    ensures
        b == starts_with(name@, "lianbot.log."@),
{
    let cs = crate::text::chars_of(name);
    let p = crate::text::chars_of("lianbot.log.");
    crate::text::has_prefix(&cs, &p)
}

/// Whether the log moves to a new file: none is open yet, or the day changed.
pub fn needs_rotation(current: Option<&str>, today: &str) -> (b: bool)
    ensures
        b == (match current { Some(d) => d@ != today@, None => true }),
{
    match current {
        Some(d) => !str_eq(d, today),
        None => true,
    }
}

/// How long log files are kept, in seconds.
pub fn retention_secs(max_days: u32) -> (s: u64)
    ensures
        s == max_days * 86400,
{
    (max_days as u64) * 86400
}

// ── time zone ────────────────────────────────────────────────────────────────

/// The `[time]` section: the zone as hours east of UTC (8 by default).
pub struct TimeConfig {
    pub timezone: i32,
}

impl TimeConfig {
    pub fn default_tz() -> (n: i32)
        ensures
            n == 8,
    {
        8
    }
}

impl Default for TimeConfig {
    fn default() -> (c: Self)
        ensures
            c.timezone == 8,
    {
        TimeConfig { timezone: Self::default_tz() }
    }
}

} // verus!
