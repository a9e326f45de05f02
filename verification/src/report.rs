//! The daily report: what the language model returns, the prompts, and the
//! HTML page.
use vstd::prelude::*;

use base64::Engine;

use crate::report_text::{
    GRID_SECTION_CLOSE, HEIGHT_PROBE_BODY_END, QUOTES_SECTION_CLOSE, QUOTES_SECTION_OPEN, QUOTE_AFTER_CONTENT, QUOTE_AFTER_SENDER,
    QUOTE_CLOSE, QUOTE_OPEN, TITLES_SECTION_OPEN, TOPICS_SECTION_OPEN, TOPIC_AFTER_CONTRIBUTORS, TOPIC_AFTER_NUMBER,
    TOPIC_AFTER_TITLE, TOPIC_CLOSE, TOPIC_OPEN, USER_AFTER_HABIT, USER_AFTER_INITIAL, USER_AFTER_MBTI,
    USER_AFTER_NAME, USER_AFTER_TITLE, USER_CLOSE, USER_OPEN,
    REPORT_AFTER_ACTIVE_HOUR, REPORT_AFTER_CHARACTERS, REPORT_AFTER_CHART, REPORT_AFTER_DATE, REPORT_AFTER_EMOJI,
    REPORT_AFTER_GROUP, REPORT_AFTER_MESSAGES, REPORT_AFTER_PARTICIPANTS, REPORT_AFTER_QUOTES, REPORT_AFTER_TITLES,
    REPORT_AFTER_TOPICS, REPORT_HEAD, REPORT_TAIL, TITLES_PROMPT_HEAD, TITLES_PROMPT_TAIL, TOPICS_PROMPT_HEAD,
    TOPICS_PROMPT_TAIL,
};
use crate::smy::{Statistics, ChatMessage};
use crate::text::{
    join_strings, views,
    chars_of, dec_nat, ends_with, has_prefix, has_suffix, join, push_char, push_str, push_u64, slice_chars,
    starts_with, string_of, trim, trim_chars,
};

verus! {

/// A topic found by the language model.
pub struct Topic {
    pub topic: String,
    pub contributors: Vec<String>,
    pub detail: String,
}

/// A title given to a group member.
pub struct UserTitle {
    pub name: String,
    pub title: String,
    pub mbti: String,
    pub habit: String,
    pub reason: String,
}

/// A memorable quote.
pub struct Quote {
    pub content: String,
    pub sender: String,
    pub reason: String,
}

/// What the language model found in the chat log.
pub struct LlmResult {
    pub topics: Vec<Topic>,
    pub user_titles: Vec<UserTitle>,
    pub golden_quotes: Vec<Quote>,
}

impl Default for LlmResult {
    fn default() -> (r: Self)
        ensures
            r.topics@.len() == 0,
            r.user_titles@.len() == 0,
            r.golden_quotes@.len() == 0,
    {
        LlmResult { topics: Vec::new(), user_titles: Vec::new(), golden_quotes: Vec::new() }
    }
}

// ── prompts ──────────────────────────────────────────────────────────────────

/// The prompt asking for the main topics of the chat log.
pub fn build_topics_prompt(messages_text: &str) -> (p: String)
    ensures
        p@ == TOPICS_PROMPT_HEAD@ + messages_text@ + TOPICS_PROMPT_TAIL@,
{
    let mut p = String::new();
    push_str(&mut p, TOPICS_PROMPT_HEAD);
    push_str(&mut p, messages_text);
    push_str(&mut p, TOPICS_PROMPT_TAIL);
    p
}

/// The prompt asking for member titles and memorable quotes.
pub fn build_titles_prompt(messages_text: &str) -> (p: String)
    ensures
        p@ == TITLES_PROMPT_HEAD@ + messages_text@ + TITLES_PROMPT_TAIL@,
{
    let mut p = String::new();
    push_str(&mut p, TITLES_PROMPT_HEAD);
    push_str(&mut p, messages_text);
    push_str(&mut p, TITLES_PROMPT_TAIL);
    p
}

/// The model's answer without a surrounding markdown code fence.
pub open spec fn clean_json_spec(raw: Seq<char>) -> Seq<char> {
    let s = trim(raw);
    let s1 = if starts_with(s, "```json"@) {
        s.skip(7)
    } else if starts_with(s, "```"@) {
        s.skip(3)
    } else {
        s
    };
    let s2 = if ends_with(s1, "```"@) { s1.take(s1.len() - 3) } else { s1 };
    trim(s2)
}

/// Strips a markdown code fence (```` ```json ```` or ```` ``` ````) and
/// surrounding whitespace from the model's answer.
pub fn clean_json(raw: &str) -> (r: String)
    ensures
        r@ == clean_json_spec(raw@),
{
    proof {
        reveal_strlit("```json");
        reveal_strlit("```");
    }
    let cs = chars_of(raw);
    let s = trim_chars(&cs);
    let fence_json = chars_of("```json");
    let fence = chars_of("```");
    let s1 = if has_prefix(&s, &fence_json) {
        slice_chars(&s, 7, s.len())
    } else if has_prefix(&s, &fence) {
        slice_chars(&s, 3, s.len())
    } else {
        slice_chars(&s, 0, s.len())
    };
    assert(s1@ =~= (if starts_with(s@, "```json"@) { s@.skip(7) } else if starts_with(s@, "```"@) { s@.skip(3) } else { s@ }));
    let s2 = if has_suffix(&s1, &fence) {
        slice_chars(&s1, 0, s1.len() - 3)
    } else {
        slice_chars(&s1, 0, s1.len())
    };
    assert(s2@ =~= (if ends_with(s1@, "```"@) { s1@.take(s1@.len() - 3) } else { s1@ }));
    let t = trim_chars(&s2);
    string_of(&t)
}

// ── HTML ─────────────────────────────────────────────────────────────────────

/// The HTML escape of one character.
pub open spec fn escape_char(c: char) -> Seq<char> {
    if c == '&' {
        "&amp;"@
    } else if c == '<' {
        "&lt;"@
    } else if c == '>' {
        "&gt;"@
    } else if c == '"' {
        "&quot;"@
    } else if c == '\'' {
        "&#39;"@
    } else {
        seq![c]
    }
}

/// `&`, `<`, `>`, `"` and `'` replaced by their entities.
pub open spec fn html_escape_spec(s: Seq<char>) -> Seq<char>
    decreases s.len(),
{
    if s.len() == 0 {
        Seq::empty()
    } else {
        html_escape_spec(s.drop_last()) + escape_char(s.last())
    }
}

fn push_escaped(out: &mut String, s: &str)
    ensures
        final(out)@ == old(out)@ + html_escape_spec(s@),
{
    let cs = chars_of(s);
    let mut i: usize = 0;
    while i < cs.len()
        invariant
            i <= cs@.len(),
            cs@ == s@,
            out@ == old(out)@ + html_escape_spec(cs@.take(i as int)),
        decreases cs.len() - i,
    {
        assert(cs@.take(i as int + 1).drop_last() =~= cs@.take(i as int));
        let c = cs[i];
        if c == '&' {
            push_str(out, "&amp;");
        } else if c == '<' {
            push_str(out, "&lt;");
        } else if c == '>' {
            push_str(out, "&gt;");
        } else if c == '"' {
            push_str(out, "&quot;");
        } else if c == '\'' {
            push_str(out, "&#39;");
        } else {
            push_char(out, c);
        }
        i += 1;
    }
    assert(cs@.take(cs@.len() as int) =~= cs@);
}

/// Escaped text holds no markup characters: no `<`, `>`, `"` or `'`.
pub proof fn law_escape_removes_markup(s: Seq<char>)
    ensures
        forall|i: int| 0 <= i < html_escape_spec(s).len() ==> {
            let c = #[trigger] html_escape_spec(s)[i];
            c != '<' && c != '>' && c != '"' && c != '\''
        },
    decreases s.len(),
{
    reveal_strlit("&amp;");
    reveal_strlit("&lt;");
    reveal_strlit("&gt;");
    reveal_strlit("&quot;");
    reveal_strlit("&#39;");
    if s.len() > 0 {
        law_escape_removes_markup(s.drop_last());
        let a = html_escape_spec(s.drop_last());
        let b = escape_char(s.last());
        assert forall|i: int| 0 <= i < html_escape_spec(s).len() implies {
            let c = #[trigger] html_escape_spec(s)[i];
            c != '<' && c != '>' && c != '"' && c != '\''
        } by {
            if i >= a.len() {
                assert(html_escape_spec(s)[i] == b[i - a.len()]);
            } else {
                assert(html_escape_spec(s)[i] == a[i]);
            }
        }
    }
}

/// Escapes text for HTML.
pub fn html_escape(s: &str) -> (r: String)
    ensures
        r@ == html_escape_spec(s@),
{
    let mut r = String::new();
    push_escaped(&mut r, s);
    r
}


/// The contributors of a topic, escaped and joined by `、`.
pub open spec fn contributors_html(cs: Seq<String>) -> Seq<char> {
    join(Seq::new(cs.len(), |i: int| html_escape_spec(cs[i]@)), "、"@)
}

/// The card of the topic at position `i` (numbered from 1).
pub open spec fn topic_html(i: int, t: Topic) -> Seq<char> {
    TOPIC_OPEN@ + dec_nat((i + 1) as nat) + TOPIC_AFTER_NUMBER@ + html_escape_spec(t.topic@) + TOPIC_AFTER_TITLE@
        + contributors_html(t.contributors@) + TOPIC_AFTER_CONTRIBUTORS@ + html_escape_spec(t.detail@) + TOPIC_CLOSE@
}

/// The topic cards, one per line.
pub open spec fn topics_html(ts: Seq<Topic>) -> Seq<char> {
    join(Seq::new(ts.len(), |i: int| topic_html(i, ts[i])), "\n"@)
}

/// The first character of a name, `?` for an empty name.
pub open spec fn initial_of(name: Seq<char>) -> char {
    if name.len() > 0 { name[0] } else { '?' }
}

/// The card of one member title.
pub open spec fn title_html(u: UserTitle) -> Seq<char> {
    USER_OPEN@ + seq![initial_of(u.name@)] + USER_AFTER_INITIAL@ + html_escape_spec(u.name@) + USER_AFTER_NAME@
        + html_escape_spec(u.title@) + USER_AFTER_TITLE@ + html_escape_spec(u.mbti@) + USER_AFTER_MBTI@
        + html_escape_spec(u.habit@) + USER_AFTER_HABIT@ + html_escape_spec(u.reason@) + USER_CLOSE@
}

pub open spec fn titles_html(us: Seq<UserTitle>) -> Seq<char> {
    join(Seq::new(us.len(), |i: int| title_html(us[i])), "\n"@)
}

/// The card of one quote.
pub open spec fn quote_html(q: Quote) -> Seq<char> {
    QUOTE_OPEN@ + html_escape_spec(q.content@) + QUOTE_AFTER_CONTENT@ + html_escape_spec(q.sender@)
        + QUOTE_AFTER_SENDER@ + html_escape_spec(q.reason@) + QUOTE_CLOSE@
}

pub open spec fn quotes_html(qs: Seq<Quote>) -> Seq<char> {
    join(Seq::new(qs.len(), |i: int| quote_html(qs[i])), "\n"@)
}

fn escaped_list(cs: &Vec<String>) -> (r: Vec<String>)
    ensures
        views(r@) == Seq::new(cs@.len(), |i: int| html_escape_spec(cs@[i]@)),
{
    let mut r: Vec<String> = Vec::new();
    let mut i: usize = 0;
    while i < cs.len()
        invariant
            i <= cs@.len(),
            views(r@) =~= Seq::new(i as nat, |k: int| html_escape_spec(cs@[k]@)),
        decreases cs.len() - i,
    {
        let e = html_escape(cs[i].as_str());
        let ghost before = r@;
        r.push(e);
        assert(views(r@) =~= views(before).push(e@));
        i += 1;
    }
    r
}

/// Topic cards, one per line.
pub fn render_topics(topics: &[Topic]) -> (s: String)
    requires
        topics@.len() < usize::MAX,
    ensures
        s@ == topics_html(topics@),
{
    let mut lines: Vec<String> = Vec::new();
    let mut i: usize = 0;
    while i < topics.len()
        invariant
            i <= topics@.len(),
            topics@.len() < usize::MAX,
            views(lines@) =~= Seq::new(i as nat, |k: int| topic_html(k, topics@[k])),
        decreases topics.len() - i,
    {
        let t = &topics[i];
        let mut line = String::new();
        push_str(&mut line, TOPIC_OPEN);
        push_u64(&mut line, (i + 1) as u64);
        push_str(&mut line, TOPIC_AFTER_NUMBER);
        push_escaped(&mut line, t.topic.as_str());
        push_str(&mut line, TOPIC_AFTER_TITLE);
        let cs = escaped_list(&t.contributors);
        let joined = join_strings(&cs, "、");
        push_str(&mut line, joined.as_str());
        push_str(&mut line, TOPIC_AFTER_CONTRIBUTORS);
        push_escaped(&mut line, t.detail.as_str());
        push_str(&mut line, TOPIC_CLOSE);
        assert(line@ == topic_html(i as int, *t));
        let ghost before = lines@;
        lines.push(line);
        assert(views(lines@) =~= views(before).push(line@));
        i += 1;
    }
    join_strings(&lines, "\n")
}

/// Member-title cards, one per line.
pub fn render_user_titles(titles: &[UserTitle]) -> (s: String)
    ensures
        s@ == titles_html(titles@),
{
    let mut lines: Vec<String> = Vec::new();
    let mut i: usize = 0;
    while i < titles.len()
        invariant
            i <= titles@.len(),
            views(lines@) =~= Seq::new(i as nat, |k: int| title_html(titles@[k])),
        decreases titles.len() - i,
    {
        let u = &titles[i];
        let name = chars_of(u.name.as_str());
        let initial = if name.len() > 0 { name[0] } else { '?' };
        let mut line = String::new();
        push_str(&mut line, USER_OPEN);
        push_char(&mut line, initial);
        push_str(&mut line, USER_AFTER_INITIAL);
        push_escaped(&mut line, u.name.as_str());
        push_str(&mut line, USER_AFTER_NAME);
        push_escaped(&mut line, u.title.as_str());
        push_str(&mut line, USER_AFTER_TITLE);
        push_escaped(&mut line, u.mbti.as_str());
        push_str(&mut line, USER_AFTER_MBTI);
        push_escaped(&mut line, u.habit.as_str());
        push_str(&mut line, USER_AFTER_HABIT);
        push_escaped(&mut line, u.reason.as_str());
        push_str(&mut line, USER_CLOSE);
        assert(line@ =~= title_html(*u));
        let ghost before = lines@;
        lines.push(line);
        assert(views(lines@) =~= views(before).push(line@));
        i += 1;
    }
    join_strings(&lines, "\n")
}

/// Quote cards, one per line.
pub fn render_quotes(quotes: &[Quote]) -> (s: String)
    ensures
        s@ == quotes_html(quotes@),
{
    let mut lines: Vec<String> = Vec::new();
    let mut i: usize = 0;
    while i < quotes.len()
        invariant
            i <= quotes@.len(),
            views(lines@) =~= Seq::new(i as nat, |k: int| quote_html(quotes@[k])),
        decreases quotes.len() - i,
    {
        let q = &quotes[i];
        let mut line = String::new();
        push_str(&mut line, QUOTE_OPEN);
        push_escaped(&mut line, q.content.as_str());
        push_str(&mut line, QUOTE_AFTER_CONTENT);
        push_escaped(&mut line, q.sender.as_str());
        push_str(&mut line, QUOTE_AFTER_SENDER);
        push_escaped(&mut line, q.reason.as_str());
        push_str(&mut line, QUOTE_CLOSE);
        let ghost before = lines@;
        lines.push(line);
        assert(views(lines@) =~= views(before).push(line@));
        i += 1;
    }
    join_strings(&lines, "\n")
}

/// A section of the page, left out when it has no entries.
pub open spec fn section(nonempty: bool, open: Seq<char>, body: Seq<char>, close: Seq<char>) -> Seq<char> {
    if nonempty { open + body + close } else { Seq::empty() }
}

/// The report page.
pub open spec fn report_spec(
    stats: Statistics,
    llm: LlmResult,
    group_name: Seq<char>,
    date_str: Seq<char>,
    datetime_str: Seq<char>,
    hourly_chart: Seq<char>,
) -> Seq<char> {
    REPORT_HEAD@ + html_escape_spec(group_name) + REPORT_AFTER_GROUP@ + date_str + REPORT_AFTER_DATE@
        + dec_nat(stats.message_count as nat) + REPORT_AFTER_MESSAGES@ + dec_nat(stats.participant_count as nat)
        + REPORT_AFTER_PARTICIPANTS@ + dec_nat(stats.total_characters as nat) + REPORT_AFTER_CHARACTERS@
        + dec_nat(stats.emoji_count as nat) + REPORT_AFTER_EMOJI@ + html_escape_spec(stats.most_active_hour@)
        + REPORT_AFTER_ACTIVE_HOUR@ + hourly_chart + REPORT_AFTER_CHART@
        + section(llm.topics@.len() > 0, TOPICS_SECTION_OPEN@, topics_html(llm.topics@), GRID_SECTION_CLOSE@)
        + REPORT_AFTER_TOPICS@
        + section(llm.user_titles@.len() > 0, TITLES_SECTION_OPEN@, titles_html(llm.user_titles@), GRID_SECTION_CLOSE@)
        + REPORT_AFTER_TITLES@
        + section(llm.golden_quotes@.len() > 0, QUOTES_SECTION_OPEN@, quotes_html(llm.golden_quotes@), QUOTES_SECTION_CLOSE@)
        + REPORT_AFTER_QUOTES@ + datetime_str + REPORT_TAIL@
}

fn topics_section(llm: &LlmResult) -> (s: String)
    requires
        llm.topics@.len() < usize::MAX,
    ensures
        s@ == section(llm.topics@.len() > 0, TOPICS_SECTION_OPEN@, topics_html(llm.topics@), GRID_SECTION_CLOSE@),
{
    let mut s = String::new();
    if llm.topics.len() > 0 {
        push_str(&mut s, TOPICS_SECTION_OPEN);
        let t = render_topics(llm.topics.as_slice());
        push_str(&mut s, t.as_str());
        push_str(&mut s, GRID_SECTION_CLOSE);
    } else {
        assert(s@ =~= Seq::<char>::empty());
    }
    s
}

fn titles_section(llm: &LlmResult) -> (s: String)
    ensures
        s@ == section(llm.user_titles@.len() > 0, TITLES_SECTION_OPEN@, titles_html(llm.user_titles@), GRID_SECTION_CLOSE@),
{
    let mut s = String::new();
    if llm.user_titles.len() > 0 {
        push_str(&mut s, TITLES_SECTION_OPEN);
        let t = render_user_titles(llm.user_titles.as_slice());
        push_str(&mut s, t.as_str());
        push_str(&mut s, GRID_SECTION_CLOSE);
    } else {
        assert(s@ =~= Seq::<char>::empty());
    }
    s
}

fn quotes_section(llm: &LlmResult) -> (s: String)
    ensures
        s@ == section(llm.golden_quotes@.len() > 0, QUOTES_SECTION_OPEN@, quotes_html(llm.golden_quotes@), QUOTES_SECTION_CLOSE@),
{
    let mut s = String::new();
    if llm.golden_quotes.len() > 0 {
        push_str(&mut s, QUOTES_SECTION_OPEN);
        let t = render_quotes(llm.golden_quotes.as_slice());
        push_str(&mut s, t.as_str());
        push_str(&mut s, QUOTES_SECTION_CLOSE);
    } else {
        assert(s@ =~= Seq::<char>::empty());
    }
    s
}

/// Renders the report page. The date texts (`"%Y年%m月%d日"` and
/// `"%Y-%m-%d %H:%M"`, UTC+8) and the hourly chart are given.
pub fn render(
    stats: &Statistics,
    llm: &LlmResult,
    group_name: &str,
    date_str: &str,
    datetime_str: &str,
    hourly_chart: &str,
) -> (html: String)
    requires
        llm.topics@.len() < usize::MAX,
    ensures
        html@ == report_spec(*stats, *llm, group_name@, date_str@, datetime_str@, hourly_chart@),
{
    let topics = topics_section(llm);
    let titles = titles_section(llm);
    let quotes = quotes_section(llm);
    let mut h = String::new();
    push_str(&mut h, REPORT_HEAD);
    assert(h@ == REPORT_HEAD@);
    push_escaped(&mut h, group_name);
    push_str(&mut h, REPORT_AFTER_GROUP);
    push_str(&mut h, date_str);
    push_str(&mut h, REPORT_AFTER_DATE);
    push_u64(&mut h, stats.message_count as u64);
    push_str(&mut h, REPORT_AFTER_MESSAGES);
    push_u64(&mut h, stats.participant_count as u64);
    push_str(&mut h, REPORT_AFTER_PARTICIPANTS);
    push_u64(&mut h, stats.total_characters as u64);
    push_str(&mut h, REPORT_AFTER_CHARACTERS);
    push_u64(&mut h, stats.emoji_count as u64);
    push_str(&mut h, REPORT_AFTER_EMOJI);
    push_escaped(&mut h, stats.most_active_hour.as_str());
    push_str(&mut h, REPORT_AFTER_ACTIVE_HOUR);
    push_str(&mut h, hourly_chart);
    push_str(&mut h, REPORT_AFTER_CHART);
    push_str(&mut h, topics.as_str());
    push_str(&mut h, REPORT_AFTER_TOPICS);
    push_str(&mut h, titles.as_str());
    push_str(&mut h, REPORT_AFTER_TITLES);
    push_str(&mut h, quotes.as_str());
    push_str(&mut h, REPORT_AFTER_QUOTES);
    push_str(&mut h, datetime_str);
    push_str(&mut h, REPORT_TAIL);
    h
}


proof fn lemma_add_assoc(x: Seq<char>, y: Seq<char>, z: Seq<char>)
    ensures
        x + y + z == x + (y + z),
{
    assert(x + y + z =~= x + (y + z));
}

/// The four stat boxes of the page show, in order, the message count, the
/// participant count, the character count and the emoticon count, each as
/// decimal text right before its box's label (the emoticon count right
/// before the `表情数量` label), and the image count does not enter the page.
pub proof fn law_report_stat_boxes(
    stats: Statistics,
    llm: LlmResult,
    group_name: Seq<char>,
    date_str: Seq<char>,
    datetime_str: Seq<char>,
    hourly_chart: Seq<char>,
    other_images: usize,
)
    ensures
        exists|p: Seq<char>, q: Seq<char>| #[trigger]
            report_spec(stats, llm, group_name, date_str, datetime_str, hourly_chart) == p + REPORT_AFTER_DATE@
                + dec_nat(stats.message_count as nat) + REPORT_AFTER_MESSAGES@ + dec_nat(
                stats.participant_count as nat,
            ) + REPORT_AFTER_PARTICIPANTS@ + dec_nat(stats.total_characters as nat) + REPORT_AFTER_CHARACTERS@
                + dec_nat(stats.emoji_count as nat) + REPORT_AFTER_EMOJI@ + q,
        report_spec(Statistics { image_count: other_images, ..stats }, llm, group_name, date_str, datetime_str, hourly_chart)
            == report_spec(stats, llm, group_name, date_str, datetime_str, hourly_chart),
{
    let p = REPORT_HEAD@ + html_escape_spec(group_name) + REPORT_AFTER_GROUP@ + date_str;
    let x = p + REPORT_AFTER_DATE@ + dec_nat(stats.message_count as nat) + REPORT_AFTER_MESSAGES@ + dec_nat(
        stats.participant_count as nat,
    ) + REPORT_AFTER_PARTICIPANTS@ + dec_nat(stats.total_characters as nat) + REPORT_AFTER_CHARACTERS@ + dec_nat(
        stats.emoji_count as nat,
    ) + REPORT_AFTER_EMOJI@;
    let t = seq![
        html_escape_spec(stats.most_active_hour@),
        REPORT_AFTER_ACTIVE_HOUR@,
        hourly_chart,
        REPORT_AFTER_CHART@,
        section(llm.topics@.len() > 0, TOPICS_SECTION_OPEN@, topics_html(llm.topics@), GRID_SECTION_CLOSE@),
        REPORT_AFTER_TOPICS@,
        section(llm.user_titles@.len() > 0, TITLES_SECTION_OPEN@, titles_html(llm.user_titles@), GRID_SECTION_CLOSE@),
        REPORT_AFTER_TITLES@,
        section(llm.golden_quotes@.len() > 0, QUOTES_SECTION_OPEN@, quotes_html(llm.golden_quotes@), QUOTES_SECTION_CLOSE@),
        REPORT_AFTER_QUOTES@,
        datetime_str,
        REPORT_TAIL@,
    ];
    let r = report_spec(stats, llm, group_name, date_str, datetime_str, hourly_chart);
    assert(r == x + t[0] + t[1] + t[2] + t[3] + t[4] + t[5] + t[6] + t[7] + t[8] + t[9] + t[10] + t[11]);
    let q = t[0] + t[1] + t[2] + t[3] + t[4] + t[5] + t[6] + t[7] + t[8] + t[9] + t[10] + t[11];
    lemma_add_assoc(x, t[0], t[1]);
    lemma_add_assoc(x, t[0] + t[1], t[2]);
    lemma_add_assoc(x, t[0] + t[1] + t[2], t[3]);
    lemma_add_assoc(x, t[0] + t[1] + t[2] + t[3], t[4]);
    lemma_add_assoc(x, t[0] + t[1] + t[2] + t[3] + t[4], t[5]);
    lemma_add_assoc(x, t[0] + t[1] + t[2] + t[3] + t[4] + t[5], t[6]);
    lemma_add_assoc(x, t[0] + t[1] + t[2] + t[3] + t[4] + t[5] + t[6], t[7]);
    lemma_add_assoc(x, t[0] + t[1] + t[2] + t[3] + t[4] + t[5] + t[6] + t[7], t[8]);
    lemma_add_assoc(x, t[0] + t[1] + t[2] + t[3] + t[4] + t[5] + t[6] + t[7] + t[8], t[9]);
    lemma_add_assoc(x, t[0] + t[1] + t[2] + t[3] + t[4] + t[5] + t[6] + t[7] + t[8] + t[9], t[10]);
    lemma_add_assoc(x, t[0] + t[1] + t[2] + t[3] + t[4] + t[5] + t[6] + t[7] + t[8] + t[9] + t[10], t[11]);
    assert(r == x + q);
}

// ── screenshots ──────────────────────────────────────────────────────────────

/// Viewport height used to measure a page.
pub const MEASURE_VIEWPORT_HEIGHT: u32 = 2000;
pub const MIN_SCREENSHOT_HEIGHT: u32 = 600;
pub const MAX_SCREENSHOT_HEIGHT: u32 = 20000;
/// Added to the measured height.
pub const HEIGHT_SAFETY_PADDING: u32 = 24;
/// Height assumed when the measurement fails.
pub const FALLBACK_HEIGHT: u32 = 4000;

/// Whether `p` occurs in `s` at `i`.
pub open spec fn occurs_at(s: Seq<char>, p: Seq<char>, i: int) -> bool {
    0 <= i && i + p.len() <= s.len() && s.subrange(i, i + p.len()) == p
}

/// The first occurrence of `p` in `s` at or after `i`.
pub open spec fn find_from(s: Seq<char>, p: Seq<char>, i: int) -> Option<int>
    decreases s.len() + 1 - i,
{
    if i < 0 || i + p.len() > s.len() {
        None
    } else if occurs_at(s, p, i) {
        Some(i)
    } else {
        find_from(s, p, i + 1)
    }
}

fn occurs_at_exec(s: &Vec<char>, p: &Vec<char>, i: usize) -> (b: bool)
    ensures
        b == occurs_at(s@, p@, i as int),
{
    let n = s.len();
    if i > n {
        return false;
    }
    let rem = n - i;
    if p.len() > rem {
        return false;
    }
    let mut k: usize = 0;
    while k < p.len()
        invariant
            k <= p@.len(),
            n == s@.len(),
            i + p@.len() <= s@.len(),
            forall|j: int| 0 <= j < k ==> s@[i + j] == p@[j],
        decreases p.len() - k,
    {
        assert(i + k < s@.len());
        if s[i + k] != p[k] {
            assert(s@.subrange(i as int, i + p@.len())[k as int] != p@[k as int]);
            return false;
        }
        k += 1;
    }
    assert(s@.subrange(i as int, i + p@.len()) =~= p@);
    true
}

/// The first occurrence of `p` in `s` at or after `from`.
pub(crate) fn find_sub(s: &Vec<char>, p: &Vec<char>, from: usize) -> (r: Option<usize>)
    requires
        from <= s@.len(),
    ensures
        r matches Some(k) ==> find_from(s@, p@, from as int) == Some(k as int) && from <= k && k + p@.len() <= s@.len(),
        r is None ==> find_from(s@, p@, from as int) is None,
{
    let mut i = from;
    loop
        invariant
            from <= i <= s@.len(),
            find_from(s@, p@, from as int) == find_from(s@, p@, i as int),
        decreases s.len() - i,
    {
        if p.len() > s.len() - i {
            return None;
        }
        if occurs_at_exec(s, p, i) {
            return Some(i);
        }
        if i == s.len() {
            assert(find_from(s@, p@, i as int + 1) is None);
            return None;
        }
        i += 1;
    }
}

/// The height a page reports in its `<title>`, as `str::find` and
/// `u32::from_str` read it: the trimmed text between the first `<title>` and
/// the next `</title>`.
pub open spec fn title_height_spec(dom: Seq<char>) -> Option<u32> {
    match find_from(dom, "<title>"@, 0) {
        None => None,
        Some(i) => match find_from(dom, "</title>"@, i + 7) {
            None => None,
            Some(j) => crate::text::parse_u32_spec(trim(dom.subrange(i + 7, j))),
        },
    }
}

/// Reads the content height that the probe script wrote into the title.
pub fn extract_title_height(dom: &str) -> (h: Option<u32>)
    ensures
        h == title_height_spec(dom@),
{
    proof {
        reveal_strlit("<title>");
        reveal_strlit("</title>");
    }
    let s = chars_of(dom);
    let open = chars_of("<title>");
    let close = chars_of("</title>");
    let i = match find_sub(&s, &open, 0) {
        Some(i) => i,
        None => {
            return None;
        },
    };
    assert(open@ == "<title>"@ && open@.len() == 7);
    let n = s.len();
    let start = i + 7;
    let j = match find_sub(&s, &close, start) {
        Some(j) => j,
        None => {
            return None;
        },
    };
    let body = slice_chars(&s, start, j);
    let t = trim_chars(&body);
    crate::text::parse_u32(&t)
}

/// `s[pos..].replace(p, r)`: every occurrence of `p` from `pos` on, left to
/// right and without overlap, replaced by `r`.
pub open spec fn replace_from(s: Seq<char>, p: Seq<char>, r: Seq<char>, pos: int) -> Seq<char>
    recommends
        p.len() > 0,
        0 <= pos <= s.len(),
    decreases s.len() - pos,
{
    if p.len() == 0 || pos < 0 || pos > s.len() {
        s.skip(pos)
    } else {
        match find_from(s, p, pos) {
            None => s.skip(pos),
            Some(i) => {
                proof { lemma_find_from_bounds(s, p, pos); }
                s.subrange(pos, i) + r + replace_from(s, p, r, i + p.len())
            },
        }
    }
}

/// `s.replace(p, r)`.
pub open spec fn replace_all(s: Seq<char>, p: Seq<char>, r: Seq<char>) -> Seq<char> {
    replace_from(s, p, r, 0)
}

pub proof fn lemma_find_from_bounds(s: Seq<char>, p: Seq<char>, i: int)
    ensures
        find_from(s, p, i) matches Some(k) ==> i <= k && k + p.len() <= s.len() && occurs_at(s, p, k),
    decreases s.len() + 1 - i,
{
    if !(i < 0 || i + p.len() > s.len()) && !occurs_at(s, p, i) {
        lemma_find_from_bounds(s, p, i + 1);
    }
}

/// Puts the height probe in place of `</body>`.
pub fn patch_html(html: &str) -> (r: String)
    ensures
        r@ == replace_all(html@, "</body>"@, HEIGHT_PROBE_BODY_END@),
{
    replace_body_end(html, HEIGHT_PROBE_BODY_END)
}

/// Every `</body>` of a page replaced by `rep`.
pub(crate) fn replace_body_end(html: &str, rep: &str) -> (r: String)
    ensures
        r@ == replace_all(html@, "</body>"@, rep@),
{
    proof { reveal_strlit("</body>"); }
    let s = chars_of(html);
    let p = chars_of("</body>");
    let rc = chars_of(rep);
    let mut out = String::new();
    let mut pos: usize = 0;
    while pos <= s.len()
        invariant
            pos <= s@.len(),
            s@ == html@,
            p@ == "</body>"@,
            p@.len() == 7,
            rc@ == rep@,
            out@ + replace_from(s@, p@, rc@, pos as int) == replace_all(s@, p@, rc@),
        decreases s.len() + 1 - pos,
    {
        match find_sub(&s, &p, pos) {
            None => {
                let tail = slice_chars(&s, pos, s.len());
                assert(tail@ =~= s@.skip(pos as int));
                push_chars_vec(&mut out, &tail);
                return out;
            },
            Some(i) => {
                let head = slice_chars(&s, pos, i);
                push_chars_vec(&mut out, &head);
                push_chars_vec(&mut out, &rc);
                pos = i + 7;
            },
        }
    }
    out
}

fn push_chars_vec(out: &mut String, v: &Vec<char>)
    ensures
        final(out)@ == old(out)@ + v@,
{
    crate::text::push_chars(out, v.as_slice());
}

/// The screenshot height: the measured height (4000 when unknown) plus the
/// padding, within the minimum and maximum.
pub fn screenshot_height(measured: Option<u32>) -> (h: u32)
    ensures
        h == ({
            let m = match measured { Some(v) => v as int, None => FALLBACK_HEIGHT as int };
            let padded = if m + HEIGHT_SAFETY_PADDING > u32::MAX { u32::MAX as int } else { m + HEIGHT_SAFETY_PADDING };
            if padded < MIN_SCREENSHOT_HEIGHT {
                MIN_SCREENSHOT_HEIGHT as int
            } else if padded > MAX_SCREENSHOT_HEIGHT {
                MAX_SCREENSHOT_HEIGHT as int
            } else {
                padded
            }
        }),
{
    let m = match measured {
        Some(v) => v,
        None => FALLBACK_HEIGHT,
    };
    let padded = m.saturating_add(HEIGHT_SAFETY_PADDING);
    if padded < MIN_SCREENSHOT_HEIGHT {
        MIN_SCREENSHOT_HEIGHT
    } else if padded > MAX_SCREENSHOT_HEIGHT {
        MAX_SCREENSHOT_HEIGHT
    } else {
        padded
    }
}

/// The character of a six-bit value in the standard base64 alphabet.
pub open spec fn b64_char(v: int) -> char {
    if v < 26 {
        ('A' as int + v) as char
    } else if v < 52 {
        ('a' as int + (v - 26)) as char
    } else if v < 62 {
        ('0' as int + (v - 52)) as char
    } else if v == 62 {
        '+'
    } else {
        '/'
    }
}

/// Standard base64 of some bytes (RFC 4648, section 4): each group of three
/// bytes, read as a 24-bit number, gives four characters; a last group of
/// one or two bytes is filled with zero bits and padded with `=`.
pub open spec fn base64_standard(data: Seq<u8>) -> Seq<char>
    decreases data.len(),
{
    if data.len() == 0 {
        Seq::empty()
    } else if data.len() == 1 {
        let n = data[0] as int * 65536;
        seq![b64_char(n / 262144), b64_char((n / 4096) % 64), '=', '=']
    } else if data.len() == 2 {
        let n = data[0] as int * 65536 + data[1] as int * 256;
        seq![b64_char(n / 262144), b64_char((n / 4096) % 64), b64_char((n / 64) % 64), '=']
    } else {
        let n = data[0] as int * 65536 + data[1] as int * 256 + data[2] as int;
        seq![b64_char(n / 262144), b64_char((n / 4096) % 64), b64_char((n / 64) % 64), b64_char(n % 64)]
            + base64_standard(data.skip(3))
    }
}

/// `base64::engine::general_purpose::STANDARD.encode`: the standard
/// alphabet with `=` padding, as `base64_standard` states it.
#[verifier::external_body]
fn b64_encode(data: &[u8]) -> (s: String)
    ensures
        s@ == base64_standard(data@),
{
    base64::engine::general_purpose::STANDARD.encode(data)
}

/// The screenshot as base64 text, as images are sent.
pub fn encode_screenshot(png: &Vec<u8>) -> (s: String)
    ensures
        s@ == base64_standard(png@),
{
    b64_encode(png.as_slice())
}
} // verus!
