//! Fixed texts of the daily report: the HTML page around the figures, and
//! the prompts sent to the language model around the chat log.
use vstd::prelude::*;

verus! {

pub const REPORT_HEAD: &'static str = r#"<!DOCTYPE html>
<html lang="zh-CN">
<head>
<meta charset="UTF-8">
<meta name="viewport" content="width=device-width, initial-scale=1.0">
<title>群聊分析报告</title>
<style>
* { margin: 0; padding: 0; box-sizing: border-box; }
body {
    font-family: 'Noto Sans SC', -apple-system, BlinkMacSystemFont, 'Segoe UI', sans-serif;
    background: #F0F4FF;
    min-height: 100vh;
    padding: 30px;
    line-height: 1.6;
    color: #2D3748;
}
.container {
    max-width: 1200px;
    margin: 0 auto;
    background: #FFFFFF;
    border-radius: 24px;
    box-shadow: 0 8px 40px rgba(124,155,245,0.12);
    overflow: hidden;
}

/* ── Header ── */
.header {
    background: linear-gradient(135deg, #7C9BF5 0%, #F5A0C0 100%);
    color: #fff;
    padding: 50px 50px 45px;
    text-align: center;
}
.header h1 {
    font-size: 2.8em;
    font-weight: 300;
    margin-bottom: 8px;
    letter-spacing: -0.5px;
}
.header .subtitle {
    font-size: 1.1em;
    opacity: 0.9;
    font-weight: 300;
}

/* ── Content ── */
.content { padding: 40px 45px; }
.section { margin-bottom: 40px; }
.section-title {
    font-size: 1.5em;
    font-weight: 600;
    margin-bottom: 22px;
    color: #4A5568;
    border-bottom: 2px solid #E8EDF8;
    padding-bottom: 10px;
    display: flex;
    align-items: center;
    gap: 10px;
}

/* ── Stats Grid ── */
.stats-grid {
    display: grid;
    grid-template-columns: repeat(4, 1fr);
    gap: 20px;
    margin-bottom: 30px;
}
.stat-card {
    background: linear-gradient(135deg, #F8FAFF 0%, #F0F4FF 100%);
    padding: 30px 20px;
    text-align: center;
    border-radius: 16px;
    border: 1px solid #E8EDF8;
    transition: all 0.3s;
}
.stat-card:hover {
    transform: translateY(-3px);
    box-shadow: 0 8px 24px rgba(124,155,245,0.15);
}
.stat-number {
    font-size: 2.8em;
    font-weight: 300;
    color: #7C9BF5;
    margin-bottom: 6px;
    letter-spacing: -1px;
}
.stat-label {
    font-size: 0.9em;
    color: #6B7280;
    text-transform: uppercase;
    letter-spacing: 1px;
}

/* ── Active Period ── */
.active-period {
    background: linear-gradient(135deg, #7C9BF5 0%, #F5A0C0 100%);
    color: #fff;
    padding: 35px;
    text-align: center;
    margin: 30px 0;
    border-radius: 18px;
    box-shadow: 0 6px 20px rgba(124,155,245,0.25);
}
.active-period .time {
    font-size: 2.8em;
    font-weight: 200;
    margin-bottom: 6px;
}
.active-period .label {
    font-size: 0.95em;
    opacity: 0.85;
    letter-spacing: 1px;
    text-transform: uppercase;
}

/* ── Hourly Chart ── */
.chart-container {
    background: #FAFBFF;
    padding: 30px;
    border-radius: 18px;
    border: 1px solid #E8EDF8;
    margin-bottom: 10px;
}
.chart-title {
    font-size: 1.1em;
    font-weight: 600;
    color: #4A5568;
    margin-bottom: 18px;
}
.hour-bar-container {
    display: flex;
    align-items: center;
    margin: 4px 0;
    height: 22px;
}
.hour-label {
    width: 55px;
    font-size: 0.82em;
    color: #6B7280;
    text-align: right;
    padding-right: 12px;
    flex-shrink: 0;
}
.bar-wrapper {
    flex: 1;
    display: flex;
    align-items: center;
    gap: 6px;
}
.bar {
    height: 16px;
    background: linear-gradient(90deg, #7C9BF5, #F5A0C0);
    border-radius: 8px;
    min-width: 2px;
    transition: width 0.3s;
    display: flex;
    align-items: center;
    justify-content: flex-end;
    padding-right: 6px;
}
.bar-value {
    font-size: 0.72em;
    color: #fff;
    font-weight: 500;
    white-space: nowrap;
}
.bar-value-outside {
    font-size: 0.72em;
    color: #9CA3AF;
    white-space: nowrap;
}

/* ── Topics Grid ── */
.topics-grid {
    display: grid;
    grid-template-columns: repeat(2, 1fr);
    gap: 20px;
}
.topic-item {
    background: #fff;
    padding: 22px;
    border-radius: 14px;
    border: 1px solid #E8EDF8;
    transition: all 0.3s;
    display: flex;
    flex-direction: column;
}
.topic-item:hover {
    transform: translateY(-2px);
    box-shadow: 0 6px 20px rgba(124,155,245,0.1);
}
.topic-header {
    display: flex;
    align-items: center;
    margin-bottom: 14px;
}
.topic-number {
    background: linear-gradient(135deg, #7C9BF5, #9FB5F8);
    color: #fff;
    width: 34px;
    height: 34px;
    border-radius: 50%;
    display: flex;
    align-items: center;
    justify-content: center;
    font-weight: 500;
    margin-right: 14px;
    font-size: 0.9em;
    box-shadow: 0 3px 10px rgba(124,155,245,0.3);
    flex-shrink: 0;
}
.topic-title {
    font-weight: 600;
    color: #2D3748;
    font-size: 1.15em;
}
.topic-contributors {
    color: #6B7280;
    font-size: 0.88em;
    margin-bottom: 10px;
}
.topic-detail {
    color: #374151;
    line-height: 1.65;
    font-size: 0.95em;
}

/* ── User Titles ── */
.users-grid {
    display: grid;
    grid-template-columns: repeat(2, 1fr);
    gap: 20px;
}
.user-card {
    background: #fff;
    padding: 22px;
    border-radius: 14px;
    border: 1px solid #E8EDF8;
    transition: all 0.3s;
}
.user-card:hover {
    transform: translateY(-2px);
    box-shadow: 0 6px 20px rgba(245,160,192,0.12);
}
.user-card-header {
    display: flex;
    align-items: center;
    margin-bottom: 12px;
}
.user-avatar {
    width: 44px;
    height: 44px;
    border-radius: 50%;
    background: linear-gradient(135deg, #F5A0C0, #F8C4D8);
    display: flex;
    align-items: center;
    justify-content: center;
    font-size: 1.2em;
    color: #fff;
    margin-right: 14px;
    flex-shrink: 0;
    font-weight: 500;
}
.user-name {
    font-weight: 600;
    color: #2D3748;
    font-size: 1.1em;
    margin-bottom: 6px;
}
.user-badges {
    display: flex;
    align-items: center;
    gap: 8px;
    flex-wrap: wrap;
}
.badge-title {
    background: linear-gradient(135deg, #7C9BF5, #9FB5F8);
    color: #fff;
    padding: 4px 14px;
    border-radius: 20px;
    font-size: 0.82em;
    font-weight: 500;
    box-shadow: 0 2px 8px rgba(124,155,245,0.25);
}
.badge-mbti {
    background: linear-gradient(135deg, #F5A0C0, #F8C4D8);
    color: #fff;
    padding: 4px 10px;
    border-radius: 14px;
    font-size: 0.82em;
    font-weight: 500;
}
.user-habit {
    font-size: 0.88em;
    color: #7C9BF5;
    margin: 8px 0 4px;
    font-style: italic;
}
.user-reason {
    font-size: 0.88em;
    color: #6B7280;
    line-height: 1.5;
}

/* ── Quotes ── */
.quote-item {
    background: linear-gradient(135deg, #FDF2F8 0%, #F0F4FF 100%);
    padding: 20px 24px;
    margin-bottom: 16px;
    border-radius: 14px;
    border: 1px solid #F3E8F0;
    transition: all 0.3s;
}
.quote-item:hover {
    transform: translateY(-2px);
    box-shadow: 0 6px 20px rgba(245,160,192,0.12);
}
.quote-content {
    font-size: 1.08em;
    color: #2D3748;
    font-weight: 500;
    line-height: 1.6;
    margin-bottom: 10px;
    font-style: italic;
}
.quote-author {
    font-size: 0.9em;
    color: #F5A0C0;
    font-weight: 600;
    text-align: right;
    margin-bottom: 6px;
}
.quote-reason {
    font-size: 0.82em;
    color: #6B7280;
    background: rgba(124,155,245,0.08);
    padding: 8px 12px;
    border-radius: 10px;
    border-left: 3px solid #7C9BF5;
}

/* ── Footer ── */
.footer {
    background: linear-gradient(135deg, #7C9BF5 0%, #9FB5F8 100%);
    color: #fff;
    text-align: center;
    padding: 30px;
    font-size: 0.9em;
    font-weight: 300;
    opacity: 0.95;
}
</style>
</head>
<body>
<div class="container">
    <div class="header">
        <h1>📊 群聊日常分析报告</h1>
        <div class="subtitle">"#;

pub const REPORT_AFTER_GROUP: &'static str = r#" · "#;

pub const REPORT_AFTER_DATE: &'static str = r#"</div>
    </div>
    <div class="content">
        <!-- 基础统计 -->
        <div class="section">
            <h2 class="section-title">📈 基础统计</h2>
            <div class="stats-grid">
                <div class="stat-card">
                    <div class="stat-number">"#;

pub const REPORT_AFTER_MESSAGES: &'static str = r#"</div>
                    <div class="stat-label">消息总数</div>
                </div>
                <div class="stat-card">
                    <div class="stat-number">"#;

pub const REPORT_AFTER_PARTICIPANTS: &'static str = r#"</div>
                    <div class="stat-label">参与人数</div>
                </div>
                <div class="stat-card">
                    <div class="stat-number">"#;

pub const REPORT_AFTER_CHARACTERS: &'static str = r#"</div>
                    <div class="stat-label">总字符数</div>
                </div>
                <div class="stat-card">
                    <div class="stat-number">"#;

pub const REPORT_AFTER_EMOJI: &'static str = r#"</div>
                    <div class="stat-label">表情数量</div>
                </div>
            </div>
            <div class="active-period">
                <div class="time">"#;

pub const REPORT_AFTER_ACTIVE_HOUR: &'static str = r#"</div>
                <div class="label">最活跃时段</div>
            </div>
        </div>

        <!-- 24h 活跃度分布 -->
        <div class="section">
            <div class="chart-container">
                <div class="chart-title">⏱️ 24小时活跃度分布</div>
                "#;

pub const REPORT_AFTER_CHART: &'static str = r#"
            </div>
        </div>

        <!-- 热门话题 -->
        "#;

pub const REPORT_AFTER_TOPICS: &'static str = r#"

        <!-- 群友称号 -->
        "#;

pub const REPORT_AFTER_TITLES: &'static str = r#"

        <!-- 群圣经 -->
        "#;

pub const REPORT_AFTER_QUOTES: &'static str = r#"
    </div>
    <div class="footer">
        由 LianBot 生成 · "#;

pub const REPORT_TAIL: &'static str = r#" · Powered by DeepSeek
    </div>
</div>
</body>
</html>"#;

pub const TOPICS_PROMPT_HEAD: &'static str = r#"你是一个群聊信息总结助手。请分析以下群聊记录，提取出最多6个主要话题。

对于每个话题，请提供：
1. 话题名称（简明扼要）
2. 主要参与者（最多5人）
3. 详细描述（包含关键信息、前因后果和结论，让人只看总结就能了解讨论的有价值内容）

注意：
- 要具体说明是哪个群友做了什么、说了什么，而非宽泛概述
- 对于有价值的点，详细讲一两句，让读者只看总结就能获取关键信息
- 每条总结尽量讲清楚前因后果

群聊记录：
"#;

pub const TOPICS_PROMPT_TAIL: &'static str = r#"

请严格返回如下JSON数组（纯JSON，无markdown标记）：
[
  {
    "topic": "话题名称",
    "contributors": ["用户1", "用户2"],
    "detail": "话题描述内容"
  }
]"#;

pub const TITLES_PROMPT_HEAD: &'static str = r#"你是一个有趣的群聊分析师。请根据以下群聊记录，为最活跃的群友（最多6人）生成专属称号。

对于每个群友，请提供：
1. 群友昵称
2. 专属称号（有趣、贴切，如"深夜哲学家"、"表情包大师"）
3. MBTI 类型（根据发言风格推测）
4. 发言习惯（用有趣的方式总结，如"喜欢在凌晨三点发表人生感悟"、"每句话都带表情包"、"总是用省略号结尾..."）
5. 理由（简短解释为什么给这个称号）

同时，请挑选最多4条"群圣经"（印象深刻、有趣或有哲理的发言）：
1. 原文内容
2. 发送者昵称
3. 入选理由（为什么这句话值得被记住）

群聊记录：
"#;

pub const TITLES_PROMPT_TAIL: &'static str = r#"

请严格返回如下JSON（纯JSON，无markdown标记）：
{
  "user_titles": [
    {
      "name": "群友昵称",
      "title": "专属称号",
      "mbti": "XXXX",
      "habit": "发言习惯描述",
      "reason": "给出称号的理由"
    }
  ],
  "golden_quotes": [
    {
      "content": "原文",
      "sender": "发送者",
      "reason": "入选理由"
    }
  ]
}"#;

pub const TOPIC_OPEN: &'static str = r#"<div class="topic-item"><div class="topic-header"><div class="topic-number">"#;
pub const TOPIC_AFTER_NUMBER: &'static str = r#"</div><div class="topic-title">"#;
pub const TOPIC_AFTER_TITLE: &'static str = r#"</div></div><div class="topic-contributors">参与者: "#;
pub const TOPIC_AFTER_CONTRIBUTORS: &'static str = r#"</div><div class="topic-detail">"#;
pub const TOPIC_CLOSE: &'static str = r#"</div></div>"#;

pub const USER_OPEN: &'static str = r#"<div class="user-card"><div class="user-card-header"><div class="user-avatar">"#;
pub const USER_AFTER_INITIAL: &'static str = r#"</div><div><div class="user-name">"#;
pub const USER_AFTER_NAME: &'static str = r#"</div><div class="user-badges"><span class="badge-title">"#;
pub const USER_AFTER_TITLE: &'static str = r#"</span><span class="badge-mbti">"#;
pub const USER_AFTER_MBTI: &'static str = r#"</span></div></div></div><div class="user-habit">「"#;
pub const USER_AFTER_HABIT: &'static str = r#"」</div><div class="user-reason">"#;
pub const USER_CLOSE: &'static str = r#"</div></div>"#;

pub const QUOTE_OPEN: &'static str = r#"<div class="quote-item"><div class="quote-content">""#;
pub const QUOTE_AFTER_CONTENT: &'static str = r#""</div><div class="quote-author">—— "#;
pub const QUOTE_AFTER_SENDER: &'static str = r#"</div><div class="quote-reason">"#;
pub const QUOTE_CLOSE: &'static str = r#"</div></div>"#;

pub const TOPICS_SECTION_OPEN: &'static str = r#"<div class="section"><h2 class="section-title">💬 热门话题</h2><div class="topics-grid">"#;
pub const TITLES_SECTION_OPEN: &'static str = r#"<div class="section"><h2 class="section-title">🏆 群友称号</h2><div class="users-grid">"#;
pub const GRID_SECTION_CLOSE: &'static str = r#"</div></div>"#;
pub const QUOTES_SECTION_OPEN: &'static str = r#"<div class="section"><h2 class="section-title">💬 群圣经</h2>"#;
pub const QUOTES_SECTION_CLOSE: &'static str = r#"</div>"#;

/// What replaces `</body>` in a page before it is measured: a script that
/// writes the page's content height into its title.
pub const HEIGHT_PROBE_BODY_END: &'static str = r#"<script>(function(){const de=document.documentElement;const b=document.body;const scrollH=Math.max(de?de.scrollHeight:0,de?de.offsetHeight:0,de?de.clientHeight:0,b?b.scrollHeight:0,b?b.offsetHeight:0,b?b.clientHeight:0);let markerBottom=0;if(b){const marker=document.createElement('div');marker.style.cssText='display:block;height:1px;width:1px;';b.appendChild(marker);markerBottom=marker.getBoundingClientRect().bottom+(window.scrollY||window.pageYOffset||0);const bodyStyle=window.getComputedStyle(b);markerBottom+=parseFloat(bodyStyle.paddingBottom)||0;}const h=Math.ceil(Math.max(scrollH,markerBottom));document.title=String(h);})();</script></body>"#;

} // verus!
