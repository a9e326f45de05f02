//! Background services: which ones start, the daily schedule, the sign-in
//! service's requests and answers, and where its reports are delivered.
use vstd::prelude::*;

use crate::api::{strip_end, trim_end_char};
use crate::permission::Scope;
use crate::report::{find_from, find_sub};
use crate::text::{chars_of, dec_nat, push_str, push_u64};
use crate::webhook::PendingOrigin;

verus! {

// ── start-up ─────────────────────────────────────────────────────────────────

/// What started, for the start-up log.
pub struct ServicesSummary {
    pub count: usize,
    pub details: Vec<String>,
}

impl Default for ServicesSummary {
    fn default() -> (s: Self)
        ensures
            s.count == 0,
            s.details@.len() == 0,
    {
        ServicesSummary { count: 0, details: Vec::new() }
    }
}

/// Which services start.
pub struct ServicePlan {
    pub scheduler: bool,
    pub github: bool,
    pub yiban: bool,
    pub summary: ServicesSummary,
}

/// The start-up lines of the services that run.
pub open spec fn service_details(
    scheduler: bool,
    github_secret_set: bool,
    github_subscriptions: nat,
    yiban_targets: nat,
) -> Seq<Seq<char>> {
    let a: Seq<Seq<char>> = if scheduler { seq!["scheduler"@] } else { Seq::empty() };
    let b: Seq<Seq<char>> = if github_secret_set {
        seq!["github ("@ + dec_nat(github_subscriptions) + " 条订阅)"@]
    } else {
        Seq::empty()
    };
    let c: Seq<Seq<char>> = if yiban_targets > 0 {
        seq!["yiban ("@ + dec_nat(yiban_targets) + " 条推送)"@]
    } else {
        Seq::empty()
    };
    a + b + c
}

/// Decides which services start: the scheduler when its dependencies are
/// there, the GitHub webhook when a secret is set, the sign-in service when
/// it has delivery targets.
pub fn register(
    scheduler_available: bool,
    github_secret_set: bool,
    github_subscriptions: usize,
    yiban_targets: usize,
) -> (p: ServicePlan)
    ensures
        p.scheduler == scheduler_available,
        p.github == github_secret_set,
        p.yiban == (yiban_targets > 0),
        p.summary.details@.map_values(|s: String| s@) == service_details(
            scheduler_available,
            github_secret_set,
            github_subscriptions as nat,
            yiban_targets as nat,
        ),
        p.summary.count == p.summary.details@.len(),
{
    let mut details: Vec<String> = Vec::new();
    if scheduler_available {
        details.push("scheduler".to_string());
    }
    if github_secret_set {
        let mut d = String::new();
        push_str(&mut d, "github (");
        push_u64(&mut d, github_subscriptions as u64);
        push_str(&mut d, " 条订阅)");
        details.push(d);
    }
    if yiban_targets > 0 {
        let mut d = String::new();
        push_str(&mut d, "yiban (");
        push_u64(&mut d, yiban_targets as u64);
        push_str(&mut d, " 条推送)");
        details.push(d);
    }
    assert(details@.map_values(|s: String| s@) =~= service_details(
        scheduler_available,
        github_secret_set,
        github_subscriptions as nat,
        yiban_targets as nat,
    ));
    let count = details.len();
    ServicePlan {
        scheduler: scheduler_available,
        github: github_secret_set,
        yiban: yiban_targets > 0,
        summary: ServicesSummary { count, details },
    }
}

// ── schedule ─────────────────────────────────────────────────────────────────

/// Seconds from `passed` seconds after midnight to the next `hour:00`
/// (a full day when it is that moment now).
pub fn secs_until_hour(passed: u64, hour: u32) -> (s: u64)
    requires
        passed < 86400,
        hour < 24,
    ensures
        s == (if passed < hour * 3600 { hour * 3600 - passed } else { 86400 - passed + hour * 3600 }),
        0 < s <= 86400,
        (passed + s) % 86400 == hour * 3600,
{
    let target = (hour as u64) * 3600;
    if passed < target {
        target - passed
    } else {
        86400 - passed + target
    }
}

/// The hour of the daily automatic sign-in, if one is configured and valid
/// (0–23).
pub fn auto_sign_hour(configured: Option<u8>) -> (h: Option<u32>)
    ensures
        h == (match configured {
            Some(v) => if v <= 23 { Some(v as u32) } else { None },
            None => None,
        }),
{
    match configured {
        Some(v) => if v <= 23 {
            Some(v as u32)
        } else {
            None
        },
        None => None,
    }
}

/// Whether `p` occurs in `s`.
pub open spec fn contains_text(s: Seq<char>, p: Seq<char>) -> bool {
    find_from(s, p, 0) is Some
}

fn contains(s: &str, p: &str) -> (b: bool)
    ensures
        b == contains_text(s@, p@),
{
    let cs = chars_of(s);
    let ps = chars_of(p);
    find_sub(&cs, &ps, 0).is_some()
}

/// Whether a sign-in result reports a failure.
pub open spec fn sign_failed(result: Seq<char>) -> bool {
    contains_text(result, "失败"@) || contains_text(result, "无法连接"@)
}

/// The owner's notice about a failed automatic sign-in, if there is an
/// owner to tell.
pub fn sign_alert(result: &str, owner: i64) -> (r: Option<(i64, String)>)
    ensures
        (sign_failed(result@) && owner != 0) ==> (r matches Some(a) && a.0 == owner && a.1@
            == "⚠️ 每日自动签到异常\n"@ + result@),
        !(sign_failed(result@) && owner != 0) ==> r is None,
{
    let failed = contains(result, "失败") || contains(result, "无法连接");
    if failed && owner != 0 {
        let mut t = String::new();
        push_str(&mut t, "⚠️ 每日自动签到异常\n");
        push_str(&mut t, result);
        Some((owner, t))
    } else {
        None
    }
}

// ── the sign-in service ──────────────────────────────────────────────────────

/// The address of a sign-in request, for everyone or for one name; `None`
/// when no service address is configured.
pub fn sign_url(api_url: &str, name: Option<&str>) -> (u: Option<String>)
    ensures
        api_url@.len() == 0 ==> u is None,
        api_url@.len() > 0 ==> (u matches Some(s) && s@ == trim_end_char(api_url@, '/') + "/sign"@ + (match name {
            Some(n) => "/"@ + n@,
            None => Seq::empty(),
        })),
{
    if api_url.is_empty() {
        return None;
    }
    let mut u = strip_end(api_url, '/');
    push_str(&mut u, "/sign");
    match name {
        Some(n) => {
            push_str(&mut u, "/");
            push_str(&mut u, n);
        },
        None => {},
    }
    Some(u)
}

/// The address of the status request; `None` without a service address.
pub fn status_url(api_url: &str) -> (u: Option<String>)
    ensures
        api_url@.len() == 0 ==> u is None,
        api_url@.len() > 0 ==> (u matches Some(s) && s@ == trim_end_char(api_url@, '/') + "/status"@),
{
    if api_url.is_empty() {
        return None;
    }
    let mut u = strip_end(api_url, '/');
    push_str(&mut u, "/status");
    Some(u)
}

/// The answer shown for a sign-in request, from the service's reply.
pub fn sign_reply_text(success: bool, status: u16, body: &str) -> (t: String)
    ensures
        success ==> t@ == "签到已触发，稍后将收到结果通知"@,
        !success ==> t@ == "签到触发失败 (HTTP "@ + dec_nat(status as nat) + "): "@ + body@,
{
    if success {
        "签到已触发，稍后将收到结果通知".to_string()
    } else {
        let mut t = String::new();
        push_str(&mut t, "签到触发失败 (HTTP ");
        push_u64(&mut t, status as u64);
        push_str(&mut t, "): ");
        push_str(&mut t, body);
        t
    }
}

/// The answer when the service cannot be reached.
pub fn unreachable_text(error: &str) -> (t: String)
    ensures
        t@ == "无法连接签到服务: "@ + error@,
{
    let mut t = String::new();
    push_str(&mut t, "无法连接签到服务: ");
    push_str(&mut t, error);
    t
}

/// The answer when no service address is configured, to a sign-in request
/// (`query` false) or to a status query (`query` true).
pub fn unconfigured_text(query: bool) -> (t: String)
    ensures
        !query ==> t@ == "未配置 api_url，无法调用签到服务"@,
        query ==> t@ == "未配置 api_url，无法查询签到服务"@,
{
    if query {
        "未配置 api_url，无法查询签到服务".to_string()
    } else {
        "未配置 api_url，无法调用签到服务".to_string()
    }
}

/// What the reply body of a status query holds, as far as the answer
/// depends on it.
pub enum StatusBody {
    /// The body is not JSON.
    NotJson,
    /// JSON without a `data` field; `msg` is its `msg` field where that is a
    /// string.
    NoData { msg: Option<String> },
    /// `data` is null: there is no sign-in yet.
    NullData,
    /// `data` holds a report, given as the text that shows it.
    Report(String),
    /// `data` is there but is not a report.
    BadReport,
}

/// The answer to a status query, from the reply body and what it holds.
pub open spec fn status_reply_spec(body: Seq<char>, parsed: StatusBody) -> Seq<char> {
    match parsed {
        StatusBody::NotJson => body,
        StatusBody::NoData { msg } => match msg {
            Some(m) => m@,
            None => body,
        },
        StatusBody::NullData => "暂无签到记录"@,
        StatusBody::Report(text) => text@,
        StatusBody::BadReport => "解析签到数据失败: "@ + body,
    }
}

/// The answer to a status query: the report, the service's message, or the
/// body itself when nothing better can be read from it.
pub fn status_reply(body: &str, parsed: StatusBody) -> (t: String)
    ensures
        t@ == status_reply_spec(body@, parsed),
{
    match parsed {
        StatusBody::NotJson => body.to_string(),
        StatusBody::NoData { msg } => match msg {
            Some(m) => m,
            None => body.to_string(),
        },
        StatusBody::NullData => "暂无签到记录".to_string(),
        StatusBody::Report(text) => text,
        StatusBody::BadReport => {
            let mut t = String::new();
            push_str(&mut t, "解析签到数据失败: ");
            push_str(&mut t, body);
            t
        },
    }
}

/// Holds the chat that last asked for a sign-in, until its report arrives.
pub struct YiBanBridge {
    pending: Option<PendingOrigin>,
}

impl YiBanBridge {
    pub closed spec fn pending_scope(&self) -> Option<Scope> {
        match self.pending {
            Some(p) => Some(p.scope),
            None => None,
        }
    }

    /// A bridge with no pending request.
    pub fn new() -> (b: Self)
        ensures
            b.pending_scope() is None,
    {
        YiBanBridge { pending: None }
    }

    /// Remembers the chat that asked, replacing any earlier one.
    pub fn set_origin(&mut self, scope: Scope)
        ensures
            final(self).pending_scope() == Some(scope),
    {
        self.pending = Some(PendingOrigin::new(scope));
    }

    /// Takes the pending request out.
    pub fn take_origin(&mut self) -> (p: Option<PendingOrigin>)
        ensures
            final(self).pending_scope() is None,
            match p {
                Some(o) => old(self).pending_scope() == Some(o.scope),
                None => old(self).pending_scope() is None,
            },
    {
        let mut p: Option<PendingOrigin> = None;
        std::mem::swap(&mut p, &mut self.pending);
        p
    }
}

// ── delivery of a report ─────────────────────────────────────────────────────

/// The index of a group's entry.
pub open spec fn group_index(r: Seq<(i64, Seq<i64>)>, g: i64) -> Option<int>
    decreases r.len(),
{
    if r.len() == 0 {
        None
    } else if r.last().0 == g {
        Some(r.len() - 1)
    } else {
        group_index(r.drop_last(), g)
    }
}

/// The matched targets by group, in order of first appearance; the
/// mentions of a group's targets are joined.
pub open spec fn merge_targets(m: Seq<(i64, Seq<i64>)>) -> Seq<(i64, Seq<i64>)>
    decreases m.len(),
{
    if m.len() == 0 {
        Seq::empty()
    } else {
        let r = merge_targets(m.drop_last());
        let t = m.last();
        match group_index(r, t.0) {
            Some(k) => r.update(k, (t.0, r[k].1 + t.1)),
            None => r.push(t),
        }
    }
}

/// Where a report goes.
pub struct Delivery {
    /// Groups and the QQ numbers to mention there.
    pub groups: Vec<(i64, Vec<i64>)>,
    /// The private chat that asked, if it still waits.
    pub private: Option<i64>,
    /// Nothing to do.
    pub skip: bool,
}

pub open spec fn group_views(v: Seq<(i64, Vec<i64>)>) -> Seq<(i64, Seq<i64>)> {
    v.map_values(|e: (i64, Vec<i64>)| (e.0, e.1@))
}

/// The delivery of a report: the groups of the matching targets, plus the
/// chat that asked for it (when answering there is on and it has not
/// waited too long). Skipped when no group matches and nobody asked.
pub open spec fn delivery_spec(
    matched: Seq<(i64, Seq<i64>)>,
    origin: Option<(Scope, bool)>,
    reply_origin: bool,
) -> (Seq<(i64, Seq<i64>)>, Option<i64>, bool) {
    let o = if reply_origin { origin } else { None };
    let merged = merge_targets(matched);
    let groups = match o {
        Some((Scope::Group(gid), false)) => match group_index(merged, gid) {
            Some(_) => merged,
            None => merged.push((gid, Seq::empty())),
        },
        _ => merged,
    };
    let private = match o {
        Some((Scope::Private(uid), false)) => Some(uid),
        _ => None,
    };
    (groups, private, merged.len() == 0 && o is None)
}

fn find_group(r: &Vec<(i64, Vec<i64>)>, g: i64) -> (k: Option<usize>)
    ensures
        k matches Some(x) ==> group_index(group_views(r@), g) == Some(x as int) && x < r@.len() && r@[x as int].0 == g,
        k is None ==> group_index(group_views(r@), g) is None,
{
    proof { lemma_group_index(group_views(r@), g); }
    let mut n = r.len();
    assert(group_views(r@).take(n as int) =~= group_views(r@));
    while n > 0 && r[n - 1].0 != g
        invariant
            n <= r@.len(),
            group_index(group_views(r@), g) == group_index(group_views(r@).take(n as int), g),
        decreases n,
    {
        assert(group_views(r@).take(n as int).drop_last() =~= group_views(r@).take(n as int - 1));
        n -= 1;
    }
    if n > 0 {
        assert(group_views(r@).take(n as int).last() == group_views(r@)[n as int - 1]);
        Some(n - 1)
    } else {
        assert(group_views(r@).take(0) =~= Seq::<(i64, Seq<i64>)>::empty());
        None
    }
}

fn copy_ids(v: &Vec<i64>) -> (r: Vec<i64>)
    ensures
        r@ == v@,
{
    let mut r: Vec<i64> = Vec::new();
    let mut i: usize = 0;
    while i < v.len()
        invariant
            i <= v@.len(),
            r@ =~= v@.take(i as int),
        decreases v.len() - i,
    {
        r.push(v[i]);
        i += 1;
    }
    assert(v@.take(v@.len() as int) =~= v@);
    r
}

/// Plans the delivery of a sign-in report. `matched` holds the targets
/// whose names match the report, as (group, mentions); `origin` the chat
/// that asked and whether it waited too long.
pub fn plan_delivery(matched: &Vec<(i64, Vec<i64>)>, origin: Option<(Scope, bool)>, reply_origin: bool) -> (d: Delivery)
    ensures
        (group_views(d.groups@), d.private, d.skip) == delivery_spec(group_views(matched@), origin, reply_origin),
{
    let mut groups: Vec<(i64, Vec<i64>)> = Vec::new();
    let mut i: usize = 0;
    while i < matched.len()
        invariant
            i <= matched@.len(),
            group_views(groups@) =~= merge_targets(group_views(matched@).take(i as int)),
        decreases matched.len() - i,
    {
        let ghost m = group_views(matched@).take(i as int + 1);
        assert(m.drop_last() =~= group_views(matched@).take(i as int));
        assert(m.last() == (matched@[i as int].0, matched@[i as int].1@));
        let g = matched[i].0;
        let ghost before = group_views(groups@);
        match find_group(&groups, g) {
            Some(k) => {
                let (gg, mut at) = groups.remove(k);
                let extra = &matched[i].1;
                let mut j: usize = 0;
                let ghost at0 = at@;
                while j < extra.len()
                    invariant
                        j <= extra@.len(),
                        at@ =~= at0 + extra@.take(j as int),
                    decreases extra.len() - j,
                {
                    at.push(extra[j]);
                    j += 1;
                }
                assert(extra@.take(extra@.len() as int) =~= extra@);
                groups.insert(k, (gg, at));
                assert(group_views(groups@) =~= before.update(k as int, (g, before[k as int].1 + extra@)));
            },
            None => {
                let at = copy_ids(&matched[i].1);
                groups.push((g, at));
                assert(group_views(groups@) =~= before.push((g, matched@[i as int].1@)));
            },
        }
        i += 1;
    }
    assert(group_views(matched@).take(matched@.len() as int) =~= group_views(matched@));
    let ghost merged = group_views(groups@);
    let merged_empty = groups.len() == 0;
    let o = if reply_origin { origin } else { None };
    let mut private: Option<i64> = None;
    match o {
        Some((Scope::Group(gid), false)) => {
            match find_group(&groups, gid) {
                Some(_) => {},
                None => {
                    groups.push((gid, Vec::new()));
                    assert(group_views(groups@) =~= merged.push((gid, Seq::<i64>::empty())));
                },
            }
        },
        Some((Scope::Private(uid), false)) => {
            private = Some(uid);
        },
        _ => {},
    }
    let skip = merged_empty && o.is_none();
    Delivery { groups, private, skip }
}

proof fn lemma_merge_empty(m: Seq<(i64, Seq<i64>)>)
    ensures
        merge_targets(m).len() == 0 <==> m.len() == 0,
    decreases m.len(),
{
    if m.len() > 0 {
        lemma_merge_empty(m.drop_last());
        let r = merge_targets(m.drop_last());
        match group_index(r, m.last().0) {
            Some(k) => {
                lemma_group_index(r, m.last().0);
            },
            None => {},
        }
    }
}

proof fn lemma_group_index(r: Seq<(i64, Seq<i64>)>, g: i64)
    ensures
        group_index(r, g) matches Some(k) ==> 0 <= k < r.len() && r[k].0 == g,
    decreases r.len(),
{
    if r.len() > 0 {
        lemma_group_index(r.drop_last(), g);
    }
}

} // verus!
