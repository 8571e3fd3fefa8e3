//! Self-reported alerts: rules over a stats snapshot with cool-downs and
//! sliding baselines (pure; the caller supplies the clock).
use vstd::prelude::*;
use crate::text::{dec, push_str, push_dec, push_dec_u128};
use super::stats::StatsSnap;

verus! {

/// Frame-time alert line (ms): reported when exceeded by a new peak.
pub const ALERT_DRAW_MS: u64 = 100;
/// Absolute RSS line (KB): 512 MB.
pub const ALERT_RSS_ABS_KB: u64 = 524288;
/// RSS growth line within the window (KB): 64 MB.
pub const ALERT_RSS_GROW_KB: u64 = 65536;
/// RSS window (ms).
pub const ALERT_RSS_WINDOW_MS: u128 = 300000;
/// RSS alert cool-down (ms).
pub const ALERT_RSS_COOLDOWN_MS: u128 = 600000;
/// New session deaths within the window that raise an alert.
pub const ALERT_DEATHS_NEW: u64 = 3;
/// Deaths window and cool-down (ms).
pub const ALERT_DEATHS_WINDOW_MS: u128 = 300000;
pub const ALERT_DEATHS_COOLDOWN_MS: u128 = 300000;

/// Alert state (plain data).
#[derive(Debug, Clone, Copy, PartialEq, Eq)]
pub struct AlertState {
    /// Frame-time peak already reported.
    pub draw_peak_ms: u64,
    /// RSS window baseline: (window start ms, rss_kb at start).
    pub rss_base: Option<(u128, u64)>,
    /// Time of the last RSS alert.
    pub rss_alerted_ms: Option<u128>,
    /// Deaths window baseline: (window start ms, deaths at start).
    pub deaths_base: Option<(u128, u64)>,
    /// Time of the last deaths alert.
    pub deaths_alerted_ms: Option<u128>,
}

impl AlertState {
    pub fn new() -> (r: Self)
        ensures
            r == (AlertState {
                draw_peak_ms: 0,
                rss_base: None,
                rss_alerted_ms: None,
                deaths_base: None,
                deaths_alerted_ms: None,
            }),
    {
        AlertState {
            draw_peak_ms: 0,
            rss_base: None,
            rss_alerted_ms: None,
            deaths_base: None,
            deaths_alerted_ms: None,
        }
    }
}

impl Default for AlertState {
    fn default() -> (r: Self)
        ensures
            r == (AlertState {
                draw_peak_ms: 0,
                rss_base: None,
                rss_alerted_ms: None,
                deaths_base: None,
                deaths_alerted_ms: None,
            }),
    {
        AlertState::new()
    }
}

pub open spec fn sat128(a: u128, b: u128) -> u128 {
    if a >= b {
        (a - b) as u128
    } else {
        0
    }
}

pub open spec fn sat64(a: u64, b: u64) -> u64 {
    if a >= b {
        (a - b) as u64
    } else {
        0
    }
}

pub open spec fn draw_msg(max_ms: u64) -> Seq<char> {
    "帧耗时新峰值 "@ + dec(max_ms as nat) + "ms(线 "@ + dec(ALERT_DRAW_MS as nat)
        + "ms)——卡顿体感可查 trace 环"@
}

pub open spec fn rss_abs_msg(rss_kb: u64) -> Seq<char> {
    "RSS "@ + dec((rss_kb / 1024) as nat) + "MB 越过绝线 "@ + dec((ALERT_RSS_ABS_KB / 1024) as nat)
        + "MB——内存水位高危"@
}

pub open spec fn rss_grow_msg(grow_kb: u64) -> Seq<char> {
    "RSS 5 分钟净涨 "@ + dec((grow_kb / 1024) as nat) + "MB(线 "@ + dec(
        (ALERT_RSS_GROW_KB / 1024) as nat,
    ) + "MB)——泄漏嫌疑"@
}

pub open spec fn deaths_msg(n: u64) -> Seq<char> {
    "会话 5 分钟内死亡 "@ + dec(n as nat) + " 次——网络/PTY 在抽风"@
}

/// Rule one (frame time): the message list and the new peak.
pub open spec fn draw_rule(s: StatsSnap, st: AlertState) -> (Seq<Seq<char>>, u64) {
    if s.draw_max_ms > ALERT_DRAW_MS && s.draw_max_ms > st.draw_peak_ms {
        (seq![draw_msg(s.draw_max_ms)], s.draw_max_ms)
    } else {
        (Seq::empty(), st.draw_peak_ms)
    }
}

/// Rule two (RSS): messages, new alerted time, new baseline.
pub open spec fn rss_rule(s: StatsSnap, st: AlertState, now: u128) -> (
    Seq<Seq<char>>,
    Option<u128>,
    Option<(u128, u64)>,
) {
    let cooled = match st.rss_alerted_ms {
        Some(t) => sat128(now, t) >= ALERT_RSS_COOLDOWN_MS,
        None => true,
    };
    if !cooled {
        (Seq::empty(), st.rss_alerted_ms, st.rss_base)
    } else if s.rss_kb > ALERT_RSS_ABS_KB {
        (seq![rss_abs_msg(s.rss_kb)], Some(now), Some((now, s.rss_kb)))
    } else {
        match st.rss_base {
            None => (Seq::empty(), st.rss_alerted_ms, Some((now, s.rss_kb))),
            Some((t0, kb0)) => if sat128(now, t0) >= ALERT_RSS_WINDOW_MS {
                (Seq::empty(), st.rss_alerted_ms, Some((now, s.rss_kb)))
            } else if sat64(s.rss_kb, kb0) > ALERT_RSS_GROW_KB {
                (seq![rss_grow_msg(sat64(s.rss_kb, kb0))], Some(now), Some((now, s.rss_kb)))
            } else {
                (Seq::empty(), st.rss_alerted_ms, st.rss_base)
            },
        }
    }
}

/// Rule three (session deaths): messages, new alerted time, new baseline.
pub open spec fn deaths_rule(s: StatsSnap, st: AlertState, now: u128) -> (
    Seq<Seq<char>>,
    Option<u128>,
    Option<(u128, u64)>,
) {
    let cooled = match st.deaths_alerted_ms {
        Some(t) => sat128(now, t) >= ALERT_DEATHS_COOLDOWN_MS,
        None => true,
    };
    match st.deaths_base {
        None => (Seq::empty(), st.deaths_alerted_ms, Some((now, s.session_deaths))),
        Some((t0, d0)) => if sat128(now, t0) >= ALERT_DEATHS_WINDOW_MS {
            (Seq::empty(), st.deaths_alerted_ms, Some((now, s.session_deaths)))
        } else if cooled && sat64(s.session_deaths, d0) >= ALERT_DEATHS_NEW {
            (
                seq![deaths_msg(sat64(s.session_deaths, d0))],
                Some(now),
                Some((now, s.session_deaths)),
            )
        } else {
            (Seq::empty(), st.deaths_alerted_ms, st.deaths_base)
        },
    }
}

/// The three rules together: messages in rule order and the next state.
pub open spec fn alert_spec(s: StatsSnap, st: AlertState, now: u128) -> (
    Seq<Seq<char>>,
    AlertState,
) {
    let d = draw_rule(s, st);
    let r = rss_rule(s, st, now);
    let k = deaths_rule(s, st, now);
    (
        d.0 + r.0 + k.0,
        AlertState {
            draw_peak_ms: d.1,
            rss_base: r.2,
            rss_alerted_ms: r.1,
            deaths_base: k.2,
            deaths_alerted_ms: k.1,
        },
    )
}

/// The RSS window keeps its baseline: a check within the window that
/// raises no RSS alert (under the absolute line, growth over the window's
/// start not above the growth line) leaves the window's start, its RSS and
/// the last alert time as they were.
pub proof fn lemma_rss_window_keeps_base(s: StatsSnap, st: AlertState, now: u128, t0: u128, kb0: u64)
    requires
        st.rss_base == Some((t0, kb0)),
        now < t0 + ALERT_RSS_WINDOW_MS,
        s.rss_kb <= ALERT_RSS_ABS_KB,
        s.rss_kb <= kb0 + ALERT_RSS_GROW_KB,
    ensures
        alert_spec(s, st, now).1.rss_base == Some((t0, kb0)),
        alert_spec(s, st, now).1.rss_alerted_ms == st.rss_alerted_ms,
{
}

/// Growth accumulates over the window: from a window opened at `t0` with
/// RSS `kb0`, a quiet check at `t1` and then a check at `t2` (both within
/// the window, the second cooled down) whose RSS is more than the growth
/// line above `kb0` (but under the absolute line) raises the growth alert
/// for the whole growth since `t0` and opens a new window there.
pub proof fn lemma_rss_growth_accumulates(
    s1: StatsSnap,
    s2: StatsSnap,
    st: AlertState,
    t0: u128,
    kb0: u64,
    t1: u128,
    t2: u128,
)
    requires
        st.rss_base == Some((t0, kb0)),
        t0 <= t1 <= t2 < t0 + ALERT_RSS_WINDOW_MS,
        match st.rss_alerted_ms {
            Some(t) => t <= t2 && t2 - t >= ALERT_RSS_COOLDOWN_MS,
            None => true,
        },
        s1.rss_kb <= ALERT_RSS_ABS_KB,
        s1.rss_kb <= kb0 + ALERT_RSS_GROW_KB,
        s2.rss_kb <= ALERT_RSS_ABS_KB,
        s2.rss_kb > kb0 + ALERT_RSS_GROW_KB,
    ensures
        ({
            let st1 = alert_spec(s1, st, t1).1;
            let (msgs, st2) = alert_spec(s2, st1, t2);
            &&& msgs.contains(rss_grow_msg((s2.rss_kb - kb0) as u64))
            &&& st2.rss_base == Some((t2, s2.rss_kb))
            &&& st2.rss_alerted_ms == Some(t2)
        }),
{
    lemma_rss_window_keeps_base(s1, st, t1, t0, kb0);
    let st1 = alert_spec(s1, st, t1).1;
    let d = draw_rule(s2, st1);
    let r = rss_rule(s2, st1, t2);
    let k = deaths_rule(s2, st1, t2);
    assert(r.0 == seq![rss_grow_msg((s2.rss_kb - kb0) as u64)]);
    assert((d.0 + r.0 + k.0)[d.0.len() as int] == rss_grow_msg((s2.rss_kb - kb0) as u64));
}

/// Over the absolute line, once cooled down: the absolute RSS alert is
/// raised with the current RSS, and a new window opens now.
pub proof fn lemma_rss_absolute(s: StatsSnap, st: AlertState, now: u128)
    requires
        s.rss_kb > ALERT_RSS_ABS_KB,
        match st.rss_alerted_ms {
            Some(t) => t <= now && now - t >= ALERT_RSS_COOLDOWN_MS,
            None => true,
        },
    ensures
        alert_spec(s, st, now).0.contains(rss_abs_msg(s.rss_kb)),
        alert_spec(s, st, now).1.rss_base == Some((now, s.rss_kb)),
        alert_spec(s, st, now).1.rss_alerted_ms == Some(now),
{
    let d = draw_rule(s, st);
    let r = rss_rule(s, st, now);
    let k = deaths_rule(s, st, now);
    assert((d.0 + r.0 + k.0)[d.0.len() as int] == rss_abs_msg(s.rss_kb));
}

/// Within the cool-down after an RSS alert the RSS state stands still: the
/// window and the alert time are kept, whatever the RSS.
pub proof fn lemma_rss_cooldown_holds(s: StatsSnap, st: AlertState, now: u128, t: u128)
    requires
        st.rss_alerted_ms == Some(t),
        now < t + ALERT_RSS_COOLDOWN_MS,
    ensures
        alert_spec(s, st, now).1.rss_base == st.rss_base,
        alert_spec(s, st, now).1.rss_alerted_ms == st.rss_alerted_ms,
{
}

/// A new frame-time peak above the line is reported first and becomes the
/// peak; otherwise the peak is kept.
pub proof fn lemma_draw_peak_reported(s: StatsSnap, st: AlertState, now: u128)
    ensures
        alert_spec(s, st, now).1.draw_peak_ms >= st.draw_peak_ms,
        s.draw_max_ms > ALERT_DRAW_MS && s.draw_max_ms > st.draw_peak_ms ==> alert_spec(s, st, now).1.draw_peak_ms
            == s.draw_max_ms && alert_spec(s, st, now).0.len() > 0 && alert_spec(s, st, now).0[0] == draw_msg(
            s.draw_max_ms,
        ),
        !(s.draw_max_ms > ALERT_DRAW_MS && s.draw_max_ms > st.draw_peak_ms) ==> alert_spec(s, st, now).1.draw_peak_ms
            == st.draw_peak_ms,
{
}

/// Session deaths are counted over the window: a check within the window
/// that sees fewer than the alert count of new deaths since its start keeps
/// the window; once cooled down, the alert count or more raises the deaths
/// alert with the number of new deaths and opens a new window.
pub proof fn lemma_deaths_window(s: StatsSnap, st: AlertState, now: u128, t0: u128, d0: u64)
    requires
        st.deaths_base == Some((t0, d0)),
        t0 <= now < t0 + ALERT_DEATHS_WINDOW_MS,
    ensures
        s.session_deaths < d0 + ALERT_DEATHS_NEW ==> alert_spec(s, st, now).1.deaths_base == Some((t0, d0))
            && alert_spec(s, st, now).1.deaths_alerted_ms == st.deaths_alerted_ms,
        s.session_deaths >= d0 + ALERT_DEATHS_NEW && (match st.deaths_alerted_ms {
            Some(t) => t <= now && now - t >= ALERT_DEATHS_COOLDOWN_MS,
            None => true,
        }) ==> alert_spec(s, st, now).0.contains(deaths_msg((s.session_deaths - d0) as u64))
            && alert_spec(s, st, now).1.deaths_base == Some((now, s.session_deaths))
            && alert_spec(s, st, now).1.deaths_alerted_ms == Some(now),
{
    let d = draw_rule(s, st);
    let r = rss_rule(s, st, now);
    let k = deaths_rule(s, st, now);
    let m = d.0 + r.0 + k.0;
    if k.0.len() == 1 {
        assert(m[m.len() - 1] == k.0[0]);
    }
}

fn sub_sat128(a: u128, b: u128) -> (r: u128)
    ensures
        r == sat128(a, b),
{
    if a >= b { a - b } else { 0 }
}

fn sub_sat64(a: u64, b: u64) -> (r: u64)
    ensures
        r == sat64(a, b),
{
    if a >= b { a - b } else { 0 }
}

/// Alert rules over a snapshot, the previous state and the current time:
/// the alert lines raised and the next state.
pub fn alert_check(s: &StatsSnap, st: &AlertState, now_ms: u128) -> (r: (Vec<String>, AlertState))
    ensures
        r.0@.map_values(|m: String| m@) == alert_spec(*s, *st, now_ms).0,
        r.1 == alert_spec(*s, *st, now_ms).1,
{
    let mut out: Vec<String> = Vec::new();
    let mut n = *st;
    let ghost d = draw_rule(*s, *st);
    let ghost rr = rss_rule(*s, *st, now_ms);
    let ghost k = deaths_rule(*s, *st, now_ms);
    // rule one: new frame-time peak
    if s.draw_max_ms > ALERT_DRAW_MS && s.draw_max_ms > st.draw_peak_ms {
        let mut m = String::new();
        push_str(&mut m, "帧耗时新峰值 ");
        push_dec(&mut m, s.draw_max_ms);
        push_str(&mut m, "ms(线 ");
        push_dec(&mut m, ALERT_DRAW_MS);
        push_str(&mut m, "ms)——卡顿体感可查 trace 环");
        assert(m@ =~= draw_msg(s.draw_max_ms));
        out.push(m);
        n.draw_peak_ms = s.draw_max_ms;
    }
    assert(out@.map_values(|m: String| m@) =~= d.0);
    let ghost after_d = out@.map_values(|m: String| m@);
    // rule two: RSS absolute line / window growth (one shared cool-down)
    let rss_cooled = match st.rss_alerted_ms {
        Some(t) => sub_sat128(now_ms, t) >= ALERT_RSS_COOLDOWN_MS,
        None => true,
    };
    if rss_cooled {
        if s.rss_kb > ALERT_RSS_ABS_KB {
            let mut m = String::new();
            push_str(&mut m, "RSS ");
            push_dec(&mut m, s.rss_kb / 1024);
            push_str(&mut m, "MB 越过绝线 ");
            push_dec(&mut m, ALERT_RSS_ABS_KB / 1024);
            push_str(&mut m, "MB——内存水位高危");
            assert(m@ =~= rss_abs_msg(s.rss_kb));
            out.push(m);
            n.rss_alerted_ms = Some(now_ms);
            n.rss_base = Some((now_ms, s.rss_kb));
        } else {
            match st.rss_base {
                None => {
                    n.rss_base = Some((now_ms, s.rss_kb));
                },
                Some((t0, kb0)) => {
                    if sub_sat128(now_ms, t0) >= ALERT_RSS_WINDOW_MS {
                        n.rss_base = Some((now_ms, s.rss_kb));
                    } else if sub_sat64(s.rss_kb, kb0) > ALERT_RSS_GROW_KB {
                        let g = sub_sat64(s.rss_kb, kb0);
                        let mut m = String::new();
                        push_str(&mut m, "RSS 5 分钟净涨 ");
                        push_dec(&mut m, g / 1024);
                        push_str(&mut m, "MB(线 ");
                        push_dec(&mut m, ALERT_RSS_GROW_KB / 1024);
                        push_str(&mut m, "MB)——泄漏嫌疑");
                        assert(m@ =~= rss_grow_msg(g));
                        out.push(m);
                        n.rss_alerted_ms = Some(now_ms);
                        n.rss_base = Some((now_ms, s.rss_kb));
                    }
                },
            }
        }
    }
    assert(out@.map_values(|m: String| m@) =~= after_d + rr.0);
    let ghost after_r = out@.map_values(|m: String| m@);
    // rule three: session deaths in the window (own cool-down)
    let deaths_cooled = match st.deaths_alerted_ms {
        Some(t) => sub_sat128(now_ms, t) >= ALERT_DEATHS_COOLDOWN_MS,
        None => true,
    };
    match st.deaths_base {
        None => {
            n.deaths_base = Some((now_ms, s.session_deaths));
        },
        Some((t0, d0)) => {
            if sub_sat128(now_ms, t0) >= ALERT_DEATHS_WINDOW_MS {
                n.deaths_base = Some((now_ms, s.session_deaths));
            } else if deaths_cooled && sub_sat64(s.session_deaths, d0) >= ALERT_DEATHS_NEW {
                let c = sub_sat64(s.session_deaths, d0);
                let mut m = String::new();
                push_str(&mut m, "会话 5 分钟内死亡 ");
                push_dec(&mut m, c);
                push_str(&mut m, " 次——网络/PTY 在抽风");
                assert(m@ =~= deaths_msg(c));
                out.push(m);
                n.deaths_alerted_ms = Some(now_ms);
                n.deaths_base = Some((now_ms, s.session_deaths));
            }
        },
    }
    assert(out@.map_values(|m: String| m@) =~= after_r + k.0);
    assert(d.0 + rr.0 + k.0 =~= alert_spec(*s, *st, now_ms).0);
    (out, n)
}

/// Cool-down law: within the RSS cool-down after an RSS alert, no RSS alert
/// is raised and the RSS bookkeeping stays as it was; likewise the reported
/// frame-time peak never goes down.
pub proof fn lemma_alert_cooldown(s: StatsSnap, st: AlertState, now: u128, t: u128)
    requires
        st.rss_alerted_ms == Some(t),
        sat128(now, t) < ALERT_RSS_COOLDOWN_MS,
    ensures
        rss_rule(s, st, now).0.len() == 0,
        alert_spec(s, st, now).1.rss_alerted_ms == st.rss_alerted_ms,
        alert_spec(s, st, now).1.rss_base == st.rss_base,
        alert_spec(s, st, now).1.draw_peak_ms >= st.draw_peak_ms,
{
}

/// Deaths cool-down law: within the deaths cool-down after a deaths alert,
/// no deaths alert is raised.
pub proof fn lemma_deaths_cooldown(s: StatsSnap, st: AlertState, now: u128, t: u128)
    requires
        st.deaths_alerted_ms == Some(t),
        sat128(now, t) < ALERT_DEATHS_COOLDOWN_MS,
    ensures
        deaths_rule(s, st, now).0.len() == 0,
        alert_spec(s, st, now).1.deaths_alerted_ms == st.deaths_alerted_ms,
{
}

/// Peak law: a frame-time alert is raised only for a new peak above the
/// line, and then the peak becomes that value.
pub proof fn lemma_draw_peak(s: StatsSnap, st: AlertState, now: u128)
    ensures
        draw_rule(s, st).0.len() > 0 <==> (s.draw_max_ms > ALERT_DRAW_MS && s.draw_max_ms
            > st.draw_peak_ms),
        alert_spec(s, st, now).1.draw_peak_ms >= st.draw_peak_ms,
        alert_spec(s, st, now).1.draw_peak_ms >= (if s.draw_max_ms > ALERT_DRAW_MS {
            s.draw_max_ms
        } else {
            0
        }),
{
}

} // verus!
