//! Self-observation statistics: loop watchdog verdict, panic-line format,
//! /proc parsing, the stats snapshot text and history lines, the alert rules
//! and the history ring.
use vstd::prelude::*;
use std::collections::VecDeque;
use crate::text::{contains_seq, dec, dec_int, bool_text, push_str, push_dec, push_dec_i64, push_dec_u128, push_bool, chars_of, string_push, sub_vec, split_words, split_lines, words, lines, parse_u64, parse_u64_spec, starts_with, last_idx_of, rfind_char};

verus! {

/// Heartbeat age above which the UI loop counts as stalled (ms).
pub const LOOP_STALL_MS: u64 = 3000;

/// Stall test on a heartbeat age.
pub fn is_stall(age_ms: u64) -> (r: bool)
    ensures
        r == (age_ms > LOOP_STALL_MS),
{
    age_ms > LOOP_STALL_MS
}

/// Watchdog verdict.
#[derive(Debug, Clone, Copy, PartialEq, Eq)]
pub enum WatchState {
    /// In the background: the loop may legitimately stop; nothing is judged.
    Background,
    /// In the foreground but the loop has never beaten.
    NoBeat,
    Alive(u64),
    Stall(u64),
}

pub open spec fn watch_spec(foreground: bool, age_ms: Option<u64>) -> WatchState {
    if !foreground {
        WatchState::Background
    } else {
        match age_ms {
            None => WatchState::NoBeat,
            Some(a) => if a > LOOP_STALL_MS {
                WatchState::Stall(a)
            } else {
                WatchState::Alive(a)
            },
        }
    }
}

/// Watchdog verdict from the foreground flag and the heartbeat age.
pub fn watch_verdict(foreground: bool, age_ms: Option<u64>) -> (r: WatchState)
    ensures
        r == watch_spec(foreground, age_ms),
{
    if !foreground {
        return WatchState::Background;
    }
    match age_ms {
        None => WatchState::NoBeat,
        Some(a) => if is_stall(a) {
            WatchState::Stall(a)
        } else {
            WatchState::Alive(a)
        },
    }
}

/// `msg` with every '\n' replaced by '␤'.
pub open spec fn one_line(msg: Seq<char>) -> Seq<char>
    decreases msg.len(),
{
    if msg.len() == 0 {
        Seq::empty()
    } else {
        one_line(msg.drop_last()).push(if msg.last() == '\n' { '␤' } else { msg.last() })
    }
}

/// The panic record line.
pub open spec fn panic_text(unix_secs: u64, thread: Seq<char>, loc: Seq<char>, msg: Seq<char>) -> Seq<char> {
    "unix="@ + dec(unix_secs as nat) + " thread="@ + thread + " at="@ + loc + " msg="@ + one_line(msg)
}

/// Panic record line: unix seconds, thread, location, message; newlines in
/// the message become '␤' so one panic is one line.
pub fn panic_line(unix_secs: u64, thread: &str, loc: &str, msg: &str) -> (r: String)
    ensures
        r@ == panic_text(unix_secs, thread@, loc@, msg@),
{
    let mut out = String::new();
    push_str(&mut out, "unix=");
    push_dec(&mut out, unix_secs);
    push_str(&mut out, " thread=");
    push_str(&mut out, thread);
    push_str(&mut out, " at=");
    push_str(&mut out, loc);
    push_str(&mut out, " msg=");
    let m = chars_of(msg);
    let ghost base = out@;
    let mut i: usize = 0;
    while i < m.len()
        invariant
            i <= m.len(),
            out@ == base + one_line(m@.take(i as int)),
        decreases m.len() - i,
    {
        let c = if m[i] == '\n' { '␤' } else { m[i] };
        string_push(&mut out, c);
        i += 1;
        assert(m@.take(i as int).drop_last() =~= m@.take(i - 1));
    }
    assert(m@.take(m.len() as int) =~= m@);
    out
}

/// utime + stime from `/proc/self/stat` content: the fields after the last
/// ')' (the command name may hold spaces and parentheses), items 12 and 13.
pub open spec fn stat_jiffies_spec(content: Seq<char>) -> Option<nat> {
    let i = last_idx_of(content, ')');
    if i < 0 {
        None
    } else {
        let f = words(content.skip(i + 1));
        if f.len() < 13 {
            None
        } else {
            match (parse_u64_spec(f[11]), parse_u64_spec(f[12])) {
                (Some(u), Some(s)) => Some((u + s) as nat),
                _ => None,
            }
        }
    }
}


/// The two jiffies fields of `/proc/self/stat` content (see
/// `stat_jiffies_spec`), before they are added.
fn stat_fields(content: &str) -> (r: Option<(u64, u64)>)
    ensures
        match r {
            Some((u, s)) => stat_jiffies_spec(content@) == Some((u + s) as nat),
            None => stat_jiffies_spec(content@) is None,
        },
{
    let cs = chars_of(content);
    let i = match rfind_char(cs.as_slice(), ')') {
        Some(i) => i,
        None => return None,
    };
    let after = sub_vec(cs.as_slice(), i + 1, cs.len());
    assert(after@ =~= content@.skip(i + 1));
    let f = split_words(after.as_slice());
    if f.len() < 13 {
        return None;
    }
    assert(f@[11]@ == words(after@)[11]);
    assert(f@[12]@ == words(after@)[12]);
    let u = match parse_u64(f[11].as_slice()) {
        Some(u) => u,
        None => return None,
    };
    let s = match parse_u64(f[12].as_slice()) {
        Some(s) => s,
        None => return None,
    };
    Some((u, s))
}

/// Whether the jiffies sum of the content fits in u64 (content that does
/// not parse counts as fitting: it gives `None`).
pub fn stat_jiffies_fit(content: &str) -> (r: bool)
    ensures
        r == match stat_jiffies_spec(content@) {
            Some(v) => v <= u64::MAX,
            None => true,
        },
{
    match stat_fields(content) {
        Some((u, s)) => u <= u64::MAX - s,
        None => true,
    }
}

/// CPU jiffies (utime + stime) from `/proc/self/stat` content; `None` when
/// the content is not shaped as expected.
pub fn parse_self_stat_jiffies(content: &str) -> (r: Option<u64>)
    requires
        match stat_jiffies_spec(content@) {
            Some(v) => v <= u64::MAX,
            None => true,
        },
    ensures
        r == match stat_jiffies_spec(content@) {
            Some(v) => Some(v as u64),
            None => None::<u64>,
        },
{
    match stat_fields(content) {
        Some((u, s)) => Some(u + s),
        None => None,
    }
}

/// The index of the first line starting with `p`, or the number of lines.
pub open spec fn first_line_with_prefix(ls: Seq<Seq<char>>, p: Seq<char>) -> nat
    decreases ls.len(),
{
    if ls.len() == 0 {
        0
    } else if p.len() <= ls[0].len() && ls[0].take(p.len() as int) == p {
        0
    } else {
        1 + first_line_with_prefix(ls.drop_first(), p)
    }
}

/// Resident set size in KB from `/proc/self/status` content: the second
/// field of the first line starting with "VmRSS:".
pub open spec fn vmrss_spec(content: Seq<char>) -> Option<u64> {
    let ls = lines(content);
    let k = first_line_with_prefix(ls, "VmRSS:"@);
    if k >= ls.len() {
        None
    } else {
        let w = words(ls[k as int]);
        if w.len() < 2 {
            None
        } else {
            parse_u64_spec(w[1])
        }
    }
}

/// Resident memory (KB) from `/proc/self/status` content.
pub fn parse_vmrss_kb(content: &str) -> (r: Option<u64>)
    ensures
        r == vmrss_spec(content@),
{
    let cs = chars_of(content);
    let ls = split_lines(cs.as_slice());
    let prefix = chars_of("VmRSS:");
    let ghost lv = ls@.map_values(|w: Vec<char>| w@);
    let mut k: usize = 0;
    assert(lv.skip(0) =~= lv);
    while k < ls.len() && !starts_with(ls[k].as_slice(), prefix.as_slice())
        invariant
            k <= ls.len(),
            lv == ls@.map_values(|w: Vec<char>| w@),
            lv == lines(content@),
            prefix@ == "VmRSS:"@,
            first_line_with_prefix(lv, prefix@) == k + first_line_with_prefix(lv.skip(k as int), prefix@),
        decreases ls.len() - k,
    {
        assert(lv.skip(k as int).drop_first() =~= lv.skip(k + 1));
        assert(lv.skip(k as int)[0] == ls@[k as int]@);
        k += 1;
    }
    if k == ls.len() {
        assert(lv.skip(k as int) =~= Seq::<Seq<char>>::empty());
        return None;
    }
    assert(lv.skip(k as int)[0] == ls@[k as int]@);
    let w = split_words(ls[k].as_slice());
    if w.len() < 2 {
        return None;
    }
    assert(w@[1]@ == words(lv[k as int])[1]);
    parse_u64(w[1].as_slice())
}

/// Runtime statistics snapshot (plain data).
#[derive(Debug, Clone, PartialEq, Eq)]
pub struct StatsSnap {
    pub uptime_ms: u128,
    pub foreground: bool,
    pub loop_age_ms: Option<u64>,
    pub frames: u64,
    pub pump_calls: u64,
    pub pump_bytes: u64,
    pub shots: u64,
    pub texts: u64,
    pub keys: u64,
    pub keys_bytes: u64,
    pub active: String,
    pub sessions: String,
    /// Frame time: total and peak ms (the mean is computed when formatting).
    pub draw_total_ms: u64,
    pub draw_max_ms: u64,
    /// CPU use (utime + stime jiffies; 0 when unreadable).
    pub cpu_jiffies: u64,
    /// Resident memory in KB (0 when unreadable).
    pub rss_kb: u64,
    /// Pump throughput per session bucket.
    pub bytes_local: u64,
    pub bytes_remote: u64,
    pub bytes_other: u64,
    /// Session deaths / respawns so far.
    pub session_deaths: u64,
    /// Injected touch commands.
    pub touches: u64,
    /// AI presence page ("terminal"/"ai"; "-" when not registered).
    pub ai_page: String,
    pub ai_running: bool,
    pub ai_orb_x: i64,
    pub ai_orb_y: i64,
    pub ai_pressed: bool,
    pub ai_overlay: bool,
    /// Input bar focus (false when not registered).
    pub bar_focused: bool,
    /// Chars in the input bar.
    pub bar_text_len: i64,
}

/// Mean frame time; 0 before the first frame.
pub open spec fn draw_avg(s: StatsSnap) -> nat {
    if s.frames == 0 {
        0
    } else {
        (s.draw_total_ms / s.frames) as nat
    }
}

pub open spec fn age_text(a: Option<u64>) -> Seq<char> {
    match a {
        Some(v) => dec(v as nat) + "ms"@,
        None => "未起跳"@,
    }
}

pub open spec fn stats_text_a(s: StatsSnap) -> Seq<char> {
    "uptime="@ + dec(s.uptime_ms as nat) + "ms\nforeground="@ + bool_text(s.foreground)
        + "\nloop_beat_age="@ + age_text(s.loop_age_ms) + "\nframes="@ + dec(s.frames as nat)
        + "\npump_calls="@ + dec(s.pump_calls as nat) + "\npump_bytes="@ + dec(
        s.pump_bytes as nat,
    ) + "\nshots="@ + dec(s.shots as nat) + "\ntexts="@ + dec(s.texts as nat)
}

pub open spec fn stats_text_b(s: StatsSnap) -> Seq<char> {
    "\nkeys="@ + dec(s.keys as nat) + "\nkeys_bytes="@ + dec(s.keys_bytes as nat) + "\ntouches="@
        + dec(s.touches as nat) + "\nactive="@ + s.active@ + "\nsessions="@ + s.sessions@
        + "\ndraw_avg_ms="@ + dec(draw_avg(s)) + "\ndraw_max_ms="@ + dec(s.draw_max_ms as nat)
        + "\ncpu_jiffies="@ + dec(s.cpu_jiffies as nat) + "\nrss_kb="@ + dec(s.rss_kb as nat)
}

pub open spec fn stats_text_c(s: StatsSnap) -> Seq<char> {
    "\nbytes_local="@ + dec(s.bytes_local as nat) + "\nbytes_remote="@ + dec(
        s.bytes_remote as nat,
    ) + "\nbytes_other="@ + dec(s.bytes_other as nat) + "\nsession_deaths="@ + dec(
        s.session_deaths as nat,
    ) + "\nai_page="@ + s.ai_page@ + "\nai_running="@ + bool_text(s.ai_running) + "\nai_orb_x="@
        + dec_int(s.ai_orb_x as int) + "\nai_orb_y="@ + dec_int(s.ai_orb_y as int)
}

pub open spec fn stats_text_d(s: StatsSnap) -> Seq<char> {
    "\nai_pressed="@ + bool_text(s.ai_pressed) + "\nai_overlay="@ + bool_text(s.ai_overlay)
        + "\nbar_focused="@ + bool_text(s.bar_focused) + "\nbar_text_len="@ + dec_int(
        s.bar_text_len as int,
    ) + "\n"@
}

/// The stats answer: one `key=value` line per field.
pub open spec fn stats_text(s: StatsSnap) -> Seq<char> {
    stats_text_a(s) + stats_text_b(s) + stats_text_c(s) + stats_text_d(s)
}

proof fn lemma_line_inside(pre: Seq<char>, line: Seq<char>, post: Seq<char>, c: char)
    requires
        post.len() > 0,
        post[0] == c,
    ensures
        contains_seq(pre + line + post, line + seq![c]),
{
    let t = pre + line + post;
    let i = pre.len() as int;
    let p = line + seq![c];
    assert(t.subrange(i, i + p.len()) =~= p);
}

/// Pieces of text, one after another.
pub open spec fn cat(ps: Seq<Seq<char>>) -> Seq<char>
    decreases ps.len(),
{
    if ps.len() == 0 {
        Seq::empty()
    } else {
        cat(ps.drop_last()) + ps.last()
    }
}

proof fn lemma_cat_add(p: Seq<Seq<char>>, q: Seq<Seq<char>>)
    ensures
        cat(p + q) == cat(p) + cat(q),
    decreases q.len(),
{
    if q.len() == 0 {
        assert(p + q =~= p);
        assert(cat(p) + cat(q) =~= cat(p));
    } else {
        assert((p + q).drop_last() =~= p + q.drop_last());
        lemma_cat_add(p, q.drop_last());
        assert(cat(p + q) =~= cat(p) + cat(q));
    }
}

proof fn lemma_cat_one(x: Seq<char>)
    ensures
        cat(seq![x]) == x,
{
    let e = Seq::<Seq<char>>::empty();
    assert(seq![x].drop_last() =~= e);
    assert(cat(e) == Seq::<char>::empty());
    assert(cat(seq![x]) == cat(e) + x);
    assert(Seq::<char>::empty() + x =~= x);
}

/// A key piece and its value piece, followed by a piece that starts with
/// `c`, stand in the text followed by `c`.
proof fn lemma_cat_pair(ps: Seq<Seq<char>>, j: int, c: char)
    requires
        0 <= j,
        j + 2 < ps.len(),
        ps[j + 2].len() > 0,
        ps[j + 2][0] == c,
    ensures
        contains_seq(cat(ps), ps[j] + ps[j + 1] + seq![c]),
{
    let pre = ps.take(j);
    let mid = seq![ps[j], ps[j + 1]];
    let post = ps.skip(j + 2);
    assert(ps =~= pre + mid + post);
    lemma_cat_add(pre + mid, post);
    lemma_cat_add(pre, mid);
    assert(mid.drop_last() =~= seq![ps[j]]);
    lemma_cat_one(ps[j]);
    assert(cat(mid) =~= ps[j] + ps[j + 1]);
    lemma_cat_add(seq![post[0]], post.drop_first());
    assert(post =~= seq![post[0]] + post.drop_first());
    lemma_cat_one(post[0]);
    assert(post[0] == ps[j + 2]);
    assert(cat(post)[0] == c);
    assert(cat(ps) == cat(pre) + (ps[j] + ps[j + 1]) + cat(post));
    lemma_line_inside(cat(pre), ps[j] + ps[j + 1], cat(post), c);
}

/// The stats answer as its pieces: each key (with the line break before
/// it) followed by its value.
pub open spec fn stats_pieces(s: StatsSnap) -> Seq<Seq<char>> {
    pieces_a(s) + pieces_b(s) + pieces_c(s) + pieces_d(s)
}

pub open spec fn pieces_a(s: StatsSnap) -> Seq<Seq<char>> {
    seq![
        "uptime="@, dec(s.uptime_ms as nat), "ms\nforeground="@, bool_text(s.foreground),
        "\nloop_beat_age="@, age_text(s.loop_age_ms), "\nframes="@, dec(s.frames as nat),
        "\npump_calls="@, dec(s.pump_calls as nat), "\npump_bytes="@, dec(s.pump_bytes as nat),
        "\nshots="@, dec(s.shots as nat), "\ntexts="@, dec(s.texts as nat),
    ]
}

pub open spec fn pieces_b(s: StatsSnap) -> Seq<Seq<char>> {
    seq![
        "\nkeys="@, dec(s.keys as nat), "\nkeys_bytes="@, dec(s.keys_bytes as nat),
        "\ntouches="@, dec(s.touches as nat), "\nactive="@, s.active@, "\nsessions="@, s.sessions@,
        "\ndraw_avg_ms="@, dec(draw_avg(s)), "\ndraw_max_ms="@, dec(s.draw_max_ms as nat),
        "\ncpu_jiffies="@, dec(s.cpu_jiffies as nat), "\nrss_kb="@, dec(s.rss_kb as nat),
    ]
}

pub open spec fn pieces_c(s: StatsSnap) -> Seq<Seq<char>> {
    seq![
        "\nbytes_local="@, dec(s.bytes_local as nat), "\nbytes_remote="@, dec(s.bytes_remote as nat),
        "\nbytes_other="@, dec(s.bytes_other as nat), "\nsession_deaths="@, dec(s.session_deaths as nat),
        "\nai_page="@, s.ai_page@, "\nai_running="@, bool_text(s.ai_running),
        "\nai_orb_x="@, dec_int(s.ai_orb_x as int), "\nai_orb_y="@, dec_int(s.ai_orb_y as int),
    ]
}

pub open spec fn pieces_d(s: StatsSnap) -> Seq<Seq<char>> {
    seq![
        "\nai_pressed="@, bool_text(s.ai_pressed), "\nai_overlay="@, bool_text(s.ai_overlay),
        "\nbar_focused="@, bool_text(s.bar_focused), "\nbar_text_len="@, dec_int(s.bar_text_len as int),
        "\n"@,
    ]
}

proof fn lemma_cat_a(s: StatsSnap)
    ensures
        cat(pieces_a(s)) == stats_text_a(s),
{
    reveal_with_fuel(cat, 17);
    assert(cat(pieces_a(s)) == stats_text_a(s));
}

proof fn lemma_cat_b(s: StatsSnap)
    ensures
        cat(pieces_b(s)) == stats_text_b(s),
{
    reveal_with_fuel(cat, 19);
    assert(cat(pieces_b(s)) == stats_text_b(s));
}

proof fn lemma_cat_c(s: StatsSnap)
    ensures
        cat(pieces_c(s)) == stats_text_c(s),
{
    reveal_with_fuel(cat, 17);
    assert(cat(pieces_c(s)) == stats_text_c(s));
}

#[verifier::rlimit(100)]
proof fn lemma_cat_d(s: StatsSnap)
    ensures
        cat(pieces_d(s)) == stats_text_d(s),
{
    reveal_with_fuel(cat, 10);
    assert(cat(pieces_d(s)) == stats_text_d(s));
}

proof fn lemma_stats_pieces(s: StatsSnap)
    ensures
        stats_text(s) == cat(stats_pieces(s)),
{
    lemma_cat_a(s);
    lemma_cat_b(s);
    lemma_cat_c(s);
    lemma_cat_d(s);
    let (pa, pb, pc, pd) = (pieces_a(s), pieces_b(s), pieces_c(s), pieces_d(s));
    lemma_cat_add(pa, pb);
    lemma_cat_add(pa + pb, pc);
    lemma_cat_add(pa + pb + pc, pd);
    assert(stats_text(s) =~= cat(pa) + cat(pb) + cat(pc) + cat(pd));
}

/// Each counter is reported under its own key: the stats answer holds, as
/// whole lines, `<key>=<value>` for every counter with the value of the
/// field of that name (and the mean frame time, 0 before the first frame).
pub proof fn lemma_stats_keys_hold_their_fields(s: StatsSnap)
    ensures
        contains_seq(stats_text(s), "\nframes="@ + dec(s.frames as nat) + seq!['\n']),
        contains_seq(stats_text(s), "\npump_calls="@ + dec(s.pump_calls as nat) + seq!['\n']),
        contains_seq(stats_text(s), "\npump_bytes="@ + dec(s.pump_bytes as nat) + seq!['\n']),
        contains_seq(stats_text(s), "\nshots="@ + dec(s.shots as nat) + seq!['\n']),
        contains_seq(stats_text(s), "\ntexts="@ + dec(s.texts as nat) + seq!['\n']),
        contains_seq(stats_text(s), "\nkeys="@ + dec(s.keys as nat) + seq!['\n']),
        contains_seq(stats_text(s), "\nkeys_bytes="@ + dec(s.keys_bytes as nat) + seq!['\n']),
        contains_seq(stats_text(s), "\ntouches="@ + dec(s.touches as nat) + seq!['\n']),
        contains_seq(
            stats_text(s),
            "\ndraw_avg_ms="@ + dec(if s.frames == 0 { 0 } else { (s.draw_total_ms / s.frames) as nat }) + seq!['\n'],
        ),
        contains_seq(stats_text(s), "\ndraw_max_ms="@ + dec(s.draw_max_ms as nat) + seq!['\n']),
        contains_seq(stats_text(s), "\ncpu_jiffies="@ + dec(s.cpu_jiffies as nat) + seq!['\n']),
        contains_seq(stats_text(s), "\nrss_kb="@ + dec(s.rss_kb as nat) + seq!['\n']),
        contains_seq(stats_text(s), "\nbytes_local="@ + dec(s.bytes_local as nat) + seq!['\n']),
        contains_seq(stats_text(s), "\nbytes_remote="@ + dec(s.bytes_remote as nat) + seq!['\n']),
        contains_seq(stats_text(s), "\nbytes_other="@ + dec(s.bytes_other as nat) + seq!['\n']),
        contains_seq(stats_text(s), "\nsession_deaths="@ + dec(s.session_deaths as nat) + seq!['\n']),
{
    lemma_stats_pieces(s);
    let ps = stats_pieces(s);
    reveal_strlit("\npump_calls=");
    reveal_strlit("\npump_bytes=");
    reveal_strlit("\nshots=");
    reveal_strlit("\ntexts=");
    reveal_strlit("\nkeys=");
    reveal_strlit("\nkeys_bytes=");
    reveal_strlit("\ntouches=");
    reveal_strlit("\nactive=");
    reveal_strlit("\ncpu_jiffies=");
    reveal_strlit("\ndraw_max_ms=");
    reveal_strlit("\nrss_kb=");
    reveal_strlit("\nbytes_local=");
    reveal_strlit("\nbytes_remote=");
    reveal_strlit("\nbytes_other=");
    reveal_strlit("\nsession_deaths=");
    reveal_strlit("\nai_page=");
    lemma_cat_pair(ps, 6, '\n');
    lemma_cat_pair(ps, 8, '\n');
    lemma_cat_pair(ps, 10, '\n');
    lemma_cat_pair(ps, 12, '\n');
    lemma_cat_pair(ps, 14, '\n');
    lemma_cat_pair(ps, 16, '\n');
    lemma_cat_pair(ps, 18, '\n');
    lemma_cat_pair(ps, 20, '\n');
    lemma_cat_pair(ps, 26, '\n');
    lemma_cat_pair(ps, 28, '\n');
    lemma_cat_pair(ps, 30, '\n');
    lemma_cat_pair(ps, 32, '\n');
    lemma_cat_pair(ps, 34, '\n');
    lemma_cat_pair(ps, 36, '\n');
    lemma_cat_pair(ps, 38, '\n');
    lemma_cat_pair(ps, 40, '\n');
}

/// The history line as its pieces: each key (with the separator before
/// it) followed by its value.
pub open spec fn history_pieces(s: StatsSnap) -> Seq<Seq<char>> {
    history_pieces_a(s) + history_pieces_b(s)
}

pub open spec fn history_pieces_a(s: StatsSnap) -> Seq<Seq<char>> {
    seq![
        "t="@, dec(s.uptime_ms as nat), " fg="@, (if s.foreground { "1"@ } else { "0"@ }), " fr="@,
        dec(s.frames as nat), " pump="@, dec(s.pump_calls as nat), " draw="@, dec(draw_avg(s)), "/"@,
        dec(s.draw_max_ms as nat), "ms cpu="@, dec(s.cpu_jiffies as nat),
    ]
}

pub open spec fn history_pieces_b(s: StatsSnap) -> Seq<Seq<char>> {
    seq![
        " rss="@, dec(s.rss_kb as nat), "kb l="@, dec(s.bytes_local as nat), " r="@, dec(s.bytes_remote as nat),
        " o="@, dec(s.bytes_other as nat), " d="@, dec(s.session_deaths as nat), " tch="@,
        dec(s.touches as nat), " act="@, s.active@,
    ]
}

proof fn lemma_history_pieces(s: StatsSnap)
    ensures
        history_text(s) == cat(history_pieces(s)),
{
    let pa = history_pieces_a(s);
    let pb = history_pieces_b(s);
    reveal_with_fuel(cat, 15);
    assert(cat(pa) + cat(pb) == history_text(s));
    lemma_cat_add(pa, pb);
}

/// The history line reports each counter under its own key: `fr=`
/// frames, `pump=` pump calls, `cpu=` CPU jiffies, `rss=` resident KB,
/// `l=` / `r=` / `o=` the session byte buckets, `d=` deaths, `tch=`
/// touches, each value ending at the next separator.
pub proof fn lemma_history_keys_hold_their_fields(s: StatsSnap)
    ensures
        contains_seq(history_text(s), " fr="@ + dec(s.frames as nat) + seq![' ']),
        contains_seq(history_text(s), " pump="@ + dec(s.pump_calls as nat) + seq![' ']),
        contains_seq(history_text(s), "ms cpu="@ + dec(s.cpu_jiffies as nat) + seq![' ']),
        contains_seq(history_text(s), " rss="@ + dec(s.rss_kb as nat) + seq!['k']),
        contains_seq(history_text(s), "kb l="@ + dec(s.bytes_local as nat) + seq![' ']),
        contains_seq(history_text(s), " r="@ + dec(s.bytes_remote as nat) + seq![' ']),
        contains_seq(history_text(s), " o="@ + dec(s.bytes_other as nat) + seq![' ']),
        contains_seq(history_text(s), " d="@ + dec(s.session_deaths as nat) + seq![' ']),
        contains_seq(history_text(s), " tch="@ + dec(s.touches as nat) + seq![' ']),
{
    lemma_history_pieces(s);
    let ps = history_pieces(s);
    reveal_strlit(" pump=");
    reveal_strlit(" draw=");
    reveal_strlit(" rss=");
    reveal_strlit("kb l=");
    reveal_strlit(" r=");
    reveal_strlit(" o=");
    reveal_strlit(" d=");
    reveal_strlit(" tch=");
    reveal_strlit(" act=");
    lemma_cat_pair(ps, 4, ' ');
    lemma_cat_pair(ps, 6, ' ');
    lemma_cat_pair(ps, 12, ' ');
    lemma_cat_pair(ps, 14, 'k');
    lemma_cat_pair(ps, 16, ' ');
    lemma_cat_pair(ps, 18, ' ');
    lemma_cat_pair(ps, 20, ' ');
    lemma_cat_pair(ps, 22, ' ');
    lemma_cat_pair(ps, 24, ' ');
}

fn avg_ms(total: u64, n: u64) -> (r: u64)
    ensures
        r == if n == 0 { 0 } else { total / n },
{
    if n == 0 { 0 } else { total / n }
}

#[verifier::rlimit(50)]
fn push_stats_a(out: &mut String, s: &StatsSnap)
    ensures
        final(out)@ == old(out)@ + stats_text_a(*s),
{
    let ghost o = out@;
    push_str(out, "uptime=");
    push_dec_u128(out, s.uptime_ms);
    push_str(out, "ms\nforeground=");
    push_bool(out, s.foreground);
    push_str(out, "\nloop_beat_age=");
    match s.loop_age_ms {
        Some(a) => {
            push_dec(out, a);
            push_str(out, "ms");
        },
        None => {
            push_str(out, "未起跳");
        },
    }
    push_str(out, "\nframes=");
    push_dec(out, s.frames);
    push_str(out, "\npump_calls=");
    push_dec(out, s.pump_calls);
    push_str(out, "\npump_bytes=");
    push_dec(out, s.pump_bytes);
    push_str(out, "\nshots=");
    push_dec(out, s.shots);
    push_str(out, "\ntexts=");
    push_dec(out, s.texts);
    assert(out@ =~= o + stats_text_a(*s));
}

#[verifier::rlimit(100)]
#[verifier::spinoff_prover]
fn push_stats_b(out: &mut String, s: &StatsSnap)
    ensures
        final(out)@ == old(out)@ + stats_text_b(*s),
{
    let ghost o = out@;
    push_str(out, "\nkeys=");
    push_dec(out, s.keys);
    push_str(out, "\nkeys_bytes=");
    push_dec(out, s.keys_bytes);
    push_str(out, "\ntouches=");
    push_dec(out, s.touches);
    push_str(out, "\nactive=");
    push_str(out, s.active.as_str());
    push_str(out, "\nsessions=");
    push_str(out, s.sessions.as_str());
    let ghost mid = out@;
    assert(mid =~= o + ("\nkeys="@ + dec(s.keys as nat) + "\nkeys_bytes="@ + dec(s.keys_bytes as nat)
        + "\ntouches="@ + dec(s.touches as nat) + "\nactive="@ + s.active@ + "\nsessions="@ + s.sessions@));
    push_str(out, "\ndraw_avg_ms=");
    push_dec(out, avg_ms(s.draw_total_ms, s.frames));
    push_str(out, "\ndraw_max_ms=");
    push_dec(out, s.draw_max_ms);
    push_str(out, "\ncpu_jiffies=");
    push_dec(out, s.cpu_jiffies);
    push_str(out, "\nrss_kb=");
    push_dec(out, s.rss_kb);
    assert(out@ =~= o + stats_text_b(*s));
}

#[verifier::rlimit(50)]
fn push_stats_c(out: &mut String, s: &StatsSnap)
    ensures
        final(out)@ == old(out)@ + stats_text_c(*s),
{
    let ghost o = out@;
    push_str(out, "\nbytes_local=");
    push_dec(out, s.bytes_local);
    push_str(out, "\nbytes_remote=");
    push_dec(out, s.bytes_remote);
    push_str(out, "\nbytes_other=");
    push_dec(out, s.bytes_other);
    push_str(out, "\nsession_deaths=");
    push_dec(out, s.session_deaths);
    push_str(out, "\nai_page=");
    push_str(out, s.ai_page.as_str());
    push_str(out, "\nai_running=");
    push_bool(out, s.ai_running);
    push_str(out, "\nai_orb_x=");
    push_dec_i64(out, s.ai_orb_x);
    push_str(out, "\nai_orb_y=");
    push_dec_i64(out, s.ai_orb_y);
    assert(out@ =~= o + stats_text_c(*s));
}

#[verifier::rlimit(50)]
fn push_stats_d(out: &mut String, s: &StatsSnap)
    ensures
        final(out)@ == old(out)@ + stats_text_d(*s),
{
    let ghost o = out@;
    push_str(out, "\nai_pressed=");
    push_bool(out, s.ai_pressed);
    push_str(out, "\nai_overlay=");
    push_bool(out, s.ai_overlay);
    push_str(out, "\nbar_focused=");
    push_bool(out, s.bar_focused);
    push_str(out, "\nbar_text_len=");
    push_dec_i64(out, s.bar_text_len);
    push_str(out, "\n");
    assert(out@ =~= o + stats_text_d(*s));
}

/// The stats answer text (one `key=value` per line, machine readable).
pub fn format_stats(s: &StatsSnap) -> (r: String)
    ensures
        r@ == stats_text(*s),
{
    let mut out = String::new();
    push_stats_a(&mut out, s);
    push_stats_b(&mut out, s);
    push_stats_c(&mut out, s);
    push_stats_d(&mut out, s);
    assert(out@ =~= stats_text(*s));
    out
}

/// One compact history line per snapshot (space separated `key=value`).
pub open spec fn history_text(s: StatsSnap) -> Seq<char> {
    "t="@ + dec(s.uptime_ms as nat) + " fg="@ + (if s.foreground { "1"@ } else { "0"@ }) + " fr="@
        + dec(s.frames as nat) + " pump="@ + dec(s.pump_calls as nat) + " draw="@ + dec(
        draw_avg(s),
    ) + "/"@ + dec(s.draw_max_ms as nat) + "ms cpu="@ + dec(s.cpu_jiffies as nat) + " rss="@
        + dec(s.rss_kb as nat) + "kb l="@ + dec(s.bytes_local as nat) + " r="@ + dec(
        s.bytes_remote as nat,
    ) + " o="@ + dec(s.bytes_other as nat) + " d="@ + dec(s.session_deaths as nat) + " tch="@
        + dec(s.touches as nat) + " act="@ + s.active@
}

/// History line of one snapshot.
#[verifier::rlimit(50)]
pub fn format_history_line(s: &StatsSnap) -> (r: String)
    ensures
        r@ == history_text(*s),
{
    let mut out = String::new();
    push_str(&mut out, "t=");
    push_dec_u128(&mut out, s.uptime_ms);
    push_str(&mut out, " fg=");
    if s.foreground {
        push_str(&mut out, "1");
    } else {
        push_str(&mut out, "0");
    }
    push_str(&mut out, " fr=");
    push_dec(&mut out, s.frames);
    push_str(&mut out, " pump=");
    push_dec(&mut out, s.pump_calls);
    push_str(&mut out, " draw=");
    push_dec(&mut out, avg_ms(s.draw_total_ms, s.frames));
    push_str(&mut out, "/");
    push_dec(&mut out, s.draw_max_ms);
    push_str(&mut out, "ms cpu=");
    push_dec(&mut out, s.cpu_jiffies);
    push_str(&mut out, " rss=");
    push_dec(&mut out, s.rss_kb);
    push_str(&mut out, "kb l=");
    push_dec(&mut out, s.bytes_local);
    push_str(&mut out, " r=");
    push_dec(&mut out, s.bytes_remote);
    push_str(&mut out, " o=");
    push_dec(&mut out, s.bytes_other);
    push_str(&mut out, " d=");
    push_dec(&mut out, s.session_deaths);
    push_str(&mut out, " tch=");
    push_dec(&mut out, s.touches);
    push_str(&mut out, " act=");
    push_str(&mut out, s.active.as_str());
    assert(out@ =~= history_text(*s));
    out
}

/// History ring capacity (48 snapshots at 30 s each ≈ 24 minutes).
pub const HISTORY_CAP: usize = 48;

/// History ring tick (every 100 watch ticks ≈ 30 s).
pub const HISTORY_EVERY_TICKS: u64 = 100;

/// Pushes a snapshot; a full ring drops its oldest first.
pub fn ring_push(ring: &mut VecDeque<StatsSnap>, s: StatsSnap)
    ensures
        old(ring)@.len() >= HISTORY_CAP ==> final(ring)@ == old(ring)@.drop_first().push(s),
        old(ring)@.len() < HISTORY_CAP ==> final(ring)@ == old(ring)@.push(s),
{
    if ring.len() >= HISTORY_CAP {
        ring.pop_front();
    }
    ring.push_back(s);
}

} // verus!
