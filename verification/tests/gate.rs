use std::collections::VecDeque;
use kfm_na::gate::{
    alert_check, encode_rgb, format_history_line, format_stats, is_stall, panic_line,
    parse_bar_line, parse_bar_script, parse_self_stat_jiffies, parse_vmrss_kb, rec_compact,
    stat_jiffies_fit,
    rec_decode_all, rec_encode, ring_push, watch_verdict, AlertState, BarCmd, GateStats, RecEvent,
    StatsSnap, WatchState, HISTORY_CAP, LOOP_STALL_MS, REC_MAGIC,
};

fn snap() -> StatsSnap {
    StatsSnap {
        uptime_ms: 1000,
        foreground: true,
        loop_age_ms: None,
        frames: 4,
        pump_calls: 2,
        pump_bytes: 9,
        shots: 0,
        texts: 0,
        keys: 1,
        keys_bytes: 3,
        active: "local".into(),
        sessions: "local,remote".into(),
        draw_total_ms: 10,
        draw_max_ms: 5,
        cpu_jiffies: 7,
        rss_kb: 100,
        bytes_local: 1,
        bytes_remote: 2,
        bytes_other: 3,
        session_deaths: 0,
        touches: 0,
        ai_page: "-".into(),
        ai_running: false,
        ai_orb_x: -3,
        ai_orb_y: 4,
        ai_pressed: false,
        ai_overlay: false,
        bar_focused: false,
        bar_text_len: 0,
    }
}

fn tape(evs: &[RecEvent]) -> Vec<u8> {
    let mut t = REC_MAGIC.to_vec();
    for e in evs {
        t.extend(rec_encode(e));
    }
    t
}

#[test]
fn recorder_round_trip() {
    let evs = vec![
        RecEvent::Output { ts_ms: 5, name: "local".into(), data: b"hi\x1b[0m".to_vec() },
        RecEvent::Resize { ts_ms: 6, name: "remote".into(), cols: 80, rows: 24, cell_w: 9, cell_h: 18 },
    ];
    assert_eq!(rec_decode_all(&tape(&evs)).unwrap(), evs);
    assert_eq!(evs[1].ts_ms(), 6);
}

#[test]
fn recorder_rejects_bad_magic_and_drops_torn_tail() {
    assert_eq!(rec_decode_all(b"nope").unwrap_err(), "坏魔数:不是记录仪文件");
    let evs = vec![RecEvent::Output { ts_ms: 1, name: "a".into(), data: vec![1, 2, 3] }];
    let mut t = tape(&evs);
    let whole = t.clone();
    t.extend(&rec_encode(&evs[0])[..7]);
    assert_eq!(rec_decode_all(&t).unwrap(), evs);
    assert_eq!(rec_decode_all(&whole).unwrap(), evs);
}

#[test]
fn recorder_compaction_keeps_newest() {
    let evs: Vec<RecEvent> = (0..10)
        .map(|i| RecEvent::Output { ts_ms: i, name: "n".into(), data: vec![i as u8; 10] })
        .collect();
    let t = tape(&evs);
    let one = rec_encode(&evs[0]).len();
    let small = rec_compact(&t, 9 + 3 * one);
    assert_eq!(rec_decode_all(&small).unwrap(), evs[7..].to_vec());
    assert_eq!(rec_compact(&t, t.len()), t);
    let tiny = rec_compact(&t, 1);
    assert_eq!(rec_decode_all(&tiny).unwrap(), evs[9..].to_vec());
}

#[test]
fn stall_and_watch_verdicts() {
    assert!(!is_stall(LOOP_STALL_MS));
    assert!(is_stall(LOOP_STALL_MS + 1));
    assert_eq!(watch_verdict(false, Some(99_999)), WatchState::Background);
    assert_eq!(watch_verdict(true, None), WatchState::NoBeat);
    assert_eq!(watch_verdict(true, Some(3000)), WatchState::Alive(3000));
    assert_eq!(watch_verdict(true, Some(3001)), WatchState::Stall(3001));
}

#[test]
fn panic_line_is_one_line() {
    assert_eq!(
        panic_line(12, "main", "a.rs:1:2", "x\ny"),
        "unix=12 thread=main at=a.rs:1:2 msg=x␤y"
    );
}

#[test]
fn proc_parsers() {
    let stat = "123 (na (x) y) S 1 2 3 4 5 6 7 8 9 10 11 12 13";
    assert_eq!(parse_self_stat_jiffies(stat), Some(11 + 12));
    assert_eq!(parse_self_stat_jiffies("no paren"), None);
    assert!(stat_jiffies_fit(stat));
    assert!(stat_jiffies_fit("no paren"));
    let big = "1 (x) S 1 2 3 4 5 6 7 8 9 10 18446744073709551615 1 0";
    assert!(!stat_jiffies_fit(big));
    assert_eq!(parse_vmrss_kb("Name: na\nVmRSS:\t  2048 kB\n"), Some(2048));
    assert_eq!(parse_vmrss_kb("VmSize: 1 kB\n"), None);
}

#[test]
fn stats_formats() {
    let s = snap();
    let text = format_stats(&s);
    assert!(text.starts_with("uptime=1000ms\nforeground=true\nloop_beat_age=未起跳\nframes=4\n"));
    assert!(text.contains("\ndraw_avg_ms=2\n"));
    assert!(text.contains("\nai_orb_x=-3\n"));
    assert!(text.ends_with("bar_text_len=0\n"));
    assert_eq!(
        format_history_line(&s),
        "t=1000 fg=1 fr=4 pump=2 draw=2/5ms cpu=7 rss=100kb l=1 r=2 o=3 d=0 tch=0 act=local"
    );
}

#[test]
fn history_ring_drops_oldest() {
    let mut ring = VecDeque::new();
    for i in 0..(HISTORY_CAP as u64 + 2) {
        let mut s = snap();
        s.frames = i;
        ring_push(&mut ring, s);
    }
    assert_eq!(ring.len(), HISTORY_CAP);
    assert_eq!(ring.front().unwrap().frames, 2);
}

#[test]
fn alerts_fire_once_per_peak_and_cool_down() {
    let st = AlertState::new();
    let mut s = snap();
    s.draw_max_ms = 150;
    let (out, st2) = alert_check(&s, &st, 0);
    assert_eq!(out, vec!["帧耗时新峰值 150ms(线 100ms)——卡顿体感可查 trace 环".to_string()]);
    let (out2, _) = alert_check(&s, &st2, 1);
    assert!(out2.is_empty());
    let mut big = snap();
    big.rss_kb = 600 * 1024;
    let (a, st3) = alert_check(&big, &AlertState::new(), 10);
    assert_eq!(a, vec!["RSS 600MB 越过绝线 512MB——内存水位高危".to_string()]);
    let (b, _) = alert_check(&big, &st3, 10 + 599_999);
    assert!(b.is_empty());
    let (c, _) = alert_check(&big, &st3, 10 + 600_000);
    assert_eq!(c.len(), 1);
}

#[test]
fn death_burst_alert() {
    let mut s = snap();
    let (_, st) = alert_check(&s, &AlertState::new(), 0);
    s.session_deaths = 3;
    let (out, _) = alert_check(&s, &st, 1000);
    assert_eq!(out, vec!["会话 5 分钟内死亡 3 次——网络/PTY 在抽风".to_string()]);
}

#[test]
fn bar_script_lines() {
    assert_eq!(parse_bar_line("  # c"), None);
    assert_eq!(parse_bar_line(""), None);
    assert_eq!(parse_bar_line("text  a b "), Some(Ok(BarCmd::Text(" a b".into()))));
    assert_eq!(parse_bar_line(" submit "), Some(Ok(BarCmd::Submit)));
    assert_eq!(parse_bar_line("text"), Some(Err("坏行(跳过): text".into())));
    let (cmds, errs) = parse_bar_script("focus\nbogus\n\ntext 你好\nbackspace\nclear\nunfocus");
    assert_eq!(
        cmds,
        vec![BarCmd::Focus, BarCmd::Text("你好".into()), BarCmd::Backspace, BarCmd::Clear, BarCmd::Unfocus]
    );
    assert_eq!(errs, vec!["坏行(跳过): bogus".to_string()]);
}

#[test]
fn rgb_bytes_little_endian() {
    assert_eq!(encode_rgb(&[0x00112233, 0xAABBCCDD]), vec![0x33, 0x22, 0x11, 0x00, 0xDD, 0xCC, 0xBB, 0xAA]);
}

#[test]
fn gate_counters() {
    let mut g = GateStats::new();
    assert_eq!(g.frame_size(), None);
    g.note_frame_size(1260, 2800);
    assert_eq!(g.frame_size(), Some((1260, 2800)));
    assert_eq!(g.frames, 1);
    g.note_draw(7);
    g.note_draw(3);
    assert_eq!((g.draw_total_ms, g.draw_max_ms), (10, 7));
    g.note_session_bytes("local", 5);
    g.note_session_bytes("remote", 6);
    g.note_session_bytes("x", 7);
    assert_eq!((g.bytes_local, g.bytes_remote, g.bytes_other), (5, 6, 7));
    assert_eq!(g.loop_beat_age_ms(100), None);
    g.note_loop_beat(40);
    assert_eq!(g.loop_beat_age_ms(100), Some(60));
    assert_eq!(g.loop_beat_age_ms(10), Some(0));
    assert!(!g.switch_take());
    g.request_switch();
    assert!(g.switch_take());
    assert!(!g.switch_take());
    g.session_deaths = u64::MAX;
    g.note_session_death();
    assert_eq!(g.session_deaths, 0);
}

#[test]
fn rec_tape_with_cut_tail() {
    let a = RecEvent::Output { ts_ms: 1, name: "local".into(), data: b"ab".to_vec() };
    let b = RecEvent::Resize { ts_ms: 2, name: "remote".into(), cols: 80, rows: 24, cell_w: 9, cell_h: 18 };
    let c = RecEvent::Output { ts_ms: 3, name: "local".into(), data: b"cut".to_vec() };
    let enc_c = rec_encode(&c);
    for k in 0..enc_c.len() {
        let mut buf = REC_MAGIC.to_vec();
        buf.extend(rec_encode(&a));
        buf.extend(rec_encode(&b));
        buf.extend_from_slice(&enc_c[..k]);
        assert_eq!(rec_decode_all(&buf).unwrap(), vec![a.clone(), b.clone()], "cut at {k}");
    }
    assert!(rec_decode_all(b"KFMREC0").is_err());
    let long = RecEvent::Output { ts_ms: 4, name: "n".repeat(300), data: b"xyz".to_vec() };
    let enc_long = rec_encode(&long);
    for k in 0..enc_long.len() {
        let mut buf = REC_MAGIC.to_vec();
        buf.extend(rec_encode(&a));
        buf.extend_from_slice(&enc_long[..k]);
        assert_eq!(rec_decode_all(&buf).unwrap(), vec![a.clone()], "long name cut at {k}");
    }
}
