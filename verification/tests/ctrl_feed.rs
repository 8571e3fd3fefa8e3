use kfm_na::ctrl_feed::{CtrlAct, CtrlEvent, CtrlFeed, SeedHeader};

/// A minimal classifier for the tests: tmux control lines and a
/// `KFMHDR <a> <b> <x> <y> %<pane>` header.
fn classify(line: &str) -> (CtrlEvent, Option<SeedHeader>) {
    let ev = if line.starts_with("%begin") {
        CtrlEvent::BlockBegin
    } else if line.starts_with("%end") {
        CtrlEvent::BlockEnd
    } else if line.starts_with("%error") {
        CtrlEvent::BlockError
    } else if line.starts_with("%exit") {
        CtrlEvent::Exit
    } else if let Some(rest) = line.strip_prefix("%output %") {
        let (p, data) = rest.split_once(' ').unwrap_or((rest, ""));
        CtrlEvent::Output { pane: p.parse().unwrap_or(0), bytes: data.as_bytes().to_vec() }
    } else if line.starts_with('%') {
        CtrlEvent::Notify
    } else {
        CtrlEvent::Plain
    };
    let hdr = line.strip_prefix("KFMHDR ").and_then(|r| {
        let f: Vec<&str> = r.split(' ').collect();
        if f.len() != 5 {
            return None;
        }
        Some(SeedHeader {
            pane: f[4].strip_prefix('%')?.parse().ok()?,
            cursor_x: f[2].parse().ok()?,
            cursor_y: f[3].parse().ok()?,
        })
    });
    (ev, hdr)
}

#[test]
fn seeding_sequence_builds_canvas() {
    let mut f = CtrlFeed::new();
    f.seed_sent();
    let wire = "%begin 1 1 0\r\n%end 1 1 0\r\n%session-changed $1 s\r\ndisplay-message x\r\n%begin 2 2 0\r\nKFMHDR 2790 10000 5 50 %3\r\n%end 2 2 0\r\n%output %3 early\r\n%begin 3 3 0\r\nline1\r\n\r\nline3\r\n%end 3 3 0\r\n%output %3 late\r\n%output %4 other\r\n";
    let mut acts = Vec::new();
    for piece in wire.as_bytes().chunks(7) {
        acts.extend(f.feed_bytes(piece, classify));
    }
    let builds: Vec<&CtrlAct> = acts.iter().filter(|a| !matches!(a, CtrlAct::Nothing)).collect();
    assert_eq!(
        builds,
        vec![
            &CtrlAct::Build { cap: "line1\r\n\r\nline3".into(), x: 5, y: 50 },
            &CtrlAct::Pend(b"late".to_vec()),
        ]
    );
    assert_eq!(f.pane(), Some(3));
    assert!(!f.is_steady());
    f.built();
    assert!(f.is_steady());
    assert_eq!(f.feed_bytes(b"%output %3 x\n%layout-change @1\n", classify), vec![CtrlAct::Feed(b"x".to_vec()), CtrlAct::Reconcile]);
}

#[test]
fn seeding_failures_carry_evidence() {
    let mut f = CtrlFeed::new();
    f.seed_sent();
    let acts = f.feed_bytes(b"%begin\nnot a header\r\n%end\n", classify);
    assert_eq!(acts.last().unwrap(), &CtrlAct::SeedFail("头块有正文但无 KFMHDR 头行: 首行=not a header".into()));
    assert!(f.is_steady());
    assert_eq!(f.pane(), None);
    f.seed_sent();
    let acts = f.feed_bytes(b"%begin\nKFMHDR 1 2 3 4 %9\n%end\n%end\n", classify);
    assert_eq!(acts.last().unwrap(), &CtrlAct::SeedFail("capture 块缺失（头块后直接 %end）".into()));
    f.seed_sent();
    assert_eq!(f.feed_bytes(b"%error\n", classify), vec![CtrlAct::SeedFail("命令块 %error".into())]);
    assert_eq!(f.feed_bytes(b"%exit\n", classify), vec![CtrlAct::Dead("tmux -C %exit（会话被 kill/断开）")]);
}

#[test]
fn ctrl_lines_held_across_calls() {
    let mut f = CtrlFeed::new();
    assert_eq!(f.feed_bytes(b"%exi", classify), vec![]);
    assert_eq!(f.feed_bytes(b"t\r\r\n", classify).len(), 1);
}

#[test]
fn reset_then_feed_is_quiet() {
    let mut f = CtrlFeed::new();
    f.seed_sent();
    let _ = f.feed_bytes(b"%begin 2 2 0\nKFMHDR 2790 10000 5 50 %3\n", classify);
    f.reset();
    assert!(f.is_steady());
    assert_eq!(f.pane(), None);
    let acts = f.feed_bytes(b"%output %3 x\n%layout-change @1\n", classify);
    assert_eq!(acts.len(), 2);
    assert!(acts.iter().all(|a| matches!(a, CtrlAct::Nothing)));
}
