use kfm_na::gate::SessionPump;
use kfm_na::session::SessionEvent;

fn out(s: &str) -> SessionEvent {
    SessionEvent::Output { data: s.to_string() }
}

#[test]
fn pump_batches_files_by_session() {
    let mut p = SessionPump::new();
    let batches = vec![
        ("local", vec![out("ab"), SessionEvent::Exited { code: 3 }]),
        ("remote", vec![out("cd"), out("ef")]),
    ];
    let outs = p.pump_batches(&batches, "local");
    assert_eq!(
        outs,
        vec![("local", "ab".to_string()), ("remote", "cd".to_string()), ("remote", "ef".to_string())]
    );
    assert_eq!(p.take_replay("remote"), vec!["cd".to_string(), "ef".to_string()]);
    assert_eq!(p.take_control(), vec![("local", SessionEvent::Exited { code: 3 })]);
    assert_eq!(p.take_replay("remote"), Vec::<String>::new());
}

#[test]
fn pump_feeds_active_and_records_all() {
    let mut p = SessionPump::new();
    let (ta, ra) = std::sync::mpsc::channel();
    let (tb, rb) = std::sync::mpsc::channel();
    p.register("a", ra);
    p.register("b", rb);
    ta.send(out("x")).unwrap();
    tb.send(out("y")).unwrap();
    tb.send(SessionEvent::Exited { code: 0 }).unwrap();
    let outs = p.pump("a");
    let routed: Vec<(&str, String, bool)> = outs.into_iter().map(|o| (o.name, o.data, o.feed)).collect();
    assert_eq!(routed, vec![("a", "x".to_string(), true), ("b", "y".to_string(), false)]);
    assert_eq!(p.take_replay("b"), vec!["y".to_string()]);
    assert_eq!(p.take_control(), vec![("b", SessionEvent::Exited { code: 0 })]);
    assert!(p.pump("a").is_empty());
}

#[test]
fn replay_keeps_newest_within_cap() {
    let mut p = SessionPump::new();
    let big = "a".repeat(200 * 1024);
    let mid = "b".repeat(100 * 1024);
    let small = "c".repeat(10);
    let batches = vec![("remote", vec![out(&big), out(&mid), out(&small)])];
    let _ = p.pump_batches(&batches, "local");
    assert_eq!(p.take_replay("remote"), vec![mid.clone(), small.clone()]);
    let huge = "d".repeat(300 * 1024);
    let _ = p.pump_batches(&vec![("remote", vec![out(&small), out(&huge)])], "local");
    assert_eq!(p.take_replay("remote"), Vec::<String>::new());
}

#[test]
fn register_again_drops_replay() {
    let mut p = SessionPump::new();
    let (_t1, r1) = std::sync::mpsc::channel();
    p.register("a", r1);
    let _ = p.pump_batches(&vec![("a", vec![out("old")])], "b");
    let (_t2, r2) = std::sync::mpsc::channel();
    p.register("a", r2);
    assert_eq!(p.take_replay("a"), Vec::<String>::new());
}

#[test]
fn replay_spans_pumps_and_skips_active_periods() {
    let mut p = SessionPump::new();
    let mid = "m".repeat(150 * 1024);
    let _ = p.pump_batches(&vec![("b", vec![out("1"), out(&mid)])], "a");
    let _ = p.pump_batches(&vec![("b", vec![out("live")])], "b");
    let _ = p.pump_batches(&vec![("b", vec![out(&mid), out("2")])], "a");
    assert_eq!(p.take_replay("b"), vec![mid.clone(), "2".to_string()]);
    let _ = p.pump_batches(&vec![("b", vec![out("3")])], "a");
    assert_eq!(p.take_replay("b"), vec!["3".to_string()]);
    assert_eq!(p.take_replay("b"), Vec::<String>::new());
}
