use kfm_na::gles::{AnimStep, FrameBook};

#[test]
fn animation_run_report() {
    let mut b = FrameBook::new();
    assert_eq!(b.note_anim_frame(true, 16_000), AnimStep::Counted { run_start: true });
    b.note_swap(1_000_000_000, None);
    b.note_swap(1_016_000_000, Some(1_010_000_000));
    assert_eq!(b.note_anim_frame(true, 20_000), AnimStep::Counted { run_start: false });
    assert_eq!(
        b.note_anim_frame(false, 0),
        AnimStep::Ended { line: "2帧 均值18000us(18ms) 最大20ms 推算fps=55 swap间隔 min/avg/max 16ms/16ms/16ms".to_string() }
    );
    assert_eq!(
        b.vsync_report(Some((10, 16_000, 17_000, 166_000))),
        " vsync 60.2Hz 样本10 周期 min/avg/max 16ms/16ms/17ms 相位 min/avg/max 6ms/6ms/6ms"
    );
    assert_eq!(b.vsync_report(None), " vsync无样本");
    assert_eq!(b.note_anim_frame(false, 0), AnimStep::Idle);
}

#[test]
fn swaps_outside_animation_are_not_tallied() {
    let mut b = FrameBook::new();
    b.note_swap(5_000_000, None);
    b.note_swap(9_000_000, Some(1));
    assert_eq!(b.swap_gap_report(), "");
    assert_eq!(b.swap_last_ns, 9_000_000);
    assert_eq!(b.vsync_report(Some((0, 0, 0, 0))), " vsync 1000000.0Hz 样本0 周期 min/avg/max 0ms/0ms/0ms");
}

#[test]
fn report_covers_the_whole_run() {
    let mut b = FrameBook::new();
    for d in [10_000u64, 30_000, 20_000] {
        assert!(matches!(b.note_anim_frame(true, d), AnimStep::Counted { .. }));
    }
    match b.note_anim_frame(false, 0) {
        AnimStep::Ended { line } => assert!(line.starts_with("3帧 均值20000us(20ms) 最大30ms 推算fps=50")),
        other => panic!("unexpected {:?}", other),
    }
    assert_eq!(b.note_anim_frame(false, 0), AnimStep::Idle);
}
