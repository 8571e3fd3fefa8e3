use kfm_na::ai_presence::{Page, Panel, PresenceState, LINGER_MS};
use kfm_na::bootstrap::InstallStatus;
use kfm_na::conn::{ConnConfig, OutboundQueue};
use kfm_na::crash::{format_pc_line, format_signal_line};
use kfm_na::effect::EffectStack;
use kfm_na::endpoint::{def, of_default_session, registry, DefaultSession, EndpointKind, EndpointState};
use kfm_na::gles::ChromeSlot;
use kfm_na::ime_queue::{ImeQueue, Inject};
use kfm_na::input_bar::{height_for_lines, pivot_drag_span, text_view_h, viewport_geometry, HEIGHT_PX};
use kfm_na::install::{apk_name, apk_uri};
use std::cell::RefCell;
use std::rc::Rc;

#[test]
fn endpoint_registry_and_epoch() {
    let d = def(EndpointKind::Local);
    assert_eq!(d.kind, EndpointKind::Local);
    assert_eq!(d.display, "本地");
    assert!(d.caps.exec_channel && d.caps.sys_info && d.caps.health && d.caps.link);
    assert_eq!(def(EndpointKind::Server).display, "服务器");
    assert_eq!(of_default_session(&DefaultSession::Server("s1".into())), EndpointKind::Server);
    assert_eq!(of_default_session(&DefaultSession::Local), EndpointKind::Local);
    let mut s = EndpointState::default();
    assert_eq!((s.current(), s.epoch()), (EndpointKind::Server, 0));
    assert_eq!(s.set_current(EndpointKind::Server), 0);
    assert_eq!(s.set_current(EndpointKind::Local), 1);
    assert_eq!(s.set_current(EndpointKind::Local), 1);
    assert_eq!(s.set_current(EndpointKind::Server), 2);
}

#[test]
fn apk_names_and_uri() {
    assert_eq!(apk_name("/sdcard/Download/na-1.2.APK"), Some("na-1.2.APK".to_string()));
    assert_eq!(apk_name("dir/ x.apk "), Some("x.apk".to_string()));
    assert_eq!(apk_name("a/../b.apk"), Some("b.apk".to_string()));
    assert_eq!(apk_name("x..apk"), None);
    assert_eq!(apk_name("dir/"), None);
    assert_eq!(apk_name("x.zip"), None);
    assert_eq!(apk_name("a\0.apk"), None);
    assert_eq!(apk_uri("na.apk"), "content://dev.kfm.na.provider/apk/na.apk");
}

#[test]
fn crash_lines_fit_or_cut() {
    let mut buf = [0u8; 64];
    let n = format_signal_line(11, 0xdeadbeef, &mut buf);
    assert_eq!(&buf[..n], b"SIGNAL sig=11 addr=0xdeadbeef\n");
    let n = format_signal_line(i32::MIN, 0, &mut buf);
    assert_eq!(&buf[..n], b"SIGNAL sig=2147483648 addr=0x0\n");
    let mut small = [7u8; 10];
    let n = format_signal_line(6, 1, &mut small);
    assert_eq!(n, 10);
    assert_eq!(&small, b"SIGNAL sig");
    let n = format_pc_line(0x1234, 0x1000, 0x2000, &mut buf);
    assert_eq!(&buf[..n], b"PC pc=0x1234 in=libkfm_na off=0x234\n");
    let n = format_pc_line(0x1234, 0, 0x2000, &mut buf);
    assert_eq!(&buf[..n], b"PC pc=0x1234 in=foreign\n");
}

#[test]
fn effects_unwind_lifo_once() {
    let log = Rc::new(RefCell::new(Vec::new()));
    let mut st: EffectStack<Box<dyn FnOnce()>> = EffectStack::new();
    for i in 0..3 {
        let l = log.clone();
        st.push(Box::new(move || l.borrow_mut().push(i)));
    }
    for d in st.dispose() {
        d();
    }
    assert!(st.is_disposed());
    assert_eq!(*log.borrow(), vec![2, 1, 0]);
    let l = log.clone();
    st.push(Box::new(move || l.borrow_mut().push(9)));
    assert!(st.dispose().is_empty());
    assert_eq!(*log.borrow(), vec![2, 1, 0]);
}

#[test]
fn ime_queue_fifo() {
    let mut q = ImeQueue::new();
    q.push_text("");
    q.push_text("你好");
    q.push_text("a");
    assert_eq!(q.drain(), vec![Inject::Text("你好".into()), Inject::Text("a".into())]);
    assert_eq!(q.drain(), vec![]);
}

#[test]
fn bar_geometry() {
    assert_eq!(text_view_h(200), 120);
    assert_eq!(text_view_h(50), 0);
    assert_eq!(height_for_lines(0), HEIGHT_PX);
    assert_eq!(height_for_lines(3), 220 + 2 * 63);
    assert_eq!(height_for_lines(99), 220 + 4 * 63);
    assert_eq!(pivot_drag_span((3, 6), 1), (1, 6));
    assert_eq!(pivot_drag_span((3, 6), 9), (3, 9));
    assert_eq!(pivot_drag_span((3, 6), 4), (3, 6));
    assert_eq!(viewport_geometry(2, 200, true, 5), (126, 0, 37));
    assert_eq!(viewport_geometry(5, 200, true, 0), (315, 115, 0));
    assert_eq!(viewport_geometry(5, 200, false, 500), (315, 115, 0));
    assert_eq!(viewport_geometry(5, 200, false, -4), (315, 0, 0));
}

#[test]
fn panel_stack_rules() {
    let mut p = PresenceState::new();
    assert_eq!(p.page(), Page::Terminal);
    p.summon_panel(Panel::FileTree);
    p.tap_orb();
    assert_eq!((p.top(), p.covered()), (Some(Panel::Ai), Some(Panel::FileTree)));
    assert_eq!(p.page(), Page::AiFullscreen);
    p.summon_panel(Panel::FileTree);
    assert_eq!((p.top(), p.covered()), (Some(Panel::FileTree), Some(Panel::Ai)));
    assert_eq!(p.epoch(Panel::FileTree), 1);
    p.summon_panel(Panel::Config);
    assert_eq!((p.top(), p.covered()), (Some(Panel::Config), Some(Panel::FileTree)));
    assert_eq!(p.epoch(Panel::Ai), 1);
    p.summon_panel(Panel::Config);
    assert_eq!((p.top(), p.covered()), (Some(Panel::Config), Some(Panel::FileTree)));
    assert!(!p.dismiss_top(Panel::FileTree));
    p.swipe_left();
    assert_eq!(p.top(), Some(Panel::Config));
    p.swipe_right();
    assert_eq!((p.top(), p.covered()), (Some(Panel::FileTree), None));
    p.swipe_left();
    assert_eq!(p.top(), None);
    p.swipe_left();
    assert_eq!(p.top(), Some(Panel::Parser));
}

#[test]
fn overlay_lingers_then_hides() {
    let mut p = PresenceState::new();
    p.run_start(0);
    assert!(p.overlay_visible(10));
    p.run_end(100);
    assert!(p.overlay_visible(100 + LINGER_MS - 1));
    assert!(!p.overlay_visible(100 + LINGER_MS));
    p.run_start(200);
    p.dismiss_overlay();
    assert!(!p.overlay_visible(201));
    p.fake_run(50, 1000);
    assert!(p.overlay_visible(1049));
    p.settle(1050);
    assert!(p.overlay_visible(1050 + LINGER_MS - 1));
    assert!(!p.overlay_visible(1050 + LINGER_MS));
}

#[test]
fn connection_defaults_and_outbound_hold() {
    let c = ConnConfig::default();
    assert_eq!(c.url, "ws://127.0.0.1:8021/ws");
    assert_eq!(c.command, None);
    let mut q = OutboundQueue::new();
    assert_eq!(q.on_input(false, "a".into()), None);
    assert!(!q.on_resize(false, 80, 24));
    assert!(!q.on_resize(false, 100, 30));
    assert_eq!(q.on_input(false, "b".into()), None);
    assert_eq!(q.on_opened(), (Some((100, 30)), vec!["a".to_string(), "b".to_string()]));
    assert_eq!(q.on_input(true, "c".into()), Some("c".to_string()));
    assert_eq!(q.on_opened(), (None, vec![]));
}

#[test]
fn small_enums() {
    assert_ne!(InstallStatus::Installed, InstallStatus::AlreadyPresent);
    assert_eq!(ChromeSlot::Keybar.index(), 0);
    assert_eq!(ChromeSlot::Config.index(), 3);
}

#[test]
fn endpoint_registry_order() {
    let r = registry();
    assert_eq!(r.len(), 2);
    assert_eq!(r[0].kind, EndpointKind::Server);
    assert_eq!(r[1].kind, EndpointKind::Local);
    assert_eq!(r[1].display, def(EndpointKind::Local).display);
}
