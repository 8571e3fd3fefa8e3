use kfm_na::bootstrap::{bootstrap_plan, entry_mode, install_plan, is_link_manifest, link_plan, InstallStep, ZipEntry};
use std::io::Write;
use kfm_na::fs_fetch::read_answer_text;
use kfm_na::brain::ChatEvent;
use kfm_na::brain_ep::{replay_step, ReplayStep};
use kfm_na::crash::so_range;
use kfm_na::direct_brain::{chat_http_request, completions_path, ChatStream};
use kfm_na::input_bar::{bar_band, send_left, text_avail_px};
use kfm_na::fs_fetch::{
    configure, note_dirty, preview_text, request_list, request_read, request_root, take_dirty,
    FetchState, ListPlan, ReadPlan,
};
use kfm_na::json::parse_json;

fn comps(s: &str) -> Vec<String> {
    s.split('/').map(|c| c.to_string()).collect()
}

#[test]
fn maps_range_spans_library_lines() {
    let maps = "7000-8000 r-xp 0 00:00 0 /system/lib64/libc.so\n\
                1000-2000 r--p 0 00:00 0 /data/app/lib/libkfm_na.so\n\
                3000-5000 r-xp 0 00:00 0 /data/app/lib/libkfm_na.so\n\
                zz-5000 r-xp 0 00:00 0 /data/app/lib/libkfm_na.so\n";
    assert_eq!(so_range(maps), Some((0x1000, 0x5000)));
    assert_eq!(so_range("1000-2000 r--p libc.so\n"), None);
    assert_eq!(so_range("2000-2000 r--p libkfm_na.so"), None);
    assert_eq!(so_range("ABC-+DEF x libkfm_na.so"), Some((0xabc, 0xdef)));
    assert_eq!(so_range(""), None);
}

#[test]
fn bootstrap_entry_rules() {
    assert_eq!(entry_mode(&comps("bin/bash")), 0o700);
    assert_eq!(entry_mode(&comps("libexec/x")), 0o700);
    assert_eq!(entry_mode(&comps("libexecfoo/x")), 0o644);
    assert_eq!(entry_mode(&comps("lib/apt/apt-helper")), 0o700);
    assert_eq!(entry_mode(&comps("lib/apt/methods/http")), 0o700);
    assert_eq!(entry_mode(&comps("lib/apt/other")), 0o644);
    assert_eq!(entry_mode(&comps("etc/profile")), 0o644);
    assert!(is_link_manifest(&comps("SYMLINKS.txt")));
    assert!(!is_link_manifest(&comps("etc/SYMLINKS.txt")));
    let plan = link_plan("busybox\u{2190}./bin/ls\r\nbad line\n../lib\u{2190}x\u{2190}y");
    assert_eq!(plan.len(), 3);
    assert_eq!(plan[0], Ok(("busybox".to_string(), "./bin/ls".to_string())));
    assert_eq!(plan[1], Err("SYMLINKS.txt 行畸形: bad line".to_string()));
    assert_eq!(plan[2], Ok(("../lib".to_string(), "x\u{2190}y".to_string())));
}

#[test]
fn file_tree_fetch_plans() {
    let mut st = FetchState::new();
    assert_eq!(request_root(&st, false), ListPlan::Skip);
    assert_eq!(request_root(&st, true), ListPlan::Placeholder);
    configure(&mut st, 8022);
    assert_eq!(request_root(&st, false), ListPlan::Fetch { port: 8022, dir: String::new() });
    assert_eq!(
        request_list(&st, false, "src/中文".to_string()),
        ListPlan::Fetch { port: 8022, dir: "src/中文".to_string() }
    );
    assert_eq!(request_read(&st, true, "a".into()), ReadPlan::LocalNotice);
    assert_eq!(request_read(&st, false, "a".into()), ReadPlan::Fetch { port: 8022, path: "a".into() });
    assert!(!take_dirty(&mut st));
    note_dirty(&mut st);
    assert!(take_dirty(&mut st));
    assert!(!take_dirty(&mut st));
}

#[test]
fn file_preview_texts() {
    let v = parse_json(r#"{"binary":true,"size":1234}"#).unwrap();
    assert_eq!(preview_text(&v), "（二进制文件，不预览）\n大小 1234 字节");
    let v = parse_json(r#"{"binary":true}"#).unwrap();
    assert_eq!(preview_text(&v), "（二进制文件，不预览）\n大小 0 字节");
    let v = parse_json(r#"{"text":"hi","truncated":true}"#).unwrap();
    assert_eq!(preview_text(&v), "hi\n\n…（已截断，仅前 64KB）");
    let v = parse_json(r#"{"binary":false,"text":"hi"}"#).unwrap();
    assert_eq!(preview_text(&v), "hi");
    let v = parse_json(r#"{}"#).unwrap();
    assert_eq!(preview_text(&v), "（空文件）");
}

#[test]
fn chat_request_shape() {
    assert_eq!(completions_path("/coding/v1//"), "/coding/v1/chat/completions");
    assert_eq!(completions_path("/"), "/chat/completions");
    let msgs = vec![("user".to_string(), "hi".to_string())];
    let r = chat_http_request("api.kimi.com", "sk-1", "/coding/v1", "k2", &msgs);
    assert_eq!(r.method, "POST");
    assert_eq!(r.path, "/coding/v1/chat/completions");
    assert_eq!(r.headers[0], ("Host".to_string(), "api.kimi.com".to_string()));
    assert_eq!(r.headers[1], ("Authorization".to_string(), "Bearer sk-1".to_string()));
    assert_eq!(r.headers.len(), 5);
    assert_eq!(r.body, kfm_na::brain::build_chat_request("k2", &msgs).into_bytes());
}

#[test]
fn chat_stream_stops_at_done() {
    let mut s = ChatStream::new();
    let (evs, done) = s.on_bytes(b"data: {\"choices\":[{\"delta\":{\"content\":\"hi\"}}]}\n\ndata: [DO");
    assert!(!done);
    assert_eq!(evs.len(), 3);
    assert_eq!(evs[2], ChatEvent::TextDelta { index: 0, text: "hi".into() });
    let (evs, done) = s.on_bytes(b"NE]\n\ndata: {\"choices\":[{\"delta\":{\"content\":\"x\"}}]}\n\n");
    assert!(done);
    assert_eq!(evs, vec![ChatEvent::Done]);
}

#[test]
fn replay_cursor_rules() {
    let prog = vec![ChatEvent::MessageStart, ChatEvent::Done];
    match replay_step(&prog, 1, false) {
        ReplayStep::Send(e) => assert_eq!(e, ChatEvent::Done),
        _ => panic!("expected send"),
    }
    match replay_step(&prog, 0, true) {
        ReplayStep::Cancelled(e) => assert_eq!(e, ChatEvent::Error { content: "已取消".into() }),
        _ => panic!("expected cancel"),
    }
    assert!(matches!(replay_step(&prog, 2, true), ReplayStep::Finished));
}

#[test]
fn bar_integer_geometry() {
    assert_eq!(bar_band(2800, 900, 220), Some((1680, 1900)));
    assert_eq!(bar_band(2800, 2900, 220), None);
    assert_eq!(bar_band(200, 0, 220), None);
    assert_eq!(send_left(1260), Some(1060));
    assert_eq!(send_left(199), None);
    assert_eq!(text_avail_px(1260), Some(890));
    assert_eq!(text_avail_px(300), Some(0));
    assert_eq!(text_avail_px(299), None);
}

fn entry(name: &str, is_dir: bool, data: Result<&[u8], &str>) -> Result<ZipEntry, String> {
    Ok(ZipEntry {
        comps: Some(std::path::Path::new(name).components().map(|c| c.as_os_str().to_string_lossy().into_owned()).collect()),
        shown: format!("{:?}", name),
        is_dir,
        data: data.map(|d| d.to_vec()).map_err(|e| e.to_string()),
    })
}

fn names(v: &[&str]) -> Vec<String> {
    v.iter().map(|s| s.to_string()).collect()
}

#[test]
fn install_plan_orders_entries_then_links() {
    let es = vec![
        entry("bin/", true, Ok(b"")),
        entry("bin/sh", false, Ok(b"#!")),
        Ok(ZipEntry { comps: None, shown: String::new(), is_dir: false, data: Ok(vec![1]) }),
        entry("SYMLINKS.txt", false, Ok("sh\u{2190}bin/bash\n".as_bytes())),
        entry("etc/profile", false, Ok(b"x")),
    ];
    let plan = install_plan(&es);
    assert_eq!(
        plan,
        vec![
            InstallStep::Dir { comps: names(&["bin"]), shown: "\"bin/\"".to_string() },
            InstallStep::File { comps: names(&["bin", "sh"]), shown: "\"bin/sh\"".to_string(), data: Ok(b"#!".to_vec()), mode: 0o700 },
            InstallStep::File { comps: names(&["etc", "profile"]), shown: "\"etc/profile\"".to_string(), data: Ok(b"x".to_vec()), mode: 0o644 },
            InstallStep::Link { target: "sh".to_string(), link: "bin/bash".to_string() },
        ]
    );
}

#[test]
fn install_plan_failures() {
    let no_manifest = install_plan(&[entry("etc/x", false, Ok(b""))]);
    assert_eq!(no_manifest.last(), Some(&InstallStep::Fail { message: "zip 里没有 SYMLINKS.txt——不是合法 bootstrap".to_string() }));
    let bad_entry = install_plan(&[entry("a", true, Ok(b"")), Err("bad".to_string()), entry("SYMLINKS.txt", false, Ok(b""))]);
    assert_eq!(bad_entry.len(), 2);
    assert_eq!(bad_entry[1], InstallStep::Fail { message: "读 zip 条目 #1 失败: bad".to_string() });
    let bad_text = install_plan(&[entry("SYMLINKS.txt", false, Ok(&[0xff, 0xfe]))]);
    assert_eq!(bad_text, vec![InstallStep::Fail { message: "读 SYMLINKS.txt 失败: stream did not contain valid UTF-8".to_string() }]);
    let unreadable = install_plan(&[entry("SYMLINKS.txt", false, Err("crc")), entry("a", true, Ok(b""))]);
    assert_eq!(unreadable, vec![InstallStep::Fail { message: "读 SYMLINKS.txt 失败: crc".to_string() }]);
    let short_file = install_plan(&[entry("bin/x", false, Err("eof")), entry("a", true, Ok(b""))]);
    assert_eq!(
        short_file,
        vec![InstallStep::File { comps: names(&["bin", "x"]), shown: "\"bin/x\"".to_string(), data: Err("写文件 \"bin/x\" 失败: eof".to_string()), mode: 0o700 }]
    );
    let bad_line = install_plan(&[entry("SYMLINKS.txt", false, Ok("a\u{2190}b\nzzz\nc\u{2190}d".as_bytes()))]);
    assert_eq!(
        bad_line,
        vec![
            InstallStep::Link { target: "a".to_string(), link: "b".to_string() },
            InstallStep::Fail { message: "SYMLINKS.txt 行畸形: zzz".to_string() },
        ]
    );
    let later_manifest_wins = install_plan(&[entry("SYMLINKS.txt", false, Ok("a\u{2190}b".as_bytes())), entry("SYMLINKS.txt", false, Ok(b""))]);
    assert_eq!(later_manifest_wins, vec![]);
}

#[test]
fn bootstrap_plan_reads_the_archive() {
    let mut w = zip::ZipWriter::new(std::io::Cursor::new(Vec::new()));
    let opts = zip::write::SimpleFileOptions::default().compression_method(zip::CompressionMethod::Stored);
    w.add_directory("bin/", opts).unwrap();
    w.start_file("bin/sh", opts).unwrap();
    w.write_all(b"#!").unwrap();
    w.start_file("../evil", opts).unwrap();
    w.write_all(b"no").unwrap();
    w.start_file("SYMLINKS.txt", opts).unwrap();
    w.write_all("sh\u{2190}bin/bash\n".as_bytes()).unwrap();
    let bytes = w.finish().unwrap().into_inner();
    assert_eq!(
        bootstrap_plan(&bytes),
        vec![
            InstallStep::Dir { comps: names(&["bin"]), shown: "\"bin/\"".to_string() },
            InstallStep::File { comps: names(&["bin", "sh"]), shown: "\"bin/sh\"".to_string(), data: Ok(b"#!".to_vec()), mode: 0o700 },
            InstallStep::Link { target: "sh".to_string(), link: "bin/bash".to_string() },
        ]
    );
    let broken = bootstrap_plan(b"not a zip");
    assert_eq!(broken.len(), 1);
    match &broken[0] {
        InstallStep::Fail { message } => assert!(message.starts_with("bootstrap zip 打不开: ")),
        other => panic!("unexpected step {:?}", other),
    }
}

#[test]
fn read_answer_text_parses_or_reports() {
    assert_eq!(read_answer_text("{\"text\":\"hi\",\"truncated\":true}"), "hi\n\n…（已截断，仅前 64KB）");
    assert_eq!(read_answer_text("{\"binary\":true,\"size\":12}"), "（二进制文件，不预览）\n大小 12 字节");
    assert_eq!(read_answer_text("{}"), "（空文件）");
    assert!(read_answer_text("nope").starts_with("出参不是 JSON："));
}
