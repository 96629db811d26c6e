use desktrace::autostart::{
    disable_registry_args, enable_registry_args, startup_script, toggle, StartupChange,
};
use desktrace::capture::{
    capture_all_monitors, captures_fit, frames_in_range, is_noise, list_apps, read_clipboard, screenshot_saved, stitch_frames,
    take_screenshot, write_placeholder, ClipboardRead, MonitorFrame, ProcessEntry, ScreenCapture,
    BACKGROUND, MAX_APPS, MAX_CLIP_CHARS,
};
use desktrace::server::{
    capture_options, do_capture, fetched, finish_capture, localhost_only, origin_allowed, put_reply, put_tabs,
    CaptureRequest, TabsUpload,
};
use desktrace::status::{get, initial, set_error, set_hotkey, set_ok};
use desktrace::capture::{ClipResult, ShotResult};
use desktrace::store::{shots_bytes, tabs_fresh, Snapshot, Store};
use desktrace::tabs::Tab;
use desktrace::tray::{
    accel_label, autostart_label, capture_now, error_tooltip, hotkey_tooltip, menu_action,
    hotkey_saved_tooltip, saved_tooltip, tray_click, HotkeySearch, MenuAction, WindowAction,
};

fn frame(x: i32, y: i32, w: u32, h: u32, rgba: [u8; 4]) -> MonitorFrame {
    MonitorFrame { x, y, width: w, height: h, rgba: rgba.repeat((w * h) as usize) }
}

fn proc_entry(pid: u32, name: &str) -> ProcessEntry {
    ProcessEntry { pid, name: name.into(), exe: Some(format!("/bin/{name}")) }
}

fn snap(id: i64, note: Option<&str>, focused: Option<&str>, apps: &[&str]) -> Snapshot {
    Snapshot {
        id,
        created_at: String::new(),
        note: note.map(|s| s.to_string()),
        focused: focused.map(|s| s.to_string()),
        apps: apps
            .iter()
            .map(|a| desktrace::capture::AppRow { name: a.to_string(), exe: None, pid: 0 })
            .collect(),
        clipboard: None,
        screenshot_path: None,
        placeholder: false,
        tabs: vec![],
    }
}

#[test]
fn noise_is_case_insensitive() {
    assert!(is_noise("SVCHOST.EXE"));
    assert!(is_noise("System"));
    assert!(!is_noise(""));
}

#[test]
fn stitch_errors() {
    assert_eq!(stitch_frames(&[]).unwrap_err(), "no frames to stitch");
    let flat = frame(0, 0, 0, 2, [0, 0, 0, 0]);
    assert_eq!(stitch_frames(&[flat]).unwrap_err(), "invalid virtual desktop 0x2");
    let huge = MonitorFrame { x: 0, y: 0, width: 20000, height: 1, rgba: vec![] };
    assert_eq!(stitch_frames(&[huge]).unwrap_err(), "invalid virtual desktop 20000x1");
    let short = MonitorFrame { x: 0, y: 0, width: 2, height: 2, rgba: vec![0; 15] };
    assert_eq!(stitch_frames(&[short]).unwrap_err(), "rgba buffer rejected");
}

#[test]
fn stitch_gaps_overlaps_and_negative_positions() {
    let a = frame(-2, -1, 2, 1, [1, 2, 3, 255]);
    let b = frame(1, 0, 1, 1, [4, 5, 6, 255]);
    let c = frame(-1, -1, 1, 2, [7, 8, 9, 0]);
    let canvas = stitch_frames(&[a, b, c]).unwrap();
    assert_eq!((canvas.width(), canvas.height()), (4, 2));
    assert_eq!(canvas.get_pixel(0, 0), (1, 2, 3));
    assert_eq!(canvas.get_pixel(1, 0), (7, 8, 9));
    assert_eq!(canvas.get_pixel(1, 1), (7, 8, 9));
    assert_eq!(canvas.get_pixel(3, 1), (4, 5, 6));
    assert_eq!(canvas.get_pixel(0, 1), BACKGROUND);
    assert_eq!(canvas.get_pixel(2, 0), BACKGROUND);
}

#[test]
fn list_apps_filters_and_finds_focus() {
    let procs = vec![
        proc_entry(1, "svchost.exe"),
        proc_entry(2, ""),
        proc_entry(3, "Code.exe"),
        proc_entry(4, "term"),
    ];
    let (apps, focused) = list_apps(procs.clone(), Some(4));
    assert_eq!(apps.len(), 2);
    assert_eq!(apps[0].name, "Code.exe");
    assert_eq!(apps[0].exe.as_deref(), Some("/bin/Code.exe"));
    assert_eq!(focused.as_deref(), Some("term"));
    let (_, focused) = list_apps(procs.clone(), Some(1));
    assert_eq!(focused.as_deref(), Some("pid:1"));
    let (_, focused) = list_apps(procs, None);
    assert_eq!(focused, None);
}

#[test]
fn list_apps_caps() {
    let procs: Vec<ProcessEntry> = (0..100).map(|i| proc_entry(i, &format!("p{i}"))).collect();
    let (apps, focused) = list_apps(procs, Some(90));
    assert_eq!(apps.len(), MAX_APPS);
    assert_eq!(focused.as_deref(), Some("pid:90"));
}

#[test]
fn clipboard_outcomes() {
    let blank = read_clipboard(ClipboardRead::Text(" \n\t ".into()));
    assert!(blank.text.is_none() && blank.error.is_none());
    let long = read_clipboard(ClipboardRead::Text("ü".repeat(MAX_CLIP_CHARS + 7)));
    assert_eq!(long.text.unwrap().chars().count(), MAX_CLIP_CHARS);
    let kept = read_clipboard(ClipboardRead::Text(" hi ".into()));
    assert_eq!(kept.text.as_deref(), Some(" hi "));
    let failed = read_clipboard(ClipboardRead::Failed("busy".into()));
    assert_eq!(failed.error.as_deref(), Some("clipboard read failed: busy"));
    let gone = read_clipboard(ClipboardRead::Unavailable("no display".into()));
    assert_eq!(gone.error.as_deref(), Some("clipboard unavailable: no display"));
}

#[test]
fn monitor_captures() {
    assert_eq!(capture_all_monitors(Ok(vec![])).unwrap_err(), "screen enum returned zero displays");
    let bad = ScreenCapture::Image { x: 0, y: 0, width: 2, height: 2, rgba: vec![0; 3] };
    let failed = ScreenCapture::Failed("denied".into());
    let err = capture_all_monitors(Ok(vec![bad, failed])).unwrap_err();
    assert_eq!(err, "monitor 2x2 buffer size mismatch; monitor capture failed: denied");
    let empty = ScreenCapture::Image { x: 0, y: 0, width: 0, height: 0, rgba: vec![] };
    let frames = capture_all_monitors(Ok(vec![empty])).unwrap();
    assert_eq!(frames.len(), 1);
    let good = ScreenCapture::Image { x: 5, y: 6, width: 1, height: 1, rgba: vec![1, 2, 3, 4] };
    let frames = capture_all_monitors(Ok(vec![ScreenCapture::Failed("x".into()), good])).unwrap();
    assert_eq!(frames.len(), 1);
    assert_eq!((frames[0].x, frames[0].y), (5, 6));
    let listed = capture_all_monitors(Err("no display server".into())).unwrap_err();
    assert_eq!(listed, "screen enum failed: no display server");
}

#[test]
fn oversized_captures_are_flagged() {
    let ok = ScreenCapture::Image { x: 0, y: 0, width: 3, height: 2, rgba: vec![] };
    assert!(captures_fit(&vec![ok, ScreenCapture::Failed("x".into())]));
    let huge = ScreenCapture::Image { x: 0, y: 0, width: u32::MAX, height: u32::MAX, rgba: vec![] };
    assert_eq!(captures_fit(&vec![huge]), usize::BITS > 64);
}

#[test]
fn screenshot_outcomes() {
    assert_eq!(take_screenshot(Err("screen enum failed: x".into())).unwrap_err(), "screen enum failed: x");
    assert_eq!(take_screenshot(Ok(vec![])).unwrap_err(), "no monitors reported");
    let (canvas, monitors) = take_screenshot(Ok(vec![frame(0, 0, 1, 1, [9, 9, 9, 9])])).unwrap();
    assert_eq!(monitors, 1);
    assert_eq!(canvas.get_pixel(0, 0), (9, 9, 9));
    let saved = screenshot_saved("/s/a.jpg".into(), 2, Ok(()));
    assert!(!saved.placeholder && saved.monitors == 2 && saved.error.is_none());
    let failed = screenshot_saved("/s/a.jpg".into(), 2, Err("disk full".into()));
    assert!(failed.placeholder && failed.monitors == 0);
    assert_eq!(failed.error.as_deref(), Some("jpeg save failed: disk full"));
    let ph = write_placeholder("/s/b.jpg".into(), None);
    assert!(ph.placeholder && ph.error.is_none() && ph.path == "/s/b.jpg");
}

#[test]
fn status_transitions() {
    let mut s = initial();
    set_hotkey(&mut s, Some("ctrl+shift+s".into()));
    set_error(&mut s, "boom".into());
    set_ok(&mut s, 7);
    assert_eq!(s.last_error, None);
    assert_eq!(s.last_ok_id, Some(7));
    set_error(&mut s, "later".into());
    let copy = get(&s);
    assert_eq!(copy.last_ok_id, Some(7));
    assert_eq!(copy.last_error.as_deref(), Some("later"));
    assert_eq!(copy.hotkey.as_deref(), Some("ctrl+shift+s"));
}

#[test]
fn search_is_case_insensitive_and_ordered() {
    let rows = vec![
        snap(3, Some("Standup NOTES"), None, &[]),
        snap(2, None, Some("Terminal"), &["Code.exe"]),
        snap(1, None, None, &["firefox"]),
    ];
    assert_eq!(Store::list(rows, None).len(), 3);
    let rows = vec![snap(1, None, None, &[]), snap(2, None, None, &[])];
    assert_eq!(Store::list(rows, Some(String::new())).len(), 2);
    let rows = vec![
        snap(3, Some("Standup NOTES"), None, &[]),
        snap(2, None, Some("Terminal"), &["Code.exe"]),
        snap(1, None, None, &["firefox"]),
        snap(0, Some("code cleanup"), None, &[]),
    ];
    let found = Store::list(rows, Some("CODE".into()));
    let ids: Vec<i64> = found.iter().map(|s| s.id).collect();
    assert_eq!(ids, vec![2, 0]);
    let again = Store::list(found, Some("CODE".into()));
    assert_eq!(again.len(), 2);
    let notes = Store::list(vec![snap(3, Some("Standup NOTES"), None, &[])], Some("notes".into()));
    assert_eq!(notes.len(), 1);
}

#[test]
fn latest_tabs_expire() {
    let tabs = || vec![Tab { title: "t".into(), url: "https://a.example/".into(), ..Default::default() }];
    let at = "2024-01-01T00:00:00Z".to_string();
    let epoch = 1_704_067_200i64;
    assert_eq!(Store::load_latest_tabs(Some(at.clone()), epoch + 60, 0, tabs()).len(), 1);
    assert_eq!(Store::load_latest_tabs(Some(at.clone()), epoch + 120, 999_999_999, tabs()).len(), 1);
    assert_eq!(Store::load_latest_tabs(Some(at.clone()), epoch + 121, 0, tabs()).len(), 0);
    assert_eq!(Store::load_latest_tabs(Some("yesterday".into()), epoch, 0, tabs()).len(), 0);
    assert_eq!(Store::load_latest_tabs(None, epoch, 0, tabs()).len(), 0);
    assert_eq!(Store::load_latest_tabs(Some(at.clone()), i64::MAX, 0, tabs()).len(), 0);
    assert!(tabs_fresh(Some(120)) && !tabs_fresh(Some(121)) && !tabs_fresh(None));
}

#[test]
fn latest_tabs_age_counts_whole_seconds() {
    let tabs = || vec![Tab { title: "t".into(), url: "https://a.example/".into(), ..Default::default() }];
    let at = "2024-01-01T01:00:00.5+01:00".to_string();
    let epoch = 1_704_067_200i64;
    assert_eq!(Store::load_latest_tabs(Some(at.clone()), epoch + 121, 0, tabs()).len(), 1);
    assert_eq!(Store::load_latest_tabs(Some(at.clone()), epoch + 121, 600_000_000, tabs()).len(), 0);
    assert_eq!(Store::load_latest_tabs(Some(at.clone()), epoch - 500, 0, tabs()).len(), 1);
}

#[test]
fn capture_records_and_reports() {
    let mut s = initial();
    let shot = ShotResult { path: "/s/1.jpg".into(), placeholder: true, error: Some("shot".into()), monitors: 0 };
    let clip = ClipResult { text: None, error: Some("clip".into()) };
    let latest = vec![Tab { title: "l".into(), url: "https://l.example/".into(), ..Default::default() }];
    let rec = do_capture(&mut s, Some("n".into()), vec![], None, Some(clip), shot, None, latest);
    assert_eq!(s.last_error.as_deref(), Some("clip"));
    assert_eq!(rec.tabs.len(), 1);
    assert_eq!(rec.screenshot_path.as_deref(), Some("/s/1.jpg"));
    assert!(rec.placeholder);
    assert_eq!(rec.clipboard_error.as_deref(), Some("clip"));
    finish_capture(&mut s, 9, true, None, &rec.clipboard_error);
    assert_eq!(s.last_error.as_deref(), Some("screenshot failed"));
    assert_eq!(s.last_ok_id, None);

    let mut s = initial();
    let shot = ShotResult { path: "/s/2.jpg".into(), placeholder: false, error: None, monitors: 1 };
    let sent = vec![Tab { title: "x".into(), url: "file:///x".into(), ..Default::default() }];
    let rec = do_capture(&mut s, None, vec![], None, None, shot, Some(sent), vec![]);
    assert!(rec.tabs.is_empty() && rec.clipboard.is_none() && rec.monitors == 1);
    finish_capture(&mut s, 10, false, None, &rec.clipboard_error);
    assert_eq!(s.last_ok_id, Some(10));
    assert_eq!(fetched(None).unwrap_err(), "insert vanished");
}

#[test]
fn loopback_rules() {
    assert!(localhost_only(Some("127.0.0.1:8741".into())));
    assert!(localhost_only(Some("localhost".into())));
    assert!(!localhost_only(Some("localhost.evil.com:80".into())));
    assert!(!localhost_only(Some("example.com".into())));
    assert!(!localhost_only(None));
    assert!(origin_allowed("chrome-extension://abcdef"));
    assert!(origin_allowed("http://localhost:8741"));
    assert!(!origin_allowed("http://localhost:8742"));
    assert!(!origin_allowed("https://evil.example"));
}

#[test]
fn request_defaults() {
    let (note, clip, tabs) = capture_options(None);
    assert!(note.is_none() && clip && tabs.is_none());
    let body = CaptureRequest { note: Some("n".into()), include_clipboard: Some(false), tabs: None };
    let (note, clip, _) = capture_options(Some(body));
    assert_eq!(note.as_deref(), Some("n"));
    assert!(!clip);
    let payload = put_tabs(TabsUpload { source: None, browser: Some("edge".into()), tabs: None }, 1_704_067_200, 0);
    assert_eq!(payload.source, "desktrace-extension");
    assert_eq!(payload.received_at.as_deref(), Some("2024-01-01T00:00:00+00:00"));
    let reply = put_reply(&payload);
    assert_eq!((reply.stored, reply.ttl_seconds), (0, 120));
    assert_eq!(payload.browser.as_deref(), Some("edge"));
    assert!(payload.tabs.is_empty());
}

#[test]
fn tray_texts_and_choices() {
    assert_eq!(accel_label("ctrl+shift+d"), "Ctrl+Shift+D");
    assert_eq!(accel_label("alt++"), "Alt++");
    assert_eq!(saved_tooltip(7, None), "DeskTrace — saved #7 · no hotkey");
    assert_eq!(hotkey_saved_tooltip(42), "DeskTrace — saved #42");
    assert_eq!(hotkey_saved_tooltip(i64::MIN), "DeskTrace — saved #-9223372036854775808");
    assert_eq!(hotkey_saved_tooltip(-7), "DeskTrace — saved #-7");
    assert_eq!(saved_tooltip(-3, Some("ctrl+alt+s".into())), "DeskTrace — saved #-3 · ctrl+alt+s");
    assert_eq!(error_tooltip("x"), "DeskTrace — capture failed: x");
    assert_eq!(hotkey_tooltip(Some("ctrl+shift+s")), "DeskTrace — ctrl+shift+s to capture");
    assert_eq!(hotkey_tooltip(None), "DeskTrace — no hotkey available");
    assert_eq!(autostart_label(true), "Don't start with Windows");
    assert_eq!(menu_action("quit"), MenuAction::Quit);
    assert_eq!(menu_action("other"), MenuAction::Nothing);
    assert_eq!(tray_click(true, Some(true)), WindowAction::Hide);
    assert_eq!(tray_click(true, Some(false)), WindowAction::Show);
    assert_eq!(tray_click(false, Some(false)), WindowAction::Nothing);
}

#[test]
fn capture_now_outcomes() {
    let mut s = snap(4, None, None, &[]);
    assert_eq!(capture_now(Ok(snap(4, None, None, &[])), None), Ok(4));
    s.placeholder = true;
    assert_eq!(capture_now(Ok(s), Some("no display".into())), Err("no display".into()));
    assert_eq!(capture_now(Err("db locked".into()), None), Err("db locked".into()));
}

#[test]
fn hotkey_search_tries_in_order() {
    let mut search = HotkeySearch::start();
    assert_eq!(search.last_error(), "no combo worked");
    let mut tried = vec![];
    while let Some(c) = search.candidate() {
        tried.push(c.clone());
        search.record_failure(&c, "taken");
    }
    assert_eq!(tried, vec!["ctrl+shift+s", "ctrl+alt+s", "ctrl+shift+d"]);
    assert_eq!(search.last_error(), "ctrl+shift+d: taken");
    assert_eq!(search.give_up_message(), "hotkey unavailable (ctrl+shift+d: taken)");
}

#[test]
fn autostart_rules() {
    assert_eq!(toggle(true), (StartupChange::Disable, false));
    assert_eq!(toggle(false), (StartupChange::Enable, true));
    assert_eq!(startup_script("C:\\a b\\x.exe"), "start \"\" \"C:\\a b\\x.exe\"\r\n");
    let on = enable_registry_args("x.exe");
    assert_eq!(on.len(), 9);
    assert_eq!(on[7], "x.exe");
    assert_eq!(disable_registry_args()[0], "delete");
}

#[test]
fn frame_ranges_are_checked() {
    let frame = |x: i32, y: i32, width: u32, height: u32| MonitorFrame {
        x,
        y,
        width,
        height,
        rgba: vec![0; (width * height * 4) as usize],
    };
    assert!(frames_in_range(&[]));
    assert!(frames_in_range(&[frame(0, 0, 2, 2), frame(2, 0, 2, 2)]));
    assert!(frames_in_range(&[frame(-1920, 0, 1, 1), frame(1920, 1080, 1, 1)]));
    let far_left = MonitorFrame { x: i32::MIN, y: 0, width: 1, height: 1, rgba: vec![0; 4] };
    let far_right = MonitorFrame { x: i32::MAX, y: 0, width: 1, height: 1, rgba: vec![0; 4] };
    assert!(!frames_in_range(&[far_left, far_right]));
}

#[test]
fn pushed_tabs_read_back() {
    let long_title = format!("{} tail", "a".repeat(299));
    let upload = TabsUpload {
        source: None,
        browser: Some("edge".into()),
        tabs: Some(vec![
            Tab { title: long_title, url: " https://a.example/x ".into(), pinned: true, ..Default::default() },
            Tab { title: "b".into(), url: "chrome://settings".into(), ..Default::default() },
            Tab { title: " c ".into(), url: "http://c.example/".into(), window_id: Some(3), ..Default::default() },
        ]),
    };
    let pushed_at = 1_704_067_200i64;
    let payload = put_tabs(upload, pushed_at, 250_000_000);
    assert_eq!(payload.received_at.as_deref(), Some("2024-01-01T00:00:00.250+00:00"));
    assert_eq!(put_reply(&payload).stored, 2);
    let stored = payload.tabs;
    assert_eq!(stored.len(), 2);
    assert_eq!(stored[0].title.chars().count(), 300);
    let at = payload.received_at.clone();
    assert_eq!(Store::load_latest_tabs(at.clone(), pushed_at + 121, 0, stored.clone()).len(), 2);
    assert_eq!(Store::load_latest_tabs(at.clone(), pushed_at + 121, 250_000_000, stored.clone()).len(), 0);
    let read = Store::load_latest_tabs(at, pushed_at + 60, 0, stored.clone());
    assert_eq!(read.len(), 2);
    assert_eq!(read[0].title, "a".repeat(299));
    assert_eq!((read[0].url.as_str(), read[0].pinned), ("https://a.example/x", true));
    assert_eq!(read[1], stored[1]);
}

#[test]
fn search_ignores_ascii_case() {
    let rows = || vec![
        snap(2, Some("Sprint Notes"), None, &[]),
        snap(1, None, Some("Terminal"), &["firefox"]),
    ];
    let lower: Vec<i64> = Store::list(rows(), Some("notes".into())).iter().map(|s| s.id).collect();
    let upper: Vec<i64> = Store::list(rows(), Some("NOTES".into())).iter().map(|s| s.id).collect();
    assert_eq!(lower, vec![2]);
    assert_eq!(lower, upper);
}

#[test]
fn screenshot_bytes_add_up() {
    assert_eq!(shots_bytes(&vec![]), Some(0));
    assert_eq!(shots_bytes(&vec![10, 32, 0]), Some(42));
    assert_eq!(shots_bytes(&vec![u64::MAX, 1]), None);
}
