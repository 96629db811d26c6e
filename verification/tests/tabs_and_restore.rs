use desktrace::capture::AppRow;
use desktrace::restore::{
    execute, exe_targets, is_blocked_exe, launch_exe, open_url, plan, restore_targets, url_allowed,
    url_targets, MAX_EXE_TARGETS,
};
use desktrace::store::Snapshot;
use desktrace::tabs::{sanitize_tabs, Tab, MAX_TABS, MAX_TITLE, MAX_URL};

fn tab(title: &str, url: &str) -> Tab {
    Tab {
        title: title.into(),
        url: url.into(),
        ..Default::default()
    }
}

fn app(name: &str, exe: Option<&str>) -> AppRow {
    AppRow {
        name: name.into(),
        exe: exe.map(|e| e.to_string()),
        pid: 1,
    }
}

fn snapshot(apps: Vec<AppRow>, tabs: Vec<Tab>) -> Snapshot {
    Snapshot {
        id: 5,
        created_at: "2024-01-01T00:00:00Z".into(),
        note: None,
        focused: Some("Code.exe".into()),
        apps,
        clipboard: None,
        screenshot_path: None,
        placeholder: false,
        tabs,
    }
}

#[test]
fn sanitize_trims_address_and_title() {
    let out = sanitize_tabs(&[tab("  Docs \t", "  https://docs.rs/x \n")]);
    assert_eq!(out.len(), 1);
    assert_eq!(out[0].url, "https://docs.rs/x");
    assert_eq!(out[0].title, "Docs");
}

#[test]
fn sanitize_keeps_flags_and_window() {
    let mut t = tab("a", "https://a.example/");
    t.active = true;
    t.pinned = true;
    t.window_id = Some(-4);
    let out = sanitize_tabs(&[t]);
    assert!(out[0].active && out[0].pinned);
    assert_eq!(out[0].window_id, Some(-4));
}

#[test]
fn sanitize_reads_scheme_through_the_url_parser() {
    let out = sanitize_tabs(&[
        tab("a", "HTTPS://EXAMPLE.COM/A"),
        tab("b", "mailto:someone@example.com"),
        tab("c", "http://"),
        tab("d", "not a url"),
        tab("e", "ftp://files.example.com/"),
    ]);
    assert_eq!(out.len(), 1);
    assert_eq!(out[0].url, "HTTPS://EXAMPLE.COM/A");
}

#[test]
fn sanitize_dedups_after_trimming() {
    let out = sanitize_tabs(&[
        tab("first", "https://a.example/"),
        tab("second", " https://a.example/ "),
        tab("third", "https://b.example/"),
    ]);
    assert_eq!(out.len(), 2);
    assert_eq!(out[0].title, "first");
    assert_eq!(out[1].url, "https://b.example/");
}

#[test]
fn sanitize_cuts_long_titles_by_characters() {
    let long: String = "é".repeat(MAX_TITLE + 50);
    let out = sanitize_tabs(&[tab(&long, "https://a.example/")]);
    assert_eq!(out[0].title.chars().count(), MAX_TITLE);
}

#[test]
fn sanitize_drops_overlong_addresses() {
    let prefix = "https://a.example/";
    let fill = "x".repeat(MAX_URL - prefix.len());
    let exact = format!("{prefix}{fill}");
    let over = format!("{exact}y");
    let out = sanitize_tabs(&[tab("over", &over), tab("exact", &exact)]);
    assert_eq!(out.len(), 1);
    assert_eq!(out[0].title, "exact");
}

#[test]
fn sanitize_twice_only_retrims_titles() {
    let title = format!("{} x", "a".repeat(MAX_TITLE - 1));
    let once = sanitize_tabs(&[tab(&title, "https://a.example/"), tab("b", "https://b.example/")]);
    assert!(once[0].title.ends_with(' '));
    let twice = sanitize_tabs(&once);
    assert_eq!(twice.len(), once.len());
    assert_eq!(twice[0].url, once[0].url);
    assert_eq!(twice[0].title, once[0].title.trim());
    assert_eq!(twice[1].title, "b");
}

#[test]
fn sanitize_caps_distinct_tabs() {
    let raw: Vec<Tab> = (0..100)
        .map(|i| tab("t", &format!("https://ex.com/{}", i % 90)))
        .collect();
    let out = sanitize_tabs(&raw);
    assert_eq!(out.len(), MAX_TABS);
    assert_eq!(out[MAX_TABS - 1].url, "https://ex.com/79");
}

#[test]
fn blocked_paths_ignore_case_and_slashes() {
    assert!(is_blocked_exe("C:/WINDOWS/notepad.exe"));
    assert!(is_blocked_exe("d:\\tools\\System32\\x.exe"));
    assert!(!is_blocked_exe("/usr/bin/firefox"));
    assert!(!is_blocked_exe("C:\\windowsapps\\x.exe"));
}

#[test]
fn exe_targets_skip_missing_blocked_and_repeated() {
    let apps = vec![
        app("none", None),
        app("gone", Some("C:\\Apps\\gone.exe")),
        app("sys", Some("C:\\Windows\\System32\\cmd.exe")),
        app("code", Some("C:\\Apps\\Code.exe")),
        app("code again", Some("c:\\apps\\code.EXE")),
        app("term", Some("/usr/bin/term")),
    ];
    let exists = vec![true, false, true, true, true, true];
    let out = exe_targets(&apps, &exists);
    assert_eq!(out.len(), 2);
    assert_eq!(out[0].kind, "exe");
    assert_eq!(out[0].target, "C:\\Apps\\Code.exe");
    assert_eq!(out[0].name, "code");
    assert_eq!(out[1].target, "/usr/bin/term");
}

#[test]
fn exe_targets_cap() {
    let apps: Vec<AppRow> = (0..40)
        .map(|i| AppRow { name: format!("a{i}"), exe: Some(format!("/opt/a{i}")), pid: i })
        .collect();
    let exists = vec![true; 40];
    let out = exe_targets(&apps, &exists);
    assert_eq!(out.len(), MAX_EXE_TARGETS);
    assert_eq!(out[24].target, "/opt/a24");
}

#[test]
fn url_targets_follow_sanitized_tabs() {
    let out = url_targets(&vec![tab(" T ", "https://a.example/"), tab("x", "file:///etc")]);
    assert_eq!(out.len(), 1);
    assert_eq!(out[0].kind, "url");
    assert_eq!(out[0].target, "https://a.example/");
    assert_eq!(out[0].name, "T");
}

#[test]
fn plan_without_snapshot_fails() {
    let err = plan(None, vec![], 3).unwrap_err();
    assert_eq!(err, "snapshot not found");
}

#[test]
fn plan_lists_commands_and_tabs() {
    let s = snapshot(
        vec![app("code", Some("/opt/code"))],
        vec![tab("docs", "https://docs.rs/")],
    );
    let p = plan(Some(s), vec![true], 5).unwrap();
    assert_eq!(p.snapshot_id, 5);
    assert_eq!(p.focused.as_deref(), Some("Code.exe"));
    assert_eq!(p.commands.len(), 1);
    assert_eq!(p.tabs.len(), 1);
    assert_eq!(
        p.note,
        "Relaunch is best-effort. Unsaved documents inside apps are not recovered."
    );
}

#[test]
fn execute_reports_each_launch() {
    let s = snapshot(
        vec![app("code", Some("/opt/code")), app("ed", Some("/opt/ed"))],
        vec![tab("docs", "https://docs.rs/")],
    );
    let targets = restore_targets(&s, &vec![true, true]);
    assert_eq!(targets.len(), 3);
    let outcomes = vec![Ok(()), Err("no such file".to_string()), Err("no browser".to_string())];
    let report = execute(Some(s), vec![true, true], 5, outcomes).unwrap();
    assert_eq!(report.snapshot_id, 5);
    assert_eq!(report.launched.len(), 3);
    assert!(report.launched[0].ok);
    assert_eq!(report.launched[0].kind, "exe");
    assert!(!report.launched[1].ok);
    assert_eq!(report.launched[1].error.as_deref(), Some("no such file"));
    assert_eq!(report.launched[2].kind, "url");
    assert_eq!(report.launched[2].name.as_deref(), Some("docs"));
    assert_eq!(report.launched[2].error.as_deref(), Some("no browser"));
    assert_eq!(
        report.note,
        "Best-effort restore. Existing windows are not reused. Unsaved docs are not recovered."
    );
}

#[test]
fn execute_without_snapshot_fails() {
    assert_eq!(execute(None, vec![], 1, vec![]).unwrap_err(), "snapshot not found");
}

#[test]
fn launch_records_spawn_outcome() {
    let ok = launch_exe("/opt/x", Some("x".into()), Ok(()));
    assert!(ok.ok && ok.error.is_none() && ok.kind == "exe");
    let bad = launch_exe("/opt/x", None, Err("denied".into()));
    assert!(!bad.ok);
    assert_eq!(bad.error.as_deref(), Some("denied"));
}

#[test]
fn open_url_follows_browser_for_web_pages() {
    let ok = open_url("https://a.example/", None, Ok(()));
    assert!(ok.ok);
    let bad = open_url("http://a.example/", None, Err("no browser".into()));
    assert!(!bad.ok);
    assert_eq!(bad.error.as_deref(), Some("no browser"));
    let rejected = open_url("HTTPS://A.EXAMPLE/", None, Ok(()));
    assert_eq!(rejected.error.as_deref(), Some("rejected scheme"));
    assert!(url_allowed("http://x"));
    assert!(!url_allowed("javascript:alert(1)"));
}
