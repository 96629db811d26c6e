use desktrace::autostart::is_enabled;
use desktrace::capture::{is_noise, stitch_frames, MonitorFrame};
use desktrace::restore::{is_blocked_exe, open_url};
use desktrace::tabs::{sanitize_tabs, Tab, MAX_TABS};
use desktrace::tray::accel_label;

fn tab(url: &str) -> Tab {
    Tab {
        title: "t".into(),
        url: url.into(),
        ..Default::default()
    }
}

#[test]
fn non_windows_reports_disabled() {
    assert!(!is_enabled(false, true));
    assert!(!is_enabled(false, false));
}

#[test]
fn noise_filter() {
    assert!(is_noise("svchost.exe"));
    assert!(!is_noise("Code.exe"));
}

#[test]
fn stitch_two_monitors_side_by_side() {
    let left = MonitorFrame {
        x: 0,
        y: 0,
        width: 2,
        height: 2,
        rgba: vec![
            255, 0, 0, 255, 255, 0, 0, 255, 255, 0, 0, 255, 255, 0, 0, 255,
        ],
    };
    let right = MonitorFrame {
        x: 2,
        y: 0,
        width: 2,
        height: 2,
        rgba: vec![
            0, 255, 0, 255, 0, 255, 0, 255, 0, 255, 0, 255, 0, 255, 0, 255,
        ],
    };
    let canvas = stitch_frames(&[left, right]).unwrap();
    let (w, h) = (canvas.width(), canvas.height());
    let img = image::RgbImage::from_raw(w, h, canvas.into_rgb_bytes()).unwrap();
    assert_eq!(img.width(), 4);
    assert_eq!(img.height(), 2);
    assert_eq!(img.get_pixel(0, 0), &image::Rgb([255, 0, 0]));
    assert_eq!(img.get_pixel(3, 1), &image::Rgb([0, 255, 0]));
}

#[test]
fn blocks_system_paths() {
    assert!(is_blocked_exe(r"C:\\Windows\\System32\\notepad.exe"));
    assert!(is_blocked_exe("/Windows/System32/cmd.exe"));
    assert!(!is_blocked_exe(
        r"C:\\Users\\a\\AppData\\Local\\Programs\\cursor.exe"
    ));
}

#[test]
fn rejects_non_http_open() {
    let act = open_url("file:///tmp/x", None, Ok(()));
    assert!(!act.ok);
}

#[test]
fn drops_file_and_chrome_schemes() {
    let raw = [
        tab("https://example.com/a"),
        tab("http://localhost:3000"),
        tab("file:///tmp/secret"),
        tab("chrome://settings"),
        tab("https://example.com/a"),
    ];
    let out = sanitize_tabs(&raw);
    assert_eq!(out.len(), 2);
    assert_eq!(out[0].url, "https://example.com/a");
    assert_eq!(out[1].url, "http://localhost:3000");
}

#[test]
fn caps_at_max_tabs() {
    let raw: Vec<Tab> = (0..200)
        .map(|i| tab(&format!("https://ex.com/{i}")))
        .collect();
    assert_eq!(sanitize_tabs(&raw).len(), MAX_TABS);
}

#[test]
fn accel_pretty() {
    assert_eq!(accel_label("ctrl+alt+s"), "Ctrl+Alt+S");
}
