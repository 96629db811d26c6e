//! The decisions of the capture flow and of the loopback server: what a capture
//! records and reports, which requests and origins the server accepts, and how a
//! pushed tab list is stored.

use vstd::prelude::*;
use crate::capture::{app_views, opt_chars, AppRow, AppView, ClipResult, ShotResult};
use crate::status::{opt_str, set_error, set_ok, with_error, with_ok, RuntimeStatus, StatusView};
use crate::store::{
    format_instant, plain_instant, rfc3339_instant, rfc3339_text, Snapshot, SnapshotView, TAB_TTL_SECS,
};
use crate::tabs::{
    law_resanitize_keeps_every_tab, law_sanitized_is_well_kept, sanitize_tabs, sanitized,
    tab_views, titles_retrimmed, Tab, TabView,
};
use crate::text::{begins_with, chars_of, same_text, string_of_range};

verus! {

/// What a capture hands the store to insert.
#[derive(Debug)]
pub struct NewSnapshot {
    pub note: Option<String>,
    pub focused: Option<String>,
    pub apps: Vec<AppRow>,
    pub clipboard: Option<String>,
    pub clipboard_error: Option<String>,
    pub screenshot_path: Option<String>,
    pub placeholder: bool,
    pub shot_error: Option<String>,
    pub monitors: u32,
    pub tabs: Vec<Tab>,
}

/// The status after a capture reports the errors of its screenshot and clipboard,
/// in that order.
pub open spec fn capture_errors_reported(s: StatusView, shot_error: Option<Seq<char>>, clip_error: Option<Seq<char>>) -> StatusView {
    let after_shot = match shot_error {
        Some(e) => with_error(s, e),
        None => s,
    };
    match clip_error {
        Some(e) => with_error(after_shot, e),
        None => after_shot,
    }
}

/// The tabs a capture attaches: the tabs sent with it, sanitized, or else the
/// pushed list `latest`.
pub open spec fn attached_tabs(tabs: Option<Seq<TabView>>, latest: Seq<TabView>) -> Seq<TabView> {
    match tabs {
        Some(t) => sanitized(t),
        None => latest,
    }
}

/// The view of optional tabs.
pub open spec fn opt_tabs(o: Option<Vec<Tab>>) -> Option<Seq<TabView>> {
    match o {
        Some(t) => Some(tab_views(t@)),
        None => None,
    }
}

/// The record a capture inserts, from what it gathered: the note, the applications
/// and focused name, the clipboard (`None` when it was not asked for), the
/// screenshot, and the tabs sent with the request or else the pushed list `latest`.
/// The screenshot's error and then the clipboard's are reported to `status`.
pub fn do_capture(
    status: &mut RuntimeStatus,
    note: Option<String>,
    apps: Vec<AppRow>,
    focused: Option<String>,
    clip: Option<ClipResult>,
    shot: ShotResult,
    tabs: Option<Vec<Tab>>,
    latest: Vec<Tab>,
) -> (r: NewSnapshot)
    ensures
        opt_str(r.note) == opt_str(note),
        opt_str(r.focused) == opt_str(focused),
        app_views(r.apps@) == app_views(apps@),
        match clip {
            Some(c) => opt_str(r.clipboard) == opt_str(c.text) && opt_str(r.clipboard_error)
                == opt_str(c.error),
            None => r.clipboard is None && r.clipboard_error is None,
        },
        opt_str(r.screenshot_path) == Some(shot.path@),
        r.placeholder == shot.placeholder,
        opt_str(r.shot_error) == opt_str(shot.error),
        r.monitors == shot.monitors,
        tab_views(r.tabs@) == attached_tabs(opt_tabs(tabs), tab_views(latest@)),
        final(status)@ == capture_errors_reported(
            old(status)@,
            opt_str(shot.error),
            match clip {
                Some(c) => opt_str(c.error),
                None => None,
            },
        ),
{
    let clip = match clip {
        Some(c) => c,
        None => ClipResult { text: None, error: None },
    };
    let attached = match &tabs {
        Some(t) => sanitize_tabs(t.as_slice()),
        None => latest,
    };
    if let Some(err) = &shot.error {
        set_error(status, err.clone());
    }
    if let Some(err) = &clip.error {
        set_error(status, err.clone());
    }
    NewSnapshot {
        note,
        focused,
        apps,
        clipboard: clip.text,
        clipboard_error: clip.error,
        screenshot_path: Some(shot.path),
        placeholder: shot.placeholder,
        shot_error: shot.error,
        monitors: shot.monitors,
        tabs: attached,
    }
}

/// The message a failed screenshot reports.
pub open spec fn shot_failure(shot_error: Option<Seq<char>>) -> Seq<char> {
    match shot_error {
        Some(e) => e,
        None => "screenshot failed"@,
    }
}

/// The status after snapshot `id` is inserted: a placeholder screenshot reports its
/// error, else a capture without a clipboard error reports the snapshot as saved.
pub open spec fn capture_finished(s: StatusView, id: i64, placeholder: bool, shot_error: Option<Seq<char>>, clip_error: Option<Seq<char>>) -> StatusView {
    if placeholder {
        with_error(s, shot_failure(shot_error))
    } else if clip_error is None {
        with_ok(s, id)
    } else {
        s
    }
}

/// Reports the outcome of a capture once snapshot `id` is inserted.
pub fn finish_capture(
    status: &mut RuntimeStatus,
    id: i64,
    placeholder: bool,
    shot_error: Option<String>,
    clip_error: &Option<String>,
)
    ensures
        final(status)@ == capture_finished(old(status)@, id, placeholder, opt_str(shot_error), opt_str(*clip_error)),
{
    if placeholder {
        let msg = match shot_error {
            Some(e) => e,
            None => "screenshot failed".to_owned(),
        };
        set_error(status, msg);
    } else if clip_error.is_none() {
        set_ok(status, id);
    }
}

/// The snapshot a capture returns once it is read back, or the error when the row
/// it inserted is gone.
pub fn fetched(found: Option<Snapshot>) -> (r: Result<Snapshot, String>)
    ensures
        match found {
            Some(s) => r is Ok && r->Ok_0@ == s@,
            None => r is Err && r->Err_0@ == "insert vanished"@,
        },
{
    match found {
        Some(s) => Ok(s),
        None => Err("insert vanished".to_owned()),
    }
}

/// The part of a `Host` header before its first `:`.
pub open spec fn host_name(host: Seq<char>) -> Seq<char> {
    if exists|k: int| 0 <= k < host.len() && host[k] == ':' {
        host.take(choose|k: int| 0 <= k < host.len() && host[k] == ':' && forall|j: int| 0 <= j < k ==> host[j] != ':')
    } else {
        host
    }
}

/// Whether a request with this `Host` header may reach the server: its name, before
/// any port, is `127.0.0.1` or `localhost`. A missing header counts as empty.
pub open spec fn host_accepted(host: Option<Seq<char>>) -> bool {
    let name = match host {
        Some(h) => host_name(h),
        None => Seq::empty(),
    };
    name == "127.0.0.1"@ || name == "localhost"@
}

/// Whether a request with this `Host` header may reach the server.
pub fn localhost_only(host: Option<String>) -> (r: bool)
    ensures
        r == host_accepted(opt_str(host)),
{
    let h = match host {
        Some(h) => h,
        None => String::new(),
    };
    let cs = chars_of(h.as_str());
    let mut k: usize = 0;
    while k < cs.len() && cs[k] != ':'
        invariant
            k <= cs@.len(),
            forall|j: int| 0 <= j < k ==> cs@[j] != ':',
        decreases cs@.len() - k,
    {
        k = k + 1;
    }
    let name = string_of_range(&cs, 0, k);
    proof {
        if k < cs.len() {
            let c = choose|c: int|
                0 <= c < cs@.len() && cs@[c] == ':' && forall|j: int| 0 <= j < c ==> cs@[j] != ':';
            assert(c == k);
            assert(name@ =~= cs@.take(k as int));
        } else {
            assert(name@ =~= cs@);
        }
    }
    same_text(name.as_str(), "127.0.0.1") || same_text(name.as_str(), "localhost")
}

/// Whether the CORS layer lets a request from `origin` through: a Chrome/Edge
/// extension, or the app's own pages on `127.0.0.1:8741` or `localhost:8741`.
pub open spec fn origin_accepted(origin: Seq<char>) -> bool {
    ||| begins_with(origin, "chrome-extension://"@)
    ||| origin == "http://127.0.0.1:8741"@
    ||| origin == "http://localhost:8741"@
}

/// Whether the CORS layer lets a request from `origin` through.
pub fn origin_allowed(origin: &str) -> (r: bool)
    ensures
        r == origin_accepted(origin@),
{
    crate::text::starts_with(origin, "chrome-extension://") || same_text(origin, "http://127.0.0.1:8741")
        || same_text(origin, "http://localhost:8741")
}

/// A capture request as the server receives it.
#[derive(Debug, Default)]
pub struct CaptureRequest {
    pub note: Option<String>,
    pub include_clipboard: Option<bool>,
    pub tabs: Option<Vec<Tab>>,
}

/// What a capture request asks for: its note, whether to read the clipboard
/// (unless said otherwise, yes) and its tabs; no body asks for a plain capture
/// with the clipboard.
pub fn capture_options(body: Option<CaptureRequest>) -> (r: (Option<String>, bool, Option<Vec<Tab>>))
    ensures
        match body {
            None => r.0 is None && r.1 && r.2 is None,
            Some(b) => opt_str(r.0) == opt_str(b.note) && r.1 == match b.include_clipboard {
                Some(v) => v,
                None => true,
            } && opt_tabs(r.2) == opt_tabs(b.tabs),
        },
{
    match body {
        None => (None, true, None),
        Some(b) => {
            let with_clipboard = match b.include_clipboard {
                Some(v) => v,
                None => true,
            };
            (b.note, with_clipboard, b.tabs)
        },
    }
}

/// A tab list pushed by the extension.
#[derive(Debug, Default)]
pub struct TabsUpload {
    pub source: Option<String>,
    pub browser: Option<String>,
    pub tabs: Option<Vec<Tab>>,
}

/// What the server stores of a pushed tab list: where it came from, when it was
/// received (RFC 3339), and its tabs.
#[derive(Debug)]
pub struct TabsPayload {
    pub source: String,
    pub browser: Option<String>,
    pub received_at: Option<String>,
    pub tabs: Vec<Tab>,
}

/// What the server answers a push: how many tabs it stored and for how many seconds
/// they stay fresh.
#[derive(Debug)]
pub struct TabsReply {
    pub stored: usize,
    pub ttl_seconds: u64,
}

/// The tab list of an upload, an empty one when it has none.
pub open spec fn uploaded_tabs(u: Option<Vec<Tab>>) -> Seq<TabView> {
    match u {
        Some(t) => tab_views(t@),
        None => Seq::empty(),
    }
}

/// What the server stores of a tab list pushed at instant `now_secs`, `now_nanos`:
/// its source (by default `desktrace-extension`), its browser, the RFC 3339 text of
/// that instant, and its tabs, sanitized. For a plain instant the text is there and
/// reads back as that instant, so `Store::load_latest_tabs` ages the list from the
/// push (`law_pushed_list_kept_for_ttl`).
pub fn put_tabs(body: TabsUpload, now_secs: i64, now_nanos: u32) -> (r: TabsPayload)
    ensures
        r.source@ == match body.source {
            Some(s) => s@,
            None => "desktrace-extension"@,
        },
        opt_str(r.browser) == opt_str(body.browser),
        opt_str(r.received_at) == rfc3339_text((now_secs, now_nanos)),
        plain_instant((now_secs, now_nanos)) ==> r.received_at is Some,
        r.received_at matches Some(t) ==> (plain_instant((now_secs, now_nanos)) ==> rfc3339_instant(
            t@,
        ) == Some((now_secs, now_nanos))),
        tab_views(r.tabs@) == sanitized(uploaded_tabs(body.tabs)),
{
    let raw = match body.tabs {
        Some(t) => t,
        None => Vec::new(),
    };
    assert(tab_views(raw@) == uploaded_tabs(body.tabs)) by {
        if body.tabs is None {
            assert(tab_views(raw@) =~= Seq::<TabView>::empty());
        }
    }
    let tabs = sanitize_tabs(raw.as_slice());
    let source = match body.source {
        Some(s) => s,
        None => "desktrace-extension".to_owned(),
    };
    let received_at = format_instant((now_secs, now_nanos));
    TabsPayload { source, browser: body.browser, received_at, tabs }
}

/// The answer to a push: the number of tabs stored and `TAB_TTL_SECS`.
pub fn put_reply(payload: &TabsPayload) -> (r: TabsReply)
    ensures
        r.stored == payload.tabs@.len(),
        r.ttl_seconds == TAB_TTL_SECS,
{
    TabsReply { stored: payload.tabs.len(), ttl_seconds: TAB_TTL_SECS }
}


/// A pushed tab list, read back while it is fresh, gives back every tab the push
/// stored, in order, with the same address, flags and window; only the titles are
/// trimmed once more.
pub proof fn law_pushed_tabs_read_back(pushed: Seq<TabView>)
    ensures
        sanitized(sanitized(pushed)) == titles_retrimmed(sanitized(pushed)),
{
    law_sanitized_is_well_kept(pushed);
    law_resanitize_keeps_every_tab(sanitized(pushed));
}

/// A capture whose screenshot fell back to a placeholder never reports success: the
/// status shows an error and keeps the id of the snapshot saved before.
pub proof fn law_placeholder_is_never_success(
    s: StatusView,
    id: i64,
    shot_error: Option<Seq<char>>,
    clip_error: Option<Seq<char>>,
)
    ensures
        capture_finished(s, id, true, shot_error, clip_error).last_error is Some,
        capture_finished(s, id, true, shot_error, clip_error).last_ok_id == s.last_ok_id,
{
}

/// A capture with a real screenshot and no clipboard error clears the error and
/// records its snapshot as the last one saved.
pub proof fn law_clean_capture_is_success(s: StatusView, id: i64, shot_error: Option<Seq<char>>)
    ensures
        capture_finished(s, id, false, shot_error, None).last_error is None,
        capture_finished(s, id, false, shot_error, None).last_ok_id == Some(id),
{
}

} // verus!
