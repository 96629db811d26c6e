//! The runtime status that the tray and the timeline show: the hotkey in use, the
//! last error and the id of the last snapshot saved.

use vstd::prelude::*;

verus! {

/// What the app last reported about itself.
#[derive(Debug, Clone, Default)]
pub struct RuntimeStatus {
    pub hotkey: Option<String>,
    pub last_error: Option<String>,
    pub last_ok_id: Option<i64>,
}

/// The view of an optional string.
pub open spec fn opt_str(o: Option<String>) -> Option<Seq<char>> {
    match o {
        Some(s) => Some(s@),
        None => None,
    }
}

/// What a `RuntimeStatus` holds, as plain values.
pub struct StatusView {
    pub hotkey: Option<Seq<char>>,
    pub last_error: Option<Seq<char>>,
    pub last_ok_id: Option<i64>,
}

impl View for RuntimeStatus {
    type V = StatusView;

    open spec fn view(&self) -> StatusView {
        StatusView {
            hotkey: opt_str(self.hotkey),
            last_error: opt_str(self.last_error),
            last_ok_id: self.last_ok_id,
        }
    }
}

/// A copy of an optional string.
fn copy_opt(o: &Option<String>) -> (r: Option<String>)
    ensures
        opt_str(r) == opt_str(*o),
{
    match o {
        Some(s) => Some(s.clone()),
        None => None,
    }
}

/// The status before anything is reported: no hotkey, no error, no snapshot.
pub fn initial() -> (r: RuntimeStatus)
    ensures
        r@ == (StatusView { hotkey: None, last_error: None, last_ok_id: None }),
{
    RuntimeStatus { hotkey: None, last_error: None, last_ok_id: None }
}

/// A copy of the current status.
pub fn get(status: &RuntimeStatus) -> (r: RuntimeStatus)
    ensures
        r@ == status@,
{
    RuntimeStatus {
        hotkey: copy_opt(&status.hotkey),
        last_error: copy_opt(&status.last_error),
        last_ok_id: status.last_ok_id,
    }
}

/// The status once the hotkey is `combo`.
pub open spec fn with_hotkey(s: StatusView, combo: Option<Seq<char>>) -> StatusView {
    StatusView { hotkey: combo, ..s }
}

/// The status once `err` is reported.
pub open spec fn with_error(s: StatusView, err: Seq<char>) -> StatusView {
    StatusView { last_error: Some(err), ..s }
}

/// The status once snapshot `id` is saved.
pub open spec fn with_ok(s: StatusView, id: i64) -> StatusView {
    StatusView { last_ok_id: Some(id), last_error: None, ..s }
}

/// Records the hotkey in use, or that none is; the rest stays.
pub fn set_hotkey(status: &mut RuntimeStatus, combo: Option<String>)
    ensures
        final(status)@ == with_hotkey(old(status)@, opt_str(combo)),
{
    status.hotkey = combo;
}

/// Records `err` as the last error; the rest stays.
pub fn set_error(status: &mut RuntimeStatus, err: String)
    ensures
        final(status)@ == with_error(old(status)@, err@),
{
    status.last_error = Some(err);
}

/// Records that snapshot `id` was saved: it becomes the last one saved and the last
/// error is cleared; the hotkey stays.
pub fn set_ok(status: &mut RuntimeStatus, id: i64)
    ensures
        final(status)@ == with_ok(old(status)@, id),
{
    status.last_ok_id = Some(id);
    status.last_error = None;
}

/// A saved snapshot clears whatever error came before it, and an error reported
/// after it leaves its id in place: the status always shows the last snapshot saved
/// and only an error newer than it.
pub proof fn law_ok_clears_error_and_error_keeps_ok(s: StatusView, id: i64, err: Seq<char>)
    ensures
        with_ok(with_error(s, err), id) == with_ok(s, id),
        with_error(with_ok(s, id), err).last_ok_id == Some(id),
        with_error(with_ok(s, id), err).last_error == Some(err),
{
}

/// Reporting errors and saves never changes the hotkey, and setting the hotkey
/// changes nothing else.
pub proof fn law_hotkey_independent(s: StatusView, id: i64, err: Seq<char>, combo: Option<Seq<char>>)
    ensures
        with_ok(s, id).hotkey == s.hotkey,
        with_error(s, err).hotkey == s.hotkey,
        with_hotkey(s, combo).last_error == s.last_error,
        with_hotkey(s, combo).last_ok_id == s.last_ok_id,
{
}

} // verus!
