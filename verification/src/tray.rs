//! The tray icon's texts and decisions: menu labels and tooltips, what a menu entry
//! or a click does, the order in which global hotkeys are tried, and what a capture
//! started from the tray or a hotkey reports.

use vstd::prelude::*;
use crate::capture::{joined, text_views};
use crate::status::opt_str;
use crate::store::Snapshot;
use crate::text::{chars_of, decimal_text, same_text, signed_decimal, string_of_range, to_upper, uppercase};

verus! {

/// The tray icon's id.
pub const TRAY_ID: &'static str = "desktrace";

/// The tooltip before a hotkey is known.
pub const DEFAULT_TIP: &'static str = "DeskTrace — waiting for hotkey";

/// The pieces of `s` between the separator `sep`, as `str::split` gives them: always
/// at least one, and empty pieces where separators meet or stand at an end.
pub open spec fn split_on(s: Seq<char>, sep: char) -> Seq<Seq<char>>
    decreases s.len(),
{
    if s.len() == 0 {
        seq![Seq::empty()]
    } else {
        let p = split_on(s.drop_last(), sep);
        if s.last() == sep {
            p.push(Seq::empty())
        } else {
            p.update(p.len() - 1, p.last().push(s.last()))
        }
    }
}

proof fn lemma_split_nonempty(s: Seq<char>, sep: char)
    ensures
        split_on(s, sep).len() >= 1,
    decreases s.len(),
{
    if s.len() > 0 {
        lemma_split_nonempty(s.drop_last(), sep);
    }
}

/// How one key of a hotkey is shown in the menu: modifiers capitalised, other keys
/// in upper case.
pub open spec fn key_label(key: Seq<char>) -> Seq<char> {
    if key == "ctrl"@ {
        "Ctrl"@
    } else if key == "alt"@ {
        "Alt"@
    } else if key == "shift"@ {
        "Shift"@
    } else {
        uppercase(key)
    }
}

/// How a hotkey such as `ctrl+alt+s` is shown in the menu: each key labelled, joined
/// again with `+`.
pub open spec fn accel_text(combo: Seq<char>) -> Seq<char> {
    joined(split_on(combo, '+').map_values(|k: Seq<char>| key_label(k)), "+"@)
}

/// The label of one key.
fn label_key(key: &String) -> (r: String)
    ensures
        r@ == key_label(key@),
{
    if same_text(key.as_str(), "ctrl") {
        "Ctrl".to_owned()
    } else if same_text(key.as_str(), "alt") {
        "Alt".to_owned()
    } else if same_text(key.as_str(), "shift") {
        "Shift".to_owned()
    } else {
        to_upper(key.as_str())
    }
}

/// The pieces of `s` between `+` signs.
fn split_plus(s: &str) -> (r: Vec<String>)
    ensures
        text_views(r@) == split_on(s@, '+'),
{
    let cs = chars_of(s);
    let mut pieces: Vec<String> = Vec::new();
    let mut start: usize = 0;
    let mut i: usize = 0;
    assert(cs@.take(0) =~= Seq::<char>::empty());
    while i < cs.len()
        invariant
            start <= i <= cs@.len(),
            cs@ == s@,
            text_views(pieces@).push(cs@.subrange(start as int, i as int)) == split_on(
                cs@.take(i as int),
                '+',
            ),
        decreases cs@.len() - i,
    {
        let ghost prev = split_on(cs@.take(i as int), '+');
        assert(cs@.take(i + 1).drop_last() =~= cs@.take(i as int));
        assert(cs@.take(i + 1).last() == cs@[i as int]);
        if cs[i] == '+' {
            let piece = string_of_range(&cs, start, i);
            let ghost before = pieces@;
            pieces.push(piece);
            assert(text_views(pieces@) =~= text_views(before).push(piece@));
            assert(cs@.subrange(i + 1, i + 1) =~= Seq::<char>::empty());
            start = i + 1;
        } else {
            assert(cs@.subrange(start as int, i + 1) =~= cs@.subrange(start as int, i as int).push(
                cs@[i as int],
            ));
            assert(text_views(pieces@).push(cs@.subrange(start as int, i + 1)) =~= prev.update(
                prev.len() - 1,
                prev.last().push(cs@[i as int]),
            ));
        }
        i = i + 1;
    }
    let n = cs.len();
    let last = string_of_range(&cs, start, n);
    let ghost before = pieces@;
    pieces.push(last);
    assert(text_views(pieces@) =~= text_views(before).push(last@));
    assert(cs@.take(n as int) =~= cs@);
    pieces
}

/// How the hotkey `combo` is shown as a menu accelerator: `ctrl+alt+s` becomes
/// `Ctrl+Alt+S`.
pub fn accel_label(combo: &str) -> (r: String)
    ensures
        r@ == accel_text(combo@),
{
    let keys = split_plus(combo);
    let ghost kv = text_views(keys@);
    let mut labels: Vec<String> = Vec::new();
    let mut i: usize = 0;
    while i < keys.len()
        invariant
            i <= keys@.len(),
            kv == text_views(keys@),
            text_views(labels@) =~= kv.take(i as int).map_values(|k: Seq<char>| key_label(k)),
        decreases keys@.len() - i,
    {
        let l = label_key(&keys[i]);
        let ghost before = labels@;
        labels.push(l);
        assert(text_views(labels@) =~= text_views(before).push(l@));
        assert(kv.take(i + 1) =~= kv.take(i as int).push(kv[i as int]));
        i = i + 1;
    }
    assert(kv.take(keys@.len() as int) =~= kv);
    crate::capture::join_texts(&labels, "+")
}

/// The label of the autostart menu entry.
pub fn autostart_label(enabled: bool) -> (r: &'static str)
    ensures
        r@ == if enabled {
            "Don't start with Windows"@
        } else {
            "Start with Windows"@
        },
{
    if enabled {
        "Don't start with Windows"
    } else {
        "Start with Windows"
    }
}

/// The tooltip once snapshot `id` is saved, naming the hotkey in use.
pub fn saved_tooltip(id: i64, hotkey: Option<String>) -> (r: String)
    ensures
        r@ == "DeskTrace — saved #"@ + signed_decimal(id as int) + " · "@ + match opt_str(hotkey) {
            Some(h) => h,
            None => "no hotkey"@,
        },
{
    let mut tip = "DeskTrace — saved #".to_owned();
    tip.append(decimal_text(id).as_str());
    tip.append(" · ");
    match hotkey {
        Some(h) => tip.append(h.as_str()),
        None => tip.append("no hotkey"),
    }
    tip
}

/// The tooltip once the startup hotkey saved snapshot `id`.
pub fn hotkey_saved_tooltip(id: i64) -> (r: String)
    ensures
        r@ == "DeskTrace — saved #"@ + signed_decimal(id as int),
{
    let mut tip = "DeskTrace — saved #".to_owned();
    tip.append(decimal_text(id).as_str());
    tip
}

/// The tooltip after a capture failed with `err`.
pub fn error_tooltip(err: &str) -> (r: String)
    ensures
        r@ == "DeskTrace — capture failed: "@ + err@,
{
    let mut tip = "DeskTrace — capture failed: ".to_owned();
    tip.append(err);
    tip
}

/// The tooltip once the hotkey is known, or known to be missing.
pub fn hotkey_tooltip(combo: Option<&str>) -> (r: String)
    ensures
        r@ == match combo {
            Some(c) => "DeskTrace — "@ + c@ + " to capture"@,
            None => "DeskTrace — no hotkey available"@,
        },
{
    match combo {
        Some(c) => {
            let mut tip = "DeskTrace — ".to_owned();
            tip.append(c);
            tip.append(" to capture");
            tip
        },
        None => "DeskTrace — no hotkey available".to_owned(),
    }
}

/// What a tray menu entry does.
#[derive(Debug, Clone, Copy, PartialEq, Eq, Structural)]
pub enum MenuAction {
    Capture,
    ShowTimeline,
    HideWindow,
    ToggleAutostart,
    Quit,
    Nothing,
}

/// What the tray menu entry with id `id` does.
pub fn menu_action(id: &str) -> (r: MenuAction)
    ensures
        r == if id@ == "capture"@ {
            MenuAction::Capture
        } else if id@ == "show"@ {
            MenuAction::ShowTimeline
        } else if id@ == "hide"@ {
            MenuAction::HideWindow
        } else if id@ == "autostart"@ {
            MenuAction::ToggleAutostart
        } else if id@ == "quit"@ {
            MenuAction::Quit
        } else {
            MenuAction::Nothing
        },
{
    if same_text(id, "capture") {
        MenuAction::Capture
    } else if same_text(id, "show") {
        MenuAction::ShowTimeline
    } else if same_text(id, "hide") {
        MenuAction::HideWindow
    } else if same_text(id, "autostart") {
        MenuAction::ToggleAutostart
    } else if same_text(id, "quit") {
        MenuAction::Quit
    } else {
        MenuAction::Nothing
    }
}

/// What happens to the timeline window.
#[derive(Debug, Clone, Copy, PartialEq, Eq, Structural)]
pub enum WindowAction {
    Show,
    Hide,
    Nothing,
}

/// What a click on the tray icon does: a released left click hides the timeline
/// window when it is visible and shows it otherwise; nothing else happens without a
/// window or for other clicks.
pub fn tray_click(left_released: bool, window_visible: Option<bool>) -> (r: WindowAction)
    ensures
        r == if !left_released {
            WindowAction::Nothing
        } else {
            match window_visible {
                None => WindowAction::Nothing,
                Some(true) => WindowAction::Hide,
                Some(false) => WindowAction::Show,
            }
        },
{
    if !left_released {
        return WindowAction::Nothing;
    }
    match window_visible {
        None => WindowAction::Nothing,
        Some(true) => WindowAction::Hide,
        Some(false) => WindowAction::Show,
    }
}

/// What a capture started from the tray or a hotkey reports: the id of the saved
/// snapshot, or why it failed; a snapshot with a placeholder screenshot counts as a
/// failure, with the screenshot's error or `screenshot failed`.
pub fn capture_now(captured: Result<Snapshot, String>, shot_error: Option<String>) -> (r: Result<i64, String>)
    ensures
        match captured {
            Err(e) => r is Err && r->Err_0@ == e@,
            Ok(s) => if s.placeholder {
                r is Err && r->Err_0@ == match opt_str(shot_error) {
                    Some(e) => e,
                    None => "screenshot failed"@,
                }
            } else {
                r == Ok::<i64, String>(s.id)
            },
        },
{
    match captured {
        Err(e) => Err(e),
        Ok(snap) => {
            if snap.placeholder {
                return Err(
                    match shot_error {
                        Some(e) => e,
                        None => "screenshot failed".to_owned(),
                    },
                );
            }
            Ok(snap.id)
        },
    }
}

/// The global hotkeys, in the order they are tried.
pub open spec fn hotkey_combos() -> Seq<Seq<char>> {
    seq!["ctrl+shift+s"@, "ctrl+alt+s"@, "ctrl+shift+d"@]
}

/// The search for a global hotkey that registers: the combos are tried in order
/// until one registers; each failure is remembered as `<combo>: <error>`.
pub struct HotkeySearch {
    next: usize,
    last_err: String,
}

impl HotkeySearch {
    /// How many combos have been tried.
    pub closed spec fn tried(&self) -> nat {
        self.next as nat
    }

    /// The last failure, `no combo worked` before any.
    pub closed spec fn last_failure(&self) -> Seq<char> {
        self.last_err@
    }

    /// A search that has tried nothing yet.
    pub fn start() -> (r: HotkeySearch)
        ensures
            r.tried() == 0,
            r.last_failure() == "no combo worked"@,
    {
        HotkeySearch { next: 0, last_err: "no combo worked".to_owned() }
    }

    /// The combo to try next, or `None` once all have failed.
    pub fn candidate(&self) -> (r: Option<String>)
        ensures
            self.tried() < 3 ==> r is Some && r->0@ == hotkey_combos()[self.tried() as int],
            self.tried() >= 3 ==> r is None,
    {
        if self.next == 0 {
            Some("ctrl+shift+s".to_owned())
        } else if self.next == 1 {
            Some("ctrl+alt+s".to_owned())
        } else if self.next == 2 {
            Some("ctrl+shift+d".to_owned())
        } else {
            None
        }
    }

    /// Records that `combo` failed to register with `err`, and moves on to the next
    /// combo while there is one.
    pub fn record_failure(&mut self, combo: &str, err: &str)
        ensures
            final(self).tried() == if old(self).tried() < 3 {
                old(self).tried() + 1
            } else {
                old(self).tried()
            },
            final(self).last_failure() == combo@ + ": "@ + err@,
    {
        let mut msg = combo.to_owned();
        msg.append(": ");
        msg.append(err);
        self.last_err = msg;
        if self.next < 3 {
            self.next = self.next + 1;
        }
    }

    /// The last failure.
    pub fn last_error(&self) -> (r: String)
        ensures
            r@ == self.last_failure(),
    {
        self.last_err.clone()
    }

    /// The error reported once every combo failed.
    pub fn give_up_message(&self) -> (r: String)
        ensures
            r@ == "hotkey unavailable ("@ + self.last_failure() + ")"@,
    {
        let mut msg = "hotkey unavailable (".to_owned();
        msg.append(self.last_err.as_str());
        msg.append(")");
        msg
    }
}

} // verus!
