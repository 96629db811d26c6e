//! Restoring a snapshot: which executables to start again and which pages to open,
//! and the report of what each launch did.

use vstd::prelude::*;
use crate::capture::{app_views, AppRow, AppView};
use crate::status::opt_str;
use crate::store::{Snapshot, SnapshotView};
use crate::tabs::{law_sanitized_is_well_kept, sanitize_tabs, sanitized, tab_views, url_acceptable, Tab, TabView, MAX_TABS};
use crate::text::{
    begins_with, chars_of, contains_text, lowercase, occurs_in, same_text, starts_with,
    string_of_range, to_lower,
};

verus! {

/// The most executables a restore starts.
pub const MAX_EXE_TARGETS: usize = 25;

/// One thing a restore tries to bring back.
#[derive(Debug, Clone)]
pub struct RestoreTarget {
    /// `exe` or `url`.
    pub kind: String,
    /// The executable path or the page address.
    pub target: String,
    /// The application name or the page title.
    pub name: String,
}

/// What a `RestoreTarget` holds, as plain values.
pub struct TargetView {
    pub kind: Seq<char>,
    pub target: Seq<char>,
    pub name: Seq<char>,
}

impl View for RestoreTarget {
    type V = TargetView;

    open spec fn view(&self) -> TargetView {
        TargetView { kind: self.kind@, target: self.target@, name: self.name@ }
    }
}

/// The views of a list of targets.
pub open spec fn target_views(v: Seq<RestoreTarget>) -> Seq<TargetView> {
    v.map_values(|t: RestoreTarget| t@)
}

/// What one launch did.
#[derive(Debug, Clone)]
pub struct RestoreAction {
    pub kind: String,
    pub target: String,
    pub name: Option<String>,
    pub ok: bool,
    pub error: Option<String>,
}

/// What a `RestoreAction` holds, as plain values.
pub struct ActionView {
    pub kind: Seq<char>,
    pub target: Seq<char>,
    pub name: Option<Seq<char>>,
    pub ok: bool,
    pub error: Option<Seq<char>>,
}

impl View for RestoreAction {
    type V = ActionView;

    open spec fn view(&self) -> ActionView {
        ActionView {
            kind: self.kind@,
            target: self.target@,
            name: opt_str(self.name),
            ok: self.ok,
            error: opt_str(self.error),
        }
    }
}

/// The views of a list of actions.
pub open spec fn action_views(v: Seq<RestoreAction>) -> Seq<ActionView> {
    v.map_values(|a: RestoreAction| a@)
}

/// The report of a restore.
#[derive(Debug)]
pub struct RestoreReport {
    pub snapshot_id: i64,
    pub launched: Vec<RestoreAction>,
    pub note: String,
}

/// What a restore would do, before it does anything.
#[derive(Debug)]
pub struct RestorePlan {
    pub snapshot_id: i64,
    pub focused: Option<String>,
    pub commands: Vec<RestoreTarget>,
    pub tabs: Vec<RestoreTarget>,
    pub note: String,
}

/// `s` with every `/` turned into `\`.
pub open spec fn backslashed(s: Seq<char>) -> Seq<char> {
    s.map_values(|c: char| if c == '/' { '\\' } else { c })
}

/// Whether an executable path, in lower case and with `\` separators, lies in a
/// `windows` or `system32` directory.
pub open spec fn blocked_path(exe: Seq<char>) -> bool {
    let p = backslashed(lowercase(exe));
    occurs_in(p, "\\windows\\"@) || occurs_in(p, "\\system32\\"@)
}

/// `s` with every `/` replaced by `\`, as `str::replace('/', "\\")` gives it.
fn with_backslashes(s: &str) -> (r: String)
    ensures
        r@ == backslashed(s@),
{
    let mut cs = chars_of(s);
    let ghost orig = cs@;
    let mut i: usize = 0;
    while i < cs.len()
        invariant
            i <= cs@.len(),
            orig == s@,
            cs@.len() == orig.len(),
            forall|k: int| 0 <= k < i ==> cs@[k] == (if orig[k] == '/' { '\\' } else { orig[k] }),
            forall|k: int| i <= k < cs@.len() ==> cs@[k] == orig[k],
        decreases cs@.len() - i,
    {
        if cs[i] == '/' {
            cs.set(i, '\\');
        }
        i = i + 1;
    }
    let n = cs.len();
    let r = string_of_range(&cs, 0, n);
    assert(cs@.subrange(0, n as int) =~= backslashed(s@));
    r
}

/// Whether `exe` is a system executable that a restore never starts: its path, in
/// lower case and with `/` read as `\`, contains `\windows\` or `\system32\`.
pub fn is_blocked_exe(exe: &str) -> (r: bool)
    ensures
        r == blocked_path(exe@),
{
    let lower = to_lower(exe);
    let p = with_backslashes(lower.as_str());
    contains_text(p.as_str(), "\\windows\\") || contains_text(p.as_str(), "\\system32\\")
}

/// Whether one of `targets` has an executable whose lower-case path is `lower`.
pub open spec fn holds_exe(targets: Seq<TargetView>, lower: Seq<char>) -> bool {
    exists|k: int| 0 <= k < targets.len() && lowercase(targets[k].target) == lower
}

/// The executables to start for `apps`, where `exists[k]` tells whether the
/// executable of `apps[k]` is on disk: in order, at most `MAX_EXE_TARGETS`, skipping
/// apps without an executable, missing and blocked ones, and any whose path equals
/// an earlier one's in lower case.
pub open spec fn exe_plan(apps: Seq<AppView>, exists: Seq<bool>) -> Seq<TargetView>
    decreases apps.len(),
{
    if apps.len() == 0 {
        Seq::empty()
    } else {
        let before = exe_plan(apps.drop_last(), exists);
        let k = apps.len() - 1;
        let app = apps.last();
        if before.len() >= MAX_EXE_TARGETS {
            before
        } else {
            match app.exe {
                None => before,
                Some(exe) => if !exists[k] || blocked_path(exe) || holds_exe(
                    before,
                    lowercase(exe),
                ) {
                    before
                } else {
                    before.push(TargetView { kind: "exe"@, target: exe, name: app.name })
                },
            }
        }
    }
}

/// The pages to open for `tabs`: the tabs that sanitizing keeps, in order.
pub open spec fn url_plan(tabs: Seq<TabView>) -> Seq<TargetView> {
    sanitized(tabs).map_values(
        |t: TabView| TargetView { kind: "url"@, target: t.url, name: t.title },
    )
}

/// Whether one of `targets` already has an executable whose lower-case path is
/// `lower`.
fn find_exe(targets: &Vec<RestoreTarget>, lower: &String) -> (r: bool)
    ensures
        r == holds_exe(target_views(targets@), lower@),
{
    let mut k: usize = 0;
    while k < targets.len()
        invariant
            k <= targets@.len(),
            forall|j: int| 0 <= j < k ==> lowercase(#[trigger] targets@[j].target@) != lower@,
        decreases targets@.len() - k,
    {
        if same_text(to_lower(targets[k].target.as_str()).as_str(), lower.as_str()) {
            assert(target_views(targets@)[k as int].target == targets@[k as int].target@);
            return true;
        }
        k = k + 1;
    }
    assert forall|j: int| 0 <= j < target_views(targets@).len() implies lowercase(
        #[trigger] target_views(targets@)[j].target,
    ) != lower@ by {
        assert(target_views(targets@)[j].target == targets@[j].target@);
    }
    false
}

/// The executables a restore starts for `apps`, where `exists[k]` says whether the
/// executable of `apps[k]` is on disk.
pub fn exe_targets(apps: &Vec<AppRow>, exists: &Vec<bool>) -> (r: Vec<RestoreTarget>)
    requires
        exists@.len() == apps@.len(),
    ensures
        target_views(r@) == exe_plan(app_views(apps@), exists@),
{
    let ghost views = app_views(apps@);
    let mut out: Vec<RestoreTarget> = Vec::new();
    let mut i: usize = 0;
    assert(views.take(0) =~= Seq::<AppView>::empty());
    assert(target_views(out@) =~= Seq::<TargetView>::empty());
    while i < apps.len() && out.len() < MAX_EXE_TARGETS
        invariant
            i <= apps@.len(),
            exists@.len() == apps@.len(),
            views == app_views(apps@),
            target_views(out@) == exe_plan(views.take(i as int), exists@),
        decreases apps@.len() - i,
    {
        let app = &apps[i];
        assert(views.take(i + 1).drop_last() =~= views.take(i as int));
        assert(views.take(i + 1).last() == app@);
        assert(views.take(i + 1).len() - 1 == i);
        match &app.exe {
            None => {},
            Some(exe) => {
                if exists[i] && !is_blocked_exe(exe.as_str()) {
                    let lower = to_lower(exe.as_str());
                    if !find_exe(&out, &lower) {
                        let ghost before = out@;
                        let t = RestoreTarget {
                            kind: "exe".to_owned(),
                            target: exe.clone(),
                            name: app.name.clone(),
                        };
                        out.push(t);
                        assert(target_views(out@) =~= target_views(before).push(t@));
                    }
                }
            },
        }
        i = i + 1;
    }
    proof {
        if i < apps.len() {
            lemma_exe_plan_full(views, exists@, i as int);
        } else {
            assert(views.take(i as int) =~= views);
        }
    }
    out
}

proof fn lemma_exe_plan_full(apps: Seq<AppView>, exists: Seq<bool>, i: int)
    requires
        0 <= i <= apps.len(),
        exe_plan(apps.take(i), exists).len() >= MAX_EXE_TARGETS,
    ensures
        exe_plan(apps, exists) == exe_plan(apps.take(i), exists),
    decreases apps.len() - i,
{
    if i < apps.len() {
        assert(apps.take(i + 1).drop_last() =~= apps.take(i));
        lemma_exe_plan_full(apps, exists, i + 1);
    } else {
        assert(apps.take(i) =~= apps);
    }
}

/// The pages a restore opens for `tabs`: each tab that sanitizing keeps, by address,
/// named by its title.
pub fn url_targets(tabs: &Vec<Tab>) -> (r: Vec<RestoreTarget>)
    ensures
        target_views(r@) == url_plan(tab_views(tabs@)),
{
    let kept = sanitize_tabs(tabs.as_slice());
    let ghost kept_views = tab_views(kept@);
    let mut out: Vec<RestoreTarget> = Vec::new();
    let mut i: usize = 0;
    while i < kept.len()
        invariant
            i <= kept@.len(),
            kept_views == tab_views(kept@),
            target_views(out@) =~= kept_views.take(i as int).map_values(
                |t: TabView| TargetView { kind: "url"@, target: t.url, name: t.title },
            ),
        decreases kept@.len() - i,
    {
        let ghost before = out@;
        let t = RestoreTarget {
            kind: "url".to_owned(),
            target: kept[i].url.clone(),
            name: kept[i].title.clone(),
        };
        out.push(t);
        assert(target_views(out@) =~= target_views(before).push(t@));
        assert(kept_views.take(i + 1) =~= kept_views.take(i as int).push(kept_views[i as int]));
        i = i + 1;
    }
    assert(kept_views.take(kept@.len() as int) =~= kept_views);
    out
}

/// Whether a page address may be opened: it starts with `http://` or `https://`.
pub open spec fn openable(target: Seq<char>) -> bool {
    begins_with(target, "http://"@) || begins_with(target, "https://"@)
}

/// Whether a restore may hand `target` to the browser.
pub fn url_allowed(target: &str) -> (r: bool)
    ensures
        r == openable(target@),
{
    starts_with(target, "http://") || starts_with(target, "https://")
}

/// The record of starting `target`, given what spawning the process gave.
pub fn launch_exe(target: &str, name: Option<String>, spawned: Result<(), String>) -> (r: RestoreAction)
    ensures
        r@.kind == "exe"@,
        r@.target == target@,
        r@.name == opt_str(name),
        r@.ok == spawned is Ok,
        r@.error == match spawned {
            Ok(()) => None,
            Err(e) => Some(e@),
        },
{
    match spawned {
        Ok(()) => RestoreAction {
            kind: "exe".to_owned(),
            target: target.to_owned(),
            name,
            ok: true,
            error: None,
        },
        Err(e) => RestoreAction {
            kind: "exe".to_owned(),
            target: target.to_owned(),
            name,
            ok: false,
            error: Some(e),
        },
    }
}

/// The record of opening page `target`: an address that is not `http://` or
/// `https://` is rejected whatever `opened` says; otherwise the record follows what
/// opening it in the browser gave.
pub fn open_url(target: &str, name: Option<String>, opened: Result<(), String>) -> (r: RestoreAction)
    ensures
        r@.kind == "url"@,
        r@.target == target@,
        r@.name == opt_str(name),
        !openable(target@) ==> !r@.ok && r@.error == Some("rejected scheme"@),
        openable(target@) ==> r@.ok == opened is Ok && r@.error == match opened {
            Ok(()) => None,
            Err(e) => Some(e@),
        },
{
    if !url_allowed(target) {
        return RestoreAction {
            kind: "url".to_owned(),
            target: target.to_owned(),
            name,
            ok: false,
            error: Some("rejected scheme".to_owned()),
        };
    }
    match opened {
        Ok(()) => RestoreAction {
            kind: "url".to_owned(),
            target: target.to_owned(),
            name,
            ok: true,
            error: None,
        },
        Err(e) => RestoreAction {
            kind: "url".to_owned(),
            target: target.to_owned(),
            name,
            ok: false,
            error: Some(e),
        },
    }
}


/// The error text of a launch outcome, if it failed.
pub open spec fn outcome_error(o: Result<(), String>) -> Option<Seq<char>> {
    match o {
        Ok(()) => None,
        Err(e) => Some(e@),
    }
}

/// What trying `t` records, given the outcome of the launch: executables follow
/// the outcome; pages that are not `http://` or `https://` are rejected, the others
/// follow the outcome.
pub open spec fn action_for(t: TargetView, o: Result<(), String>) -> ActionView {
    if t.kind == "url"@ && !openable(t.target) {
        ActionView {
            kind: t.kind,
            target: t.target,
            name: Some(t.name),
            ok: false,
            error: Some("rejected scheme"@),
        }
    } else {
        ActionView {
            kind: t.kind,
            target: t.target,
            name: Some(t.name),
            ok: o is Ok,
            error: outcome_error(o),
        }
    }
}

/// Everything a restore of `s` tries, in order: the executables, then the pages.
pub open spec fn restore_plan(s: SnapshotView, exists: Seq<bool>) -> Seq<TargetView> {
    exe_plan(s.apps, exists) + url_plan(s.tabs)
}

/// Whether `exists` answers, for each app of `s`, whether its executable is on disk.
pub open spec fn restorable(s: SnapshotView, exists: Seq<bool>) -> bool {
    exists.len() == s.apps.len()
}

/// Everything a restore of `snap` tries, in order: the executables, then the pages.
pub fn restore_targets(snap: &Snapshot, exists: &Vec<bool>) -> (r: Vec<RestoreTarget>)
    requires
        restorable(snap@, exists@),
    ensures
        target_views(r@) == restore_plan(snap@, exists@),
{
    let mut all = exe_targets(&snap.apps, exists);
    let mut urls = url_targets(&snap.tabs);
    let ghost a = all@;
    let ghost u = urls@;
    all.append(&mut urls);
    assert(target_views(all@) =~= target_views(a) + target_views(u));
    all
}

/// The note a restore plan carries.
pub const PLAN_NOTE: &'static str = "Relaunch is best-effort. Unsaved documents inside apps are not recovered.";

/// The note a restore report carries.
pub const REPORT_NOTE: &'static str = "Best-effort restore. Existing windows are not reused. Unsaved docs are not recovered.";

/// What restoring snapshot `id` would do, given the snapshot found under that id and,
/// for each of its apps, whether its executable is on disk: the focused application,
/// the executables and the pages; an error when no snapshot was found.
pub fn plan(found: Option<Snapshot>, exists: Vec<bool>, id: i64) -> (r: Result<RestorePlan, String>)
    requires
        found matches Some(s) ==> restorable(s@, exists@),
    ensures
        match found {
            None => r is Err && r->Err_0@ == "snapshot not found"@,
            Some(s) => r is Ok && r->Ok_0.snapshot_id == id && opt_str(r->Ok_0.focused) == s@.focused
                && target_views(r->Ok_0.commands@) == exe_plan(s@.apps, exists@)
                && target_views(r->Ok_0.tabs@) == url_plan(s@.tabs) && r->Ok_0.note@
                == PLAN_NOTE@,
        },
{
    match found {
        None => Err("snapshot not found".to_owned()),
        Some(snap) => {
            let commands = exe_targets(&snap.apps, &exists);
            let tabs = url_targets(&snap.tabs);
            Ok(
                RestorePlan {
                    snapshot_id: id,
                    focused: snap.focused,
                    commands,
                    tabs,
                    note: PLAN_NOTE.to_owned(),
                },
            )
        },
    }
}

/// The report of restoring snapshot `id`, given the snapshot found under that id,
/// whether each app's executable is on disk, and what each launch of
/// `restore_targets` gave, in that order: one action per target, executables first;
/// an error when no snapshot was found.
pub fn execute(
    found: Option<Snapshot>,
    exists: Vec<bool>,
    id: i64,
    outcomes: Vec<Result<(), String>>,
) -> (r: Result<RestoreReport, String>)
    requires
        found matches Some(s) ==> restorable(s@, exists@) && outcomes@.len() == restore_plan(
            s@,
            exists@,
        ).len(),
    ensures
        match found {
            None => r is Err && r->Err_0@ == "snapshot not found"@,
            Some(s) => r is Ok && r->Ok_0.snapshot_id == id && r->Ok_0.note@ == REPORT_NOTE@
                && action_views(r->Ok_0.launched@).len() == restore_plan(s@, exists@).len()
                && forall|k: int|
                0 <= k < restore_plan(s@, exists@).len() ==> #[trigger] action_views(
                    r->Ok_0.launched@,
                )[k] == action_for(restore_plan(s@, exists@)[k], outcomes@[k]),
        },
{
    match found {
        None => Err("snapshot not found".to_owned()),
        Some(snap) => {
            let targets = restore_targets(&snap, &exists);
            let ghost tv = target_views(targets@);
            let mut launched: Vec<RestoreAction> = Vec::new();
            let mut i: usize = 0;
            while i < targets.len()
                invariant
                    i <= targets@.len(),
                    targets@.len() == outcomes@.len(),
                    tv == target_views(targets@),
                    launched@.len() == i,
                    forall|k: int|
                        0 <= k < i ==> #[trigger] action_views(launched@)[k] == action_for(
                            tv[k],
                            outcomes@[k],
                        ),
                decreases targets@.len() - i,
            {
                let t = &targets[i];
                assert(tv[i as int] == t@);
                let outcome = match &outcomes[i] {
                    Ok(()) => Ok(()),
                    Err(e) => Err(e.clone()),
                };
                let is_url = same_text(t.kind.as_str(), "url");
                let action = if is_url {
                    open_url(t.target.as_str(), Some(t.name.clone()), outcome)
                } else {
                    let a = launch_exe(t.target.as_str(), Some(t.name.clone()), outcome);
                    RestoreAction { kind: t.kind.clone(), target: a.target, name: a.name, ok: a.ok, error: a.error }
                };
                let ghost before = launched@;
                launched.push(action);
                assert(action_views(launched@) =~= action_views(before).push(action@));
                i = i + 1;
            }
            Ok(RestoreReport { snapshot_id: id, launched, note: REPORT_NOTE.to_owned() })
        },
    }
}


/// A restore starts at most `MAX_EXE_TARGETS` executables, never a blocked one, and
/// never two whose paths are equal in lower case; each is the executable of one of
/// the apps, which was found on disk.
pub proof fn law_exe_plan_is_safe(apps: Seq<AppView>, exists: Seq<bool>)
    requires
        exists.len() == apps.len(),
    ensures
        ({
            let p = exe_plan(apps, exists);
            &&& p.len() <= MAX_EXE_TARGETS
            &&& forall|k: int|
                #![trigger p[k]]
                0 <= k < p.len() ==> {
                    &&& p[k].kind == "exe"@
                    &&& !blocked_path(p[k].target)
                    &&& exists|j: int|
                        0 <= j < apps.len() && exists[j] && apps[j].exe == Some(p[k].target)
                }
            &&& forall|j: int, k: int|
                0 <= j < k < p.len() ==> lowercase(p[j].target) != lowercase(p[k].target)
        }),
    decreases apps.len(),
{
    if apps.len() > 0 {
        let rest = apps.drop_last();
        law_exe_plan_is_safe(rest, exists.take(rest.len() as int));
        lemma_exe_plan_prefix_exists(rest, exists);
        let before = exe_plan(rest, exists);
        let p = exe_plan(apps, exists);
        assert forall|k: int| 0 <= k < p.len() implies exists|j: int|
            0 <= j < apps.len() && exists[j] && apps[j].exe == Some(#[trigger] p[k].target) by {
            if k < before.len() {
                let j = choose|j: int|
                    0 <= j < rest.len() && exists[j] && rest[j].exe == Some(before[k].target);
                assert(apps[j] == rest[j]);
            } else {
                assert(apps[apps.len() - 1] == apps.last());
            }
        }
        assert forall|j: int, k: int| 0 <= j < k < p.len() implies lowercase(p[j].target)
            != lowercase(p[k].target) by {
            if k == before.len() {
                assert(p[j] == before[j]);
            }
        }
    }
}

/// A restore's executable plan stops only when full: while it holds fewer than 25
/// executables, every app whose executable is on disk and outside the system
/// directories has that executable planned (the same path, compared in lower case),
/// wherever the app stands in the snapshot.
pub proof fn law_exe_plan_stops_only_when_full(apps: Seq<AppView>, exists: Seq<bool>)
    requires
        exists.len() >= apps.len(),
    ensures
        exe_plan(apps, exists).len() < 25 ==> forall|j: int|
            #![trigger apps[j]]
            0 <= j < apps.len() && apps[j].exe is Some && exists[j] && !blocked_path(
                apps[j].exe->0,
            ) ==> exists|k: int|
                0 <= k < exe_plan(apps, exists).len() && lowercase(
                    #[trigger] exe_plan(apps, exists)[k].target,
                ) == lowercase(apps[j].exe->0),
    decreases apps.len(),
{
    if apps.len() > 0 {
        let rest = apps.drop_last();
        law_exe_plan_stops_only_when_full(rest, exists);
        let before = exe_plan(rest, exists);
        let p = exe_plan(apps, exists);
        if p.len() < 25 {
            assert(before.len() <= p.len());
            assert forall|j: int|
                #![trigger apps[j]]
                0 <= j < apps.len() && apps[j].exe is Some && exists[j] && !blocked_path(
                    apps[j].exe->0,
                ) implies exists|k: int|
                0 <= k < p.len() && lowercase(#[trigger] p[k].target) == lowercase(apps[j].exe->0) by {
                if j < apps.len() - 1 {
                    assert(apps[j] == rest[j]);
                    let k = choose|k: int|
                        0 <= k < before.len() && lowercase(#[trigger] before[k].target) == lowercase(
                            rest[j].exe->0,
                        );
                    assert(p[k] == before[k]);
                } else {
                    assert(apps[j] == apps.last());
                    let lower = lowercase(apps.last().exe->0);
                    if holds_exe(before, lower) {
                        let k = choose|k: int| 0 <= k < before.len() && lowercase(before[k].target) == lower;
                        assert(p[k] == before[k]);
                    } else {
                        assert(p[p.len() - 1].target == apps.last().exe->0);
                    }
                }
            }
        }
    }
}

/// The plan of a prefix depends only on the matching prefix of `exists`.
proof fn lemma_exe_plan_prefix_exists(apps: Seq<AppView>, exists: Seq<bool>)
    requires
        apps.len() <= exists.len(),
    ensures
        exe_plan(apps, exists) == exe_plan(apps, exists.take(apps.len() as int)),
        forall|k: int| 0 <= k < apps.len() ==> exists.take(apps.len() as int)[k] == exists[k],
    decreases apps.len(),
{
    if apps.len() > 0 {
        lemma_exe_plan_prefix_exists(apps.drop_last(), exists);
        lemma_exe_plan_prefix_exists(apps.drop_last(), exists.take(apps.len() as int));
        assert(exists.take(apps.len() as int).take(apps.len() - 1) =~= exists.take(
            apps.len() - 1,
        ));
    }
}

/// A restore opens at most `MAX_TABS` pages, each an address that parses with an
/// `http` or `https` scheme and a host, and never the same address twice.
pub proof fn law_url_plan_is_bounded(tabs: Seq<TabView>)
    ensures
        url_plan(tabs).len() <= MAX_TABS,
        forall|k: int|
            0 <= k < url_plan(tabs).len() ==> #[trigger] url_plan(tabs)[k].kind == "url"@
                && url_acceptable(url_plan(tabs)[k].target),
        forall|j: int, k: int|
            0 <= j < k < url_plan(tabs).len() ==> url_plan(tabs)[j].target != url_plan(
                tabs,
            )[k].target,
{
    law_sanitized_is_well_kept(tabs);
    let kept = sanitized(tabs);
    assert forall|k: int| 0 <= k < url_plan(tabs).len() implies #[trigger] url_plan(tabs)[k].kind
        == "url"@ && url_acceptable(url_plan(tabs)[k].target) by {
        assert(url_plan(tabs)[k].target == kept[k].url);
    }
}

} // verus!
