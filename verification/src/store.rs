//! Snapshots as the store keeps them, the search over them, and the freshness rule
//! for the tab list that the extension leaves behind.

use vstd::prelude::*;
use crate::capture::{app_views, AppRow, AppView};
use crate::status::opt_str;
use crate::tabs::{sanitize_tabs, sanitized, tab_views, Tab, TabView};
use crate::text::{
    ascii_lowercase, ascii_uppercase, contains_text, is_ascii_text, lemma_ascii_case_round_trip,
    lowercase, occurs_in, to_lower,
};

verus! {

/// How long, in seconds, a pushed tab list stays fresh.
pub const TAB_TTL_SECS: u64 = 120;

/// A saved snapshot.
#[derive(Debug, Clone)]
pub struct Snapshot {
    pub id: i64,
    pub created_at: String,
    pub note: Option<String>,
    pub focused: Option<String>,
    pub apps: Vec<AppRow>,
    pub clipboard: Option<String>,
    pub screenshot_path: Option<String>,
    pub placeholder: bool,
    pub tabs: Vec<Tab>,
}

/// What a `Snapshot` holds, as plain values.
pub struct SnapshotView {
    pub id: i64,
    pub created_at: Seq<char>,
    pub note: Option<Seq<char>>,
    pub focused: Option<Seq<char>>,
    pub apps: Seq<AppView>,
    pub clipboard: Option<Seq<char>>,
    pub screenshot_path: Option<Seq<char>>,
    pub placeholder: bool,
    pub tabs: Seq<TabView>,
}

impl View for Snapshot {
    type V = SnapshotView;

    open spec fn view(&self) -> SnapshotView {
        SnapshotView {
            id: self.id,
            created_at: self.created_at@,
            note: opt_str(self.note),
            focused: opt_str(self.focused),
            apps: app_views(self.apps@),
            clipboard: opt_str(self.clipboard),
            screenshot_path: opt_str(self.screenshot_path),
            placeholder: self.placeholder,
            tabs: tab_views(self.tabs@),
        }
    }
}

/// The views of a list of snapshots.
pub open spec fn snapshot_views(v: Seq<Snapshot>) -> Seq<SnapshotView> {
    v.map_values(|s: Snapshot| s@)
}

/// Where a store keeps its files: the data directory, the screenshots directory and
/// the database file.
#[derive(Debug, Clone)]
pub struct Store {
    pub data_dir: String,
    pub shots_dir: String,
    pub db_path: String,
}

/// The text a missing optional field is searched as.
pub open spec fn or_empty(o: Option<Seq<char>>) -> Seq<char> {
    match o {
        Some(s) => s,
        None => Seq::empty(),
    }
}

/// Whether snapshot `s` matches the lower-cased search text `needle`: its note, its
/// focused application or the name of one of its applications contains it, each
/// compared in lower case.
pub open spec fn snapshot_matches(s: SnapshotView, needle: Seq<char>) -> bool {
    ||| occurs_in(lowercase(or_empty(s.note)), needle)
    ||| occurs_in(lowercase(or_empty(s.focused)), needle)
    ||| exists|k: int| 0 <= k < s.apps.len() && occurs_in(lowercase(#[trigger] s.apps[k].name), needle)
}

/// The snapshots of `rows` that match `needle`, in order.
pub open spec fn matching(rows: Seq<SnapshotView>, needle: Seq<char>) -> Seq<SnapshotView>
    decreases rows.len(),
{
    if rows.len() == 0 {
        Seq::empty()
    } else if snapshot_matches(rows.last(), needle) {
        matching(rows.drop_last(), needle).push(rows.last())
    } else {
        matching(rows.drop_last(), needle)
    }
}

/// What a search for `q` leaves of `rows`: all of them without a query or with an
/// empty one, else those that match the query in lower case.
pub open spec fn searched(rows: Seq<SnapshotView>, q: Option<Seq<char>>) -> Seq<SnapshotView> {
    match q {
        Some(q) => if q.len() == 0 {
            rows
        } else {
            matching(rows, lowercase(q))
        },
        None => rows,
    }
}

/// Whether `opt`, in lower case, contains `needle`.
fn opt_contains(opt: &Option<String>, needle: &String) -> (r: bool)
    ensures
        r == occurs_in(lowercase(or_empty(opt_str(*opt))), needle@),
{
    match opt {
        Some(s) => contains_text(to_lower(s.as_str()).as_str(), needle.as_str()),
        None => {
            let empty = String::new();
            contains_text(to_lower(empty.as_str()).as_str(), needle.as_str())
        },
    }
}

/// Whether `s` matches the lower-cased search text `needle`.
fn row_matches(s: &Snapshot, needle: &String) -> (r: bool)
    ensures
        r == snapshot_matches(s@, needle@),
{
    if opt_contains(&s.note, needle) || opt_contains(&s.focused, needle) {
        return true;
    }
    let mut k: usize = 0;
    while k < s.apps.len()
        invariant
            k <= s.apps@.len(),
            forall|j: int| 0 <= j < k ==> !occurs_in(lowercase(#[trigger] s.apps@[j].name@), needle@),
        decreases s.apps@.len() - k,
    {
        if contains_text(to_lower(s.apps[k].name.as_str()).as_str(), needle.as_str()) {
            assert(s@.apps[k as int].name == s.apps@[k as int].name@);
            return true;
        }
        k = k + 1;
    }
    assert forall|j: int| 0 <= j < s@.apps.len() implies !occurs_in(
        lowercase(#[trigger] s@.apps[j].name),
        needle@,
    ) by {
        assert(s@.apps[j].name == s.apps@[j].name@);
    }
    false
}

/// The instant that `chrono::DateTime::parse_from_rfc3339` reads from `text`, as its
/// Unix timestamp and the nanoseconds past that second; `None` where the text does
/// not parse.
pub uninterp spec fn rfc3339_instant(text: Seq<char>) -> Option<(i64, u32)>;

/// Calls `chrono::DateTime::parse_from_rfc3339` on `text` and reads the instant with
/// `timestamp` and `timestamp_subsec_nanos`. The contract names the result; it
/// claims no more of it.
#[verifier::external_body]
fn parse_instant(text: &str) -> (r: Option<(i64, u32)>)
    ensures
        r == rfc3339_instant(text@),
{
    match chrono::DateTime::parse_from_rfc3339(text) {
        Ok(t) => Some((t.timestamp(), t.timestamp_subsec_nanos())),
        Err(_) => None,
    }
}

/// The nanoseconds since the Unix epoch of an instant given as a timestamp and the
/// nanoseconds past it.
pub open spec fn epoch_nanos(t: (i64, u32)) -> int {
    t.0 * 1_000_000_000 + t.1
}

/// The whole seconds in a span of `d` nanoseconds, rounded towards zero.
pub open spec fn whole_seconds(d: int) -> int {
    if d >= 0 {
        d / 1_000_000_000
    } else {
        -((-d) / 1_000_000_000)
    }
}

/// The whole seconds from instant `from` to instant `to`, each a Unix timestamp and
/// nanoseconds, as `chrono::DateTime::<Utc>::from_timestamp` builds them and
/// `signed_duration_since(..).num_seconds()` counts them; `None` where either lies
/// outside chrono's range or has nanoseconds it refuses.
pub uninterp spec fn whole_seconds_between(from: (i64, u32), to: (i64, u32)) -> Option<i64>;

/// Whether `t` is an instant from 1970 to the end of year 9999, off a leap second:
/// one that chrono builds, writes in RFC 3339 with four year digits, and reads back.
pub open spec fn plain_instant(t: (i64, u32)) -> bool {
    0 <= t.0 < 253_402_300_800 && t.1 < 1_000_000_000
}

/// The age from `from` to `to` as `seconds_between` measures it: between plain
/// instants, the exact difference in whole seconds towards zero; elsewhere what
/// chrono gives, by name.
pub open spec fn measured_age(from: (i64, u32), to: (i64, u32)) -> Option<i64> {
    if plain_instant(from) && plain_instant(to) {
        Some(whole_seconds(epoch_nanos(to) - epoch_nanos(from)) as i64)
    } else {
        whole_seconds_between(from, to)
    }
}

/// Builds both instants with `chrono::DateTime::<Utc>::from_timestamp` and returns
/// `to.signed_duration_since(from).num_seconds()`. Beside the name, the contract
/// states what chrono's source shows: `from_timestamp` builds every instant from 1970
/// to the end of year 9999 whose nanoseconds are below one second, and for instants
/// off a leap second the difference is exact, counted in whole seconds towards zero.
/// Which other instants chrono builds is not stated.
#[verifier::external_body]
fn seconds_between(from: (i64, u32), to: (i64, u32)) -> (r: Option<i64>)
    ensures
        r == whole_seconds_between(from, to),
        plain_instant(from) && plain_instant(to) ==> r is Some,
        r matches Some(s) ==> (from.1 < 1_000_000_000 && to.1 < 1_000_000_000 ==> s
            == whole_seconds(epoch_nanos(to) - epoch_nanos(from))),
{
    let start = chrono::DateTime::<chrono::Utc>::from_timestamp(from.0, from.1)?;
    let end = chrono::DateTime::<chrono::Utc>::from_timestamp(to.0, to.1)?;
    Some(end.signed_duration_since(start).num_seconds())
}

/// The RFC 3339 text of instant `at`, a Unix timestamp and nanoseconds, as
/// `chrono::DateTime::<Utc>::from_timestamp` builds the instant and `to_rfc3339`
/// writes it; `None` where chrono refuses the instant.
pub uninterp spec fn rfc3339_text(at: (i64, u32)) -> Option<Seq<char>>;

/// Calls `chrono::DateTime::<Utc>::from_timestamp` and `to_rfc3339`. Beside the name,
/// the contract states what chrono's source shows for plain instants (1970 to the end
/// of year 9999, off a leap second): `from_timestamp` builds them, and the text
/// carries every non-zero fractional digit and the offset `+00:00`, so
/// `parse_from_rfc3339` reads back the same instant. Later years, whose text carries
/// a sign, and leap seconds are left unsaid.
#[verifier::external_body]
pub(crate) fn format_instant(at: (i64, u32)) -> (r: Option<String>)
    ensures
        opt_str(r) == rfc3339_text(at),
        plain_instant(at) ==> r is Some,
        r matches Some(t) ==> (plain_instant(at) ==> rfc3339_instant(t@) == Some(at)),
{
    chrono::DateTime::<chrono::Utc>::from_timestamp(at.0, at.1).map(|d| d.to_rfc3339())
}

/// A pushed list stays fresh for `TAB_TTL_SECS` seconds: from the instant of the push
/// to just under 121 seconds later its age in whole seconds is between 0 and
/// `TAB_TTL_SECS`, and from 121 seconds on it is more.
pub proof fn law_ttl_window(pushed: (i64, u32), now: (i64, u32))
    ensures
        0 <= epoch_nanos(now) - epoch_nanos(pushed) < 121_000_000_000 ==> 0 <= whole_seconds(
            epoch_nanos(now) - epoch_nanos(pushed),
        ) <= TAB_TTL_SECS,
        epoch_nanos(now) - epoch_nanos(pushed) >= 121_000_000_000 ==> whole_seconds(
            epoch_nanos(now) - epoch_nanos(pushed),
        ) > TAB_TTL_SECS,
{
    let d = epoch_nanos(now) - epoch_nanos(pushed);
    if 0 <= d < 121_000_000_000 {
        assert(0 <= d / 1_000_000_000 <= 120) by (nonlinear_arith)
            requires
                0 <= d < 121_000_000_000,
        ;
    }
    if d >= 121_000_000_000 {
        assert(d / 1_000_000_000 >= 121) by (nonlinear_arith)
            requires
                d >= 121_000_000_000,
        ;
    }
}

/// A pushed list is kept for `TAB_TTL_SECS` seconds: if its timestamp reads back as
/// the plain instant of the push, it is fresh at every plain instant from the push to
/// just under 121 seconds later, and stale from 121 seconds on.
pub proof fn law_pushed_list_kept_for_ttl(received_at: Seq<char>, pushed: (i64, u32), now: (i64, u32))
    requires
        plain_instant(pushed),
        plain_instant(now),
    ensures
        rfc3339_instant(received_at) == Some(pushed) && 0 <= epoch_nanos(now) - epoch_nanos(pushed)
            < 121_000_000_000 ==> cache_fresh(Some(received_at), now),
        rfc3339_instant(received_at) == Some(pushed) && epoch_nanos(now) - epoch_nanos(pushed)
            >= 121_000_000_000 ==> !cache_fresh(Some(received_at), now),
{
    law_ttl_window(pushed, now);
    let d = epoch_nanos(now) - epoch_nanos(pushed);
    assert(-253_402_300_801_000_000_000 < d < 253_402_300_801_000_000_000);
    assert(-253_402_300_801 <= whole_seconds(d) <= 253_402_300_801) by (nonlinear_arith)
        requires
            -253_402_300_801_000_000_000 < d < 253_402_300_801_000_000_000,
            whole_seconds(d) == if d >= 0 {
                d / 1_000_000_000
            } else {
                -((-d) / 1_000_000_000)
            },
    ;
}

/// Whether a tab list of the given age is still fresh: only a known age of at most
/// `TAB_TTL_SECS` seconds is.
pub open spec fn fresh_age(age: Option<i64>) -> bool {
    match age {
        Some(a) => a <= TAB_TTL_SECS,
        None => false,
    }
}

/// Whether a tab list received at `received_at` is still fresh at the instant `now`:
/// only when its timestamp parses and its measured age is at most `TAB_TTL_SECS`
/// whole seconds.
pub open spec fn cache_fresh(received_at: Option<Seq<char>>, now: (i64, u32)) -> bool {
    match received_at {
        Some(r) => match rfc3339_instant(r) {
            Some(then) => fresh_age(measured_age(then, now)),
            None => false,
        },
        None => false,
    }
}

/// Whether a tab list of the given age, where one was measured, may still be used.
pub fn tabs_fresh(age: Option<i64>) -> (r: bool)
    ensures
        r == fresh_age(age),
{
    match age {
        Some(a) => a <= TAB_TTL_SECS as i64,
        None => false,
    }
}

impl Store {
    /// A store kept in `data_dir`, with screenshots in `shots_dir` and the database
    /// at `db_path`.
    pub fn new(data_dir: String, shots_dir: String, db_path: String) -> (r: Store)
        ensures
            r.data_dir@ == data_dir@,
            r.shots_dir@ == shots_dir@,
            r.db_path@ == db_path@,
    {
        Store { data_dir, shots_dir, db_path }
    }

    /// The pushed tab list as a snapshot may attach it: its tabs, sanitized, when it
    /// was received at most `TAB_TTL_SECS` whole seconds before the instant
    /// `now_secs`, `now_nanos`; nothing when it is older, has no timestamp, has one
    /// that does not parse, or has an age chrono cannot measure.
    pub fn load_latest_tabs(
        received_at: Option<String>,
        now_secs: i64,
        now_nanos: u32,
        tabs: Vec<Tab>,
    ) -> (r: Vec<Tab>)
        ensures
            if cache_fresh(opt_str(received_at), (now_secs, now_nanos)) {
                tab_views(r@) == sanitized(tab_views(tabs@))
            } else {
                r@.len() == 0
            },
            received_at matches Some(ts) ==> (rfc3339_instant(ts@) matches Some(then) ==> (
            plain_instant(then) && plain_instant((now_secs, now_nanos)) ==> (cache_fresh(
                opt_str(received_at),
                (now_secs, now_nanos),
            ) <==> whole_seconds(epoch_nanos((now_secs, now_nanos)) - epoch_nanos(then))
                <= TAB_TTL_SECS))),
    {
        let ts = match &received_at {
            Some(ts) => ts,
            None => {
                return Vec::new();
            },
        };
        let then = match parse_instant(ts.as_str()) {
            Some(then) => then,
            None => {
                return Vec::new();
            },
        };
        if !tabs_fresh(seconds_between(then, (now_secs, now_nanos))) {
            return Vec::new();
        }
        sanitize_tabs(tabs.as_slice())
    }

    /// The snapshots of `rows` that a search for `q` shows, in their order: every
    /// row when `q` is absent or empty, else the rows whose note, focused
    /// application or an application name contains `q`, all compared in lower case.
    pub fn list(rows: Vec<Snapshot>, q: Option<String>) -> (r: Vec<Snapshot>)
        ensures
            snapshot_views(r@) == searched(snapshot_views(rows@), opt_str(q)),
            q matches Some(t) ==> (t@.len() > 0 && is_ascii_text(t@) ==> snapshot_views(r@)
                == matching(snapshot_views(rows@), ascii_lowercase(t@))),
    {
        let needle = match &q {
            Some(text) => {
                if text.as_str().is_empty() {
                    return rows;
                }
                to_lower(text.as_str())
            },
            None => {
                return rows;
            },
        };
        let ghost views = snapshot_views(rows@);
        let mut rest = rows;
        let mut reversed: Vec<Snapshot> = Vec::new();
        while rest.len() > 0
            invariant
                views.len() == rest@.len() + reversed@.len(),
                forall|j: int| 0 <= j < rest@.len() ==> views[j] == #[trigger] rest@[j]@,
                forall|j: int|
                    0 <= j < reversed@.len() ==> views[views.len() - 1 - j] == #[trigger] reversed@[j]@,
            decreases rest@.len(),
        {
            let s = rest.pop().unwrap();
            reversed.push(s);
        }
        let mut out: Vec<Snapshot> = Vec::new();
        assert(views.take(0) =~= Seq::<SnapshotView>::empty());
        while reversed.len() > 0
            invariant
                views.len() >= reversed@.len(),
                forall|j: int|
                    0 <= j < reversed@.len() ==> views[views.len() - 1 - j] == #[trigger] reversed@[j]@,
                snapshot_views(out@) == matching(views.take(views.len() - reversed@.len()), needle@),
            decreases reversed@.len(),
        {
            let ghost done = views.len() - reversed@.len();
            let s = reversed.pop().unwrap();
            assert(s@ == views[done]);
            assert(views.take(done + 1).drop_last() =~= views.take(done));
            assert(views.take(done + 1).last() == views[done]);
            if row_matches(&s, &needle) {
                let ghost before = out@;
                out.push(s);
                assert(snapshot_views(out@) =~= snapshot_views(before).push(views[done]));
            }
        }
        assert(views.take(views.len() as int) =~= views);
        out
    }
}


/// The sum of `sizes`.
pub open spec fn total_size(sizes: Seq<u64>) -> int
    decreases sizes.len(),
{
    if sizes.len() == 0 {
        0
    } else {
        total_size(sizes.drop_last()) + sizes.last()
    }
}

proof fn lemma_total_grows(sizes: Seq<u64>, i: int)
    requires
        0 <= i <= sizes.len(),
    ensures
        total_size(sizes.take(i)) <= total_size(sizes),
    decreases sizes.len() - i,
{
    if i < sizes.len() {
        lemma_total_grows(sizes, i + 1);
        assert(sizes.take(i + 1).drop_last() =~= sizes.take(i));
    } else {
        assert(sizes.take(i) =~= sizes);
    }
}

/// The bytes the screenshots take on disk, given the size of each file; `None` when
/// the sum does not fit a `u64`.
pub fn shots_bytes(sizes: &Vec<u64>) -> (r: Option<u64>)
    ensures
        r == if total_size(sizes@) <= u64::MAX {
            Some(total_size(sizes@) as u64)
        } else {
            None::<u64>
        },
{
    let mut sum: u64 = 0;
    let mut i: usize = 0;
    assert(sizes@.take(0) =~= Seq::<u64>::empty());
    while i < sizes.len()
        invariant
            i <= sizes@.len(),
            sum == total_size(sizes@.take(i as int)),
        decreases sizes@.len() - i,
    {
        assert(sizes@.take(i + 1).drop_last() =~= sizes@.take(i as int));
        match sum.checked_add(sizes[i]) {
            Some(next) => {
                sum = next;
            },
            None => {
                proof {
                    lemma_total_grows(sizes@, i + 1);
                }
                return None;
            },
        }
        i = i + 1;
    }
    assert(sizes@.take(sizes@.len() as int) =~= sizes@);
    Some(sum)
}

/// Search ignores ASCII case: the upper-case form of a non-empty ASCII query is a
/// non-empty ASCII query that lower-cases to the same text, so `Store::list` shows
/// the same snapshots, in the same order, for both.
pub proof fn law_search_ignores_ascii_case(rows: Seq<SnapshotView>, q: Seq<char>)
    requires
        is_ascii_text(q),
    ensures
        is_ascii_text(ascii_uppercase(q)),
        ascii_uppercase(q).len() == q.len(),
        matching(rows, ascii_lowercase(ascii_uppercase(q))) == matching(rows, ascii_lowercase(q)),
{
    lemma_ascii_case_round_trip(q);
}

proof fn lemma_matching_idempotent(rows: Seq<SnapshotView>, needle: Seq<char>)
    ensures
        matching(matching(rows, needle), needle) == matching(rows, needle),
    decreases rows.len(),
{
    if rows.len() > 0 {
        lemma_matching_idempotent(rows.drop_last(), needle);
        let m = matching(rows.drop_last(), needle);
        if snapshot_matches(rows.last(), needle) {
            assert(m.push(rows.last()).drop_last() =~= m);
        }
    }
}

proof fn lemma_matching_members(rows: Seq<SnapshotView>, needle: Seq<char>)
    ensures
        matching(rows, needle).len() <= rows.len(),
        forall|k: int|
            #![trigger matching(rows, needle)[k]]
            0 <= k < matching(rows, needle).len() ==> snapshot_matches(matching(rows, needle)[k], needle)
                && exists|j: int| #![trigger rows[j]] 0 <= j < rows.len() && rows[j] == matching(rows, needle)[k],
    decreases rows.len(),
{
    if rows.len() > 0 {
        let rest = rows.drop_last();
        lemma_matching_members(rest, needle);
        let m = matching(rows, needle);
        assert forall|k: int| 0 <= k < m.len() implies snapshot_matches(#[trigger] m[k], needle)
            && exists|j: int| #![trigger rows[j]] 0 <= j < rows.len() && rows[j] == m[k] by {
            if k < matching(rest, needle).len() {
                let j = choose|j: int| 0 <= j < rest.len() && rest[j] == matching(rest, needle)[k];
                assert(rows[j] == rest[j]);
            } else {
                assert(rows[rows.len() - 1] == rows.last());
            }
        }
    }
}

/// Whether `s` is one of `rows`.
pub open spec fn is_row_of(rows: Seq<SnapshotView>, s: SnapshotView) -> bool {
    exists|j: int| 0 <= j < rows.len() && rows[j] == s
}

/// Whether `sub` is `rows` with some rows left out, the others in their order.
pub open spec fn in_order_within(sub: Seq<SnapshotView>, rows: Seq<SnapshotView>) -> bool
    decreases rows.len(),
{
    if sub.len() == 0 {
        true
    } else if rows.len() == 0 {
        false
    } else {
        (sub.last() == rows.last() && in_order_within(sub.drop_last(), rows.drop_last()))
            || in_order_within(sub, rows.drop_last())
    }
}

proof fn lemma_all_in_order(rows: Seq<SnapshotView>)
    ensures
        in_order_within(rows, rows),
    decreases rows.len(),
{
    if rows.len() > 0 {
        lemma_all_in_order(rows.drop_last());
    }
}

proof fn lemma_matching_in_order(rows: Seq<SnapshotView>, needle: Seq<char>)
    ensures
        in_order_within(matching(rows, needle), rows),
    decreases rows.len(),
{
    if rows.len() > 0 {
        let m = matching(rows.drop_last(), needle);
        lemma_matching_in_order(rows.drop_last(), needle);
        if snapshot_matches(rows.last(), needle) {
            assert(m.push(rows.last()).drop_last() =~= m);
        } else {
            if m.len() > 0 {
                assert(in_order_within(m, rows));
            }
        }
    }
}

/// Search is a stable filter: searching again for the same query changes nothing, it
/// never adds rows, and it shows rows of `rows` only, in their order; an empty query
/// shows what no query shows.
pub proof fn law_search_is_a_stable_filter(rows: Seq<SnapshotView>, q: Option<Seq<char>>)
    ensures
        searched(searched(rows, q), q) == searched(rows, q),
        in_order_within(searched(rows, q), rows),
        searched(rows, Some(Seq::empty())) == searched(rows, None),
        searched(rows, q).len() <= rows.len(),
        forall|k: int|
            0 <= k < searched(rows, q).len() ==> is_row_of(rows, #[trigger] searched(rows, q)[k]),
{
    if q is Some && q->0.len() > 0 {
        lemma_matching_idempotent(rows, lowercase(q->0));
        lemma_matching_members(rows, lowercase(q->0));
        lemma_matching_in_order(rows, lowercase(q->0));
    } else {
        lemma_all_in_order(rows);
    }
    assert forall|k: int| 0 <= k < searched(rows, q).len() implies is_row_of(
        rows,
        #[trigger] searched(rows, q)[k],
    ) by {
        if q is Some && q->0.len() > 0 {
            let m = matching(rows, lowercase(q->0));
            assert(searched(rows, q)[k] == m[k]);
            let j = choose|j: int| 0 <= j < rows.len() && rows[j] == m[k];
            assert(rows[j] == searched(rows, q)[k]);
        } else {
            assert(rows[k] == searched(rows, q)[k]);
        }
    }
}


proof fn lemma_matching_includes(rows: Seq<SnapshotView>, needle: Seq<char>)
    ensures
        forall|i: int|
            0 <= i < rows.len() && snapshot_matches(#[trigger] rows[i], needle) ==> is_row_of(
                matching(rows, needle),
                rows[i],
            ),
    decreases rows.len(),
{
    if rows.len() > 0 {
        let rest = rows.drop_last();
        lemma_matching_includes(rest, needle);
        let m = matching(rows, needle);
        assert forall|i: int| 0 <= i < rows.len() && snapshot_matches(#[trigger] rows[i], needle)
            implies is_row_of(m, rows[i]) by {
            if i < rows.len() - 1 {
                assert(rows[i] == rest[i]);
                let j = choose|j: int|
                    0 <= j < matching(rest, needle).len() && matching(rest, needle)[j] == rest[i];
                assert(m[j] == matching(rest, needle)[j]);
            } else {
                assert(rows[i] == rows.last());
                assert(m[m.len() - 1] == rows.last());
            }
        }
    }
}

/// A search for a non-empty query `q` shows exactly the rows whose note, whose focused
/// application, or the name of any one of whose applications contains `q`, each
/// compared in lower case.
pub proof fn law_search_finds_every_match(rows: Seq<SnapshotView>, q: Seq<char>)
    requires
        q.len() > 0,
    ensures
        forall|i: int|
            #![trigger rows[i]]
            0 <= i < rows.len() && (occurs_in(lowercase(or_empty(rows[i].note)), lowercase(q))
                || occurs_in(lowercase(or_empty(rows[i].focused)), lowercase(q)) || exists|k: int|
                0 <= k < rows[i].apps.len() && occurs_in(
                    lowercase(#[trigger] rows[i].apps[k].name),
                    lowercase(q),
                )) ==> is_row_of(searched(rows, Some(q)), rows[i]),
        forall|k: int|
            #![trigger searched(rows, Some(q))[k]]
            0 <= k < searched(rows, Some(q)).len() ==> {
                let s = searched(rows, Some(q))[k];
                ||| occurs_in(lowercase(or_empty(s.note)), lowercase(q))
                ||| occurs_in(lowercase(or_empty(s.focused)), lowercase(q))
                ||| exists|a: int|
                    0 <= a < s.apps.len() && occurs_in(lowercase(#[trigger] s.apps[a].name), lowercase(q))
            },
{
    lemma_matching_includes(rows, lowercase(q));
    lemma_matching_members(rows, lowercase(q));
}

} // verus!
