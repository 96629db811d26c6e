//! Browser tabs that the companion extension reports, and the rule that decides
//! which of them a snapshot may keep: only `http`/`https` pages with a host, no
//! repeated address, at most `MAX_TABS` of them, with bounded titles and addresses.

use vstd::prelude::*;
use crate::text::{chars_of, lemma_trimmed_idempotent, lemma_trimmed_shorter, same_text, string_of_range, trim, trimmed};

verus! {

/// The schemes whose pages are kept.
pub const ALLOWED_SCHEMES: [&'static str; 2] = ["http", "https"];

/// The most tabs a list keeps.
pub const MAX_TABS: usize = 80;

/// The most characters a kept title holds; longer titles are cut.
pub const MAX_TITLE: usize = 300;

/// The most characters a kept address may hold; longer addresses are dropped.
pub const MAX_URL: usize = 2000;

/// One open browser tab.
#[derive(Debug, Clone, Default, PartialEq, Eq)]
pub struct Tab {
    pub title: String,
    pub url: String,
    pub active: bool,
    pub pinned: bool,
    pub window_id: Option<i64>,
}

/// What a `Tab` holds, as plain values.
pub struct TabView {
    pub title: Seq<char>,
    pub url: Seq<char>,
    pub active: bool,
    pub pinned: bool,
    pub window_id: Option<i64>,
}

impl View for Tab {
    type V = TabView;

    open spec fn view(&self) -> TabView {
        TabView {
            title: self.title@,
            url: self.url@,
            active: self.active,
            pinned: self.pinned,
            window_id: self.window_id,
        }
    }
}

/// The views of a sequence of tabs.
pub open spec fn tab_views(tabs: Seq<Tab>) -> Seq<TabView> {
    tabs.map_values(|t: Tab| t@)
}

/// The view of an optional string.
pub open spec fn opt_text(o: Option<String>) -> Option<Seq<char>> {
    match o {
        Some(s) => Some(s@),
        None => None,
    }
}

/// What `url::Url::parse` makes of `input`, reduced to the parts the tab rule reads:
/// `None` where parsing fails, else the scheme and the host (`Url::scheme`,
/// `Url::host_str`).
pub uninterp spec fn url_parts(input: Seq<char>) -> Option<(Seq<char>, Option<Seq<char>>)>;

/// Calls `url::Url::parse` on `input` and, on success, `Url::scheme` and `Url::host_str`.
/// The contract claims only that the outcome is the named `url_parts` of the input:
/// the WHATWG parsing rules the crate follows are not restated here.
#[verifier::external_body]
fn parse_url(input: &str) -> (r: Option<(String, Option<String>)>)
    ensures
        match r {
            None => url_parts(input@) is None,
            Some(parts) => url_parts(input@) == Some((parts.0@, opt_text(parts.1))),
        },
{
    match url::Url::parse(input) {
        Ok(parsed) => {
            let host = match parsed.host_str() {
                Some(h) => Some(h.to_string()),
                None => None,
            };
            Some((parsed.scheme().to_string(), host))
        },
        Err(_) => None,
    }
}

/// Whether a scheme is one of `ALLOWED_SCHEMES`.
pub open spec fn allowed_scheme(scheme: Seq<char>) -> bool {
    scheme == "http"@ || scheme == "https"@
}

/// Whether an (already trimmed) address may be kept: it is at most `MAX_URL`
/// characters, parses, has an allowed scheme and a non-empty host.
pub open spec fn url_acceptable(url: Seq<char>) -> bool {
    &&& url.len() <= MAX_URL
    &&& url_parts(url) matches Some((scheme, host))
    &&& allowed_scheme(scheme)
    &&& host matches Some(h) && h.len() > 0
}

/// Whether one of `tabs` has address `url`.
pub open spec fn holds_url(tabs: Seq<TabView>, url: Seq<char>) -> bool {
    exists|k: int| 0 <= k < tabs.len() && tabs[k].url == url
}

/// A title cut to its first `MAX_TITLE` characters.
pub open spec fn cut_title(t: Seq<char>) -> Seq<char> {
    if t.len() <= MAX_TITLE {
        t
    } else {
        t.take(MAX_TITLE as int)
    }
}

/// The kept list after looking at one more raw tab.
pub open spec fn sanitize_step(kept: Seq<TabView>, tab: TabView) -> Seq<TabView> {
    let url = trimmed(tab.url);
    if kept.len() >= MAX_TABS || !url_acceptable(url) || holds_url(kept, url) {
        kept
    } else {
        kept.push(
            TabView {
                title: cut_title(trimmed(tab.title)),
                url,
                active: tab.active,
                pinned: tab.pinned,
                window_id: tab.window_id,
            },
        )
    }
}

/// The tabs that `sanitize_tabs` keeps of `raw`, in order.
pub open spec fn sanitized(raw: Seq<TabView>) -> Seq<TabView>
    decreases raw.len(),
{
    if raw.len() == 0 {
        Seq::empty()
    } else {
        sanitize_step(sanitized(raw.drop_last()), raw.last())
    }
}

/// Once `MAX_TABS` tabs are kept, later tabs change nothing.
proof fn lemma_full_stays(raw: Seq<TabView>, i: int)
    requires
        0 <= i <= raw.len(),
        sanitized(raw.take(i)).len() >= MAX_TABS,
    ensures
        sanitized(raw) == sanitized(raw.take(i)),
    decreases raw.len() - i,
{
    if i < raw.len() {
        assert(raw.take(i + 1).drop_last() =~= raw.take(i));
        lemma_full_stays(raw, i + 1);
    } else {
        assert(raw.take(i) =~= raw);
    }
}

/// Whether one of `tabs` has address `url`.
fn find_url(tabs: &Vec<Tab>, url: &String) -> (r: bool)
    ensures
        r == holds_url(tab_views(tabs@), url@),
{
    let mut k: usize = 0;
    while k < tabs.len()
        invariant
            k <= tabs@.len(),
            forall|j: int| 0 <= j < k ==> tabs@[j].url@ != url@,
        decreases tabs@.len() - k,
    {
        if same_text(tabs[k].url.as_str(), url.as_str()) {
            assert(tab_views(tabs@)[k as int].url == url@);
            return true;
        }
        k = k + 1;
    }
    assert(!holds_url(tab_views(tabs@), url@)) by {
        assert forall|j: int| 0 <= j < tab_views(tabs@).len() implies tab_views(tabs@)[j].url
            != url@ by {
            assert(tab_views(tabs@)[j] == tabs@[j]@);
        }
    }
    false
}

/// Whether a trimmed address may be kept.
fn acceptable_url(url: &String) -> (r: bool)
    ensures
        r == url_acceptable(url@),
{
    if chars_of(url.as_str()).len() > MAX_URL {
        return false;
    }
    match parse_url(url.as_str()) {
        None => false,
        Some(parts) => {
            let scheme_ok = same_text(parts.0.as_str(), ALLOWED_SCHEMES[0]) || same_text(
                parts.0.as_str(),
                ALLOWED_SCHEMES[1],
            );
            let host_ok = match &parts.1 {
                Some(h) => !h.as_str().is_empty(),
                None => false,
            };
            scheme_ok && host_ok
        },
    }
}

/// A title, trimmed and cut to `MAX_TITLE` characters.
fn kept_title(title: &str) -> (r: String)
    ensures
        r@ == cut_title(trimmed(title@)),
{
    let cs = chars_of(trim(title).as_str());
    let n = if cs.len() <= MAX_TITLE {
        cs.len()
    } else {
        MAX_TITLE
    };
    let r = string_of_range(&cs, 0, n);
    assert(cs@.subrange(0, n as int) =~= cut_title(cs@));
    r
}

/// The tabs of `raw` that may be kept, in their order: a tab is kept when its
/// trimmed address is at most `MAX_URL` characters, parses with an `http` or
/// `https` scheme and a non-empty host, and no earlier kept tab has that address;
/// its title is trimmed and cut to `MAX_TITLE` characters. At most `MAX_TABS` tabs
/// are kept.
pub fn sanitize_tabs(raw: &[Tab]) -> (out: Vec<Tab>)
    ensures
        tab_views(out@) == sanitized(tab_views(raw@)),
{
    let ghost views = tab_views(raw@);
    let mut out: Vec<Tab> = Vec::new();
    let mut i: usize = 0;
    assert(views.take(0) =~= Seq::<TabView>::empty());
    assert(tab_views(out@) =~= Seq::<TabView>::empty());
    while i < raw.len() && out.len() < MAX_TABS
        invariant
            i <= raw@.len(),
            views == tab_views(raw@),
            sanitized(views.take(i as int)) == tab_views(out@),
        decreases raw@.len() - i,
    {
        let tab = &raw[i];
        assert(views[i as int] == tab@);
        assert(views.take(i + 1).drop_last() =~= views.take(i as int));
        assert(views.take(i + 1).last() == tab@);
        let url = trim(tab.url.as_str());
        if acceptable_url(&url) && !find_url(&out, &url) {
            let ghost before = out@;
            let kept = Tab {
                title: kept_title(tab.title.as_str()),
                url,
                active: tab.active,
                pinned: tab.pinned,
                window_id: tab.window_id,
            };
            out.push(kept);
            assert(tab_views(out@) =~= tab_views(before).push(kept@));
        }
        i = i + 1;
    }
    proof {
        if i < raw.len() {
            lemma_full_stays(views, i as int);
        } else {
            assert(views.take(i as int) =~= views);
        }
    }
    out
}

/// Whether a list of tabs has the shape that `sanitize_tabs` promises: at most
/// `MAX_TABS` tabs, each with a trimmed, acceptable address and a title of at most
/// `MAX_TITLE` characters, and no address twice.
pub open spec fn well_kept(tabs: Seq<TabView>) -> bool {
    &&& tabs.len() <= MAX_TABS
    &&& forall|k: int|
        #![trigger tabs[k]]
        0 <= k < tabs.len() ==> {
            &&& url_acceptable(tabs[k].url)
            &&& trimmed(tabs[k].url) == tabs[k].url
            &&& tabs[k].title.len() <= MAX_TITLE
        }
    &&& forall|j: int, k: int| 0 <= j < k < tabs.len() ==> tabs[j].url != tabs[k].url
}

/// Whatever `sanitize_tabs` keeps is well kept: never more than `MAX_TABS` tabs,
/// only `http`/`https` addresses with a host and at most `MAX_URL` characters,
/// titles of at most `MAX_TITLE` characters, and every address once.
pub proof fn law_sanitized_is_well_kept(raw: Seq<TabView>)
    ensures
        well_kept(sanitized(raw)),
    decreases raw.len(),
{
    if raw.len() > 0 {
        law_sanitized_is_well_kept(raw.drop_last());
        let kept = sanitized(raw.drop_last());
        let tab = raw.last();
        let url = trimmed(tab.url);
        if !(kept.len() >= MAX_TABS || !url_acceptable(url) || holds_url(kept, url)) {
            lemma_trimmed_idempotent(tab.url);
            let out = sanitized(raw);
            assert forall|j: int, k: int| 0 <= j < k < out.len() implies out[j].url
                != out[k].url by {
                if k == kept.len() {
                    assert(out[j] == kept[j]);
                }
            }
        }
    }
}

/// `tabs` with every title trimmed once more.
pub open spec fn titles_retrimmed(tabs: Seq<TabView>) -> Seq<TabView> {
    tabs.map_values(
        |t: TabView|
            TabView {
                title: trimmed(t.title),
                url: t.url,
                active: t.active,
                pinned: t.pinned,
                window_id: t.window_id,
            },
    )
}

proof fn lemma_resanitize_prefix(tabs: Seq<TabView>, i: int)
    requires
        well_kept(tabs),
        0 <= i <= tabs.len(),
    ensures
        sanitized(tabs.take(i)) == titles_retrimmed(tabs.take(i)),
    decreases i,
{
    if i == 0 {
        assert(tabs.take(0) =~= Seq::<TabView>::empty());
        assert(titles_retrimmed(tabs.take(0)) =~= Seq::<TabView>::empty());
    } else {
        lemma_resanitize_prefix(tabs, i - 1);
        let prefix = tabs.take(i);
        assert(prefix.drop_last() =~= tabs.take(i - 1));
        let kept = titles_retrimmed(tabs.take(i - 1));
        let tab = tabs[i - 1];
        assert(prefix.last() == tab);
        assert(!holds_url(kept, tab.url)) by {
            if holds_url(kept, tab.url) {
                let k = choose|k: int| 0 <= k < kept.len() && kept[k].url == tab.url;
                assert(kept[k].url == tabs[k].url);
            }
        }
        assert(tabs[i - 1] == tab);
        lemma_trimmed_shorter(tab.title);
        assert(titles_retrimmed(prefix) =~= kept.push(
            TabView {
                title: trimmed(tab.title),
                url: tab.url,
                active: tab.active,
                pinned: tab.pinned,
                window_id: tab.window_id,
            },
        ));
    }
}

/// Sanitizing a well-kept list keeps every tab, in order, with the same address,
/// flags and window; only titles are trimmed once more.
pub proof fn law_resanitize_keeps_every_tab(tabs: Seq<TabView>)
    requires
        well_kept(tabs),
    ensures
        sanitized(tabs) == titles_retrimmed(tabs),
{
    lemma_resanitize_prefix(tabs, tabs.len() as int);
    assert(tabs.take(tabs.len() as int) =~= tabs);
}

} // verus!
