//! The launcher's desktop entries: which entries are wanted, and what has to
//! change in the entries directory to reach that.

use vstd::prelude::*;
use crate::config::{distinct_ids, Config, Target, TargetView};
use crate::digest::{hex_digest, hex_lower, sha256};
use crate::entry::{command, command_line, desktop_text, desktop_value, entry_text, keyword_field, keyword_list};
use crate::text::{blank, chars_of, ends_with, has_prefix, has_suffix, is_blank, push_range, same_text, starts_with};
use crate::web_url::{is_web_url, parse_web_url, url_parse, web_url_result, WebUrl};

verus! {

/// Desktop entries by file name: what the entries directory should hold.
pub struct DesiredEntries {
    entries: Vec<(String, String)>,
    contents: Ghost<Map<Seq<char>, Seq<char>>>,
}

impl View for DesiredEntries {
    type V = Map<Seq<char>, Seq<char>>;

    closed spec fn view(&self) -> Map<Seq<char>, Seq<char>> {
        self.contents@
    }
}

impl DesiredEntries {
    #[verifier::type_invariant]
    spec fn entries_match(self) -> bool {
        &&& forall|i: int, j: int|
            0 <= i < self.entries@.len() && 0 <= j < self.entries@.len() && i != j
                ==> #[trigger] self.entries@[i].0@ != #[trigger] self.entries@[j].0@
        &&& forall|i: int|
            0 <= i < self.entries@.len() ==> self.contents@.contains_key(
                #[trigger] self.entries@[i].0@,
            ) && self.contents@[self.entries@[i].0@] == self.entries@[i].1@
        &&& forall|k: Seq<char>|
            #[trigger] self.contents@.contains_key(k) ==> exists|i: int|
                0 <= i < self.entries@.len() && #[trigger] self.entries@[i].0@ == k
    }

    /// No entries.
    pub fn new() -> (res: DesiredEntries)
        ensures
            res@ == Map::<Seq<char>, Seq<char>>::empty(),
    {
        DesiredEntries { entries: Vec::new(), contents: Ghost(Map::empty()) }
    }

    /// The position of the entry named `name`, if any.
    fn position(&self, name: &str) -> (res: Option<usize>)
        ensures
            res is None <==> !self@.contains_key(name@),
            res matches Some(i) ==> i < self.entries@.len() && self.entries@[i as int].0@
                == name@,
    {
        proof {
            use_type_invariant(self);
        }
        let mut i: usize = 0;
        while i < self.entries.len()
            invariant
                i <= self.entries@.len(),
                forall|j: int| 0 <= j < i ==> #[trigger] self.entries@[j].0@ != name@,
            decreases self.entries@.len() - i,
        {
            if same_text(self.entries[i].0.as_str(), name) {
                proof {
                    use_type_invariant(self);
                }
                return Some(i);
            }
            i = i + 1;
        }
        proof {
            if self@.contains_key(name@) {
                let j = choose|j: int|
                    0 <= j < self.entries@.len() && #[trigger] self.entries@[j].0@ == name@;
                assert(self.entries@[j].0@ == name@);
            }
        }
        None
    }

    /// Whether an entry is named `name`.
    pub fn contains(&self, name: &str) -> (res: bool)
        ensures
            res == self@.contains_key(name@),
    {
        self.position(name).is_some()
    }

    /// Sets the entry `name` to `content`, replacing an entry of that name.
    pub fn insert(&mut self, name: String, content: String)
        ensures
            final(self)@ == old(self)@.insert(name@, content@),
    {
        proof {
            use_type_invariant(&*self);
        }
        let ghost new_contents = self.contents@.insert(name@, content@);
        let pos = self.position(name.as_str());
        let mut taken = DesiredEntries::new();
        std::mem::swap(&mut taken, self);
        proof {
            use_type_invariant(&taken);
        }
        let ghost old_contents = taken.contents@;
        assert(new_contents == old_contents.insert(name@, content@));
        let DesiredEntries { entries: mut entries, contents: _ } = taken;
        let ghost before = entries@;
        match pos {
            Some(i) => {
                entries.set(i, (name, content));
                assert forall|a: int| 0 <= a < entries@.len() implies new_contents.contains_key(
                    #[trigger] entries@[a].0@,
                ) && new_contents[entries@[a].0@] == entries@[a].1@ by {
                    if a != i {
                        assert(before[a].0@ != before[i as int].0@);
                        assert(old_contents.contains_key(before[a].0@));
                    }
                }
                assert forall|a: int, b: int|
                    0 <= a < entries@.len() && 0 <= b < entries@.len() && a != b implies #[trigger] entries@[a].0@
                    != #[trigger] entries@[b].0@ by {
                    assert(before[a].0@ != before[b].0@);
                    if a == i {
                        assert(before[b].0@ != before[i as int].0@);
                    } else if b == i {
                        assert(before[a].0@ != before[i as int].0@);
                    }
                }
                assert forall|k: Seq<char>| #[trigger] new_contents.contains_key(k) implies exists|j: int|
                    0 <= j < entries@.len() && #[trigger] entries@[j].0@ == k by {
                    if k == name@ {
                        assert(entries@[i as int].0@ == k);
                    } else {
                        let j = choose|j: int| 0 <= j < before.len() && #[trigger] before[j].0@ == k;
                        assert(entries@[j].0@ == k);
                    }
                }
            },
            None => {
                entries.push((name, content));
                assert forall|a: int| 0 <= a < entries@.len() implies new_contents.contains_key(
                    #[trigger] entries@[a].0@,
                ) && new_contents[entries@[a].0@] == entries@[a].1@ by {
                    if a < before.len() {
                        assert(old_contents.contains_key(before[a].0@));
                        assert(before[a].0@ != name@);
                    }
                }
                assert forall|a: int, b: int|
                    0 <= a < entries@.len() && 0 <= b < entries@.len() && a != b implies #[trigger] entries@[a].0@
                    != #[trigger] entries@[b].0@ by {
                    if a < before.len() && b < before.len() {
                        assert(before[a].0@ != before[b].0@);
                    } else if a < before.len() {
                        assert(before[a].0@ != name@);
                    } else {
                        assert(before[b].0@ != name@);
                    }
                }
                assert forall|k: Seq<char>| #[trigger] new_contents.contains_key(k) implies exists|j: int|
                    0 <= j < entries@.len() && #[trigger] entries@[j].0@ == k by {
                    if k == name@ {
                        assert(entries@[before.len() as int].0@ == k);
                    } else {
                        let j = choose|j: int| 0 <= j < before.len() && #[trigger] before[j].0@ == k;
                        assert(entries@[j].0@ == k);
                    }
                }
            },
        }
        let ghost candidate = DesiredEntries { entries, contents: Ghost(new_contents) };
        assert(candidate.entries@ == entries@);
        assert(candidate.contents@ == new_contents);
        assert(candidate.entries_match());
        *self = DesiredEntries { entries, contents: Ghost(new_contents) };
    }

    /// The entries, each name once: every name of the map with its content.
    pub fn entries(&self) -> (res: &Vec<(String, String)>)
        ensures
            forall|i: int|
                0 <= i < res@.len() ==> self@.contains_key(#[trigger] res@[i].0@)
                    && self@[res@[i].0@] == res@[i].1@,
            forall|i: int, j: int|
                0 <= i < res@.len() && 0 <= j < res@.len() && i != j ==> #[trigger] res@[i].0@
                    != #[trigger] res@[j].0@,
            forall|k: Seq<char>|
                #[trigger] self@.contains_key(k) ==> exists|i: int|
                    0 <= i < res@.len() && #[trigger] res@[i].0@ == k,
    {
        proof {
            use_type_invariant(self);
        }
        &self.entries
    }
}

/// Whether the file `name` is an entry of the launcher under `prefix`: it
/// begins with `prefix` and ends with `.desktop`.
pub open spec fn is_owned_entry(prefix: Seq<char>, name: Seq<char>) -> bool {
    has_prefix(name, prefix) && has_suffix(name, ".desktop"@)
}

/// The files of `existing`, in order, that are entries under `prefix` and not
/// among the `desired` ones: those that reconciling removes.
pub open spec fn stale_entries(
    prefix: Seq<char>,
    existing: Seq<Seq<char>>,
    desired: Map<Seq<char>, Seq<char>>,
) -> Seq<Seq<char>>
    decreases existing.len(),
{
    if existing.len() == 0 {
        seq![]
    } else {
        let rest = stale_entries(prefix, existing.drop_last(), desired);
        let name = existing.last();
        if is_owned_entry(prefix, name) && !desired.contains_key(name) {
            rest.push(name)
        } else {
            rest
        }
    }
}

/// Reconciling removes a file exactly when it is listed, carries the
/// launcher's prefix and the `.desktop` suffix, and is not wanted. Above all,
/// a file that the launcher does not own is never removed.
pub proof fn lemma_cleanup_preserves_unowned_entries(
    prefix: Seq<char>,
    existing: Seq<Seq<char>>,
    desired: Map<Seq<char>, Seq<char>>,
    name: Seq<char>,
)
    ensures
        stale_entries(prefix, existing, desired).contains(name) <==> (existing.contains(name)
            && is_owned_entry(prefix, name) && !desired.contains_key(name)),
    decreases existing.len(),
{
    if existing.len() > 0 {
        lemma_cleanup_preserves_unowned_entries(prefix, existing.drop_last(), desired, name);
        let rest = stale_entries(prefix, existing.drop_last(), desired);
        assert(existing == existing.drop_last().push(existing.last()));
        if existing.contains(name) {
            let i = choose|i: int| 0 <= i < existing.len() && existing[i] == name;
            if i < existing.len() - 1 {
                assert(existing.drop_last()[i] == name);
            }
        }
        if existing.drop_last().contains(name) {
            let i = choose|i: int| 0 <= i < existing.drop_last().len() && existing.drop_last()[i] == name;
            assert(existing[i] == name);
        }
        if is_owned_entry(prefix, existing.last()) && !desired.contains_key(existing.last()) {
            assert(rest.push(existing.last())[rest.len() as int] == existing.last());
            if rest.contains(name) {
                let i = choose|i: int| 0 <= i < rest.len() && rest[i] == name;
                assert(rest.push(existing.last())[i] == name);
            }
            if rest.push(existing.last()).contains(name) && name != existing.last() {
                let i = choose|i: int| 0 <= i < rest.len() + 1 && rest.push(existing.last())[i] == name;
                assert(rest[i] == name);
            }
        }
    }
}

/// What reconciling the entries directory does: the files to remove, in
/// order, and the entries to write where the file does not already hold them.
pub struct Reconciliation {
    pub remove: Vec<String>,
    pub write: DesiredEntries,
}

/// Plans the reconciliation of the entries directory, listed as `existing`,
/// with the `desired` entries under `prefix`.
pub fn reconcile(prefix: &str, desired: DesiredEntries, existing: &Vec<String>) -> (res: Reconciliation)
    ensures
        res.remove.deep_view() == stale_entries(prefix@, existing.deep_view(), desired@),
        res.write@ == desired@,
{
    let ghost names = existing.deep_view();
    let mut remove: Vec<String> = Vec::new();
    let mut i: usize = 0;
    while i < existing.len()
        invariant
            i <= existing@.len(),
            names == existing.deep_view(),
            names.len() == existing@.len(),
            remove.deep_view() == stale_entries(prefix@, names.take(i as int), desired@),
        decreases existing@.len() - i,
    {
        let name = &existing[i];
        assert(names[i as int] == name@);
        assert(names.take(i + 1).drop_last() == names.take(i as int));
        if starts_with(name.as_str(), prefix) && ends_with(name.as_str(), ".desktop")
            && !desired.contains(name.as_str()) {
            remove.push(name.clone());
            assert(remove.deep_view() == stale_entries(prefix@, names.take(i as int), desired@).push(
                name@,
            ));
        }
        i = i + 1;
    }
    assert(names.take(existing@.len() as int) == names);
    Reconciliation { remove, write: desired }
}

/// Whether an entry wants writing: the file does not hold `content` already
/// (or could not be read).
pub fn needs_write(current: &Option<String>, content: &str) -> (res: bool)
    ensures
        res == !(current matches Some(c) && c@ == content@),
{
    match current {
        Some(c) => !same_text(c.as_str(), content),
        None => true,
    }
}

/// The file name prefix of the entries for saved targets.
pub open spec fn target_prefix() -> Seq<char> {
    "zen-tab-target-"@
}

/// The file name prefix of the entries for open tabs.
pub open spec fn live_prefix() -> Seq<char> {
    "zen-tab-live-"@
}

/// The icon of an entry: the resolved favicon where the page has a favicon
/// and it could be resolved, else the browser's icon.
pub open spec fn chosen_icon(source: Option<Seq<char>>, resolved: Option<Seq<char>>) -> Seq<char> {
    match (source, resolved) {
        (Some(_), Some(path)) => path,
        _ => "zen-browser"@,
    }
}

/// A host as it stands in the keywords: empty where the URL has none.
pub open spec fn host_text(host: Option<Seq<char>>) -> Seq<char> {
    match host {
        Some(h) => h,
        None => seq![],
    }
}

/// The file name of the entry for the saved target `id`.
pub open spec fn target_entry_name(id: Seq<char>) -> Seq<char> {
    target_prefix() + id + ".desktop"@
}

/// The entries for `targets`, in order, with `icons` the resolved favicon of
/// each; the error of the first target whose URL is not a web URL.
pub open spec fn target_entries(
    executable: Seq<char>,
    targets: Seq<(Seq<char>, TargetView)>,
    icons: Seq<Option<Seq<char>>>,
) -> Result<Map<Seq<char>, Seq<char>>, Seq<char>>
    decreases targets.len(),
{
    if targets.len() == 0 {
        Ok(Map::empty())
    } else {
        match target_entries(executable, targets.drop_last(), icons) {
            Err(e) => Err(e),
            Ok(m) => {
                let id = targets.last().0;
                let t = targets.last().1;
                match web_url_result(url_parse(t.url)) {
                    Err(e) => Err(e),
                    Ok(u) => Ok(
                        m.insert(
                            target_entry_name(id),
                            entry_text(
                                executable,
                                t.name,
                                t.aliases + seq![t.url, host_text(u.host)],
                                seq!["open"@, id],
                                chosen_icon(t.favicon, icons[targets.len() - 1]),
                            ),
                        ),
                    ),
                }
            },
        }
    }
}

/// An open tab of the browser, as the extension reports it.
pub struct Tab {
    pub id: String,
    pub title: String,
    pub url: String,
    pub fav_icon_url: Option<String>,
}

/// The mathematical value of a [`Tab`].
pub struct TabView {
    pub id: Seq<char>,
    pub title: Seq<char>,
    pub url: Seq<char>,
    pub fav_icon_url: Option<Seq<char>>,
}

impl View for Tab {
    type V = TabView;

    open spec fn view(&self) -> TabView {
        TabView {
            id: self.id@,
            title: self.title@,
            url: self.url@,
            fav_icon_url: self.fav_icon_url.deep_view(),
        }
    }
}

/// Whether a tab gets an entry: its URL is a web URL, it has an id, and its
/// title is not blank.
pub open spec fn is_listed_tab(t: TabView) -> bool {
    web_url_result(url_parse(t.url)) is Ok && t.id.len() > 0 && !is_blank(t.title)
}

/// The file name of the entry for the tab `id`: named by the first 16 digits
/// of the digest of the id's UTF-8 bytes.
pub open spec fn live_entry_name(id: Seq<char>) -> Seq<char> {
    live_prefix() + hex_lower(sha256(vstd::utf8::encode_utf8(id))).take(16) + ".desktop"@
}

/// The entries for the listed ones of `tabs`, with `icons` the resolved
/// favicon of each; a later tab replaces an earlier one of the same entry name.
pub open spec fn tab_entries(
    executable: Seq<char>,
    tabs: Seq<TabView>,
    icons: Seq<Option<Seq<char>>>,
) -> Map<Seq<char>, Seq<char>>
    decreases tabs.len(),
{
    if tabs.len() == 0 {
        Map::empty()
    } else {
        let m = tab_entries(executable, tabs.drop_last(), icons);
        let t = tabs.last();
        if is_listed_tab(t) {
            m.insert(
                live_entry_name(t.id),
                entry_text(
                    executable,
                    t.title,
                    seq![t.url, host_text(web_url_result(url_parse(t.url))->Ok_0.host)],
                    seq!["focus-tab"@, t.id, t.url],
                    chosen_icon(t.fav_icon_url, icons[tabs.len() - 1]),
                ),
            )
        } else {
            m
        }
    }
}

/// The parsed URL of a tab that gets an entry; `None` for any other tab.
pub fn listed_tab(tab: &Tab) -> (res: Option<WebUrl>)
    ensures
        res is Some <==> is_listed_tab(tab@),
        res matches Some(u) ==> web_url_result(url_parse(tab.url@)) == Ok::<_, Seq<char>>(u@),
{
    match parse_web_url(tab.url.as_str()) {
        Ok(url) => {
            if tab.id.as_str().is_empty() || blank(tab.title.as_str()) {
                None
            } else {
                Some(url)
            }
        },
        Err(_) => None,
    }
}

/// A copy of `v`.
fn copy_strings(v: &Vec<String>) -> (res: Vec<String>)
    ensures
        res.deep_view() == v.deep_view(),
{
    let mut res: Vec<String> = Vec::new();
    let mut i: usize = 0;
    while i < v.len()
        invariant
            i <= v@.len(),
            res.deep_view() == v.deep_view().take(i as int),
            res@.len() == i,
        decreases v@.len() - i,
    {
        let ghost before = res.deep_view();
        let ghost old_vec = res@;
        res.push(v[i].clone());
        assert forall|j: int| 0 <= j < i implies #[trigger] res.deep_view()[j] == before[j] by {
            assert(res@[j] == old_vec[j]);
        }
        assert(res.deep_view() =~= v.deep_view().take(i + 1));
        i = i + 1;
    }
    assert(v.deep_view().take(v@.len() as int) == v.deep_view());
    res
}

/// The host of `url`, or nothing.
fn host_or_empty(url: &WebUrl) -> (res: String)
    ensures
        res@ == host_text(url@.host),
{
    match &url.host {
        Some(h) => h.clone(),
        None => String::new(),
    }
}

/// The icon of an entry (see [`chosen_icon`]).
fn icon_for<'a>(source: &Option<String>, resolved: &'a Option<String>) -> (res: &'a str)
    ensures
        res@ == chosen_icon(source.deep_view(), resolved.deep_view()),
{
    match (source, resolved) {
        (Some(_), Some(path)) => path.as_str(),
        _ => "zen-browser",
    }
}

/// The launcher's entries directory, and the program that its entries run.
pub struct LauncherEntries {
    pub directory: String,
    pub executable: String,
}

impl LauncherEntries {
    /// The text of an entry named `name` that runs the launcher with `arguments`.
    pub fn entry(&self, name: &str, keywords: &[String], arguments: &[&str], icon: &str) -> (res:
        String)
        ensures
            res@ == entry_text(
                self.executable@,
                name@,
                keywords.deep_view(),
                arguments.deep_view(),
                icon@,
            ),
    {
        let mut out = String::from_str("[Desktop Entry]\nType=Application\nName=");
        let n = desktop_value(name);
        out.append(n.as_str());
        out.append("\nKeywords=");
        let k = keyword_list(keywords);
        out.append(k.as_str());
        out.append(";\nExec=");
        let c = command(self.executable.as_str(), arguments);
        out.append(c.as_str());
        out.append("\nIcon=");
        let i = desktop_value(icon);
        out.append(i.as_str());
        out.append(
            "\nTerminal=false\nCategories=Network;WebBrowser;\nStartupNotify=false\nX-Zen-Tab-Launcher=true\n",
        );
        out
    }

    /// The entries for the saved targets of `config`, with `icons` the
    /// resolved favicon of each target, in order.
    pub fn target_entries(&self, config: &Config, icons: &Vec<Option<String>>) -> (res: Result<
        DesiredEntries,
        String,
    >)
        requires
            icons@.len() == config@.targets.len(),
        ensures
            match target_entries(self.executable@, config@.targets, icons.deep_view()) {
                Ok(m) => res matches Ok(d) && d@ == m,
                Err(e) => res matches Err(msg) && msg@ == e,
            },
    {
        let targets = config.targets();
        let ghost all = config@.targets;
        let ghost icon_views = icons.deep_view();
        let mut desired = DesiredEntries::new();
        let mut i: usize = 0;
        while i < targets.len()
            invariant
                i <= targets@.len() == all.len() == icons@.len(),
                all == config@.targets,
                icon_views == icons.deep_view(),
                forall|k: int|
                    0 <= k < targets@.len() ==> (#[trigger] targets@[k].0@, targets@[k].1@) == all[k],
                target_entries(self.executable@, all.take(i as int), icon_views) == Ok::<
                    _,
                    Seq<char>,
                >(desired@),
            decreases targets@.len() - i,
        {
            let id = targets[i].0.as_str();
            let target: &Target = &targets[i].1;
            assert((targets@[i as int].0@, targets@[i as int].1@) == all[i as int]);
            assert(all.take(i + 1).drop_last() == all.take(i as int));
            assert(all.take(i + 1).last() == all[i as int]);
            let url = match parse_web_url(target.url.as_str()) {
                Ok(url) => url,
                Err(e) => {
                    proof {
                        lemma_target_entries_error(self.executable@, all, icon_views, i as int + 1);
                    }
                    return Err(e);
                },
            };
            let mut keywords = copy_strings(&target.aliases);
            keywords.push(target.url.clone());
            keywords.push(host_or_empty(&url));
            assert(keywords.deep_view() =~= target@.aliases + seq![target.url@, host_text(url@.host)]);
            assert(web_url_result(url_parse(target@.url)) == Ok::<_, Seq<char>>(url@));
            let arguments: Vec<&str> = vec!["open", id];
            let icon = icon_for(&target.favicon, &icons[i]);
            assert(icon_views[i as int] == icons@[i as int].deep_view());
            assert(arguments.deep_view() =~= seq!["open"@, id@]);
            let content = self.entry(target.name.as_str(), keywords.as_slice(), arguments.as_slice(), icon);
            let mut name = String::from_str("zen-tab-target-");
            name.append(id);
            name.append(".desktop");
            desired.insert(name, content);
            i = i + 1;
        }
        assert(all.take(targets@.len() as int) == all);
        Ok(desired)
    }

    /// Reconciles the target entries of the directory, listed as `existing`,
    /// with the saved targets of `config`.
    pub fn sync_targets(
        &self,
        config: &Config,
        icons: &Vec<Option<String>>,
        existing: &Vec<String>,
    ) -> (res: Result<Reconciliation, String>)
        requires
            icons@.len() == config@.targets.len(),
        ensures
            match target_entries(self.executable@, config@.targets, icons.deep_view()) {
                Ok(m) => res matches Ok(r) && r.write@ == m && r.remove.deep_view()
                    == stale_entries(target_prefix(), existing.deep_view(), m),
                Err(e) => res matches Err(msg) && msg@ == e,
            },
    {
        let desired = self.target_entries(config, icons)?;
        Ok(reconcile("zen-tab-target-", desired, existing))
    }

    /// The entries for the listed ones of `tabs`, with `icons` the resolved
    /// favicon of each tab, in order.
    pub fn tab_entries(&self, tabs: &Vec<Tab>, icons: &Vec<Option<String>>) -> (res: DesiredEntries)
        requires
            icons@.len() == tabs@.len(),
        ensures
            res@ == tab_entries(
                self.executable@,
                Seq::new(tabs@.len(), |k: int| tabs@[k]@),
                icons.deep_view(),
            ),
    {
        let ghost all = Seq::new(tabs@.len(), |k: int| tabs@[k]@);
        let ghost icon_views = icons.deep_view();
        let mut desired = DesiredEntries::new();
        let mut i: usize = 0;
        while i < tabs.len()
            invariant
                i <= tabs@.len() == all.len() == icons@.len(),
                all == Seq::new(tabs@.len(), |k: int| tabs@[k]@),
                icon_views == icons.deep_view(),
                tab_entries(self.executable@, all.take(i as int), icon_views) == desired@,
            decreases tabs@.len() - i,
        {
            let tab = &tabs[i];
            assert(all.take(i + 1).drop_last() == all.take(i as int));
            assert(all.take(i + 1).last() == tab@);
            match listed_tab(tab) {
                Some(url) => {
                    let digest = hex_digest(tab.id.as_str().as_bytes());
                    let digits = chars_of(digest.as_str());
                    let mut name = String::from_str("zen-tab-live-");
                    push_range(&mut name, &digits, 0, 16);
                    name.append(".desktop");
                    assert(digits@.subrange(0, 16) == digits@.take(16));
                    let mut keywords: Vec<String> = Vec::new();
                    keywords.push(tab.url.clone());
                    keywords.push(host_or_empty(&url));
                    let arguments: Vec<&str> = vec!["focus-tab", tab.id.as_str(), tab.url.as_str()];
                    let icon = icon_for(&tab.fav_icon_url, &icons[i]);
                    assert(icon_views[i as int] == icons@[i as int].deep_view());
                    assert(arguments.deep_view() =~= seq!["focus-tab"@, tab.id@, tab.url@]);
                    assert(keywords.deep_view() =~= seq![tab.url@, host_text(url@.host)]);
                    let content = self.entry(
                        tab.title.as_str(),
                        keywords.as_slice(),
                        arguments.as_slice(),
                        icon,
                    );
                    desired.insert(name, content);
                },
                None => {},
            }
            i = i + 1;
        }
        assert(all.take(tabs@.len() as int) == all);
        desired
    }

    /// Reconciles the tab entries of the directory, listed as `existing`,
    /// with the open `tabs`.
    pub fn sync_tabs(&self, tabs: &Vec<Tab>, icons: &Vec<Option<String>>, existing: &Vec<String>) -> (res:
        Reconciliation)
        requires
            icons@.len() == tabs@.len(),
        ensures
            res.write@ == tab_entries(
                self.executable@,
                Seq::new(tabs@.len(), |k: int| tabs@[k]@),
                icons.deep_view(),
            ),
            res.remove.deep_view() == stale_entries(
                live_prefix(),
                existing.deep_view(),
                res.write@,
            ),
    {
        let desired = self.tab_entries(tabs, icons);
        reconcile("zen-tab-live-", desired, existing)
    }

    /// Removes every tab entry of the directory, listed as `existing`.
    pub fn clear_live(&self, existing: &Vec<String>) -> (res: Reconciliation)
        ensures
            res.write@ == Map::<Seq<char>, Seq<char>>::empty(),
            res.remove.deep_view() == stale_entries(
                live_prefix(),
                existing.deep_view(),
                Map::empty(),
            ),
    {
        reconcile("zen-tab-live-", DesiredEntries::new(), existing)
    }

    /// Removes every entry of the launcher, tab entries first, then target
    /// entries, from the directory listed as `existing`.
    pub fn clear_all(&self, existing: &Vec<String>) -> (res: Reconciliation)
        ensures
            res.write@ == Map::<Seq<char>, Seq<char>>::empty(),
            res.remove.deep_view() == stale_entries(
                live_prefix(),
                existing.deep_view(),
                Map::empty(),
            ) + stale_entries(target_prefix(), existing.deep_view(), Map::empty()),
    {
        let live = self.clear_live(existing);
        let targets = reconcile("zen-tab-target-", DesiredEntries::new(), existing);
        let Reconciliation { remove: mut remove, write } = live;
        let ghost first = remove.deep_view();
        let mut i: usize = 0;
        while i < targets.remove.len()
            invariant
                i <= targets.remove@.len(),
                remove.deep_view() == first + targets.remove.deep_view().take(i as int),
                remove@.len() == first.len() + i,
            decreases targets.remove@.len() - i,
        {
            let ghost before = remove.deep_view();
            let ghost old_vec = remove@;
            remove.push(targets.remove[i].clone());
            assert forall|j: int| 0 <= j < old_vec.len() implies #[trigger] remove.deep_view()[j] == before[j] by {
                assert(remove@[j] == old_vec[j]);
            }
            assert(remove.deep_view() =~= first + targets.remove.deep_view().take(i + 1));
            i = i + 1;
        }
        assert(targets.remove.deep_view().take(targets.remove@.len() as int)
            == targets.remove.deep_view());
        Reconciliation { remove, write }
    }
}

/// Once a target's URL fails, the entries of every longer prefix fail with
/// the same error.
proof fn lemma_target_entries_error(
    executable: Seq<char>,
    targets: Seq<(Seq<char>, TargetView)>,
    icons: Seq<Option<Seq<char>>>,
    n: int,
)
    requires
        1 <= n <= targets.len(),
        target_entries(executable, targets.take(n - 1), icons) is Ok,
        web_url_result(url_parse(targets[n - 1].1.url)) is Err,
    ensures
        target_entries(executable, targets, icons) == Err::<Map<Seq<char>, Seq<char>>, _>(
            web_url_result(url_parse(targets[n - 1].1.url))->Err_0,
        ),
    decreases targets.len() - n,
{
    assert(targets.take(n).drop_last() == targets.take(n - 1));
    assert(targets.take(n).last() == targets[n - 1]);
    lemma_error_persists(executable, targets, icons, n);
}

/// An error of the entries of a prefix is the error of every longer prefix.
proof fn lemma_error_persists(
    executable: Seq<char>,
    targets: Seq<(Seq<char>, TargetView)>,
    icons: Seq<Option<Seq<char>>>,
    n: int,
)
    requires
        0 <= n <= targets.len(),
        target_entries(executable, targets.take(n), icons) is Err,
    ensures
        target_entries(executable, targets, icons) == target_entries(
            executable,
            targets.take(n),
            icons,
        ),
    decreases targets.len() - n,
{
    if n == targets.len() {
        assert(targets.take(n) == targets);
    } else {
        assert(targets.take(n + 1).drop_last() == targets.take(n));
        lemma_error_persists(executable, targets, icons, n + 1);
    }
}

/// A name made of `prefix`, a middle part and `.desktop` is an entry under `prefix`.
proof fn lemma_named_entry_owned(prefix: Seq<char>, middle: Seq<char>)
    ensures
        is_owned_entry(prefix, prefix + middle + ".desktop"@),
{
    let name = prefix + middle + ".desktop"@;
    assert(name.take(prefix.len() as int) == prefix);
    assert(name.skip(name.len() - ".desktop"@.len()) == ".desktop"@);
}

/// Every entry written for the saved targets is an entry under the target
/// prefix, so that cleaning up target entries can reach it.
pub proof fn lemma_target_entries_owned(
    executable: Seq<char>,
    targets: Seq<(Seq<char>, TargetView)>,
    icons: Seq<Option<Seq<char>>>,
    name: Seq<char>,
)
    requires
        target_entries(executable, targets, icons) matches Ok(m) && m.contains_key(name),
    ensures
        is_owned_entry(target_prefix(), name),
    decreases targets.len(),
{
    let id = targets.last().0;
    lemma_named_entry_owned(target_prefix(), id);
    if target_entries(executable, targets.drop_last(), icons) matches Ok(m) && m.contains_key(name) {
        lemma_target_entries_owned(executable, targets.drop_last(), icons, name);
    }
}

/// Every entry written for the open tabs is an entry under the tab prefix.
pub proof fn lemma_tab_entries_owned(
    executable: Seq<char>,
    tabs: Seq<TabView>,
    icons: Seq<Option<Seq<char>>>,
    name: Seq<char>,
)
    requires
        tab_entries(executable, tabs, icons).contains_key(name),
    ensures
        is_owned_entry(live_prefix(), name),
    decreases tabs.len(),
{
    if tabs.len() > 0 {
        let t = tabs.last();
        lemma_named_entry_owned(live_prefix(), hex_lower(sha256(vstd::utf8::encode_utf8(t.id))).take(16));
        if tab_entries(executable, tabs.drop_last(), icons).contains_key(name) {
            lemma_tab_entries_owned(executable, tabs.drop_last(), icons, name);
        }
    }
}

/// Refreshing or clearing the tab entries never removes the entry of a saved
/// target: what it removes carries the tab prefix, which no target entry does.
pub proof fn lemma_tab_cleanup_preserves_targets(
    existing: Seq<Seq<char>>,
    desired: Map<Seq<char>, Seq<char>>,
    name: Seq<char>,
)
    requires
        stale_entries(live_prefix(), existing, desired).contains(name),
    ensures
        !has_prefix(name, target_prefix()),
{
    lemma_cleanup_preserves_unowned_entries(live_prefix(), existing, desired, name);
    reveal_strlit("zen-tab-live-");
    reveal_strlit("zen-tab-target-");
    if has_prefix(name, target_prefix()) {
        assert(name.take(live_prefix().len() as int)[8] == 'l');
        assert(name.take(target_prefix().len() as int)[8] == 't');
    }
}

/// Refreshing the target entries never removes the entry of an open tab.
pub proof fn lemma_target_cleanup_preserves_tabs(
    existing: Seq<Seq<char>>,
    desired: Map<Seq<char>, Seq<char>>,
    name: Seq<char>,
)
    requires
        stale_entries(target_prefix(), existing, desired).contains(name),
    ensures
        !has_prefix(name, live_prefix()),
{
    lemma_cleanup_preserves_unowned_entries(target_prefix(), existing, desired, name);
    reveal_strlit("zen-tab-live-");
    reveal_strlit("zen-tab-target-");
    if has_prefix(name, live_prefix()) {
        assert(name.take(live_prefix().len() as int)[8] == 'l');
        assert(name.take(target_prefix().len() as int)[8] == 't');
    }
}

/// Whether the URL of every one of `targets` is a web URL.
pub open spec fn all_web_urls(targets: Seq<(Seq<char>, TargetView)>) -> bool {
    forall|k: int| 0 <= k < targets.len() ==> #[trigger] is_web_url(targets[k].1.url)
}

impl LauncherEntries {
    /// The favicon to resolve for each saved target, in order: its favicon,
    /// up to the first target whose URL is not a web URL (where syncing stops).
    pub fn target_favicon_sources(config: &Config) -> (res: Vec<Option<String>>)
        ensures
            res@.len() == config@.targets.len(),
            forall|i: int|
                0 <= i < res@.len() ==> #[trigger] res@[i].deep_view() == if all_web_urls(
                    config@.targets.take(i + 1),
                ) {
                    config@.targets[i].1.favicon
                } else {
                    None
                },
    {
        let targets = config.targets();
        let ghost all = config@.targets;
        let mut res: Vec<Option<String>> = Vec::new();
        let mut ok = true;
        let mut i: usize = 0;
        while i < targets.len()
            invariant
                i <= targets@.len() == all.len(),
                all == config@.targets,
                forall|k: int|
                    0 <= k < targets@.len() ==> (#[trigger] targets@[k].0@, targets@[k].1@) == all[k],
                ok == all_web_urls(all.take(i as int)),
                res@.len() == i,
                forall|j: int|
                    0 <= j < i ==> #[trigger] res@[j].deep_view() == if all_web_urls(all.take(j + 1)) {
                        all[j].1.favicon
                    } else {
                        None
                    },
            decreases targets@.len() - i,
        {
            let target = &targets[i].1;
            assert((targets@[i as int].0@, targets@[i as int].1@) == all[i as int]);
            let url_ok = parse_web_url(target.url.as_str()).is_ok();
            assert(url_ok == is_web_url(all[i as int].1.url));
            proof {
                let next = all.take(i + 1);
                let prev = all.take(i as int);
                assert(next[i as int] == all[i as int]);
                assert forall|k: int| 0 <= k < i implies next[k] == prev[k] by {}
                if all_web_urls(next) {
                    assert forall|k: int| 0 <= k < prev.len() implies #[trigger] is_web_url(prev[k].1.url) by {
                        assert(is_web_url(next[k].1.url));
                    }
                    assert(is_web_url(next[i as int].1.url));
                }
                if all_web_urls(prev) && is_web_url(all[i as int].1.url) {
                    assert forall|k: int| 0 <= k < next.len() implies #[trigger] is_web_url(next[k].1.url) by {
                        if k < i {
                            assert(is_web_url(prev[k].1.url));
                        }
                    }
                }
            }
            ok = ok && url_ok;
            let source = if ok {
                match &target.favicon {
                    Some(f) => Some(f.clone()),
                    None => None,
                }
            } else {
                None
            };
            res.push(source);
            i = i + 1;
        }
        res
    }

    /// The favicon to resolve for each tab, in order: the favicon of each tab
    /// that gets an entry.
    pub fn tab_favicon_sources(tabs: &Vec<Tab>) -> (res: Vec<Option<String>>)
        ensures
            res@.len() == tabs@.len(),
            forall|i: int|
                0 <= i < res@.len() ==> #[trigger] res@[i].deep_view() == if is_listed_tab(tabs@[i]@) {
                    tabs@[i]@.fav_icon_url
                } else {
                    None
                },
    {
        let mut res: Vec<Option<String>> = Vec::new();
        let mut i: usize = 0;
        while i < tabs.len()
            invariant
                i <= tabs@.len(),
                res@.len() == i,
                forall|j: int|
                    0 <= j < i ==> #[trigger] res@[j].deep_view() == if is_listed_tab(tabs@[j]@) {
                        tabs@[j]@.fav_icon_url
                    } else {
                        None
                    },
            decreases tabs@.len() - i,
        {
            let tab = &tabs[i];
            let source = if listed_tab(tab).is_some() {
                match &tab.fav_icon_url {
                    Some(f) => Some(f.clone()),
                    None => None,
                }
            } else {
                None
            };
            res.push(source);
            i = i + 1;
        }
        res
    }
}

/// The files of a directory listed as `existing` once `remove` are removed
/// and `written` are written.
pub open spec fn files_after(
    existing: Seq<Seq<char>>,
    remove: Seq<Seq<char>>,
    written: Map<Seq<char>, Seq<char>>,
) -> Set<Seq<char>> {
    Set::new(
        |n: Seq<char>| (existing.contains(n) && !remove.contains(n)) || written.contains_key(n),
    )
}

/// Carrying out a reconciliation brings the directory to the wanted entries
/// and leaves every other file alone: afterwards an entry under `prefix` is
/// there exactly when it is wanted, and any other file exactly when it was
/// there before.
pub proof fn lemma_reconcile_reaches_desired(
    prefix: Seq<char>,
    existing: Seq<Seq<char>>,
    desired: Map<Seq<char>, Seq<char>>,
    name: Seq<char>,
)
    requires
        forall|k: Seq<char>| #[trigger] desired.contains_key(k) ==> is_owned_entry(prefix, k),
    ensures
        is_owned_entry(prefix, name) ==> (files_after(
            existing,
            stale_entries(prefix, existing, desired),
            desired,
        ).contains(name) <==> desired.contains_key(name)),
        !is_owned_entry(prefix, name) ==> (files_after(
            existing,
            stale_entries(prefix, existing, desired),
            desired,
        ).contains(name) <==> existing.contains(name)),
{
    lemma_cleanup_preserves_unowned_entries(prefix, existing, desired, name);
}

/// Clearing every entry removes each listed file that is an entry of the
/// launcher, tab or target, and nothing else.
pub proof fn lemma_clear_all_removes_every_entry(existing: Seq<Seq<char>>, name: Seq<char>)
    ensures
        (stale_entries(live_prefix(), existing, Map::empty()) + stale_entries(
            target_prefix(),
            existing,
            Map::empty(),
        )).contains(name) <==> (existing.contains(name) && (is_owned_entry(live_prefix(), name)
            || is_owned_entry(target_prefix(), name))),
{
    let a = stale_entries(live_prefix(), existing, Map::empty());
    let b = stale_entries(target_prefix(), existing, Map::empty());
    lemma_cleanup_preserves_unowned_entries(live_prefix(), existing, Map::empty(), name);
    lemma_cleanup_preserves_unowned_entries(target_prefix(), existing, Map::empty(), name);
    if (a + b).contains(name) {
        let i = choose|i: int| 0 <= i < (a + b).len() && (a + b)[i] == name;
        if i < a.len() {
            assert(a[i] == name);
        } else {
            assert(b[i - a.len()] == name);
        }
    }
    if a.contains(name) {
        let i = choose|i: int| 0 <= i < a.len() && a[i] == name;
        assert((a + b)[i] == name);
    }
    if b.contains(name) {
        let i = choose|i: int| 0 <= i < b.len() && b[i] == name;
        assert((a + b)[a.len() + i] == name);
    }
}

/// After a target sync is carried out, the target entries in the directory
/// are exactly those of the saved targets, and every file that is no target
/// entry (tab entries among them) is as it was.
pub proof fn lemma_sync_targets_reaches_config(
    executable: Seq<char>,
    targets: Seq<(Seq<char>, TargetView)>,
    icons: Seq<Option<Seq<char>>>,
    existing: Seq<Seq<char>>,
    name: Seq<char>,
)
    requires
        target_entries(executable, targets, icons) is Ok,
    ensures
        ({
            let m = target_entries(executable, targets, icons)->Ok_0;
            let after = files_after(existing, stale_entries(target_prefix(), existing, m), m);
            &&& is_owned_entry(target_prefix(), name) ==> (after.contains(name) <==> m.contains_key(
                name,
            ))
            &&& !is_owned_entry(target_prefix(), name) ==> (after.contains(name)
                <==> existing.contains(name))
        }),
{
    let m = target_entries(executable, targets, icons)->Ok_0;
    assert forall|k: Seq<char>| #[trigger] m.contains_key(k) implies is_owned_entry(target_prefix(), k) by {
        lemma_target_entries_owned(executable, targets, icons, k);
    }
    lemma_reconcile_reaches_desired(target_prefix(), existing, m, name);
}

/// After a tab sync is carried out, the tab entries in the directory are
/// exactly those of the listed tabs, and every file that is no tab entry
/// (target entries among them) is as it was.
pub proof fn lemma_sync_tabs_reaches_tabs(
    executable: Seq<char>,
    tabs: Seq<TabView>,
    icons: Seq<Option<Seq<char>>>,
    existing: Seq<Seq<char>>,
    name: Seq<char>,
)
    ensures
        ({
            let m = tab_entries(executable, tabs, icons);
            let after = files_after(existing, stale_entries(live_prefix(), existing, m), m);
            &&& is_owned_entry(live_prefix(), name) ==> (after.contains(name) <==> m.contains_key(
                name,
            ))
            &&& !is_owned_entry(live_prefix(), name) ==> (after.contains(name)
                <==> existing.contains(name))
        }),
{
    let m = tab_entries(executable, tabs, icons);
    assert forall|k: Seq<char>| #[trigger] m.contains_key(k) implies is_owned_entry(live_prefix(), k) by {
        lemma_tab_entries_owned(executable, tabs, icons, k);
    }
    lemma_reconcile_reaches_desired(live_prefix(), existing, m, name);
}


/// The file name of a target's entry determines the target id.
proof fn lemma_target_entry_name_injective(a: Seq<char>, b: Seq<char>)
    ensures
        target_entry_name(a) == target_entry_name(b) ==> a == b,
{
    if target_entry_name(a) == target_entry_name(b) {
        let p = target_prefix().len() as int;
        assert(target_entry_name(a).len() == p + a.len() + ".desktop"@.len());
        assert(target_entry_name(b).len() == p + b.len() + ".desktop"@.len());
        assert(a =~= target_entry_name(a).subrange(p, p + a.len()));
        assert(b =~= target_entry_name(b).subrange(p, p + b.len()));
    }
}

/// The entry named after a target's id is the one made from that target and
/// the favicon resolved at its position.
proof fn lemma_target_entry_at(
    executable: Seq<char>,
    targets: Seq<(Seq<char>, TargetView)>,
    icons: Seq<Option<Seq<char>>>,
    k: int,
)
    requires
        distinct_ids(targets),
        targets.len() <= icons.len(),
        0 <= k < targets.len(),
        target_entries(executable, targets, icons) is Ok,
    ensures
        web_url_result(url_parse(targets[k].1.url)) is Ok,
        target_entries(executable, targets, icons)->Ok_0.contains_key(
            target_entry_name(targets[k].0),
        ),
        target_entries(executable, targets, icons)->Ok_0[target_entry_name(targets[k].0)]
            == entry_text(
            executable,
            targets[k].1.name,
            targets[k].1.aliases + seq![
                targets[k].1.url,
                host_text(web_url_result(url_parse(targets[k].1.url))->Ok_0.host),
            ],
            seq!["open"@, targets[k].0],
            chosen_icon(targets[k].1.favicon, icons[k]),
        ),
    decreases targets.len(),
{
    let n = targets.len() - 1;
    let front = targets.drop_last();
    assert(target_entries(executable, front, icons) is Ok);
    if k < n {
        assert forall|i: int, j: int|
            0 <= i < front.len() && 0 <= j < front.len() && i != j implies #[trigger] front[i].0
            != #[trigger] front[j].0 by {
            assert(targets[i].0 != targets[j].0);
        }
        lemma_target_entry_at(executable, front, icons, k);
        assert(front[k] == targets[k]);
        lemma_target_entry_name_injective(targets[n].0, targets[k].0);
        assert(targets[n].0 != targets[k].0);
    }
}

/// The entry of each saved target. Where syncing the targets succeeds, every
/// target's URL is a web URL, and the entry named after the target's id is the
/// desktop entry whose name is the target's configured name, whose keywords are
/// its aliases, then its URL, then the URL's host, whose command opens that
/// target, and whose icon is the favicon resolved for that very target (the
/// browser's icon where the target has no favicon or it was not resolved).
pub proof fn lemma_each_target_gets_its_entry(
    executable: Seq<char>,
    targets: Seq<(Seq<char>, TargetView)>,
    icons: Seq<Option<Seq<char>>>,
    k: int,
)
    requires
        distinct_ids(targets),
        icons.len() == targets.len(),
        0 <= k < targets.len(),
        target_entries(executable, targets, icons) is Ok,
    ensures
        ({
            let id = targets[k].0;
            let t = targets[k].1;
            let u = web_url_result(url_parse(t.url));
            let m = target_entries(executable, targets, icons)->Ok_0;
            &&& u is Ok
            &&& m.contains_key(target_prefix() + id + ".desktop"@)
            &&& m[target_prefix() + id + ".desktop"@] == "[Desktop Entry]\nType=Application\nName="@
                + desktop_text(t.name) + "\nKeywords="@ + keyword_field(
                t.aliases + seq![
                    t.url,
                    match u->Ok_0.host {
                        Some(h) => h,
                        None => Seq::<char>::empty(),
                    },
                ],
            ) + ";\nExec="@ + command_line(executable, seq!["open"@, id]) + "\nIcon="@
                + desktop_text(
                match (t.favicon, icons[k]) {
                    (Some(_), Some(p)) => p,
                    _ => "zen-browser"@,
                },
            )
                + "\nTerminal=false\nCategories=Network;WebBrowser;\nStartupNotify=false\nX-Zen-Tab-Launcher=true\n"@
        }),
{
    lemma_target_entry_at(executable, targets, icons, k);
    let t = targets[k].1;
    let u = web_url_result(url_parse(t.url));
    assert(host_text(u->Ok_0.host) == match u->Ok_0.host {
        Some(h) => h,
        None => Seq::<char>::empty(),
    });
    assert(chosen_icon(t.favicon, icons[k]) == match (t.favicon, icons[k]) {
        (Some(_), Some(p)) => p,
        _ => "zen-browser"@,
    });
    let kw = t.aliases + seq![t.url, host_text(u->Ok_0.host)];
    assert(kw =~= t.aliases + seq![
        t.url,
        match u->Ok_0.host {
            Some(h) => h,
            None => Seq::<char>::empty(),
        },
    ]);
}

/// The entries of the saved targets are named after the targets: where
/// syncing succeeds, an entry is written exactly for the name of each target.
pub proof fn lemma_target_entries_are_the_targets(
    executable: Seq<char>,
    targets: Seq<(Seq<char>, TargetView)>,
    icons: Seq<Option<Seq<char>>>,
    name: Seq<char>,
)
    requires
        target_entries(executable, targets, icons) is Ok,
    ensures
        target_entries(executable, targets, icons)->Ok_0.contains_key(name) <==> exists|k: int|
            0 <= k < targets.len() && target_prefix() + #[trigger] targets[k].0 + ".desktop"@
                == name,
    decreases targets.len(),
{
    if targets.len() > 0 {
        let n = targets.len() - 1;
        let front = targets.drop_last();
        lemma_target_entries_are_the_targets(executable, front, icons, name);
        if exists|k: int| 0 <= k < front.len() && target_prefix() + #[trigger] front[k].0 + ".desktop"@ == name {
            let k = choose|k: int| 0 <= k < front.len() && target_prefix() + #[trigger] front[k].0 + ".desktop"@ == name;
            assert(targets[k] == front[k]);
        }
        if exists|k: int| 0 <= k < targets.len() && target_prefix() + #[trigger] targets[k].0 + ".desktop"@ == name {
            let k = choose|k: int| 0 <= k < targets.len() && target_prefix() + #[trigger] targets[k].0 + ".desktop"@ == name;
            if k < n {
                assert(front[k] == targets[k]);
            }
        }
    }
}

/// The entry named after a listed tab, where no later listed tab has an entry
/// of that name, is the one made from that tab and the favicon resolved at its
/// position.
proof fn lemma_tab_entry_at(
    executable: Seq<char>,
    tabs: Seq<TabView>,
    icons: Seq<Option<Seq<char>>>,
    k: int,
)
    requires
        tabs.len() <= icons.len(),
        0 <= k < tabs.len(),
        is_listed_tab(tabs[k]),
        forall|j: int|
            k < j < tabs.len() && is_listed_tab(#[trigger] tabs[j]) ==> live_entry_name(tabs[j].id)
                != live_entry_name(tabs[k].id),
    ensures
        tab_entries(executable, tabs, icons).contains_key(live_entry_name(tabs[k].id)),
        tab_entries(executable, tabs, icons)[live_entry_name(tabs[k].id)] == entry_text(
            executable,
            tabs[k].title,
            seq![tabs[k].url, host_text(web_url_result(url_parse(tabs[k].url))->Ok_0.host)],
            seq!["focus-tab"@, tabs[k].id, tabs[k].url],
            chosen_icon(tabs[k].fav_icon_url, icons[k]),
        ),
    decreases tabs.len(),
{
    let n = tabs.len() - 1;
    let front = tabs.drop_last();
    if k < n {
        assert(front[k] == tabs[k]);
        assert forall|j: int|
            k < j < front.len() && is_listed_tab(#[trigger] front[j]) implies live_entry_name(
            front[j].id,
        ) != live_entry_name(front[k].id) by {
            assert(front[j] == tabs[j]);
            assert(is_listed_tab(tabs[j]));
        }
        lemma_tab_entry_at(executable, front, icons, k);
        if is_listed_tab(tabs[n]) {
            assert(live_entry_name(tabs[n].id) != live_entry_name(tabs[k].id));
        }
    }
}

/// The entry of each open tab. For a tab that gets an entry, where no later
/// tab that gets one has an entry of the same name (which would replace it),
/// the entry named after the tab's id is the desktop entry whose name is the
/// tab's title, whose keywords are the tab's URL and then the URL's host, whose
/// command focuses that tab and falls back to its URL, and whose icon is the
/// favicon resolved for that very tab (the browser's icon where the tab has no
/// favicon or it was not resolved).
pub proof fn lemma_each_tab_gets_its_entry(
    executable: Seq<char>,
    tabs: Seq<TabView>,
    icons: Seq<Option<Seq<char>>>,
    k: int,
)
    requires
        icons.len() == tabs.len(),
        0 <= k < tabs.len(),
        is_listed_tab(tabs[k]),
        forall|j: int|
            k < j < tabs.len() && is_listed_tab(#[trigger] tabs[j]) ==> live_entry_name(tabs[j].id)
                != live_entry_name(tabs[k].id),
    ensures
        ({
            let t = tabs[k];
            let u = web_url_result(url_parse(t.url));
            let m = tab_entries(executable, tabs, icons);
            &&& u is Ok
            &&& m.contains_key(live_entry_name(t.id))
            &&& m[live_entry_name(t.id)] == "[Desktop Entry]\nType=Application\nName="@
                + desktop_text(t.title) + "\nKeywords="@ + keyword_field(
                seq![
                    t.url,
                    match u->Ok_0.host {
                        Some(h) => h,
                        None => Seq::<char>::empty(),
                    },
                ],
            ) + ";\nExec="@ + command_line(executable, seq!["focus-tab"@, t.id, t.url])
                + "\nIcon="@ + desktop_text(
                match (t.fav_icon_url, icons[k]) {
                    (Some(_), Some(p)) => p,
                    _ => "zen-browser"@,
                },
            )
                + "\nTerminal=false\nCategories=Network;WebBrowser;\nStartupNotify=false\nX-Zen-Tab-Launcher=true\n"@
        }),
{
    lemma_tab_entry_at(executable, tabs, icons, k);
    let t = tabs[k];
    let u = web_url_result(url_parse(t.url));
    assert(seq![t.url, host_text(u->Ok_0.host)] =~= seq![
        t.url,
        match u->Ok_0.host {
            Some(h) => h,
            None => Seq::<char>::empty(),
        },
    ]);
    assert(chosen_icon(t.fav_icon_url, icons[k]) == match (t.fav_icon_url, icons[k]) {
        (Some(_), Some(p)) => p,
        _ => "zen-browser"@,
    });
}

/// The entries of the open tabs are named after the tabs that get one: an
/// entry is written exactly for the name of each such tab.
pub proof fn lemma_tab_entries_are_the_listed_tabs(
    executable: Seq<char>,
    tabs: Seq<TabView>,
    icons: Seq<Option<Seq<char>>>,
    name: Seq<char>,
)
    ensures
        tab_entries(executable, tabs, icons).contains_key(name) <==> exists|k: int|
            0 <= k < tabs.len() && is_listed_tab(#[trigger] tabs[k]) && live_entry_name(tabs[k].id)
                == name,
    decreases tabs.len(),
{
    if tabs.len() > 0 {
        let n = tabs.len() - 1;
        let front = tabs.drop_last();
        lemma_tab_entries_are_the_listed_tabs(executable, front, icons, name);
        if exists|k: int| 0 <= k < front.len() && is_listed_tab(#[trigger] front[k]) && live_entry_name(front[k].id) == name {
            let k = choose|k: int| 0 <= k < front.len() && is_listed_tab(#[trigger] front[k]) && live_entry_name(front[k].id) == name;
            assert(tabs[k] == front[k]);
        }
        if exists|k: int| 0 <= k < tabs.len() && is_listed_tab(#[trigger] tabs[k]) && live_entry_name(tabs[k].id) == name {
            let k = choose|k: int| 0 <= k < tabs.len() && is_listed_tab(#[trigger] tabs[k]) && live_entry_name(tabs[k].id) == name;
            if k < n {
                assert(front[k] == tabs[k]);
            }
        }
    }
}

} // verus!
