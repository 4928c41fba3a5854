//! The launcher's configuration: saved targets and the browser's window class,
//! with the rules that a configuration must meet.

use vstd::prelude::*;
use crate::text::{blank, chars_of, is_blank};
use crate::web_url::{is_web_url, parse_web_url};

verus! {

/// How an open tab is matched against a saved target.
#[derive(Clone, Copy, Debug, PartialEq, Eq, Structural)]
pub enum MatchMode {
    Exact,
    Origin,
}

/// What opening a saved target does.
#[derive(Clone, Copy, Debug, PartialEq, Eq, Structural)]
pub enum OpenMode {
    Focus,
    ReuseOrCreate,
    AlwaysNew,
}

/// The window class used when the configuration names none.
pub fn default_window_class() -> (res: String)
    ensures
        res@ == "zen"@,
{
    String::from_str("zen")
}

/// The match mode used when a target names none.
pub fn default_match() -> (res: MatchMode)
    ensures
        res == MatchMode::Origin,
{
    MatchMode::Origin
}

/// The open mode used when a target names none.
pub fn default_open() -> (res: OpenMode)
    ensures
        res == OpenMode::ReuseOrCreate,
{
    OpenMode::ReuseOrCreate
}

/// The name of a match mode in the configuration and in requests.
pub open spec fn match_mode_name(mode: MatchMode) -> Seq<char> {
    match mode {
        MatchMode::Exact => "exact"@,
        MatchMode::Origin => "origin"@,
    }
}

/// The name of an open mode in the configuration and in requests.
pub open spec fn open_mode_name(mode: OpenMode) -> Seq<char> {
    match mode {
        OpenMode::Focus => "focus"@,
        OpenMode::ReuseOrCreate => "reuse-or-create"@,
        OpenMode::AlwaysNew => "always-new"@,
    }
}

impl MatchMode {
    /// This mode's name.
    pub fn name(&self) -> (res: &'static str)
        ensures
            res@ == match_mode_name(*self),
    {
        match self {
            MatchMode::Exact => "exact",
            MatchMode::Origin => "origin",
        }
    }
}

impl OpenMode {
    /// This mode's name.
    pub fn name(&self) -> (res: &'static str)
        ensures
            res@ == open_mode_name(*self),
    {
        match self {
            OpenMode::Focus => "focus",
            OpenMode::ReuseOrCreate => "reuse-or-create",
            OpenMode::AlwaysNew => "always-new",
        }
    }
}

/// A saved target: a web page that the launcher lists and opens.
pub struct Target {
    pub name: String,
    pub url: String,
    pub favicon: Option<String>,
    pub aliases: Vec<String>,
    pub match_mode: MatchMode,
    pub open: OpenMode,
    pub container: Option<String>,
}

/// The mathematical value of a [`Target`].
pub struct TargetView {
    pub name: Seq<char>,
    pub url: Seq<char>,
    pub favicon: Option<Seq<char>>,
    pub aliases: Seq<Seq<char>>,
    pub match_mode: MatchMode,
    pub open: OpenMode,
    pub container: Option<Seq<char>>,
}

impl View for Target {
    type V = TargetView;

    open spec fn view(&self) -> TargetView {
        TargetView {
            name: self.name@,
            url: self.url@,
            favicon: self.favicon.deep_view(),
            aliases: self.aliases.deep_view(),
            match_mode: self.match_mode,
            open: self.open,
            container: self.container.deep_view(),
        }
    }
}

/// The configuration: saved targets by id, and the browser's window class.
/// No two targets share an id.
pub struct Config {
    targets: Vec<(String, Target)>,
    zen_window_class: String,
}

/// The mathematical value of a [`Config`]: its targets in order of insertion.
pub struct ConfigView {
    pub targets: Seq<(Seq<char>, TargetView)>,
    pub zen_window_class: Seq<char>,
}

/// Whether no two entries of `targets` share an id.
pub open spec fn distinct_ids(targets: Seq<(Seq<char>, TargetView)>) -> bool {
    forall|i: int, j: int|
        0 <= i < targets.len() && 0 <= j < targets.len() && i != j ==> #[trigger] targets[i].0
            != #[trigger] targets[j].0
}

/// Whether some entry of `targets` has the id `id`.
pub open spec fn holds_id(targets: Seq<(Seq<char>, TargetView)>, id: Seq<char>) -> bool {
    exists|i: int| 0 <= i < targets.len() && #[trigger] targets[i].0 == id
}

impl View for Config {
    type V = ConfigView;

    closed spec fn view(&self) -> ConfigView {
        ConfigView {
            targets: Seq::new(
                self.targets@.len(),
                |i: int| (self.targets@[i].0@, self.targets@[i].1@),
            ),
            zen_window_class: self.zen_window_class@,
        }
    }
}

impl Config {
    #[verifier::type_invariant]
    spec fn ids_distinct(self) -> bool {
        forall|i: int, j: int|
            0 <= i < self.targets@.len() && 0 <= j < self.targets@.len() && i != j
                ==> #[trigger] self.targets@[i].0@ != #[trigger] self.targets@[j].0@
    }

    /// A configuration with no targets.
    pub fn new(zen_window_class: String) -> (res: Config)
        ensures
            res@.targets.len() == 0,
            res@.zen_window_class == zen_window_class@,
    {
        Config { targets: Vec::new(), zen_window_class }
    }

    /// The window class of the browser.
    pub fn zen_window_class(&self) -> (res: &String)
        ensures
            res@ == self@.zen_window_class,
    {
        &self.zen_window_class
    }

    /// The targets, in order of insertion.
    pub fn targets(&self) -> (res: &Vec<(String, Target)>)
        ensures
            res@.len() == self@.targets.len(),
            forall|i: int|
                0 <= i < res@.len() ==> (#[trigger] res@[i].0@, res@[i].1@) == self@.targets[i],
            distinct_ids(self@.targets),
    {
        proof {
            use_type_invariant(self);
        }
        &self.targets
    }

    /// The position of the target named `id`, if any.
    fn position(&self, id: &str) -> (res: Option<usize>)
        ensures
            res is None <==> !holds_id(self@.targets, id@),
            res matches Some(i) ==> i < self@.targets.len() && self@.targets[i as int].0 == id@,
    {
        let mut i: usize = 0;
        while i < self.targets.len()
            invariant
                i <= self.targets@.len(),
                forall|j: int| 0 <= j < i ==> #[trigger] self@.targets[j].0 != id@,
            decreases self.targets@.len() - i,
        {
            if crate::text::same_text(self.targets[i].0.as_str(), id) {
                assert(self@.targets[i as int].0 == id@);
                return Some(i);
            }
            i = i + 1;
        }
        None
    }

    /// The target named `id`, if any.
    pub fn target(&self, id: &str) -> (res: Option<&Target>)
        ensures
            res is None <==> !holds_id(self@.targets, id@),
            res matches Some(t) ==> exists|i: int|
                0 <= i < self@.targets.len() && #[trigger] self@.targets[i] == (id@, t@),
    {
        match self.position(id) {
            Some(i) => {
                let t = &self.targets[i].1;
                assert(self@.targets[i as int] == (id@, t@));
                Some(t)
            },
            None => None,
        }
    }

    /// Sets the target named `id`, replacing one of that id if there is one
    /// (what inserting into a map does); a new id goes last.
    pub fn insert_target(&mut self, id: String, target: Target)
        ensures
            holds_id(old(self)@.targets, id@) ==> final(self)@.targets.len() == old(
                self,
            )@.targets.len(),
            !holds_id(old(self)@.targets, id@) ==> final(self)@.targets == old(
                self,
            )@.targets.push((id@, target@)),
            forall|i: int|
                0 <= i < old(self)@.targets.len() ==> #[trigger] final(self)@.targets[i] == if old(
                    self,
                )@.targets[i].0 == id@ {
                    (id@, target@)
                } else {
                    old(self)@.targets[i]
                },
            final(self)@.zen_window_class == old(self)@.zen_window_class,
    {
        proof {
            use_type_invariant(&*self);
        }
        let ghost before = self@.targets;
        match self.position(id.as_str()) {
            Some(i) => {
                let mut targets: Vec<(String, Target)> = Vec::new();
                std::mem::swap(&mut targets, &mut self.targets);
                let ghost old_targets = targets@;
                targets.set(i, (id, target));
                assert forall|a: int, b: int|
                    0 <= a < targets@.len() && 0 <= b < targets@.len() && a != b implies #[trigger] targets@[a].0@
                    != #[trigger] targets@[b].0@ by {
                    assert(old_targets[a].0@ != old_targets[b].0@);
                    if a != i && b != i {
                    } else if a == i {
                        assert(old_targets[b].0@ != old_targets[i as int].0@);
                    } else {
                        assert(old_targets[a].0@ != old_targets[i as int].0@);
                    }
                }
                self.targets = targets;
                assert forall|k: int| 0 <= k < before.len() implies #[trigger] self@.targets[k]
                    == if before[k].0 == id@ {
                    (id@, target@)
                } else {
                    before[k]
                } by {
                    if k != i {
                        assert(before[k].0 != before[i as int].0);
                    }
                }
            },
            None => {
                let mut targets: Vec<(String, Target)> = Vec::new();
                std::mem::swap(&mut targets, &mut self.targets);
                let ghost old_targets = targets@;
                targets.push((id, target));
                assert forall|a: int, b: int|
                    0 <= a < targets@.len() && 0 <= b < targets@.len() && a != b implies #[trigger] targets@[a].0@
                    != #[trigger] targets@[b].0@ by {
                    if a < old_targets.len() && b < old_targets.len() {
                        assert(old_targets[a].0@ != old_targets[b].0@);
                    } else if a < old_targets.len() {
                        assert(before[a].0 != id@);
                    } else {
                        assert(before[b].0 != id@);
                    }
                }
                self.targets = targets;
                assert(self@.targets == before.push((id@, target@)));
            },
        }
    }
}

/// Whether `c` may stand in a target id: a lowercase ASCII letter, an ASCII
/// digit, `.`, `-` or `_`.
pub open spec fn is_id_char(c: char) -> bool {
    ('a' <= c && c <= 'z') || ('0' <= c && c <= '9') || c == '.' || c == '-' || c == '_'
}

/// Whether `id` is a valid target id: not empty, and made of id characters.
pub open spec fn is_valid_id(id: Seq<char>) -> bool {
    id.len() > 0 && forall|i: int| 0 <= i < id.len() ==> #[trigger] is_id_char(id[i])
}

/// The characters of a target id by their code points: every lowercase ASCII
/// letter (`a` is 97, `z` is 122), every ASCII digit (48 to 57), `.` (46),
/// `-` (45) and `_` (95), and nothing else; an id is valid exactly when it is
/// not empty and made of these.
pub proof fn lemma_valid_id_characters(id: Seq<char>)
    ensures
        is_valid_id(id) <==> (id.len() > 0 && forall|i: int|
            0 <= i < id.len() ==> {
                let code = #[trigger] id[i] as int;
                (97 <= code <= 122) || (48 <= code <= 57) || code == 46 || code == 45
                    || code == 95
            }),
{
    assert forall|c: char| #[trigger] is_id_char(c) <==> {
        let code = c as int;
        (97 <= code <= 122) || (48 <= code <= 57) || code == 46 || code == 45 || code == 95
    } by {}
    if is_valid_id(id) {
        assert forall|i: int| 0 <= i < id.len() implies {
            let code = #[trigger] id[i] as int;
            (97 <= code <= 122) || (48 <= code <= 57) || code == 46 || code == 45 || code == 95
        } by {
            assert(is_id_char(id[i]));
        }
    }
}

/// The first problem with a target, given whether its URL and its favicon
/// (where it has one) are web URLs; `None` where there is none.
pub open spec fn target_problem_given(
    id: Seq<char>,
    t: TargetView,
    url_ok: bool,
    favicon_ok: bool,
) -> Option<Seq<char>> {
    if !is_valid_id(id) {
        Some("invalid target id: "@ + id)
    } else if is_blank(t.name) {
        Some("target "@ + id + " needs a non-empty name"@)
    } else if !url_ok {
        Some("target "@ + id + " needs an http or https URL"@)
    } else if t.favicon is Some && !favicon_ok {
        Some("target "@ + id + " favicon must be an http or https URL"@)
    } else if t.container matches Some(c) && is_blank(c) {
        Some("target "@ + id + " container must not be empty"@)
    } else {
        None
    }
}

/// A target passes its check exactly when its id is valid, its name is not
/// blank, its URL is a web URL, its favicon (where it has one) is a web URL
/// and its container (where it has one) is not blank; an invalid id is
/// reported before anything else, and every problem names the target's id.
pub proof fn lemma_target_problem_cases(id: Seq<char>, t: TargetView, url_ok: bool, favicon_ok: bool)
    ensures
        target_problem_given(id, t, url_ok, favicon_ok) is None <==> (is_valid_id(id) && !is_blank(
            t.name,
        ) && url_ok && (t.favicon is Some ==> favicon_ok) && (t.container matches Some(c)
            ==> !is_blank(c))),
        !is_valid_id(id) ==> target_problem_given(id, t, url_ok, favicon_ok) == Some(
            "invalid target id: "@ + id,
        ),
        is_valid_id(id) ==> (target_problem_given(id, t, url_ok, favicon_ok) matches Some(m) ==> (
        m.take(7) == "target "@ && m.subrange(7, 7 + id.len() as int) == id)),
{
    reveal_strlit("target ");
    if is_valid_id(id) {
        if target_problem_given(id, t, url_ok, favicon_ok) is Some {
            let m = target_problem_given(id, t, url_ok, favicon_ok)->Some_0;
            assert(m.take(7) =~= "target "@);
            assert(m.subrange(7, 7 + id.len() as int) =~= id);
        }
    }
}

/// The first problem with a target; `None` where there is none.
pub open spec fn target_problem(id: Seq<char>, t: TargetView) -> Option<Seq<char>> {
    target_problem_given(
        id,
        t,
        is_web_url(t.url),
        match t.favicon {
            Some(f) => is_web_url(f),
            None => true,
        },
    )
}

/// The problem with the first target, in order, that has one.
pub open spec fn first_problem(targets: Seq<(Seq<char>, TargetView)>) -> Option<Seq<char>>
    decreases targets.len(),
{
    if targets.len() == 0 {
        None
    } else {
        match target_problem(targets[0].0, targets[0].1) {
            Some(e) => Some(e),
            None => first_problem(targets.drop_first()),
        }
    }
}

/// Validation reports the first target, in order, that has a problem: there
/// is no problem exactly when no target has one, and a problem reported is
/// that of some target every target before which has none.
pub proof fn lemma_first_problem_is_first(targets: Seq<(Seq<char>, TargetView)>)
    ensures
        first_problem(targets) is None <==> forall|k: int|
            0 <= k < targets.len() ==> #[trigger] target_problem(targets[k].0, targets[k].1) is None,
        first_problem(targets) matches Some(e) ==> exists|k: int|
            0 <= k < targets.len() && #[trigger] target_problem(targets[k].0, targets[k].1) == Some(e)
                && forall|j: int| 0 <= j < k ==> #[trigger] target_problem(targets[j].0, targets[j].1) is None,
    decreases targets.len(),
{
    if targets.len() > 0 {
        let rest = targets.drop_first();
        lemma_first_problem_is_first(rest);
        assert forall|k: int| 0 <= k < rest.len() implies rest[k] == targets[k + 1] by {}
        if target_problem(targets[0].0, targets[0].1) is None {
            if first_problem(rest) is None {
                assert forall|k: int| 0 <= k < targets.len() implies #[trigger] target_problem(
                    targets[k].0,
                    targets[k].1,
                ) is None by {
                    if k > 0 {
                        assert(target_problem(rest[k - 1].0, rest[k - 1].1) is None);
                    }
                }
            } else {
                let e = first_problem(rest)->Some_0;
                let k = choose|k: int|
                    0 <= k < rest.len() && #[trigger] target_problem(rest[k].0, rest[k].1) == Some(e)
                        && forall|j: int| 0 <= j < k ==> #[trigger] target_problem(rest[j].0, rest[j].1) is None;
                assert(target_problem(targets[k + 1].0, targets[k + 1].1) == Some(e));
                assert forall|j: int| 0 <= j < k + 1 implies #[trigger] target_problem(
                    targets[j].0,
                    targets[j].1,
                ) is None by {
                    if j > 0 {
                        assert(target_problem(rest[j - 1].0, rest[j - 1].1) is None);
                    }
                }
                if forall|k: int| 0 <= k < targets.len() ==> #[trigger] target_problem(targets[k].0, targets[k].1) is None {
                    assert(target_problem(targets[k + 1].0, targets[k + 1].1) is None);
                }
            }
        } else {
            assert(target_problem(targets[0].0, targets[0].1) == first_problem(targets));
        }
    }
}

/// What validating a configuration answers.
pub open spec fn config_check(c: ConfigView) -> Result<(), Seq<char>> {
    if is_blank(c.zen_window_class) {
        Err("zenWindowClass must not be empty"@)
    } else {
        match first_problem(c.targets) {
            Some(e) => Err(e),
            None => Ok(()),
        }
    }
}

/// Whether every character of `id` may stand in a target id, and `id` is not empty.
pub fn valid_id(id: &str) -> (res: bool)
    ensures
        res == is_valid_id(id@),
{
    let v = chars_of(id);
    if v.len() == 0 {
        return false;
    }
    let mut i: usize = 0;
    while i < v.len()
        invariant
            i <= v.len(),
            v@ == id@,
            forall|j: int| 0 <= j < i ==> #[trigger] is_id_char(v@[j]),
        decreases v.len() - i,
    {
        let c = v[i];
        if !(('a' <= c && c <= 'z') || ('0' <= c && c <= '9') || c == '.' || c == '-' || c == '_') {
            assert(!is_id_char(id@[i as int]));
            return false;
        }
        i = i + 1;
    }
    true
}

/// `first` followed by `id` and `last`.
fn message(first: &str, id: &str, last: &str) -> (res: String)
    ensures
        res@ == first@ + id@ + last@,
{
    let mut s = String::from_str(first);
    s.append(id);
    s.append(last);
    s
}

/// Checks one target, given whether its URL and its favicon (where it has one)
/// are web URLs: the first problem found, in the order id, name, URL, favicon,
/// container.
pub fn target_check(id: &str, target: &Target, url_ok: bool, favicon_ok: bool) -> (res: Result<
    (),
    String,
>)
    ensures
        match target_problem_given(id@, target@, url_ok, favicon_ok) {
            Some(e) => res matches Err(m) && m@ == e,
            None => res is Ok,
        },
{
    if !valid_id(id) {
        let mut m = String::from_str("invalid target id: ");
        m.append(id);
        return Err(m);
    }
    if blank(target.name.as_str()) {
        return Err(message("target ", id, " needs a non-empty name"));
    }
    if !url_ok {
        return Err(message("target ", id, " needs an http or https URL"));
    }
    if target.favicon.is_some() && !favicon_ok {
        return Err(message("target ", id, " favicon must be an http or https URL"));
    }
    match &target.container {
        Some(c) => {
            if blank(c.as_str()) {
                return Err(message("target ", id, " container must not be empty"));
            }
        },
        None => {},
    }
    Ok(())
}

/// Checks one target: the first problem found, in the order id, name, URL,
/// favicon, container.
pub fn validate_target(id: &str, target: &Target) -> (res: Result<(), String>)
    ensures
        match target_problem(id@, target@) {
            Some(e) => res matches Err(m) && m@ == e,
            None => res is Ok,
        },
{
    let url_ok = parse_web_url(target.url.as_str()).is_ok();
    let favicon_ok = match &target.favicon {
        Some(f) => parse_web_url(f.as_str()).is_ok(),
        None => true,
    };
    target_check(id, target, url_ok, favicon_ok)
}

/// Checks a configuration: the window class must not be blank, and each
/// target, in order, must pass [`validate_target`]; the first problem found is
/// the error.
pub fn validate_config(config: &Config) -> (res: Result<(), String>)
    ensures
        match config_check(config@) {
            Ok(()) => res is Ok,
            Err(e) => res matches Err(m) && m@ == e,
        },
{
    if blank(config.zen_window_class().as_str()) {
        return Err(String::from_str("zenWindowClass must not be empty"));
    }
    let targets = config.targets();
    let ghost all = config@.targets;
    let mut i: usize = 0;
    assert(all.skip(0) == all);
    while i < targets.len()
        invariant
            i <= targets@.len() == all.len(),
            all == config@.targets,
            !is_blank(config@.zen_window_class),
            forall|k: int| 0 <= k < targets@.len() ==> (#[trigger] targets@[k].0@, targets@[k].1@) == all[k],
            first_problem(all) == first_problem(all.skip(i as int)),
        decreases targets@.len() - i,
    {
        assert((targets@[i as int].0@, targets@[i as int].1@) == all[i as int]);
        let checked = validate_target(targets[i].0.as_str(), &targets[i].1);
        assert(all.skip(i as int)[0] == all[i as int]);
        if checked.is_err() {
            assert(target_problem(all[i as int].0, all[i as int].1) is Some);
            assert(first_problem(all.skip(i as int)) == target_problem(all[i as int].0, all[i as int].1));
            return checked;
        }
        assert(all.skip(i as int).drop_first() == all.skip(i + 1));
        i = i + 1;
    }
    Ok(())
}

/// What the browser extension is asked to do to open a saved target.
pub struct TargetRequest {
    pub target_id: String,
    pub url: String,
    pub match_mode: &'static str,
    pub open: &'static str,
    pub container: Option<String>,
}

/// The action named in every target request.
pub open spec fn open_target_action() -> Seq<char> {
    "open-target"@
}

impl TargetRequest {
    /// The action that the request names.
    pub fn action(&self) -> (res: &'static str)
        ensures
            res@ == open_target_action(),
    {
        "open-target"
    }
}

/// The request that opens `target`, saved under `id`.
pub fn target_request(id: &str, target: &Target) -> (res: TargetRequest)
    ensures
        res.target_id@ == id@,
        res.url@ == target.url@,
        res.match_mode@ == match_mode_name(target.match_mode),
        res.open@ == open_mode_name(target.open),
        res.container.deep_view() == target.container.deep_view(),
{
    TargetRequest {
        target_id: String::from_str(id),
        url: target.url.clone(),
        match_mode: target.match_mode.name(),
        open: target.open.name(),
        container: match &target.container {
            Some(c) => Some(c.clone()),
            None => None,
        },
    }
}

} // verus!
