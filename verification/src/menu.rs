//! The state behind `nuke menu`: the keep list the menu ticks, which apps it
//! lists, and which of them "Quit All" would quit.
use std::collections::HashSet;

use vstd::prelude::*;

use crate::apps::{app_matches, App, Policy};
use crate::config::{keep_key, lemma_keep_key_names_app, spec_keep_key, Config};
use crate::plan::{
    builtin_keep, is_index_selection, matches_any, select_targets, str_views, string_views,
    visible, Plan,
};
use crate::text::{digits, eq_ignore_ascii_case, push_digits, push_str, str_eq_ignore_ascii_case};

verus! {

/// `p` is the first entry of `keep` equal to `key` ignoring ASCII case.
pub open spec fn is_first_match(keep: Seq<Seq<char>>, key: Seq<char>, p: int) -> bool {
    &&& 0 <= p < keep.len()
    &&& eq_ignore_ascii_case(keep[p], key)
    &&& forall|q: int| 0 <= q < p ==> !eq_ignore_ascii_case(#[trigger] keep[q], key)
}

/// Some entry of `keep` equals `key` ignoring ASCII case.
pub open spec fn has_match(keep: Seq<Seq<char>>, key: Seq<char>) -> bool {
    exists|p: int| 0 <= p < keep.len() && eq_ignore_ascii_case(#[trigger] keep[p], key)
}

/// `keep` after ticking `key`: its first case-insensitive match removed, or
/// `key` appended when there is none.
pub open spec fn toggled(keep: Seq<Seq<char>>, key: Seq<char>) -> Seq<Seq<char>> {
    if exists|p: int| is_first_match(keep, key, p) {
        keep.remove(choose|p: int| is_first_match(keep, key, p))
    } else {
        keep.push(key)
    }
}

/// What the menu shows for one listed app.
pub struct MenuEntry {
    /// The app's name, the item's title.
    pub name: String,
    /// The app is kept running: its item is ticked.
    pub kept: bool,
    /// The app's position in the list the menu was rebuilt from.
    pub source: usize,
}

/// The menu as it is rebuilt each time it opens.
pub struct MenuView {
    /// How many listed apps "Quit All" would quit.
    pub doomed: usize,
    /// One entry per listed app, in order.
    pub entries: Vec<MenuEntry>,
}

/// The number of entries that are not ticked.
pub open spec fn count_unkept(entries: Seq<MenuEntry>) -> nat
    decreases entries.len(),
{
    if entries.len() == 0 {
        0
    } else {
        count_unkept(entries.drop_last()) + if entries.last().kept {
            0nat
        } else {
            1nat
        }
    }
}

/// The title of the "Quit All" item when it would quit `doomed` apps.
pub open spec fn quit_all_text(doomed: usize) -> Seq<char> {
    "Quit All ("@ + digits(doomed as nat) + ")"@
}

/// The title of the "Quit All" item when it would quit `doomed` apps.
pub fn quit_all_title(doomed: usize) -> (r: String)
    ensures
        r@ == quit_all_text(doomed),
{
    let mut r = String::new();
    push_str(&mut r, "Quit All (");
    push_digits(&mut r, doomed as u64);
    push_str(&mut r, ")");
    assert(r@ =~= quit_all_text(doomed));
    r
}

/// How many of `apps` "Quit All" quits under `c`.
pub open spec fn count_targets(c: Controller, apps: Seq<App>) -> nat
    decreases apps.len(),
{
    if apps.len() == 0 {
        0
    } else {
        count_targets(c, apps.drop_last()) + if c.spec_targets(apps.last()) {
            1nat
        } else {
            0nat
        }
    }
}

/// The state of the menu bar app.
pub struct Controller {
    /// Apps shown in the menu the last time it was opened; item tags index this.
    pub apps: Vec<App>,
    pub keep: Vec<String>,
    pub include_accessory: bool,
    pub ancestors: HashSet<i32>,
    /// This process, which is never quit.
    pub self_pid: i32,
}

impl Controller {
    /// The app is this process or one of its ancestors.
    pub open spec fn protects(&self, app: App) -> bool {
        app.pid == self.self_pid || self.ancestors@.contains(app.pid)
    }

    /// Whether "Quit All" quits `app` under the current keep list.
    pub open spec fn spec_targets(&self, app: App) -> bool {
        &&& !self.protects(app)
        &&& visible(app.policy, self.include_accessory)
        &&& !matches_any(app, builtin_keep())
        &&& !matches_any(app, string_views(self.keep@))
    }

    /// Whether the menu lists `app`.
    pub open spec fn spec_listed(&self, app: App) -> bool {
        &&& !self.protects(app)
        &&& !matches_any(app, builtin_keep())
        &&& visible(app.policy, self.include_accessory)
    }

    /// The controller for configuration `cfg`, in a process with ancestors
    /// `ancestors` and pid `self_pid`.
    pub fn new(cfg: Config, ancestors: HashSet<i32>, self_pid: i32) -> (c: Controller)
        ensures
            c.apps@.len() == 0,
            c.keep@ == cfg.keep@,
            c.include_accessory == cfg.include_accessory,
            c.ancestors@ == ancestors@,
            c.self_pid == self_pid,
    {
        Controller {
            apps: Vec::new(),
            keep: cfg.keep,
            include_accessory: cfg.include_accessory,
            ancestors,
            self_pid,
        }
    }

    /// Takes the config file as re-read just now, so edits made outside the
    /// menu are never clobbered. On a read error the last known settings stay
    /// and the error is handed back for reporting.
    pub fn reload(&mut self, loaded: Result<Config, String>) -> (r: Option<String>)
        ensures
            match loaded {
                Ok(cfg) => {
                    &&& final(self).keep@ == cfg.keep@
                    &&& final(self).include_accessory == cfg.include_accessory
                    &&& r is None
                },
                Err(e) => {
                    &&& final(self).keep@ == old(self).keep@
                    &&& final(self).include_accessory == old(self).include_accessory
                    &&& r == Some(e)
                },
            },
            final(self).apps@ == old(self).apps@,
            final(self).ancestors@ == old(self).ancestors@,
            final(self).self_pid == old(self).self_pid,
    {
        match loaded {
            Ok(cfg) => {
                self.keep = cfg.keep;
                self.include_accessory = cfg.include_accessory;
                None
            },
            Err(e) => Some(e),
        }
    }

    /// The plan the menu quits by: keep list `keep`, no `--only`.
    pub fn plan<'a>(&'a self, keep: &'a [String]) -> (p: Plan<'a>)
        ensures
            str_views(p.keep@) == string_views(keep@),
            p.only@.len() == 0,
            p.include_accessory == self.include_accessory,
            p.ancestors@ == self.ancestors@,
            p.self_pid == self.self_pid,
    {
        let mut v: Vec<&'a str> = Vec::new();
        let mut i: usize = 0;
        while i < keep.len()
            invariant
                i <= keep@.len(),
                str_views(v@) == string_views(keep@.take(i as int)),
            decreases keep@.len() - i,
        {
            v.push(keep[i].as_str());
            assert(string_views(keep@.take(i + 1)) =~= string_views(keep@.take(i as int)).push(
                keep@[i as int]@,
            ));
            assert(str_views(v@) =~= str_views(v@.drop_last()).push(v@.last()@));
            i = i + 1;
        }
        assert(keep@.take(keep@.len() as int) =~= keep@);
        Plan {
            keep: v,
            only: &[],
            include_accessory: self.include_accessory,
            ancestors: &self.ancestors,
            self_pid: self.self_pid,
        }
    }

    /// Whether "Quit All" quits `app`.
    pub fn targets(&self, app: &App) -> (r: bool)
        ensures
            r == self.spec_targets(*app),
    {
        let p = self.plan(self.keep.as_slice());
        let r = p.targets(app);
        assert(str_views(p.keep@) == string_views(self.keep@));
        r
    }

    /// The positions in `running` of the apps that "Quit All" quits.
    pub fn nuke_targets(&self, running: &[App]) -> (r: Vec<usize>)
        ensures
            is_index_selection(r@, running@.len(), |i: int| self.spec_targets(running@[i])),
    {
        let p = self.plan(self.keep.as_slice());
        let r = select_targets(&p, running);
        assert(str_views(p.keep@) == string_views(self.keep@));
        assert forall|i: int| 0 <= i < running@.len() implies p.spec_targets(running@[i])
            == self.spec_targets(running@[i]) by {}
        assert forall|i: int|
            0 <= i < running@.len() && #[trigger] self.spec_targets(running@[i]) implies r@.contains(
            i as usize,
        ) by {
            let pred = |j: int| p.spec_targets(running@[j]);
            assert(pred(i));
        }
        assert forall|k: int| 0 <= k < r@.len() implies (#[trigger] r@[k]) < running@.len()
            && self.spec_targets(running@[r@[k] as int]) by {
            assert(p.spec_targets(running@[r@[k] as int]));
        }
        r
    }

    /// Ticks or unticks the app at menu position `idx`: its keep key leaves
    /// the keep list if an entry matches it (ignoring ASCII case), and joins
    /// it otherwise. Returns whether the keep list changed, and so must be
    /// saved; a stale position changes nothing.
    pub fn toggle_keep(&mut self, idx: usize) -> (changed: bool)
        ensures
            changed == (idx < old(self).apps@.len()),
            changed ==> string_views(final(self).keep@) == toggled(
                string_views(old(self).keep@),
                spec_keep_key(old(self).apps@[idx as int]),
            ),
            !changed ==> final(self).keep@ == old(self).keep@,
            final(self).apps@ == old(self).apps@,
            final(self).include_accessory == old(self).include_accessory,
            final(self).ancestors@ == old(self).ancestors@,
            final(self).self_pid == old(self).self_pid,
    {
        if idx >= self.apps.len() {
            return false;
        }
        let key = keep_key(&self.apps[idx]);
        let ghost old_keep = string_views(self.keep@);
        let mut p: usize = 0;
        while p < self.keep.len() && !str_eq_ignore_ascii_case(self.keep[p].as_str(), key.as_str())
            invariant
                p <= self.keep@.len(),
                old_keep == string_views(self.keep@),
                forall|q: int| 0 <= q < p ==> !eq_ignore_ascii_case(#[trigger] old_keep[q], key@),
            decreases self.keep@.len() - p,
        {
            p = p + 1;
        }
        if p < self.keep.len() {
            proof {
                assert(is_first_match(old_keep, key@, p as int));
                let c = choose|c: int| is_first_match(old_keep, key@, c);
                if c < p {
                } else if c > p {
                    assert(!eq_ignore_ascii_case(old_keep[p as int], key@));
                }
            }
            self.keep.remove(p);
            assert(string_views(self.keep@) =~= old_keep.remove(p as int));
        } else {
            proof {
                if exists|c: int| is_first_match(old_keep, key@, c) {
                    let c = choose|c: int| is_first_match(old_keep, key@, c);
                    assert(!eq_ignore_ascii_case(old_keep[c], key@));
                }
            }
            self.keep.push(key);
            assert(string_views(self.keep@) =~= old_keep.push(key@));
        }
        true
    }

    /// Whether the menu lists `app`.
    pub fn lists(&self, app: &App) -> (r: bool)
        ensures
            r == self.spec_listed(*app),
    {
        let p = self.plan(self.keep.as_slice());
        p.candidate(app)
    }

    /// Rebuilds the menu from the apps running now, in the order given: lists
    /// the candidates, ticks those the keep list protects, counts the rest,
    /// and remembers the listed apps so that item positions index them.
    pub fn rebuild(&mut self, all: Vec<App>) -> (v: MenuView)
        ensures
            final(self).apps@ == all@.filter(|a: App| old(self).spec_listed(a)),
            v.entries@.len() == final(self).apps@.len(),
            forall|i: int|
                0 <= i < v.entries@.len() ==> {
                    &&& (#[trigger] v.entries@[i]).name@ == final(self).apps@[i].name@
                    &&& v.entries@[i].kept == !old(self).spec_targets(final(self).apps@[i])
                    &&& v.entries@[i].source < all@.len()
                    &&& all@[v.entries@[i].source as int] == final(self).apps@[i]
                },
            forall|i: int, j: int|
                0 <= i < j < v.entries@.len() ==> (#[trigger] v.entries@[i]).source
                    < (#[trigger] v.entries@[j]).source,
            v.doomed == count_unkept(v.entries@),
            v.doomed == count_targets(*old(self), final(self).apps@),
            final(self).keep@ == old(self).keep@,
            final(self).include_accessory == old(self).include_accessory,
            final(self).ancestors@ == old(self).ancestors@,
            final(self).self_pid == old(self).self_pid,
    {
        let ghost input = all@;
        let ghost pred = |a: App| old(self).spec_listed(a);
        let n = all.len();
        let mut rest = all;
        let mut listed: Vec<App> = Vec::new();
        let mut entries: Vec<MenuEntry> = Vec::new();
        let mut doomed: usize = 0;
        let mut i: usize = 0;
        assert(input.skip(0) =~= input);
        while i < n
            invariant
                n == input.len(),
                i <= n,
                rest@ == input.skip(i as int),
                pred == (|a: App| old(self).spec_listed(a)),
                *self == *old(self),
                listed@ == input.take(i as int).filter(pred),
                entries@.len() == listed@.len(),
                forall|j: int|
                    0 <= j < entries@.len() ==> {
                        &&& (#[trigger] entries@[j]).name@ == listed@[j].name@
                        &&& entries@[j].kept == !self.spec_targets(listed@[j])
                        &&& entries@[j].source < i
                        &&& input[entries@[j].source as int] == listed@[j]
                    },
                forall|j: int, k: int|
                    0 <= j < k < entries@.len() ==> (#[trigger] entries@[j]).source
                        < (#[trigger] entries@[k]).source,
                doomed == count_unkept(entries@),
                doomed == count_targets(*self, listed@),
                doomed <= entries@.len(),
                entries@.len() <= i,
            decreases n - i,
        {
            assert(input.skip(i as int)[0] == input[i as int]);
            let app = rest.remove(0);
            assert(input.skip(i as int).remove(0) =~= input.skip(i + 1));
            assert(input.take(i + 1).drop_last() =~= input.take(i as int));
            assert(input.take(i + 1).last() == input[i as int]);
            reveal_with_fuel(Seq::filter, 1);
            if self.lists(&app) {
                let kept = !self.targets(&app);
                let ghost before = entries@;
                entries.push(MenuEntry { name: app.name.clone(), kept, source: i });
                assert(entries@.drop_last() =~= before);
                if !kept {
                    doomed = doomed + 1;
                }
                let ghost before_listed = listed@;
                listed.push(app);
                assert(listed@.drop_last() =~= before_listed);
            }
            i = i + 1;
        }
        assert(input.take(n as int) =~= input);
        self.apps = listed;
        MenuView { doomed, entries }
    }

    /// Flips "Include Menu Bar Apps"; returns the new setting, to be saved.
    pub fn toggle_accessory(&mut self) -> (v: bool)
        ensures
            v == !old(self).include_accessory,
            final(self).include_accessory == v,
            final(self).keep@ == old(self).keep@,
            final(self).apps@ == old(self).apps@,
            final(self).ancestors@ == old(self).ancestors@,
            final(self).self_pid == old(self).self_pid,
    {
        self.include_accessory = !self.include_accessory;
        self.include_accessory
    }
}

// ---------------------------------------------------------------------------
// Laws
// ---------------------------------------------------------------------------

/// The menu hides no app that "Quit All" quits: counting the targets among
/// the listed apps gives the count among all running apps.
pub proof fn lemma_quit_all_count(c: Controller, all: Seq<App>)
    ensures
        count_targets(c, all.filter(|a: App| c.spec_listed(a))) == count_targets(c, all),
    decreases all.len(),
{
    reveal_with_fuel(Seq::filter, 1);
    if all.len() > 0 {
        lemma_quit_all_count(c, all.drop_last());
        let rest = all.drop_last().filter(|a: App| c.spec_listed(a));
        if c.spec_listed(all.last()) {
            assert(rest.push(all.last()).drop_last() =~= rest);
        }
    }
}

/// Ticking a key that the keep list lacks, then ticking it again, gives the
/// keep list back unchanged.
pub proof fn lemma_toggle_twice_restores(keep: Seq<Seq<char>>, key: Seq<char>)
    requires
        !has_match(keep, key),
    ensures
        toggled(toggled(keep, key), key) == keep,
{
    if exists|p: int| is_first_match(keep, key, p) {
        let p = choose|p: int| is_first_match(keep, key, p);
        assert(eq_ignore_ascii_case(keep[p], key));
    }
    let once = keep.push(key);
    assert(toggled(keep, key) == once);
    assert(is_first_match(once, key, keep.len() as int)) by {
        assert forall|q: int| 0 <= q < keep.len() implies !eq_ignore_ascii_case(
            #[trigger] once[q],
            key,
        ) by {
            assert(once[q] == keep[q]);
        }
    }
    let c = choose|c: int| is_first_match(once, key, c);
    if c < keep.len() {
        assert(once[c] == keep[c]);
    }
    assert(once.remove(keep.len() as int) =~= keep);
}

/// Ticking a key flips whether the keep list holds it, when the list held it
/// at most once.
pub proof fn lemma_toggle_flips(keep: Seq<Seq<char>>, key: Seq<char>)
    requires
        forall|p: int, q: int|
            0 <= p < q < keep.len() && eq_ignore_ascii_case(#[trigger] keep[p], key)
                ==> !eq_ignore_ascii_case(#[trigger] keep[q], key),
    ensures
        has_match(toggled(keep, key), key) == !has_match(keep, key),
{
    if exists|p: int| is_first_match(keep, key, p) {
        let p = choose|p: int| is_first_match(keep, key, p);
        let t = keep.remove(p);
        assert(toggled(keep, key) == t);
        if has_match(t, key) {
            let m = choose|m: int| 0 <= m < t.len() && eq_ignore_ascii_case(#[trigger] t[m], key);
            if m < p {
                assert(t[m] == keep[m]);
            } else {
                assert(t[m] == keep[m + 1]);
            }
        }
        assert(has_match(keep, key)) by {
            assert(eq_ignore_ascii_case(keep[p], key));
        }
    } else {
        if has_match(keep, key) {
            // The smallest matching position is a first match.
            let m = choose|m: int| 0 <= m < keep.len() && eq_ignore_ascii_case(#[trigger] keep[m], key);
            lemma_first_match_exists(keep, key, m);
        }
        let t = keep.push(key);
        assert(eq_ignore_ascii_case(t[keep.len() as int], key));
    }
}

/// A matching position implies a first matching position.
proof fn lemma_first_match_exists(keep: Seq<Seq<char>>, key: Seq<char>, m: int)
    requires
        0 <= m < keep.len(),
        eq_ignore_ascii_case(keep[m], key),
    ensures
        exists|p: int| is_first_match(keep, key, p),
    decreases m,
{
    if exists|q: int| 0 <= q < m && eq_ignore_ascii_case(#[trigger] keep[q], key) {
        let q = choose|q: int| 0 <= q < m && eq_ignore_ascii_case(#[trigger] keep[q], key);
        lemma_first_match_exists(keep, key, q);
    } else {
        assert(is_first_match(keep, key, m));
    }
}

/// "Quit All" quits what the command line would quit without `--only`: under
/// a plan with the menu's keep list, menu-bar setting, ancestors and pid, the
/// same apps are targets.
pub proof fn lemma_menu_quits_as_the_plan(c: Controller, p: Plan, app: App)
    requires
        str_views(p.keep@) == string_views(c.keep@),
        p.only@.len() == 0,
        p.include_accessory == c.include_accessory,
        p.ancestors@ == c.ancestors@,
        p.self_pid == c.self_pid,
    ensures
        c.spec_targets(app) == p.spec_targets(app),
{
}

/// A keep entry that names an app, by its visible name or its bundle
/// identifier and ignoring ASCII case, keeps it out of "Quit All".
pub proof fn lemma_keep_entry_keeps_app(c: Controller, app: App, i: int)
    requires
        0 <= i < c.keep@.len(),
        app_matches(app, c.keep@[i]@),
    ensures
        !c.spec_targets(app),
{
    assert(string_views(c.keep@)[i] == c.keep@[i]@);
}

/// "Quit All" quits an app exactly when it is neither this process, an
/// ancestor nor Finder, is shown by the menu-bar setting, and no keep entry
/// names it by visible name or bundle identifier, ignoring ASCII case.
pub proof fn lemma_quit_all_targets(c: Controller, app: App)
    ensures
        c.spec_targets(app) <==> {
            &&& !(app.pid == c.self_pid || c.ancestors@.contains(app.pid))
            &&& visible(app.policy, c.include_accessory)
            &&& !app_matches(app, "com.apple.finder"@)
            &&& forall|i: int| 0 <= i < c.keep@.len() ==> !app_matches(app, #[trigger] c.keep@[i]@)
        },
{
    assert(matches_any(app, builtin_keep()) <==> app_matches(app, "com.apple.finder"@)) by {
        if matches_any(app, builtin_keep()) {
            let k = choose|k: int| 0 <= k < builtin_keep().len() && app_matches(app, #[trigger] builtin_keep()[k]);
            assert(k == 0);
        }
        if app_matches(app, "com.apple.finder"@) {
            assert(app_matches(app, builtin_keep()[0]));
        }
    }
    let keep = string_views(c.keep@);
    if matches_any(app, keep) {
        let k = choose|k: int| 0 <= k < keep.len() && app_matches(app, #[trigger] keep[k]);
        assert(keep[k] == c.keep@[k]@);
    }
    if exists|i: int| 0 <= i < c.keep@.len() && app_matches(app, #[trigger] c.keep@[i]@) {
        let k = choose|k: int| 0 <= k < c.keep@.len() && app_matches(app, #[trigger] c.keep@[k]@);
        assert(keep[k] == c.keep@[k]@);
    }
}

/// A ticked app stays running: once the keep list holds an entry equal
/// (ignoring ASCII case) to the app's keep key, "Quit All" leaves it alone.
pub proof fn lemma_ticked_app_is_kept(c: Controller, app: App)
    requires
        has_match(string_views(c.keep@), spec_keep_key(app)),
    ensures
        !c.spec_targets(app),
{
    let keep = string_views(c.keep@);
    let p = choose|p: int| 0 <= p < keep.len() && eq_ignore_ascii_case(#[trigger] keep[p], spec_keep_key(app));
    lemma_keep_key_names_app(app);
    assert(app_matches(app, keep[p]));
}

} // verus!
