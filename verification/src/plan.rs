//! Deciding which apps to quit. Shared by the CLI and the menu bar app.
use std::collections::HashSet;

use vstd::prelude::*;

use crate::apps::{app_matches, App, Policy};
use crate::text::ascii_lower;

verus! {

/// Always protected, regardless of config. Finder cannot be quit this way anyway.
pub const BUILTIN_KEEP: [&'static str; 1] = ["com.apple.finder"];

/// The keys that are always protected: Finder's bundle identifier.
pub open spec fn builtin_keep() -> Seq<Seq<char>> {
    seq!["com.apple.finder"@]
}

/// Whether an app of policy `policy` is quit by default: apps with a Dock
/// icon always, menu-bar apps only when `include_accessory` is set.
pub open spec fn visible(policy: Policy, include_accessory: bool) -> bool {
    match policy {
        Policy::Regular => true,
        Policy::Accessory => include_accessory,
        Policy::Prohibited => false,
    }
}

/// Some string of `needles` names `app`.
pub open spec fn matches_any(app: App, needles: Seq<Seq<char>>) -> bool {
    exists|i: int| 0 <= i < needles.len() && app_matches(app, #[trigger] needles[i])
}

/// The characters of each of `v`.
pub open spec fn str_views(v: Seq<&str>) -> Seq<Seq<char>> {
    v.map_values(|s: &str| s@)
}

/// The characters of each of `v`.
pub open spec fn string_views(v: Seq<String>) -> Seq<Seq<char>> {
    v.map_values(|s: String| s@)
}

pub struct Plan<'a> {
    /// Names or bundle ids to leave alone (config `keep` + `--except`).
    pub keep: Vec<&'a str>,
    /// If non-empty, quit exactly these and ignore `keep`.
    pub only: &'a [String],
    pub include_accessory: bool,
    pub ancestors: &'a HashSet<i32>,
    /// This process, which is never a target.
    pub self_pid: i32,
}

impl<'a> Plan<'a> {
    /// The app is this process or one of its ancestors.
    pub open spec fn protects(&self, app: App) -> bool {
        app.pid == self.self_pid || self.ancestors@.contains(app.pid)
    }

    /// Whether the plan quits `app`.
    pub open spec fn spec_targets(&self, app: App) -> bool {
        if self.protects(app) {
            false
        } else if self.only@.len() > 0 {
            matches_any(app, string_views(self.only@)) && !matches_any(app, builtin_keep())
        } else {
            &&& visible(app.policy, self.include_accessory)
            &&& !matches_any(app, builtin_keep())
            &&& !matches_any(app, str_views(self.keep@))
        }
    }

    /// Whether `app` may be offered for the keep list.
    pub open spec fn spec_candidate(&self, app: App) -> bool {
        &&& !self.protects(app)
        &&& !matches_any(app, builtin_keep())
        &&& visible(app.policy, self.include_accessory)
    }

    /// True if this app would be quit under the plan. This process, its
    /// ancestor chain and Finder are never targets, whatever the flags say.
    pub fn targets(&self, app: &App) -> (r: bool)
        ensures
            r == self.spec_targets(*app),
            self.protects(*app) ==> !r,
            matches_any(*app, builtin_keep()) ==> !r,
    {
        if app.pid == self.self_pid || self.ancestors.contains(&app.pid) {
            return false;
        }
        if self.only.len() > 0 {
            return matches_any_string(app, self.only) && !builtin_kept(app);
        }
        let visible = match app.policy {
            Policy::Regular => true,
            Policy::Accessory => self.include_accessory,
            Policy::Prohibited => false,
        };
        visible && !builtin_kept(app) && !matches_any_str(app, self.keep.as_slice())
    }

    /// True if this app is one the user could plausibly want listed in a keep list.
    pub fn candidate(&self, app: &App) -> (r: bool)
        ensures
            r == self.spec_candidate(*app),
    {
        app.pid != self.self_pid && !self.ancestors.contains(&app.pid) && !builtin_kept(app)
            && match app.policy {
            Policy::Regular => true,
            Policy::Accessory => self.include_accessory,
            Policy::Prohibited => false,
        }
    }
}

fn builtin_kept(app: &App) -> (r: bool)
    ensures
        r == matches_any(*app, builtin_keep()),
{
    proof {
        assert(str_views(BUILTIN_KEEP@) =~= builtin_keep());
    }
    matches_any_str(app, BUILTIN_KEEP.as_slice())
}

/// Some string of `needles` names `app`.
pub fn matches_any_str(app: &App, needles: &[&str]) -> (r: bool)
    ensures
        r == matches_any(*app, str_views(needles@)),
{
    let mut i: usize = 0;
    while i < needles.len()
        invariant
            i <= needles@.len(),
            forall|j: int| 0 <= j < i ==> !app_matches(*app, #[trigger] needles@[j]@),
        decreases needles@.len() - i,
    {
        if app.matches(needles[i]) {
            assert(str_views(needles@)[i as int] == needles@[i as int]@);
            return true;
        }
        i = i + 1;
    }
    proof {
        if matches_any(*app, str_views(needles@)) {
            let j = choose|j: int|
                0 <= j < needles@.len() && app_matches(*app, #[trigger] str_views(needles@)[j]);
            assert(str_views(needles@)[j] == needles@[j]@);
        }
    }
    false
}

/// Some string of `needles` names `app`.
pub fn matches_any_string(app: &App, needles: &[String]) -> (r: bool)
    ensures
        r == matches_any(*app, string_views(needles@)),
{
    let mut i: usize = 0;
    while i < needles.len()
        invariant
            i <= needles@.len(),
            forall|j: int| 0 <= j < i ==> !app_matches(*app, #[trigger] needles@[j]@),
        decreases needles@.len() - i,
    {
        if app.matches(needles[i].as_str()) {
            assert(string_views(needles@)[i as int] == needles@[i as int]@);
            return true;
        }
        i = i + 1;
    }
    proof {
        if matches_any(*app, string_views(needles@)) {
            let j = choose|j: int|
                0 <= j < needles@.len() && app_matches(*app, #[trigger] string_views(needles@)[j]);
            assert(string_views(needles@)[j] == needles@[j]@);
        }
    }
    false
}

// ---------------------------------------------------------------------------
// Laws
// ---------------------------------------------------------------------------

/// Without `--only`, an app is quit exactly when it is a candidate for the
/// keep list and no keep entry names it.
pub proof fn lemma_targets_are_unkept_candidates(plan: Plan, app: App)
    requires
        plan.only@.len() == 0,
    ensures
        plan.spec_targets(app) <==> (plan.spec_candidate(app) && !matches_any(
            app,
            str_views(plan.keep@),
        )),
{
}

/// With `--only`, the keep list and the menu-bar setting make no difference:
/// two plans that agree on `only`, the ancestors and this process quit the
/// same apps.
pub proof fn lemma_only_overrides_keep(p: Plan, q: Plan, app: App)
    requires
        p.only@.len() > 0,
        p.only@ == q.only@,
        p.ancestors@ == q.ancestors@,
        p.self_pid == q.self_pid,
    ensures
        p.spec_targets(app) == q.spec_targets(app),
{
}

/// Finder is never quit, whatever the keep list, `--only` and the menu-bar
/// setting say.
pub proof fn lemma_finder_is_kept(plan: Plan, app: App)
    requires
        app_matches(app, "com.apple.finder"@),
    ensures
        !plan.spec_targets(app),
        !plan.spec_candidate(app),
{
    assert(app_matches(app, builtin_keep()[0]));
}

/// With `--only`, an app that is neither this process, an ancestor nor Finder
/// is quit exactly when some `--only` entry names it: its visible name or its
/// bundle identifier, ignoring ASCII case.
pub proof fn lemma_only_quits_exactly_the_named(plan: Plan, app: App)
    requires
        plan.only@.len() > 0,
        !plan.protects(app),
        !app_matches(app, "com.apple.finder"@),
    ensures
        plan.spec_targets(app) <==> exists|i: int|
            0 <= i < plan.only@.len() && app_matches(app, #[trigger] plan.only@[i]@),
{
    assert(!matches_any(app, builtin_keep())) by {
        if matches_any(app, builtin_keep()) {
            let k = choose|k: int| 0 <= k < builtin_keep().len() && app_matches(app, #[trigger] builtin_keep()[k]);
            assert(k == 0);
        }
    }
    if plan.spec_targets(app) {
        let k = choose|k: int|
            0 <= k < plan.only@.len() && app_matches(app, #[trigger] string_views(plan.only@)[k]);
        assert(string_views(plan.only@)[k] == plan.only@[k]@);
    }
    if exists|i: int| 0 <= i < plan.only@.len() && app_matches(app, #[trigger] plan.only@[i]@) {
        let k = choose|k: int| 0 <= k < plan.only@.len() && app_matches(app, #[trigger] plan.only@[k]@);
        assert(string_views(plan.only@)[k] == plan.only@[k]@);
    }
}

/// With `--only`, an entry that spells an app's visible name with other ASCII
/// letter case (`safari` for `Safari`) still quits it, unless the app is this
/// process, an ancestor or Finder.
pub proof fn lemma_only_ignores_ascii_case(plan: Plan, app: App, i: int)
    requires
        0 <= i < plan.only@.len(),
        !plan.protects(app),
        !app_matches(app, "com.apple.finder"@),
        plan.only@[i]@.len() == app.name@.len(),
        forall|k: int|
            0 <= k < app.name@.len() ==> ascii_lower(#[trigger] plan.only@[i]@[k]) == ascii_lower(
                app.name@[k],
            ),
    ensures
        plan.spec_targets(app),
{
    assert(app_matches(app, plan.only@[i]@));
    lemma_only_quits_exactly_the_named(plan, app);
}

/// An app that a keep entry names is not quit unless `--only` names it.
pub proof fn lemma_kept_apps_stay(plan: Plan, app: App, i: int)
    requires
        plan.only@.len() == 0,
        0 <= i < plan.keep@.len(),
        app_matches(app, plan.keep@[i]@),
    ensures
        !plan.spec_targets(app),
{
    assert(str_views(plan.keep@)[i] == plan.keep@[i]@);
}

/// `r` lists, in increasing order, exactly the indices below `n` that
/// satisfy `pred`.
pub open spec fn is_index_selection(r: Seq<usize>, n: nat, pred: spec_fn(int) -> bool) -> bool {
    &&& forall|k: int| 0 <= k < r.len() ==> (#[trigger] r[k]) < n && pred(r[k] as int)
    &&& forall|j: int, k: int| 0 <= j < k < r.len() ==> (#[trigger] r[j]) < (#[trigger] r[k])
    &&& forall|i: int| 0 <= i < n && #[trigger] pred(i) ==> r.contains(i as usize)
}

/// The positions in `apps` of the apps that `plan` quits, in order.
pub fn select_targets(plan: &Plan, apps: &[App]) -> (r: Vec<usize>)
    ensures
        is_index_selection(r@, apps@.len(), |i: int| plan.spec_targets(apps@[i])),
{
    let ghost pred = |i: int| plan.spec_targets(apps@[i]);
    let mut r: Vec<usize> = Vec::new();
    let mut i: usize = 0;
    while i < apps.len()
        invariant
            i <= apps@.len(),
            pred == (|i: int| plan.spec_targets(apps@[i])),
            forall|k: int| 0 <= k < r@.len() ==> (#[trigger] r@[k]) < i && pred(r@[k] as int),
            forall|j: int, k: int| 0 <= j < k < r@.len() ==> (#[trigger] r@[j]) < (#[trigger] r@[k]),
            forall|m: int| 0 <= m < i && #[trigger] pred(m) ==> r@.contains(m as usize),
        decreases apps@.len() - i,
    {
        if plan.targets(&apps[i]) {
            let ghost before = r@;
            r.push(i);
            proof {
                assert(r@[before.len() as int] == i);
                assert forall|m: int| 0 <= m < i + 1 && #[trigger] pred(m) implies r@.contains(
                    m as usize,
                ) by {
                    if m < i {
                        let k = choose|k: int| 0 <= k < before.len() && before[k] == m as usize;
                        assert(r@[k] == m as usize);
                    }
                }
            }
        }
        i = i + 1;
    }
    r
}

} // verus!
