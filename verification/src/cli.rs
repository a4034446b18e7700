//! The decisions and the text of the command-line tool: which plan the flags
//! and config make, how long to wait, what to print, how to exit.
use std::collections::HashSet;

use vstd::prelude::*;

use crate::apps::{app_matches, policy_label, App, Policy};
use crate::config::Config;
use crate::plan::{is_index_selection, str_views, string_views, Plan};
use crate::text::{
    chars_of, decimal, digits, pad_left, pad_right, push_decimal, push_digits, push_padded_left,
    push_padded_right, push_str, str_eq,
};

verus! {

// ---------------------------------------------------------------------------
// The plan
// ---------------------------------------------------------------------------

/// The keep list of a run: the config's `keep` followed by `--except`.
pub fn merged_keep<'a>(cfg_keep: &'a [String], except: &'a [String]) -> (r: Vec<&'a str>)
    ensures
        str_views(r@) == string_views(cfg_keep@) + string_views(except@),
{
    let mut r: Vec<&'a str> = Vec::new();
    let mut i: usize = 0;
    while i < cfg_keep.len()
        invariant
            i <= cfg_keep@.len(),
            str_views(r@) == string_views(cfg_keep@.take(i as int)),
        decreases cfg_keep@.len() - i,
    {
        r.push(cfg_keep[i].as_str());
        assert(string_views(cfg_keep@.take(i + 1)) =~= string_views(cfg_keep@.take(i as int)).push(
            cfg_keep@[i as int]@,
        ));
        assert(str_views(r@) =~= str_views(r@.drop_last()).push(r@.last()@));
        i = i + 1;
    }
    assert(cfg_keep@.take(cfg_keep@.len() as int) =~= cfg_keep@);
    let mut j: usize = 0;
    while j < except.len()
        invariant
            j <= except@.len(),
            str_views(r@) == string_views(cfg_keep@) + string_views(except@.take(j as int)),
        decreases except@.len() - j,
    {
        r.push(except[j].as_str());
        assert(string_views(except@.take(j + 1)) =~= string_views(except@.take(j as int)).push(
            except@[j as int]@,
        ));
        assert(string_views(cfg_keep@) + string_views(except@.take(j + 1)) =~= (string_views(
            cfg_keep@,
        ) + string_views(except@.take(j as int))).push(except@[j as int]@));
        assert(str_views(r@) =~= str_views(r@.drop_last()).push(r@.last()@));
        j = j + 1;
    }
    assert(except@.take(except@.len() as int) =~= except@);
    r
}

/// The plan of a command-line run: keep what the config and `--except` name,
/// quit only what `--only` names (when it names anything), include menu-bar
/// apps when the flag or the config asks for it.
pub fn cli_plan<'a>(
    cfg: &'a Config,
    except: &'a [String],
    only: &'a [String],
    include_accessory: bool,
    ancestors: &'a HashSet<i32>,
    self_pid: i32,
) -> (p: Plan<'a>)
    ensures
        str_views(p.keep@) == string_views(cfg.keep@) + string_views(except@),
        p.only@ == only@,
        p.include_accessory == (include_accessory || cfg.include_accessory),
        p.ancestors@ == ancestors@,
        p.self_pid == self_pid,
{
    Plan {
        keep: merged_keep(cfg.keep.as_slice(), except),
        only,
        include_accessory: include_accessory || cfg.include_accessory,
        ancestors,
        self_pid,
    }
}

/// Some app of `apps` is named by `needle`.
pub open spec fn running_match(apps: Seq<App>, needle: Seq<char>) -> bool {
    exists|i: int| 0 <= i < apps.len() && app_matches(#[trigger] apps[i], needle)
}

/// The positions in `only` of the names that match no running app, in order.
pub fn missing_only(only: &[String], apps: &[App]) -> (r: Vec<usize>)
    ensures
        is_index_selection(r@, only@.len(), |k: int| !running_match(apps@, only@[k]@)),
{
    let ghost pred = |k: int| !running_match(apps@, only@[k]@);
    let mut r: Vec<usize> = Vec::new();
    let mut k: usize = 0;
    while k < only.len()
        invariant
            k <= only@.len(),
            pred == (|k: int| !running_match(apps@, only@[k]@)),
            forall|m: int| 0 <= m < r@.len() ==> (#[trigger] r@[m]) < k && pred(r@[m] as int),
            forall|j: int, m: int| 0 <= j < m < r@.len() ==> (#[trigger] r@[j]) < (#[trigger] r@[m]),
            forall|m: int| 0 <= m < k && #[trigger] pred(m) ==> r@.contains(m as usize),
        decreases only@.len() - k,
    {
        let mut found = false;
        let mut i: usize = 0;
        while i < apps.len()
            invariant
                i <= apps@.len(),
                k < only@.len(),
                found ==> running_match(apps@, only@[k as int]@),
                !found ==> forall|j: int| 0 <= j < i ==> !app_matches(#[trigger] apps@[j], only@[k as int]@),
            decreases apps@.len() - i,
        {
            if apps[i].matches(only[k].as_str()) {
                found = true;
            }
            i = i + 1;
        }
        if !found {
            let ghost before = r@;
            r.push(k);
            proof {
                assert(r@[before.len() as int] == k);
                assert forall|m: int| 0 <= m < k + 1 && #[trigger] pred(m) implies r@.contains(
                    m as usize,
                ) by {
                    if m < k {
                        let j = choose|j: int| 0 <= j < before.len() && before[j] == m as usize;
                        assert(r@[j] == m as usize);
                    }
                }
            }
        }
        k = k + 1;
    }
    r
}

// ---------------------------------------------------------------------------
// Waiting and exiting
// ---------------------------------------------------------------------------

/// How long a run waits for apps to exit.
pub struct Waits {
    /// Seconds to wait for apps to exit before reporting them.
    pub timeout: u64,
    /// Seconds after which apps still running are force-quit, if set.
    pub force_after: Option<u64>,
    /// Seconds of the first wait: `force_after` when set, else `timeout`.
    pub wait: u64,
}

/// The waits of a run: flags win over the config; the timeout defaults to
/// five seconds.
pub fn waits(
    cli_timeout: Option<u64>,
    cfg_timeout: Option<u64>,
    cli_force_after: Option<u64>,
    cfg_force_after: Option<u64>,
) -> (w: Waits)
    ensures
        w.timeout == (match (cli_timeout, cfg_timeout) {
            (Some(t), _) => t,
            (None, Some(t)) => t,
            (None, None) => 5,
        }),
        w.force_after == (match cli_force_after {
            Some(f) => Some(f),
            None => cfg_force_after,
        }),
        w.wait == (match w.force_after {
            Some(f) => f,
            None => w.timeout,
        }),
{
    let timeout = match cli_timeout {
        Some(t) => t,
        None => match cfg_timeout {
            Some(t) => t,
            None => 5,
        },
    };
    let force_after = match cli_force_after {
        Some(f) => Some(f),
        None => cfg_force_after,
    };
    let wait = match force_after {
        Some(f) => f,
        None => timeout,
    };
    Waits { timeout, force_after, wait }
}

/// Whether the apps still running after the first wait are force-quit: only
/// when `force_after` is set and the run did not force-quit from the start.
pub fn escalate(still_running: usize, force_after: Option<u64>, force: bool) -> (r: bool)
    ensures
        r == (still_running > 0 && force_after is Some && !force),
{
    still_running > 0 && force_after.is_some() && !force
}

/// The exit status: 0 when everything quit, 1 otherwise.
pub fn exit_status(failed: usize) -> (code: u8)
    ensures
        code == (if failed == 0 {
            0u8
        } else {
            1u8
        }),
{
    if failed == 0 {
        0
    } else {
        1
    }
}

/// Some component of `components` is `name`.
pub open spec fn has_component(components: Seq<String>, name: Seq<char>) -> bool {
    exists|i: int| 0 <= i < components.len() && (#[trigger] components[i])@ == name
}

/// Whether the run started as a double-clicked app bundle: no arguments, and
/// an executable path with a `MacOS` component (`None` when the path is
/// unknown).
pub fn launched_from_bundle(arg_count: usize, exe_components: Option<Vec<String>>) -> (r: bool)
    ensures
        r == (arg_count == 1 && match exe_components {
            Some(c) => has_component(c@, "MacOS"@),
            None => false,
        }),
{
    if arg_count != 1 {
        return false;
    }
    match &exe_components {
        None => false,
        Some(c) => {
            let mut i: usize = 0;
            while i < c.len()
                invariant
                    i <= c@.len(),
                    arg_count == 1,
                    exe_components == Some(*c),
                    forall|j: int| 0 <= j < i ==> (#[trigger] c@[j])@ != "MacOS"@,
                decreases c@.len() - i,
            {
                if str_eq(c[i].as_str(), "MacOS") {
                    assert(has_component(c@, "MacOS"@));
                    return true;
                }
                i = i + 1;
            }
            false
        },
    }
}

// ---------------------------------------------------------------------------
// Messages
// ---------------------------------------------------------------------------

/// The warning for a name given to `--only` that no running app has.
pub open spec fn not_running_message(name: Seq<char>) -> Seq<char> {
    "nuke: "@ + name + ": not running"@
}

/// The warning for a name given to `--only` that no running app has.
pub fn not_running(name: &str) -> (r: String)
    ensures
        r@ == not_running_message(name@),
{
    let mut r = String::new();
    push_str(&mut r, "nuke: ");
    push_str(&mut r, name);
    push_str(&mut r, ": not running");
    assert(r@ =~= not_running_message(name@));
    r
}

/// How an app is named in messages: `Name (bundle.id, pid N)`, or
/// `Name (pid N)` without a bundle identifier.
pub open spec fn description(app: App) -> Seq<char> {
    match app.bundle_id {
        Some(id) => app.name@ + " ("@ + id@ + ", pid "@ + decimal(app.pid as int) + ")"@,
        None => app.name@ + " (pid "@ + decimal(app.pid as int) + ")"@,
    }
}

/// How an app is named in messages.
pub fn describe(app: &App) -> (r: String)
    ensures
        r@ == description(*app),
{
    let mut r = String::new();
    push_str(&mut r, app.name.as_str());
    match &app.bundle_id {
        Some(id) => {
            push_str(&mut r, " (");
            push_str(&mut r, id.as_str());
            push_str(&mut r, ", pid ");
        },
        None => {
            push_str(&mut r, " (pid ");
        },
    }
    push_decimal(&mut r, app.pid as i64);
    push_str(&mut r, ")");
    assert(r@ =~= description(*app));
    r
}

/// The line announcing that an app is being quit.
pub open spec fn announcement(force: bool, app: App) -> Seq<char> {
    (if force {
        "Force quitting"@
    } else {
        "Quitting"@
    }) + " "@ + description(app)
}

/// The line announcing that an app is being quit (or force-quit).
pub fn announce(force: bool, app: &App) -> (r: String)
    ensures
        r@ == announcement(force, *app),
{
    let mut r = String::new();
    if force {
        push_str(&mut r, "Force quitting");
    } else {
        push_str(&mut r, "Quitting");
    }
    push_str(&mut r, " ");
    let d = describe(app);
    push_str(&mut r, d.as_str());
    assert(r@ =~= announcement(force, *app));
    r
}

/// The line announcing that an app still running after `wait` seconds is
/// force-quit.
pub open spec fn escalation_notice(app: App, wait: u64) -> Seq<char> {
    "Force quitting "@ + description(app) + " (still running after "@ + digits(wait as nat) + "s)"@
}

/// The line announcing that an app still running after `wait` seconds is
/// force-quit.
pub fn escalation(app: &App, wait: u64) -> (r: String)
    ensures
        r@ == escalation_notice(*app, wait),
{
    let mut r = String::new();
    push_str(&mut r, "Force quitting ");
    let d = describe(app);
    push_str(&mut r, d.as_str());
    push_str(&mut r, " (still running after ");
    push_digits(&mut r, wait);
    push_str(&mut r, "s)");
    assert(r@ =~= escalation_notice(*app, wait));
    r
}

/// The closing line: `Quit Q of N app(s).`
pub open spec fn summary_line(quit: u64, total: u64) -> Seq<char> {
    "Quit "@ + digits(quit as nat) + " of "@ + digits(total as nat) + (if total == 1 {
        " app."@
    } else {
        " apps."@
    })
}

/// The closing line of a run that sent quits to `sent` of `total` targets,
/// `still_running` of which are still running.
pub fn summary(sent: u64, still_running: u64, total: u64) -> (r: String)
    requires
        still_running <= sent,
    ensures
        r@ == summary_line((sent - still_running) as u64, total),
{
    let mut r = String::new();
    push_str(&mut r, "Quit ");
    push_digits(&mut r, sent - still_running);
    push_str(&mut r, " of ");
    push_digits(&mut r, total);
    if total == 1 {
        push_str(&mut r, " app.");
    } else {
        push_str(&mut r, " apps.");
    }
    assert(r@ =~= summary_line((sent - still_running) as u64, total));
    r
}

// ---------------------------------------------------------------------------
// The app list
// ---------------------------------------------------------------------------

/// The width of the name column: the longest name, in characters.
pub open spec fn name_width(apps: Seq<App>) -> nat
    decreases apps.len(),
{
    if apps.len() == 0 {
        0
    } else {
        let w = name_width(apps.drop_last());
        let l = apps.last().name@.len();
        if l > w {
            l
        } else {
            w
        }
    }
}

/// The name column is as wide as the longest name: no name is longer, and
/// some name is exactly that long (none when there are no apps).
pub proof fn lemma_name_width_is_longest(apps: Seq<App>)
    ensures
        forall|i: int| 0 <= i < apps.len() ==> (#[trigger] apps[i]).name@.len() <= name_width(apps),
        apps.len() > 0 ==> exists|i: int|
            0 <= i < apps.len() && (#[trigger] apps[i]).name@.len() == name_width(apps),
        apps.len() == 0 ==> name_width(apps) == 0,
    decreases apps.len(),
{
    if apps.len() > 0 {
        let init = apps.drop_last();
        lemma_name_width_is_longest(init);
        assert forall|i: int| 0 <= i < apps.len() implies (#[trigger] apps[i]).name@.len()
            <= name_width(apps) by {
            if i < init.len() {
                assert(apps[i] == init[i]);
            }
        }
        let last = apps.len() - 1;
        if apps[last].name@.len() == name_width(apps) {
            assert(apps[last].name@.len() == name_width(apps));
        } else {
            let k = choose|k: int|
                0 <= k < init.len() && (#[trigger] init[k]).name@.len() == name_width(init);
            assert(apps[k] == init[k]);
        }
    }
}

/// Every line of the list starts with its app's name padded to the same
/// width, the longest name's, so the columns after it line up: the kind
/// column starts at that width plus two in every line.
pub proof fn lemma_list_columns_align(apps: Seq<App>, i: int, host: bool)
    requires
        0 <= i < apps.len(),
    ensures
        pad_right(apps[i].name@, name_width(apps)).len() == name_width(apps),
        list_line(apps[i], name_width(apps), host).subrange(0, name_width(apps) as int)
            == pad_right(apps[i].name@, name_width(apps)),
        list_line(apps[i], name_width(apps), host).subrange(
            name_width(apps) as int,
            name_width(apps) + 2int,
        ) == "  "@,
{
    lemma_name_width_is_longest(apps);
    let w = name_width(apps);
    let padded = pad_right(apps[i].name@, w);
    assert(apps[i].name@.len() <= w);
    assert(padded.len() == w);
    reveal_strlit("  ");
    let line = list_line(apps[i], w, host);
    let rest = "  "@ + pad_right(policy_label(apps[i].policy), 9) + "  "@ + pad_left(
        decimal(apps[i].pid as int),
        6,
    ) + "  "@ + (match apps[i].bundle_id {
        Some(b) => b@,
        None => "-"@,
    }) + host_note(host);
    assert(line =~= padded + rest);
    assert(line.subrange(0, w as int) =~= padded);
    assert(line.subrange(w as int, w + 2int) =~= "  "@);
}

/// The note after a protected host app.
pub open spec fn host_note(host: bool) -> Seq<char> {
    if host {
        "  (host terminal, protected)"@
    } else {
        Seq::empty()
    }
}

/// One line of the app list: name, kind, pid and bundle id in columns.
pub open spec fn list_line(app: App, width: nat, host: bool) -> Seq<char> {
    pad_right(app.name@, width) + "  "@ + pad_right(policy_label(app.policy), 9) + "  "@
        + pad_left(decimal(app.pid as int), 6) + "  "@ + (match app.bundle_id {
        Some(b) => b@,
        None => "-"@,
    }) + host_note(host)
}

/// The apps that the list shows: all but the background ones.
pub open spec fn listable(app: App) -> bool {
    app.policy != Policy::Prohibited
}

fn name_width_of(apps: &[App]) -> (w: usize)
    ensures
        w == name_width(apps@),
{
    let mut w: usize = 0;
    let mut i: usize = 0;
    while i < apps.len()
        invariant
            i <= apps@.len(),
            w == name_width(apps@.take(i as int)),
        decreases apps@.len() - i,
    {
        assert(apps@.take(i + 1).drop_last() =~= apps@.take(i as int));
        let l = chars_of(apps[i].name.as_str()).len();
        if l > w {
            w = l;
        }
        i = i + 1;
    }
    assert(apps@.take(apps@.len() as int) =~= apps@);
    w
}

fn list_line_of(app: &App, width: usize, host: bool) -> (r: String)
    ensures
        r@ == list_line(*app, width as nat, host),
{
    let mut r = String::new();
    let name = chars_of(app.name.as_str());
    push_padded_right(&mut r, name.as_slice(), width);
    push_str(&mut r, "  ");
    let label = chars_of(app.policy.label());
    push_padded_right(&mut r, label.as_slice(), 9);
    push_str(&mut r, "  ");
    let mut pid = String::new();
    push_decimal(&mut pid, app.pid as i64);
    let pid_chars = chars_of(pid.as_str());
    push_padded_left(&mut r, pid_chars.as_slice(), 6);
    push_str(&mut r, "  ");
    match &app.bundle_id {
        Some(b) => push_str(&mut r, b.as_str()),
        None => push_str(&mut r, "-"),
    }
    if host {
        push_str(&mut r, "  (host terminal, protected)");
    }
    assert(r@ =~= list_line(*app, width as nat, host));
    r
}

/// The lines of `nuke --list`: every app but the background ones, in order,
/// with the name column as wide as the longest name, and a note after the
/// terminal (or other ancestor) that is protected.
pub fn list_lines(all: &[App], ancestors: &HashSet<i32>) -> (r: Vec<String>)
    ensures
        string_views(r@) == all@.filter(|a: App| listable(a)).map_values(
            |a: App| list_line(a, name_width(all@), ancestors@.contains(a.pid)),
        ),
{
    let width = name_width_of(all);
    let ghost f = |a: App| list_line(a, name_width(all@), ancestors@.contains(a.pid));
    let ghost keep = |a: App| listable(a);
    let mut r: Vec<String> = Vec::new();
    let mut i: usize = 0;
    while i < all.len()
        invariant
            i <= all@.len(),
            width == name_width(all@),
            f == (|a: App| list_line(a, name_width(all@), ancestors@.contains(a.pid))),
            keep == (|a: App| listable(a)),
            string_views(r@) == all@.take(i as int).filter(keep).map_values(f),
        decreases all@.len() - i,
    {
        assert(all@.take(i + 1).drop_last() =~= all@.take(i as int));
        assert(all@.take(i + 1).last() == all@[i as int]);
        reveal_with_fuel(Seq::filter, 1);
        let app = &all[i];
        let is_listed = match app.policy {
            Policy::Prohibited => false,
            _ => true,
        };
        if is_listed {
            let host = ancestors.contains(&app.pid);
            let line = list_line_of(app, width, host);
            let ghost before = r@;
            r.push(line);
            assert(string_views(r@) =~= string_views(before).push(f(all@[i as int])));
            assert(all@.take(i + 1).filter(keep) =~= all@.take(i as int).filter(keep).push(
                all@[i as int],
            ));
            assert(all@.take(i + 1).filter(keep).map_values(f) =~= all@.take(i as int).filter(
                keep,
            ).map_values(f).push(f(all@[i as int])));
        } else {
            assert(all@.take(i + 1).filter(keep) =~= all@.take(i as int).filter(keep));
        }
        i = i + 1;
    }
    assert(all@.take(all@.len() as int) =~= all@);
    r
}

} // verus!
