use std::collections::HashSet;

use nuke::apps::{App, Policy};
use nuke::plan::{select_targets, Plan, BUILTIN_KEEP};

fn app(pid: i32, name: &str, bundle: Option<&str>, policy: Policy) -> App {
    App {
        pid,
        name: name.to_string(),
        bundle_id: bundle.map(|b| b.to_string()),
        policy,
    }
}

fn plan<'a>(
    keep: Vec<&'a str>,
    only: &'a [String],
    include_accessory: bool,
    ancestors: &'a HashSet<i32>,
) -> Plan<'a> {
    Plan {
        keep,
        only,
        include_accessory,
        ancestors,
        self_pid: 99,
    }
}

#[test]
fn default_plan_quits_dock_apps_only() {
    let anc = HashSet::new();
    let p = plan(vec![], &[], false, &anc);
    assert!(p.targets(&app(10, "Mail", Some("com.apple.mail"), Policy::Regular)));
    assert!(!p.targets(&app(11, "Bartender", None, Policy::Accessory)));
    assert!(!p.targets(&app(12, "launchd helper", None, Policy::Prohibited)));
    let q = plan(vec![], &[], true, &anc);
    assert!(q.targets(&app(11, "Bartender", None, Policy::Accessory)));
    assert!(!q.targets(&app(12, "launchd helper", None, Policy::Prohibited)));
}

#[test]
fn self_and_ancestors_are_never_targets() {
    let anc: HashSet<i32> = [500, 501].into_iter().collect();
    let only = vec!["Ghostty".to_string(), "nuke".to_string()];
    let p = plan(vec![], &only, true, &anc);
    assert!(!p.targets(&app(500, "Ghostty", None, Policy::Regular)));
    assert!(!p.targets(&app(99, "nuke", None, Policy::Regular)));
    let q = plan(vec![], &[], true, &anc);
    assert!(!q.targets(&app(501, "Terminal", None, Policy::Regular)));
    assert!(!q.candidate(&app(501, "Terminal", None, Policy::Regular)));
    assert!(!q.candidate(&app(99, "nuke", None, Policy::Regular)));
}

#[test]
fn finder_and_keep_list_are_protected() {
    let anc = HashSet::new();
    let p = plan(vec!["1password", "COM.GOOGLE.CHROME"], &[], false, &anc);
    let finder = app(20, "Finder", Some(BUILTIN_KEEP[0]), Policy::Regular);
    assert!(!p.targets(&finder));
    assert!(!p.candidate(&finder));
    assert!(!p.targets(&app(21, "1Password", None, Policy::Regular)));
    assert!(p.candidate(&app(21, "1Password", None, Policy::Regular)));
    assert!(!p.targets(&app(22, "Chrome", Some("com.google.Chrome"), Policy::Regular)));
    assert!(p.targets(&app(23, "Slack", Some("com.tinyspeck.slackmacgap"), Policy::Regular)));
}

#[test]
fn only_overrides_keep_and_policy() {
    let anc = HashSet::new();
    let only = vec!["finder".to_string(), "Agent".to_string()];
    let p = plan(vec!["Finder", "Agent"], &only, false, &anc);
    // Finder stays protected even when `--only` names it.
    assert!(!p.targets(&app(20, "Finder", Some(BUILTIN_KEEP[0]), Policy::Regular)));
    assert!(p.targets(&app(30, "Agent", None, Policy::Prohibited)));
    assert!(!p.targets(&app(31, "Mail", None, Policy::Regular)));
}

#[test]
fn select_targets_lists_positions_in_order() {
    let anc = HashSet::new();
    let p = plan(vec!["Notes"], &[], false, &anc);
    let apps = vec![
        app(1, "Mail", None, Policy::Regular),
        app(2, "Notes", None, Policy::Regular),
        app(3, "Bartender", None, Policy::Accessory),
        app(4, "Safari", None, Policy::Regular),
    ];
    assert_eq!(select_targets(&p, &apps), vec![0, 3]);
    assert_eq!(select_targets(&p, &[]), Vec::<usize>::new());
}
