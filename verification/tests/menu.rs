use std::collections::HashSet;

use nuke::apps::{App, Policy};
use nuke::config::Config;
use nuke::menu::{quit_all_title, Controller};

fn app(pid: i32, name: &str, bundle: Option<&str>, policy: Policy) -> App {
    App {
        pid,
        name: name.to_string(),
        bundle_id: bundle.map(|b| b.to_string()),
        policy,
    }
}

fn running() -> Vec<App> {
    vec![
        app(10, "Mail", Some("com.apple.mail"), Policy::Regular),
        app(11, "Finder", Some("com.apple.finder"), Policy::Regular),
        app(12, "Ghostty", Some("com.mitchellh.ghostty"), Policy::Regular),
        app(13, "Bartender", Some("com.surteesstudios.Bartender"), Policy::Accessory),
        app(14, "Notes", None, Policy::Regular),
        app(15, "cfprefsd", None, Policy::Prohibited),
    ]
}

fn controller(keep: &[&str], include_accessory: bool) -> Controller {
    let cfg = Config {
        keep: keep.iter().map(|k| k.to_string()).collect(),
        timeout: None,
        force_after: None,
        include_accessory,
    };
    let ancestors: HashSet<i32> = [12].into_iter().collect();
    Controller::new(cfg, ancestors, 99)
}

#[test]
fn rebuild_lists_candidates_and_ticks_kept_ones() {
    let mut c = controller(&["notes"], false);
    let view = c.rebuild(running());
    let names: Vec<&str> = view.entries.iter().map(|e| e.name.as_str()).collect();
    assert_eq!(names, ["Mail", "Notes"]);
    let kept: Vec<bool> = view.entries.iter().map(|e| e.kept).collect();
    assert_eq!(kept, [false, true]);
    assert_eq!(view.doomed, 1);
    let sources: Vec<usize> = view.entries.iter().map(|e| e.source).collect();
    assert_eq!(sources, [0, 4]);
    let pids: Vec<i32> = c.apps.iter().map(|a| a.pid).collect();
    assert_eq!(pids, [10, 14]);

    let mut d = controller(&[], true);
    let view = d.rebuild(running());
    let names: Vec<&str> = view.entries.iter().map(|e| e.name.as_str()).collect();
    assert_eq!(names, ["Mail", "Bartender", "Notes"]);
    assert_eq!(view.doomed, 3);
}

#[test]
fn toggle_keep_ticks_and_unticks() {
    let mut c = controller(&["Other"], false);
    c.rebuild(running());
    // Mail is listed first; its key is its bundle id.
    assert!(c.toggle_keep(0));
    assert_eq!(c.keep, ["Other", "com.apple.mail"]);
    let view = c.rebuild(running());
    assert_eq!(view.entries[0].kept, true);
    assert_eq!(view.doomed, 1);
    assert!(c.toggle_keep(0));
    assert_eq!(c.keep, ["Other"]);
    // A stale position changes nothing.
    assert!(!c.toggle_keep(7));
    assert_eq!(c.keep, ["Other"]);
}

#[test]
fn toggle_keep_removes_case_insensitive_match() {
    let mut c = controller(&["COM.APPLE.MAIL", "x"], false);
    c.rebuild(running());
    assert!(c.toggle_keep(0));
    assert_eq!(c.keep, ["x"]);
}

#[test]
fn nuke_quits_the_unticked() {
    let c = controller(&["Notes"], false);
    let apps = running();
    assert_eq!(c.nuke_targets(&apps), vec![0]);
    let all = controller(&[], true);
    assert_eq!(all.nuke_targets(&apps), vec![0, 3, 4]);
}

#[test]
fn quit_all_count_matches_what_quit_all_quits() {
    for (keep, acc) in [(vec![], false), (vec!["Notes"], true), (vec!["mail", "notes"], false)] {
        let mut c = controller(&keep, acc);
        let quits = c.nuke_targets(&running()).len();
        let view = c.rebuild(running());
        assert_eq!(view.doomed, quits);
    }
}

#[test]
fn toggle_accessory_flips() {
    let mut c = controller(&[], false);
    assert!(c.toggle_accessory());
    assert!(c.include_accessory);
    assert!(!c.toggle_accessory());
}

#[test]
fn reload_keeps_last_settings_on_error() {
    let mut c = controller(&["A"], false);
    let err = c.reload(Err("bad".to_string()));
    assert_eq!(err.as_deref(), Some("bad"));
    assert_eq!(c.keep, ["A"]);
    let cfg = Config {
        keep: vec!["B".to_string()],
        timeout: Some(3),
        force_after: None,
        include_accessory: true,
    };
    assert_eq!(c.reload(Ok(cfg)), None);
    assert_eq!(c.keep, ["B"]);
    assert!(c.include_accessory);
}

#[test]
fn menu_plan_carries_keep_list() {
    let c = controller(&["Mail"], false);
    let keep = vec!["Notes".to_string()];
    let p = c.plan(&keep);
    assert_eq!(p.keep, ["Notes"]);
    assert!(p.only.is_empty());
    assert!(!p.targets(&app(14, "Notes", None, Policy::Regular)));
    assert!(p.targets(&app(10, "Mail", None, Policy::Regular)));
}

#[test]
fn quit_all_title_counts() {
    assert_eq!(quit_all_title(0), "Quit All (0)");
    assert_eq!(quit_all_title(12), "Quit All (12)");
}
